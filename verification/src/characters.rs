//! Fantasy character kinds and the traits they share: a constitution
//! bonus with a default of zero, and a marker for the kinds that speak
//! Elvish.

use vstd::prelude::*;

verus! {

pub struct Dwarf {
    pub name: String,
}

pub struct Elf {
    pub name: String,
}

pub struct HalfOrc {
    pub name: String,
}

pub struct Human {
    pub name: String,
}

pub struct HalfElf {
    pub name: String,
}

/// A constitution bonus; kinds without a bonus of their own get zero.
pub trait Constitution {
    fn constitution_bonus(&self) -> u8 {
        0
    }
}

impl Constitution for Dwarf {
    fn constitution_bonus(&self) -> u8 {
        2
    }
}

impl Constitution for HalfOrc {
    fn constitution_bonus(&self) -> u8 {
        1
    }
}

impl Constitution for Human {

}

impl Constitution for Elf {

}

/// The kinds that speak Elvish.
pub trait Elvish {

}

impl Elvish for Elf {

}

impl Elvish for HalfElf {

}

} // verus!
