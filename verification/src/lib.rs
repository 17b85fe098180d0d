//! A small verified web service core: it decodes a form-encoded request body,
//! validates the `n` parameters as unsigned 64-bit integers, reduces them to
//! their greatest common divisor, and renders the reply. A few self-contained
//! verified data types and generic helpers round the crate out.

pub mod characters;
pub mod error;
pub mod form;
pub mod gcd;
pub mod handler;
pub mod jokenpo;
pub mod numbers;
pub mod pair;
pub mod response;
pub mod summary;
pub mod text;
pub mod tree;
