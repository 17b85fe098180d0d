//! The two handlers of the service: the static form page, and the
//! pipeline for a reduction request — decode the body, validate the
//! `n` values, reduce them to their gcd, and render the reply. Each
//! stage can short-circuit to its own 400 reply.

use vstd::prelude::*;

verus! {

use vstd::string::StringExecFns;
use crate::form::group_pairs;
use crate::form::lookup;
use crate::form::parse_form;
use crate::form::parse_form_spec;
use crate::gcd::gcd_reduce;
use crate::gcd::gcd_seq;
use crate::numbers::first_invalid;
use crate::numbers::numbers_of;
use crate::numbers::validate_numbers;
use crate::response::Response;
use crate::response::decode_error_msg;
use crate::response::empty_msg;
use crate::response::error_response;
use crate::response::invalid_prefix;
use crate::response::missing_msg;
use crate::response::success_body;
use crate::response::success_response;

/// The status and body the service owes for a given request body: the
/// first failing stage decides, and a fully valid request is answered
/// with the gcd of its numbers.
pub open spec fn gcd_reply(s: Seq<char>) -> (int, Seq<char>) {
    match parse_form_spec(s) {
        Option::None => (400, decode_error_msg()),
        Option::Some(ps) => {
            let gs = group_pairs(ps);
            match lookup(gs, "n"@) {
                Option::None => (400, missing_msg()),
                Option::Some(vs) => {
                    if first_invalid(vs) < vs.len() {
                        (400, invalid_prefix() + vs[first_invalid(vs)])
                    } else if vs.len() == 0 {
                        (400, empty_msg())
                    } else {
                        (200, success_body(numbers_of(vs), gcd_seq(numbers_of(vs))))
                    }
                },
            }
        },
    }
}

/// Answer a reduction request, as `gcd_reply` describes.
pub fn handle_gcd(body: &str) -> (r: Response)
    ensures
        r.status == gcd_reply(body@).0,
        r.body@ == gcd_reply(body@).1,
{
    let form = match parse_form(body) {
        Ok(f) => f,
        Err(e) => {
            return error_response(&e);
        },
    };
    let numbers = match validate_numbers(&form, "n") {
        Ok(ns) => ns,
        Err(e) => {
            return error_response(&e);
        },
    };
    let d = gcd_reduce(&numbers);
    success_response(&numbers, d)
}

/// The static page with the input form.
pub open spec fn form_page() -> Seq<char> {
    r#"
    <title>GCD Calculator</title>
    <form action="/gcd" method="post">
      <input type="text" name="n"/>
      <input type="text" name="n"/>
      <button type="submit">Compute GCD</button>
    </form>
  "#@
}

/// Serve the static input form.
pub fn get_form() -> (r: Response)
    ensures
        r.status == 200,
        r.body@ == form_page(),
{
    let body = String::from_str(
        r#"
    <title>GCD Calculator</title>
    <form action="/gcd" method="post">
      <input type="text" name="n"/>
      <input type="text" name="n"/>
      <button type="submit">Compute GCD</button>
    </form>
  "#,
    );
    Response { status: 200, body }
}

} // verus!
