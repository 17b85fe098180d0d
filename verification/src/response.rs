//! The response builder: every outcome of the pipeline is mapped to a
//! status code and a text body. Success is 200; every validation
//! failure is 400 with a message naming what went wrong; no outcome
//! maps to a server-side 5xx status.

use vstd::prelude::*;

verus! {

use vstd::string::StringExecFns;
use crate::error::ApiError;
use crate::text::push_char;

/// One wire reply: a status code and a text body.
pub struct Response {
    pub status: u16,
    pub body: String,
}

/// The decimal digit character for `d`.
pub open spec fn dec_digit(d: nat) -> char
    recommends
        d < 10,
{
    (('0' as int + d) as u8) as char
}

/// The base-ten rendering of `n`, most significant digit first.
pub open spec fn dec_rep(n: nat) -> Seq<char>
    decreases n,
{
    if n < 10 {
        seq![dec_digit(n)]
    } else {
        dec_rep(n / 10).push(dec_digit(n % 10))
    }
}

/// The rendered number list: each value in base ten, in order,
/// separated by a comma and a space.
pub open spec fn dec_list(ns: Seq<u64>) -> Seq<char>
    decreases ns.len(),
{
    if ns.len() == 0 {
        Seq::empty()
    } else if ns.len() == 1 {
        dec_rep(ns[0] as nat)
    } else {
        dec_list(ns.drop_last()) + seq![',', ' '] + dec_rep(ns.last() as nat)
    }
}

/// The reply body for a successful reduction.
pub open spec fn success_body(ns: Seq<u64>, d: nat) -> Seq<char> {
    "The greatest common divisor of the numbers ["@ + dec_list(ns) + "] is "@ + dec_rep(d)
}

/// The reply body for a body that does not decode as a form.
pub open spec fn decode_error_msg() -> Seq<char> {
    "could not decode the form data"@
}

/// The reply body for a request without the `n` parameter.
pub open spec fn missing_msg() -> Seq<char> {
    "form data has no 'n' parameter"@
}

/// The opening of the reply body that echoes an invalid raw value.
pub open spec fn invalid_prefix() -> Seq<char> {
    "Value for 'n' is not a number: "@
}

/// The reply body for an `n` parameter with no values at all.
pub open spec fn empty_msg() -> Seq<char> {
    "no numbers were supplied for 'n'"@
}

/// The reply body for each validation failure.
pub open spec fn error_body(e: ApiError) -> Seq<char> {
    match e {
        ApiError::DecodeError => decode_error_msg(),
        ApiError::MissingParameter => missing_msg(),
        ApiError::InvalidNumber(raw) => invalid_prefix() + raw@,
        ApiError::EmptyList => empty_msg(),
    }
}

/// Render `n` in base ten.
pub fn to_decimal(n: u64) -> (r: String)
    ensures
        r@ == dec_rep(n as nat),
    decreases n,
{
    if n < 10 {
        let mut s = String::new();
        push_char(&mut s, (('0' as u8) + (n as u8)) as char);
        proof {
            assert(s@ =~= seq![dec_digit(n as nat)]);
        }
        s
    } else {
        let mut s = to_decimal(n / 10);
        push_char(&mut s, (('0' as u8) + ((n % 10) as u8)) as char);
        s
    }
}

/// Render the comma-separated number list.
fn render_list(ns: &Vec<u64>) -> (r: String)
    ensures
        r@ == dec_list(ns@),
{
    let mut s = String::new();
    let mut i: usize = 0;
    while i < ns.len()
        invariant
            i <= ns.len(),
            s@ == dec_list(ns@.take(i as int)),
        decreases ns.len() - i,
    {
        if i > 0 {
            s.append(", ");
        }
        let d = to_decimal(ns[i]);
        s.append(d.as_str());
        proof {
            reveal_strlit(", ");
            assert(", "@ =~= seq![',', ' ']);
            assert(ns@.take(i + 1).drop_last() =~= ns@.take(i as int));
            assert(ns@.take(i + 1).last() == ns@[i as int]);
            if i == 0 {
                assert(s@ =~= dec_list(ns@.take(1)));
            } else {
                assert(s@ =~= dec_list(ns@.take(i + 1)));
            }
        }
        i = i + 1;
    }
    proof {
        assert(ns@.take(ns@.len() as int) =~= ns@);
    }
    s
}

/// Build the 200 reply for a successful reduction over `numbers`.
pub fn success_response(numbers: &Vec<u64>, d: u64) -> (r: Response)
    ensures
        r.status == 200,
        r.body@ == success_body(numbers@, d as nat),
{
    let mut body = String::from_str("The greatest common divisor of the numbers [");
    let list = render_list(numbers);
    body.append(list.as_str());
    body.append("] is ");
    let dec = to_decimal(d);
    body.append(dec.as_str());
    proof {
        assert(body@ =~= success_body(numbers@, d as nat));
    }
    Response { status: 200, body }
}

/// Build the 400 reply for a validation failure.
pub fn error_response(e: &ApiError) -> (r: Response)
    ensures
        r.status == 400,
        r.body@ == error_body(*e),
{
    let body = match e {
        ApiError::DecodeError => String::from_str("could not decode the form data"),
        ApiError::MissingParameter => String::from_str("form data has no 'n' parameter"),
        ApiError::InvalidNumber(raw) => {
            let mut b = String::from_str("Value for 'n' is not a number: ");
            b.append(raw.as_str());
            b
        },
        ApiError::EmptyList => String::from_str("no numbers were supplied for 'n'"),
    };
    Response { status: 400, body }
}

} // verus!
