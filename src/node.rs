//! Device-node ids: the minor number at the end of a render or card node path.
use vstd::prelude::*;

verus! {

/// Path prefix of a GPU's render node; the id follows it.
pub const RENDER_NODE_PREFIX: &'static str = "/dev/dri/renderD";

/// Path prefix of a GPU's card node; the id follows it.
pub const CARD_NODE_PREFIX: &'static str = "/dev/dri/card";

/// What remains of `s` after `prefix`, if `s` starts with it.
pub open spec fn strip_prefix_of(s: Seq<char>, prefix: Seq<char>) -> Option<Seq<char>> {
    if prefix.len() <= s.len() && s.subrange(0, prefix.len() as int) == prefix {
        Some(s.subrange(prefix.len() as int, s.len() as int))
    } else {
        None
    }
}

pub open spec fn is_decimal_digit(c: char) -> bool {
    '0' <= c && c <= '9'
}

/// The number that a string of decimal digits writes, most significant first.
pub open spec fn decimal_value(s: Seq<char>) -> nat
    decreases s.len(),
{
    if s.len() == 0 {
        0
    } else {
        (decimal_value(s.drop_last()) * 10 + ((s.last() as u32) as int - ('0' as u32) as int)) as nat
    }
}

/// The digits of a decimal number, after an optional leading `+`.
pub open spec fn unsigned_digits(s: Seq<char>) -> Seq<char> {
    if s.len() > 0 && s[0] == '+' {
        s.drop_first()
    } else {
        s
    }
}

/// A `u32` written in decimal: an optional `+`, then one or more digits whose
/// value fits in 32 bits.
pub open spec fn parse_u32_of(s: Seq<char>) -> Option<u32> {
    let d = unsigned_digits(s);
    if d.len() > 0 && (forall|i: int| 0 <= i < d.len() ==> is_decimal_digit(#[trigger] d[i]))
        && decimal_value(d) <= u32::MAX as nat {
        Some(decimal_value(d) as u32)
    } else {
        None
    }
}

/// The id that a node path gives under `prefix`: the decimal number that
/// follows the prefix, if the path starts with it and the rest is one.
pub open spec fn node_id_of(path: Seq<char>, prefix: Seq<char>) -> Option<u32> {
    match strip_prefix_of(path, prefix) {
        Some(rest) => parse_u32_of(rest),
        None => None,
    }
}

/// Relies on str::strip_prefix: the rest of `s` after `prefix`, if `s` starts
/// with it.
#[verifier::external_body]
fn strip_prefix<'a>(s: &'a str, prefix: &str) -> (r: Option<&'a str>)
    ensures
        r is Some <==> strip_prefix_of(s@, prefix@) is Some,
        r is Some ==> r->0@ == strip_prefix_of(s@, prefix@)->0,
{
    s.strip_prefix(prefix)
}

/// Relies on `<u32 as FromStr>::from_str`: an optional `+` and decimal digits
/// that fit in 32 bits, nothing else.
#[verifier::external_body]
fn parse_u32(s: &str) -> (r: Option<u32>)
    ensures
        r == parse_u32_of(s@),
{
    s.parse::<u32>().ok()
}

/// The device id in a node path such as `/dev/dri/renderD128`, read after
/// `prefix`.
pub fn parse_node_id(node_path: &str, prefix: &str) -> (r: Option<u32>)
    ensures
        r == node_id_of(node_path@, prefix@),
{
    match strip_prefix(node_path, prefix) {
        Some(id_str) => parse_u32(id_str),
        None => None,
    }
}

} // verus!
