//! The calls this library makes into the `uuid` and `rand` crates and into
//! std's integer parsing. Each function here is trusted: its contract is
//! what the called code is documented (and, for the crates, written) to do,
//! and is not proved.

use vstd::prelude::*;

use crate::game::piece::Piece;

verus! {

/// The 128-bit value of the UUID that `uuid::Uuid::parse_str` reads from a
/// text, or `None` where it reports a parse error.
pub uninterp spec fn parsed_uuid(s: Seq<char>) -> Option<u128>;

/// Calls `uuid::Uuid::parse_str` and gives the UUID as its 128-bit value
/// (`Uuid::as_u128`), `None` on a parse error. Claimed: the result depends on
/// the text alone (it is `parsed_uuid` of the text); which texts parse is not
/// restated here.
#[verifier::external_body]
pub(crate) fn parse_uuid(s: &str) -> (res: Option<u128>)
    ensures
        res == parsed_uuid(s@),
{
    match uuid::Uuid::parse_str(s) {
        Ok(u) => Some(u.as_u128()),
        Err(_) => None,
    }
}

/// Calls `uuid::Uuid::from_u128` and writes the UUID with `to_string` (its
/// `Display`: the hyphenated lowercase form). Claimed: `Uuid::parse_str`
/// reads that text back as the same 128-bit value, so the text names the id.
#[verifier::external_body]
pub(crate) fn uuid_text(id: u128) -> (s: String)
    ensures
        parsed_uuid(s@) == Some(id),
{
    uuid::Uuid::from_u128(id).to_string()
}

/// The version nibble of a UUID held as a 128-bit value is 4 and its variant
/// bits are `10`: a random (version 4) RFC 4122 UUID.
pub open spec fn is_v4(u: u128) -> bool {
    (u >> 76u128) & 0xfu128 == 4 && (u >> 62u128) & 0x3u128 == 2
}

/// Calls `uuid::Uuid::new_v4` and gives its 128-bit value. The value is
/// random; claimed is only what the crate sets on every outcome: version 4
/// and the RFC 4122 variant bits (it masks a random `u128` and ors in
/// `0x4000_8000_0000_0000_0000`).
#[verifier::external_body]
pub(crate) fn new_uuid_v4() -> (res: u128)
    ensures
        is_v4(res),
{
    uuid::Uuid::new_v4().as_u128()
}

/// Calls `rand::seq::SliceRandom::choose` on the candidate squares with the
/// thread-local generator. Claimed: `None` exactly when there is no
/// candidate (the crate tests `is_empty` first), else one of the candidates
/// (it indexes the slice below its length); which one is left open.
#[verifier::external_body]
pub(crate) fn choose_square(cands: &Vec<(usize, usize)>) -> (res: Option<(usize, usize)>)
    ensures
        res is None <==> cands@.len() == 0,
        res matches Some(x) ==> cands@.contains(x),
{
    rand::seq::SliceRandom::choose(cands.as_slice(), &mut rand::thread_rng()).copied()
}

/// Calls `rand::seq::SliceRandom::shuffle` on the vector with the
/// thread-local generator. Claimed: the result is a permutation of the input
/// (same length, same multiset of pieces); the order is left open.
#[verifier::external_body]
pub(crate) fn shuffle_pieces(v: &mut Vec<Piece>)
    ensures
        final(v)@.len() == old(v)@.len(),
        final(v)@.to_multiset() == old(v)@.to_multiset(),
{
    rand::seq::SliceRandom::shuffle(v.as_mut_slice(), &mut rand::thread_rng())
}

/// The value of a string of ASCII decimal digits.
pub open spec fn digits_value(s: Seq<char>) -> int
    decreases s.len(),
{
    if s.len() == 0 {
        0
    } else {
        digits_value(s.drop_last()) * 10 + (s.last() as int - '0' as int)
    }
}

/// Every character is an ASCII decimal digit.
pub open spec fn all_digits(s: Seq<char>) -> bool {
    forall|i: int| 0 <= i < s.len() ==> '0' <= #[trigger] s[i] <= '9'
}

/// What `i64::from_str` accepts: an optional `+` or `-` sign followed by one
/// or more ASCII digits, whose value fits an `i64`; anything else is an
/// error (`None`).
pub open spec fn decimal_i64(s: Seq<char>) -> Option<i64> {
    let neg = s.len() > 0 && s[0] == '-';
    let signed = s.len() > 0 && (s[0] == '-' || s[0] == '+');
    let body = if signed {
        s.drop_first()
    } else {
        s
    };
    let v = if neg {
        -digits_value(body)
    } else {
        digits_value(body)
    };
    if body.len() > 0 && all_digits(body) && i64::MIN <= v <= i64::MAX {
        Some(v as i64)
    } else {
        None
    }
}

/// Calls `str::parse::<i64>` (std's `i64::from_str`), `None` on an error.
/// Claimed: it accepts exactly an optional sign and one or more ASCII digits
/// whose value fits an `i64`, as std documents, and gives that value.
#[verifier::external_body]
pub(crate) fn parse_i64(s: &str) -> (res: Option<i64>)
    ensures
        res == decimal_i64(s@),
{
    s.parse::<i64>().ok()
}

} // verus!
