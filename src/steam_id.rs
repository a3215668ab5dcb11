//! Validation of Steam 64 ids as typed on the command line.
use vstd::prelude::*;
use vstd::string::StrSliceExecFns;

verus! {

/// Whether `c` is an ASCII decimal digit.
pub open spec fn is_digit(c: char) -> bool {
    '0' <= c && c <= '9'
}

/// The value of a sequence of decimal digits, most significant first.
pub open spec fn digits_value(s: Seq<char>) -> nat
    decreases s.len(),
{
    if s.len() == 0 {
        0
    } else {
        digits_value(s.drop_last()) * 10 + ((s.last() as nat) - ('0' as nat)) as nat
    }
}

/// The digits of an unsigned integer literal: an optional leading `+` is dropped.
pub open spec fn unsigned_digits(s: Seq<char>) -> Seq<char> {
    if s.len() > 0 && s[0] == '+' {
        s.drop_first()
    } else {
        s
    }
}

/// Whether `s` is accepted as a `u64` by std's integer parser: an optional `+`,
/// then one or more decimal digits whose value fits in 64 bits.
pub open spec fn parses_as_u64(s: Seq<char>) -> bool {
    let d = unsigned_digits(s);
    &&& d.len() > 0
    &&& forall|i: int| 0 <= i < d.len() ==> is_digit(#[trigger] d[i])
    &&& digits_value(d) <= u64::MAX
}

/// A Steam 64 id is a `u64` written with exactly 17 characters.
pub open spec fn valid_steam_id(s: Seq<char>) -> bool {
    parses_as_u64(s) && s.len() == 17
}

/// Relies on `str::parse::<u64>`: it succeeds exactly on an optional `+`
/// followed by decimal digits whose value fits in a `u64`.
#[verifier::external_body]
fn parses_u64(s: &str) -> (r: bool)
    ensures
        r == parses_as_u64(s@),
{
    s.parse::<u64>().is_ok()
}

/// Whether `steam_id` is a well formed Steam 64 id.
pub fn is_valid_steam_id(steam_id: &str) -> (r: bool)
    ensures
        r == valid_steam_id(steam_id@),
{
    let parses = parses_u64(steam_id);
    parses && steam_id.unicode_len() == 17
}

} // verus!
