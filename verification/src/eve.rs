//! Identifiers and data of the EVE Online universe and the rules for
//! reading the paging answers of its public API.

pub mod group_data;
pub mod region_data;
pub mod system_data;
pub mod type_data;

use vstd::prelude::*;

verus! {

/// Client of the public EVE API.
#[derive(Clone, Copy, Debug, Default)]
pub struct Eve;

/// The byte is an ASCII decimal digit.
pub open spec fn is_digit(b: u8) -> bool {
    48 <= b <= 57
}

/// Every byte of `s` is an ASCII decimal digit.
pub open spec fn all_digits(s: Seq<u8>) -> bool {
    forall|i: int| 0 <= i < s.len() ==> is_digit(#[trigger] s[i])
}

/// The decimal number that the digits `s` spell.
pub open spec fn digits_value(s: Seq<u8>) -> int
    decreases s.len(),
{
    if s.len() == 0 {
        0
    } else {
        digits_value(s.drop_last()) * 10 + (s.last() - 48)
    }
}

/// The digits of a number that may start with a `+` sign.
pub open spec fn unsigned_digits(s: Seq<u8>) -> Seq<u8> {
    if s.len() > 0 && s[0] == 43 {
        s.drop_first()
    } else {
        s
    }
}

/// `s` read as a decimal `u8`, as `str::parse::<u8>` reads it: an optional
/// `+`, then at least one digit and nothing else, of a value that fits.
pub open spec fn parsed_u8(s: Seq<u8>) -> Option<u8> {
    let d = unsigned_digits(s);
    if d.len() > 0 && all_digits(d) && digits_value(d) <= 255 {
        Some(digits_value(d) as u8)
    } else {
        None
    }
}

/// The decimal digits of `n`, without leading zeros.
pub open spec fn decimal(n: nat) -> Seq<u8>
    decreases n,
{
    if n < 10 {
        seq![(48 + n) as u8]
    } else {
        decimal(n / 10).push((48 + n % 10) as u8)
    }
}

proof fn lemma_decimal(n: nat)
    ensures
        decimal(n).len() > 0,
        all_digits(decimal(n)),
        digits_value(decimal(n)) == n,
        is_digit(decimal(n)[0]),
    decreases n,
{
    if n >= 10 {
        lemma_decimal(n / 10);
        let d = decimal(n / 10);
        assert(decimal(n).drop_last() =~= d);
        assert(decimal(n)[0] == d[0]);
        assert(decimal(n).last() == (48 + n % 10) as u8);
        assert(n == (n / 10) * 10 + n % 10) by {
            vstd::arithmetic::div_mod::lemma_fundamental_div_mod(n as int, 10);
        }
        assert(digits_value(decimal(n)) == digits_value(d) * 10 + (n % 10));
    } else {
        assert(decimal(n).drop_last().len() == 0);
        assert(digits_value(decimal(n)) == digits_value(decimal(n).drop_last()) * 10 + (decimal(n).last() - 48));
    }
}

/// The decimal digits of a `u8` read back as that number: a page count
/// that the API writes out is read as it was written.
pub proof fn parse_reads_decimal(n: u8)
    ensures
        parsed_u8(decimal(n as nat)) == Some(n),
{
    lemma_decimal(n as nat);
    assert(unsigned_digits(decimal(n as nat)) == decimal(n as nat));
}

/// Reads `s` as a decimal `u8`: an optional `+` sign, then one or more
/// digits of a value up to 255, and nothing else.
pub fn parse_u8(s: &[u8]) -> (r: Option<u8>)
    ensures
        r == parsed_u8(s@),
{
    let start: usize = if s.len() > 0 && s[0] == 43 { 1 } else { 0 };
    let ghost d = unsigned_digits(s@);
    assert(d =~= s@.subrange(start as int, s@.len() as int));
    if start >= s.len() {
        return None;
    }
    let mut acc: u32 = 0;
    let mut i: usize = start;
    while i < s.len()
        invariant
            start <= i <= s.len(),
            d =~= s@.subrange(start as int, s@.len() as int),
            d == unsigned_digits(s@),
            all_digits(s@.subrange(start as int, i as int)),
            acc == (if digits_value(s@.subrange(start as int, i as int)) < 256 {
                digits_value(s@.subrange(start as int, i as int))
            } else {
                256
            }),
        decreases s.len() - i,
    {
        let b = s[i];
        if b < 48 || b > 57 {
            assert(d[i - start] == b);
            assert(!is_digit(d[i - start]));
            return None;
        }
        assert(s@.subrange(start as int, i + 1).drop_last() =~= s@.subrange(start as int, i as int));
        let next: u32 = acc * 10 + (b - 48) as u32;
        acc = if next < 256 { next } else { 256 };
        i += 1;
    }
    if acc < 256 {
        Some(acc as u8)
    } else {
        None
    }
}

impl Eve {
    /// Number of pages of an answer of the API, read from the value of its
    /// `x-pages` header; zero where the header is missing or is no number
    /// that fits in a `u8`.
    pub fn page_count(&self, x_pages: Option<&[u8]>) -> (r: u8)
        ensures
            r == (match x_pages {
                Some(v) => match parsed_u8(v@) {
                    Some(n) => n,
                    None => 0u8,
                },
                None => 0u8,
            }),
    {
        match x_pages {
            Some(v) => match parse_u8(v) {
                Some(n) => n,
                None => 0,
            },
            None => 0,
        }
    }
}

} // verus!
