//! Characters of an account, with the links to their portraits and the
//! logos of their corporation and alliance.

use vstd::prelude::*;
use vstd::string::StringExecFns;

verus! {

/// Appends the character `c` to `s`.
///
/// Calls `String::push`, which appends the character; the contract says
/// that `c` follows the characters of `s`.
#[verifier::external_body]
fn push_char(s: &mut String, c: char)
    ensures
        final(s)@ == old(s)@.push(c),
{
    s.push(c);
}

/// The character of the decimal digit `d`.
pub open spec fn digit_char(d: int) -> char {
    (48 + d) as char
}

/// The decimal digits of `n`, without leading zeros.
pub open spec fn decimal_chars(n: nat) -> Seq<char>
    decreases n,
{
    if n < 10 {
        seq![digit_char(n as int)]
    } else {
        decimal_chars(n / 10).push(digit_char((n % 10) as int))
    }
}

/// Appends the decimal digits of `n` to `s`.
fn push_decimal(s: &mut String, n: u64)
    ensures
        final(s)@ == old(s)@ + decimal_chars(n as nat),
    decreases n,
{
    if n >= 10 {
        push_decimal(s, n / 10);
    }
    let d: u8 = (n % 10) as u8;
    let c = (48u8 + d) as char;
    push_char(s, c);
    proof {
        if n >= 10 {
            assert(decimal_chars(n as nat) == decimal_chars((n / 10) as nat).push(digit_char((n % 10) as int)));
        }
    }
}

/// Represents a character with all its information.
#[derive(Clone, Debug)]
pub struct Character {
    pub alliance: String,
    pub alliance_icon: String,
    pub alliance_id: u64,
    pub character: String,
    pub character_id: u64,
    pub character_icon: String,
    pub corporation: String,
    pub corporation_icon: String,
    pub corporation_id: u64,
}

/// `prefix`, the decimal digits of `id`, then `suffix`.
fn link(prefix: &str, id: u64, suffix: &str) -> (r: String)
    ensures
        r@ == prefix@ + decimal_chars(id as nat) + suffix@,
{
    let mut s = String::new();
    s.append(prefix);
    push_decimal(&mut s, id);
    s.append(suffix);
    assert(s@ =~= prefix@ + decimal_chars(id as nat) + suffix@);
    s
}

impl Character {
    /// A character with its corporation and alliance, and the image links
    /// of the EVE image server for each of them.
    pub fn new(
        alliance: String,
        alliance_id: u64,
        character: String,
        character_id: u64,
        corporation: String,
        corporation_id: u64,
    ) -> (r: Self)
        ensures
            r.alliance == alliance,
            r.alliance_id == alliance_id,
            r.alliance_icon@ == "https://images.evetech.net/alliances/"@ + decimal_chars(alliance_id as nat)
                + "/logo?size=1024"@,
            r.character == character,
            r.character_id == character_id,
            r.character_icon@ == "https://images.evetech.net/characters/"@ + decimal_chars(character_id as nat)
                + "/portrait?size=1024"@,
            r.corporation == corporation,
            r.corporation_id == corporation_id,
            r.corporation_icon@ == "https://images.evetech.net/corporations/"@ + decimal_chars(corporation_id as nat)
                + "/logo?size=1024"@,
    {
        let alliance_icon = link("https://images.evetech.net/alliances/", alliance_id, "/logo?size=1024");
        let character_icon = link("https://images.evetech.net/characters/", character_id, "/portrait?size=1024");
        let corporation_icon = link("https://images.evetech.net/corporations/", corporation_id, "/logo?size=1024");
        Character {
            alliance,
            alliance_icon,
            alliance_id,
            character,
            character_id,
            character_icon,
            corporation,
            corporation_icon,
            corporation_id,
        }
    }
}

} // verus!
