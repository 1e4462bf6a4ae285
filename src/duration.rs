//! Duration abbreviations: a short number whose size tells whether it means
//! hours, minutes, or hours and minutes packed as `hhmm`.
use vstd::prelude::*;
use crate::text::{
    chars_of, decimal, parse_u16, parse_u16_in, push_char, push_decimal, push_two_digits,
    two_digits,
};

verus! {

/// The text returned for an abbreviation that cannot be classified.
pub open spec fn unknown_text() -> Seq<char> {
    seq!['U', 'N', 'K', 'N', 'O', 'W', 'N']
}

/// The normalised duration for the abbreviation `abbrev`:
/// `1..=4` are hours (`h:00:00`), `8..=59` are minutes (`m:00`),
/// above one hundred is `hhmm` (`h:mm:00`), anything else is unknown.
pub open spec fn normalized_duration(abbrev: Seq<char>) -> Seq<char> {
    match parse_u16(abbrev) {
        Some(v) => if 0 < v && v < 5 {
            decimal(v as nat) + seq![':', '0', '0', ':', '0', '0']
        } else if 7 < v && v < 60 {
            decimal(v as nat) + seq![':', '0', '0']
        } else if v > 100 {
            decimal((v / 100) as nat) + seq![':'] + two_digits((v % 100) as nat) + seq![
                ':',
                '0',
                '0',
            ]
        } else {
            unknown_text()
        },
        None => unknown_text(),
    }
}

fn push_zero_pair(s: &mut String)
    ensures
        final(s)@ == old(s)@ + seq![':', '0', '0'],
{
    push_char(s, ':');
    push_char(s, '0');
    push_char(s, '0');
    assert(final(s)@ =~= old(s)@ + seq![':', '0', '0']);
}

/// Turns a duration abbreviation into `h:mm:ss`-like text, or `UNKNOWN`.
pub fn generate_duration(abbrev: &str) -> (r: String)
    ensures
        r@ == normalized_duration(abbrev@),
{
    let v = chars_of(abbrev);
    assert(v@.subrange(0, v@.len() as int) =~= v@);
    let parsed = parse_u16_in(&v, 0, v.len());
    let mut r = String::new();
    match parsed {
        Some(n) if 0 < n && n < 5 => {
            push_decimal(&mut r, n as u32);
            push_zero_pair(&mut r);
            push_zero_pair(&mut r);
            assert(r@ =~= normalized_duration(abbrev@));
        },
        Some(n) if 7 < n && n < 60 => {
            push_decimal(&mut r, n as u32);
            push_zero_pair(&mut r);
            assert(r@ =~= normalized_duration(abbrev@));
        },
        Some(n) if n > 100 => {
            push_decimal(&mut r, (n / 100) as u32);
            push_char(&mut r, ':');
            push_two_digits(&mut r, (n % 100) as u32);
            push_zero_pair(&mut r);
            assert(r@ =~= normalized_duration(abbrev@));
        },
        _ => {
            push_unknown(&mut r);
        },
    }
    r
}

fn push_unknown(s: &mut String)
    requires
        old(s)@.len() == 0,
    ensures
        final(s)@ == unknown_text(),
{
    push_char(s, 'U');
    push_char(s, 'N');
    push_char(s, 'K');
    push_char(s, 'N');
    push_char(s, 'O');
    push_char(s, 'W');
    push_char(s, 'N');
    assert(final(s)@ =~= unknown_text());
}

} // verus!
