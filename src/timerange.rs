//! Elapsed time between two packed `hhmm` clock readings, wrapping past
//! midnight.
use vstd::prelude::*;
use crate::text::{
    chars_of, decimal, parse_u16, parse_u16_in, push_char, push_decimal, push_two_digits,
    split_words, two_digits, words, lemma_decimal_reads_back, lemma_words_single,
    lemma_words_concat, is_white_space, is_digit,
};

verus! {

/// Why a time range was refused.
#[derive(Debug, Clone, Copy, PartialEq, Eq, Structural)]
pub enum TimeRangeError {
    /// The text does not hold exactly two white-space separated tokens.
    TokenCount,
    /// A token is not an unsigned 16-bit number.
    InvalidNumber,
    /// A token's minute part (its last two digits) is sixty or more.
    InvalidTimeToken,
    /// The start lies more than a day past midnight and does not precede the
    /// end, so the wrapped difference is negative.
    Overflow,
}

/// Minutes since midnight of a packed `hhmm` token.
pub open spec fn clock_minutes(t: u16) -> int {
    (t / 100) as int * 60 + (t % 100) as int
}

/// A count of minutes written as `h:mm`.
pub open spec fn clock_text(m: int) -> Seq<char> {
    decimal((m / 60) as nat) + seq![':'] + two_digits((m % 60) as nat)
}

/// Minutes from `start` to `end`; when `end` does not come after `start` the
/// range is taken to run past midnight (equal readings give a full day).
pub open spec fn elapsed_minutes(start: int, end: int) -> int {
    if start < end {
        end - start
    } else {
        24 * 60 - start + end
    }
}

/// `start-end=elapsed`, each as `h:mm`.
pub open spec fn range_text(start: int, end: int) -> Seq<char> {
    clock_text(start) + seq!['-'] + clock_text(end) + seq!['='] + clock_text(
        elapsed_minutes(start, end),
    )
}

/// What `special_time_diff` gives for the text `s`: exactly two words
/// separated by white space, each a packed `hhmm` token. The first fault
/// found, in this order, is the one reported.
pub open spec fn time_range_result(s: Seq<char>) -> Result<Seq<char>, TimeRangeError> {
    let w = words(s);
    if w.len() != 2 {
        Err(TimeRangeError::TokenCount)
    } else {
        match parse_u16(w[0]) {
            None => Err(TimeRangeError::InvalidNumber),
            Some(a) => if a % 100 >= 60 {
                Err(TimeRangeError::InvalidTimeToken)
            } else {
                match parse_u16(w[1]) {
                    None => Err(TimeRangeError::InvalidNumber),
                    Some(b) => if b % 100 >= 60 {
                        Err(TimeRangeError::InvalidTimeToken)
                    } else if clock_minutes(a) >= clock_minutes(b) && clock_minutes(a) > 24 * 60 {
                        Err(TimeRangeError::Overflow)
                    } else {
                        Ok(range_text(clock_minutes(a), clock_minutes(b)))
                    },
                }
            },
        }
    }
}

/// Splitting a valid token into hours and minutes and joining them back
/// through minutes since midnight gives the same hour and a minute in `0..60`.
pub proof fn lemma_packed_token_round_trip(t: u16)
    requires
        t % 100 < 60,
    ensures
        clock_minutes(t) / 60 == (t / 100) as int,
        clock_minutes(t) % 60 == (t % 100) as int,
        0 <= clock_minutes(t) % 60 < 60,
{
    assert(clock_minutes(t) / 60 == (t / 100) as int && clock_minutes(t) % 60 == (t % 100) as int)
        by (nonlinear_arith)
        requires
            t % 100 < 60,
    ;
}

/// Two readings written as decimal numbers with one space between them.
pub open spec fn range_input(a: u16, b: u16) -> Seq<char> {
    decimal(a as nat) + seq![' '] + decimal(b as nat)
}

proof fn lemma_range_input_words(a: u16, b: u16)
    ensures
        words(range_input(a, b)) == seq![decimal(a as nat), decimal(b as nat)],
        parse_u16(decimal(a as nat)) == Some(a),
        parse_u16(decimal(b as nat)) == Some(b),
{
    lemma_decimal_reads_back(a as nat);
    lemma_decimal_reads_back(b as nat);
    let x = decimal(a as nat);
    let y = decimal(b as nat);
    assert forall|i: int| 0 <= i < x.len() implies !is_white_space(#[trigger] x[i]) by {
        assert(is_digit(x[i]));
    }
    assert forall|i: int| 0 <= i < y.len() implies !is_white_space(#[trigger] y[i]) by {
        assert(is_digit(y[i]));
    }
    lemma_words_single(x);
    lemma_words_single(y);
    lemma_words_concat(Seq::<char>::empty(), x);
    assert(Seq::<char>::empty() + x =~= x);
    assert(words(Seq::<char>::empty()) =~= Seq::<Seq<char>>::empty());
    assert((x + seq![' ']).drop_last() =~= x);
    assert(is_white_space((x + seq![' ']).last()));
    assert(words(x + seq![' ']) =~= seq![x]);
    lemma_words_concat(x + seq![' '], y);
    assert(range_input(a, b) =~= x + seq![' '] + y);
    assert(seq![x] + seq![y] =~= seq![x, y]);
}

/// Two valid readings `a b` (hours below 24, minutes below 60) are accepted
/// and rendered as `start-end=elapsed`. Each reading keeps its own hour and
/// minute, and when the end does not come after the start the elapsed time
/// wraps past midnight.
pub proof fn lemma_valid_range(a: u16, b: u16)
    requires
        a <= 2359,
        b <= 2359,
        a % 100 < 60,
        b % 100 < 60,
    ensures
        time_range_result(range_input(a, b)) == Ok::<Seq<char>, TimeRangeError>(
            range_text(clock_minutes(a), clock_minutes(b)),
        ),
        clock_text(clock_minutes(a)) == decimal((a / 100) as nat) + seq![':'] + two_digits(
            (a % 100) as nat,
        ),
        clock_text(clock_minutes(b)) == decimal((b / 100) as nat) + seq![':'] + two_digits(
            (b % 100) as nat,
        ),
        clock_minutes(a) >= clock_minutes(b) ==> elapsed_minutes(clock_minutes(a), clock_minutes(b))
            == 24 * 60 - clock_minutes(a) + clock_minutes(b),
{
    lemma_range_input_words(a, b);
    lemma_packed_token_round_trip(a);
    lemma_packed_token_round_trip(b);
}

/// Two readings `a b` where either has a minute part of sixty or more are
/// refused as an invalid time token; no minute is ever clamped.
pub proof fn lemma_bad_minutes_refused(a: u16, b: u16)
    requires
        a % 100 >= 60 || b % 100 >= 60,
    ensures
        time_range_result(range_input(a, b)) == Err::<Seq<char>, TimeRangeError>(
            TimeRangeError::InvalidTimeToken,
        ),
{
    lemma_range_input_words(a, b);
}

fn push_clock(s: &mut String, m: u32)
    ensures
        final(s)@ == old(s)@ + clock_text(m as int),
{
    push_decimal(s, m / 60);
    push_char(s, ':');
    push_two_digits(s, m % 60);
    assert(final(s)@ =~= old(s)@ + clock_text(m as int));
}

/// Reads two packed `hhmm` tokens separated by white space and renders
/// `start-end=elapsed`, wrapping past midnight when the end is not later.
pub fn special_time_diff(timerange: &str) -> (r: Result<String, TimeRangeError>)
    ensures
        match r {
            Ok(text) => time_range_result(timerange@) == Ok::<Seq<char>, TimeRangeError>(text@),
            Err(e) => time_range_result(timerange@) == Err::<Seq<char>, TimeRangeError>(e),
        },
{
    let v = chars_of(timerange);
    let w = split_words(&v);
    if w.len() != 2 {
        return Err(TimeRangeError::TokenCount);
    }
    let first = &w[0];
    let second = &w[1];
    assert(first@.subrange(0, first@.len() as int) =~= first@);
    assert(second@.subrange(0, second@.len() as int) =~= second@);
    let start = match parse_u16_in(first, 0, first.len()) {
        Some(n) => n,
        None => {
            return Err(TimeRangeError::InvalidNumber);
        },
    };
    if start % 100 >= 60 {
        return Err(TimeRangeError::InvalidTimeToken);
    }
    let end = match parse_u16_in(second, 0, second.len()) {
        Some(n) => n,
        None => {
            return Err(TimeRangeError::InvalidNumber);
        },
    };
    if end % 100 >= 60 {
        return Err(TimeRangeError::InvalidTimeToken);
    }
    let sm: u32 = (start / 100) as u32 * 60 + (start % 100) as u32;
    let em: u32 = (end / 100) as u32 * 60 + (end % 100) as u32;
    let diff: u32 = if sm < em {
        em - sm
    } else if sm > 24 * 60 {
        return Err(TimeRangeError::Overflow);
    } else {
        24 * 60 - sm + em
    };
    let mut out = String::new();
    push_clock(&mut out, sm);
    push_char(&mut out, '-');
    push_clock(&mut out, em);
    push_char(&mut out, '=');
    push_clock(&mut out, diff);
    assert(out@ =~= range_text(sm as int, em as int));
    Ok(out)
}

} // verus!
