//! `exit`: the status code to exit with.

use vstd::prelude::*;
use crate::parser::string_views;
use crate::text::chars_of;

verus! {

/// Whether `c` is an ASCII decimal digit.
pub open spec fn is_digit(c: char) -> bool {
    '0' <= c <= '9'
}

/// The value of a sequence of decimal digits.
pub open spec fn digits_value(s: Seq<char>) -> int
    decreases s.len(),
{
    if s.len() == 0 {
        0
    } else {
        digits_value(s.drop_last()) * 10 + (s.last() as int - '0' as int)
    }
}

/// `s` without a leading `+` or `-`.
pub open spec fn unsigned_part(s: Seq<char>) -> Seq<char> {
    if s.len() > 0 && (s[0] == '-' || s[0] == '+') {
        s.drop_first()
    } else {
        s
    }
}

/// Whether every character of `s` is a decimal digit.
pub open spec fn all_digits(s: Seq<char>) -> bool {
    forall|i: int| 0 <= i < s.len() ==> is_digit(#[trigger] s[i])
}

/// The `i32` that `s` denotes as `str::parse::<i32>` reads it: an optional
/// `+` or `-`, then one or more decimal digits and nothing else, whose
/// value fits in an `i32`; `None` otherwise.
pub open spec fn parsed_i32(s: Seq<char>) -> Option<i32> {
    let body = unsigned_part(s);
    let magnitude = digits_value(body);
    let value = if s.len() > 0 && s[0] == '-' {
        -magnitude
    } else {
        magnitude
    };
    if body.len() > 0 && all_digits(body) && i32::MIN <= value <= i32::MAX {
        Some(value as i32)
    } else {
        None
    }
}

/// The status `exit` exits with: its first argument read as an `i32`, and
/// 0 when there is none or it is not one.
pub open spec fn exit_status(args: Seq<Seq<char>>) -> i32 {
    if args.len() > 0 {
        match parsed_i32(args[0]) {
            Some(v) => v,
            None => 0,
        }
    } else {
        0
    }
}

proof fn lemma_digits_value_grows(s: Seq<char>, k: int)
    requires
        0 <= k <= s.len(),
        all_digits(s),
    ensures
        digits_value(s) >= digits_value(s.take(k)) >= 0,
    decreases s.len(),
{
    if s.len() > 0 {
        if k < s.len() {
            assert(s.drop_last().take(k) =~= s.take(k));
            lemma_digits_value_grows(s.drop_last(), k);
        } else {
            assert(s.take(k) =~= s);
            lemma_digits_value_grows(s.drop_last(), 0);
        }
    } else {
        assert(s.take(k) =~= s);
    }
}

/// The `i32` that `s` denotes (see [`parsed_i32`]).
pub fn parse_i32(s: &str) -> (r: Option<i32>)
    ensures
        r == parsed_i32(s@),
{
    let c = chars_of(s);
    let negative = c.len() > 0 && c[0] == '-';
    let start: usize = if c.len() > 0 && (c[0] == '-' || c[0] == '+') {
        1
    } else {
        0
    };
    let ghost body = unsigned_part(c@);
    assert(body =~= c@.skip(start as int));
    if start == c.len() {
        return None;
    }
    let mut value: i64 = 0;
    let mut i: usize = start;
    while i < c.len()
        invariant
            start <= i <= c.len(),
            c@ == s@,
            body == unsigned_part(c@),
            body == c@.skip(start as int),
            forall|k: int| start <= k < i ==> is_digit(#[trigger] c@[k]),
            value == digits_value(c@.subrange(start as int, i as int)),
            0 <= value <= 0x8000_0000,
        decreases c.len() - i,
    {
        let ch = c[i];
        if !('0' <= ch && ch <= '9') {
            assert(body[i - start] == ch);
            assert(!is_digit(body[i - start]));
            return None;
        }
        assert(c@.subrange(start as int, i + 1).drop_last() =~= c@.subrange(start as int, i as int));
        let d = (ch as u32 - '0' as u32) as i64;
        value = value * 10 + d;
        if value > 0x8000_0000 {
            proof {
                assert(c@.subrange(start as int, i + 1).last() == ch);
                assert(value == digits_value(c@.subrange(start as int, i + 1)));
                if all_digits(body) {
                    assert(body.take(i + 1 - start) =~= c@.subrange(start as int, i + 1));
                    lemma_digits_value_grows(body, i + 1 - start);
                }
            }
            return None;
        }
        i = i + 1;
    }
    assert(c@.subrange(start as int, c.len() as int) =~= body);
    assert forall|j: int| 0 <= j < body.len() implies is_digit(#[trigger] body[j]) by {
        assert(body[j] == c@[start + j]);
    }
    let v: i64 = if negative {
        -value
    } else {
        value
    };
    if v < -0x8000_0000 || v > 0x7fff_ffff {
        None
    } else {
        Some(v as i32)
    }
}

/// The status `exit` exits with (see [`exit_status`]).
pub fn exit_code(args: &[String]) -> (r: i32)
    ensures
        r == exit_status(string_views(args@)),
{
    if args.len() == 0 {
        return 0;
    }
    assert(string_views(args@)[0] == args@[0]@);
    match parse_i32(args[0].as_str()) {
        Some(v) => v,
        None => 0,
    }
}

} // verus!
