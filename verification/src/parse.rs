//! Reading numbers from text.

use vstd::prelude::*;

verus! {

/// White space, as text knows it.
pub open spec fn is_space(c: char) -> bool {
    ||| '\u{9}' <= c <= '\u{d}'
    ||| c == '\u{20}'
    ||| c == '\u{85}'
    ||| c == '\u{a0}'
    ||| c == '\u{1680}'
    ||| '\u{2000}' <= c <= '\u{200a}'
    ||| c == '\u{2028}'
    ||| c == '\u{2029}'
    ||| c == '\u{202f}'
    ||| c == '\u{205f}'
    ||| c == '\u{3000}'
}

fn space(c: char) -> (r: bool)
    ensures
        r == is_space(c),
{
    ('\u{9}' <= c && c <= '\u{d}') || c == '\u{20}' || c == '\u{85}' || c == '\u{a0}' || c == '\u{1680}' || (
    '\u{2000}' <= c && c <= '\u{200a}') || c == '\u{2028}' || c == '\u{2029}' || c == '\u{202f}' || c
        == '\u{205f}' || c == '\u{3000}'
}

/// The text without white space at either end.
pub open spec fn stripped(s: Seq<char>) -> Seq<char>
    decreases s.len(),
{
    if s.len() > 0 && is_space(s.last()) {
        stripped(s.drop_last())
    } else if s.len() > 0 && is_space(s[0]) {
        stripped(s.skip(1))
    } else {
        s
    }
}

/// A decimal digit.
pub open spec fn is_digit(c: char) -> bool {
    '0' <= c <= '9'
}

/// The number that digits spell, none where there is another character.
pub open spec fn digits_value(s: Seq<char>) -> Option<nat>
    decreases s.len(),
{
    if s.len() == 0 {
        Some(0)
    } else {
        match digits_value(s.drop_last()) {
            Some(n) => if is_digit(s.last()) {
                Some((n * 10 + (s.last() as int - 48)) as nat)
            } else {
                None
            },
            None => None,
        }
    }
}

/// The number that a text spells: digits, at least one, after a sign if there is
/// one.
pub open spec fn spelled_number(s: Seq<char>) -> Option<int> {
    if s.len() > 1 && s[0] == '+' {
        match digits_value(s.skip(1)) {
            Some(n) => Some(n as int),
            None => None,
        }
    } else if s.len() > 1 && s[0] == '-' {
        match digits_value(s.skip(1)) {
            Some(n) => Some(-n),
            None => None,
        }
    } else if s.len() > 0 {
        match digits_value(s) {
            Some(n) => Some(n as int),
            None => None,
        }
    } else {
        None
    }
}

proof fn lemma_digits_grow(s: Seq<char>, i: int)
    requires
        0 <= i <= s.len(),
        digits_value(s) is Some,
    ensures
        digits_value(s.take(i)) is Some,
        digits_value(s.take(i))->0 <= digits_value(s)->0,
    decreases s.len(),
{
    if i < s.len() {
        lemma_digits_grow(s.drop_last(), i);
        assert(s.drop_last().take(i) =~= s.take(i));
    } else {
        assert(s.take(i) =~= s);
    }
}

/// The number that the characters from `from` on spell, if it is at most `max`.
fn digits_from(s: &str, from: usize, max: u64) -> (r: Option<u64>)
    requires
        from <= s@.len(),
    ensures
        match r {
            Some(n) => digits_value(s@.skip(from as int)) == Some(n as nat) && n <= max,
            None => match digits_value(s@.skip(from as int)) {
                Some(n) => n > max,
                None => true,
            },
        },
{
    let ghost t = s@.skip(from as int);
    let len: usize = s.unicode_len();
    let mut n: u64 = 0;
    let mut i: usize = from;
    assert(t.take(0) =~= Seq::empty());
    while i < len
        invariant
            from <= i <= len,
            len == s@.len(),
            t == s@.skip(from as int),
            digits_value(t.take(i - from)) == Some(n as nat),
            n <= max,
        decreases len - i,
    {
        let c = s.get_char(i);
        assert(t.take(i + 1 - from).drop_last() =~= t.take(i - from));
        assert(t.take(i + 1 - from).last() == c);
        if !(c >= '0' && c <= '9') {
            proof {
                if digits_value(t) is Some {
                    lemma_digits_grow(t, i + 1 - from);
                }
            }
            return None;
        }
        let d: u64 = (c as u32 - 48) as u64;
        if n > (max - if d <= max {
            d
        } else {
            max
        }) / 10 || d > max {
            proof {
                assert(n * 10 + d > max) by {
                    if d <= max {
                        assert(n > (max - d) / 10);
                        assert(n * 10 > max - d) by (nonlinear_arith)
                            requires
                                n > (max - d) / 10,
                                d <= max,
                        ;
                    }
                }
                if digits_value(t) is Some {
                    lemma_digits_grow(t, i + 1 - from);
                }
            }
            return None;
        }
        proof {
            assert(n * 10 <= max - d) by (nonlinear_arith)
                requires
                    n <= (max - d) / 10,
                    d <= max,
            ;
        }
        n = n * 10 + d;
        i = i + 1;
    }
    assert(t.take(i - from) =~= t);
    Some(n)
}

/// Read an unsigned number of at most `max`.
pub fn parse_unsigned(s: &str, max: u64) -> (r: Option<u64>)
    ensures
        match r {
            Some(n) => spelled_number(s@) == Some(n as int) && n <= max && !(s@.len() > 1 && s@[0] == '-'),
            None => match spelled_number(s@) {
                Some(n) => n > max || (s@.len() > 1 && s@[0] == '-'),
                None => true,
            },
        },
{
    let len: usize = s.unicode_len();
    if len == 0 {
        return None;
    }
    assert(s@.skip(0) =~= s@);
    if len > 1 && s.get_char(0) == '+' {
        return digits_from(s, 1, max);
    }
    if len > 1 && s.get_char(0) == '-' {
        return None;
    }
    digits_from(s, 0, max)
}

/// Read a signed number.
pub fn parse_signed(s: &str) -> (r: Option<i64>)
    ensures
        match r {
            Some(n) => spelled_number(s@) == Some(n as int),
            None => match spelled_number(s@) {
                Some(n) => n < i64::MIN || n > i64::MAX,
                None => true,
            },
        },
{
    let len: usize = s.unicode_len();
    if len > 1 && s.get_char(0) == '-' {
        return match digits_from(s, 1, 0x8000_0000_0000_0000) {
            Some(n) => {
                if n == 0x8000_0000_0000_0000 {
                    Some(i64::MIN)
                } else {
                    Some(-(n as i64))
                }
            },
            None => None,
        };
    }
    match parse_unsigned(s, 0x7fff_ffff_ffff_ffff) {
        Some(n) => Some(n as i64),
        None => None,
    }
}

/// The text without white space at either end.
pub fn trim(s: &str) -> (r: String)
    ensures
        r@ == stripped(s@),
{
    let mut from: usize = 0;
    let mut to: usize = s.unicode_len();
    assert(s@.subrange(0, to as int) =~= s@);
    while from < to && space(s.get_char(to - 1))
        invariant
            from == 0,
            from <= to <= s@.len(),
            stripped(s@.subrange(from as int, to as int)) == stripped(s@),
        decreases to,
    {
        assert(s@.subrange(from as int, to as int).drop_last() =~= s@.subrange(from as int, to - 1));
        to = to - 1;
    }
    while from < to && space(s.get_char(from))
        invariant
            from <= to <= s@.len(),
            from < to ==> !is_space(s@[to - 1]),
            stripped(s@.subrange(from as int, to as int)) == stripped(s@),
        decreases to - from,
    {
        assert(s@.subrange(from as int, to as int).skip(1) =~= s@.subrange(from + 1, to as int));
        assert(s@.subrange(from as int, to as int).last() == s@[to - 1]);
        from = from + 1;
    }
    proof {
        let t = s@.subrange(from as int, to as int);
        if from < to {
            assert(t.last() == s@[to - 1]);
            assert(t[0] == s@[from as int]);
        }
    }
    s.substring_char(from, to).to_string()
}

} // verus!
