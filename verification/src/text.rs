//! Rendering of numbers and lists as text.

use vstd::prelude::*;

verus! {

/// The character of a digit in base sixteen or below.
pub open spec fn digit_char(d: int) -> char {
    if d < 10 {
        (48 + d) as char
    } else {
        (87 + d) as char
    }
}

/// `n` written in `base`, most significant digit first, no leading zero.
pub open spec fn digits(n: nat, base: nat) -> Seq<char>
    decreases n,
{
    if base < 2 || n < base {
        seq![digit_char(n as int)]
    } else {
        proof {
            assert(n / base < n) by (nonlinear_arith)
                requires
                    n >= base,
                    base >= 2,
            ;
        }
        digits(n / base, base).push(digit_char((n % base) as int))
    }
}

/// The last `width` digits of `n` in base sixteen, zeros included.
pub open spec fn hex_padded(n: nat, width: nat) -> Seq<char>
    decreases width,
{
    if width == 0 {
        Seq::empty()
    } else {
        hex_padded(n / 16, (width - 1) as nat).push(digit_char((n % 16) as int))
    }
}

/// `n` in base ten.
pub open spec fn decimal(n: nat) -> Seq<char> {
    digits(n, 10)
}

/// `n` in base ten, with a minus sign below zero.
pub open spec fn signed_decimal(n: int) -> Seq<char> {
    if n < 0 {
        seq!['-'] + decimal((-n) as nat)
    } else {
        decimal(n as nat)
    }
}

/// The parts one after another with `sep` between neighbours.
pub open spec fn joined(parts: Seq<Seq<char>>, sep: Seq<char>) -> Seq<char>
    decreases parts.len(),
{
    if parts.len() == 0 {
        Seq::empty()
    } else if parts.len() == 1 {
        parts[0]
    } else {
        joined(parts.drop_last(), sep) + sep + parts.last()
    }
}

/// `String::push`: the character becomes the last one.
pub assume_specification[ std::string::String::push ](s: &mut std::string::String, c: char)
    ensures
        final(s)@ == old(s)@.push(c),
;

fn push_digit(out: &mut String, d: u64)
    requires
        d < 16,
    ensures
        final(out)@ == old(out)@.push(digit_char(d as int)),
{
    proof {
        reveal_strlit("0");
        reveal_strlit("1");
        reveal_strlit("2");
        reveal_strlit("3");
        reveal_strlit("4");
        reveal_strlit("5");
        reveal_strlit("6");
        reveal_strlit("7");
        reveal_strlit("8");
        reveal_strlit("9");
        reveal_strlit("a");
        reveal_strlit("b");
        reveal_strlit("c");
        reveal_strlit("d");
        reveal_strlit("e");
        reveal_strlit("f");
    }
    let s = match d {
        0 => "0",
        1 => "1",
        2 => "2",
        3 => "3",
        4 => "4",
        5 => "5",
        6 => "6",
        7 => "7",
        8 => "8",
        9 => "9",
        10 => "a",
        11 => "b",
        12 => "c",
        13 => "d",
        14 => "e",
        _ => "f",
    };
    assert(s@ =~= seq![digit_char(d as int)]);
    out.append(s);
}

fn push_digits(out: &mut String, n: u64, base: u64)
    requires
        2 <= base <= 16,
    ensures
        final(out)@ == old(out)@ + digits(n as nat, base as nat),
    decreases n,
{
    if n < base {
        push_digit(out, n);
    } else {
        proof {
            assert(n / base < n) by (nonlinear_arith)
                requires
                    n >= base,
                    base >= 2,
            ;
        }
        push_digits(out, n / base, base);
        proof {
            assert(n % base < base) by (nonlinear_arith)
                requires
                    base >= 2,
            ;
        }
        push_digit(out, n % base);
    }
}

/// Append `n` in base ten.
pub fn push_decimal(out: &mut String, n: u64)
    ensures
        final(out)@ == old(out)@ + decimal(n as nat),
{
    push_digits(out, n, 10);
}

/// Append `n` in base ten with its sign.
pub fn push_signed(out: &mut String, n: i64)
    ensures
        final(out)@ == old(out)@ + signed_decimal(n as int),
{
    if n < 0 {
        proof {
            reveal_strlit("-");
            assert("-"@ =~= seq!['-']);
        }
        out.append("-");
        let m: u64 = if n == i64::MIN {
            0x8000_0000_0000_0000
        } else {
            (-n) as u64
        };
        push_digits(out, m, 10);
    } else {
        push_digits(out, n as u64, 10);
    }
}

/// Append `n` in base sixteen.
pub fn push_hex(out: &mut String, n: u64)
    ensures
        final(out)@ == old(out)@ + digits(n as nat, 16),
{
    push_digits(out, n, 16);
}

fn push_hex_width(out: &mut String, n: u64, width: u64)
    ensures
        final(out)@ == old(out)@ + hex_padded(n as nat, width as nat),
    decreases width,
{
    if width > 0 {
        push_hex_width(out, n / 16, width - 1);
        push_digit(out, n % 16);
    }
}

/// Append all sixteen base-sixteen digits of `n`.
pub fn push_hex16(out: &mut String, n: u64)
    ensures
        final(out)@ == old(out)@ + hex_padded(n as nat, 16),
{
    push_hex_width(out, n, 16);
}

/// The contents of a list of strings.
pub open spec fn texts(parts: Seq<String>) -> Seq<Seq<char>> {
    Seq::new(parts.len(), |i: int| parts[i]@)
}

/// Join `parts` with `sep`.
pub fn join(parts: &Vec<String>, sep: &str) -> (r: String)
    ensures
        r@ == joined(texts(parts@), sep@),
{
    let mut out = String::new();
    let mut i: usize = 0;
    while i < parts.len()
        invariant
            i <= parts.len(),
            out@ == joined(texts(parts@).take(i as int), sep@),
        decreases parts.len() - i,
    {
        let ghost before = texts(parts@).take(i as int);
        let ghost after = texts(parts@).take(i + 1);
        assert(after.drop_last() =~= before);
        if i > 0 {
            out.append(sep);
        }
        out.append(parts[i].as_str());
        assert(after.last() == parts[i as int]@);
        i = i + 1;
    }
    assert(texts(parts@).take(i as int) =~= texts(parts@));
    out
}

/// Where the first newline from `i` on stands, or the end of the text.
pub open spec fn line_end(s: Seq<char>, i: int) -> int
    decreases s.len() - i,
{
    if i >= s.len() || s[i] == '\n' {
        i
    } else {
        line_end(s, i + 1)
    }
}

/// The line from `i` to a newline at `end`: a carriage return just before the
/// newline belongs to the line's ending.
pub open spec fn line_text(s: Seq<char>, i: int, end: int) -> Seq<char> {
    if end < s.len() && i < end && s[end - 1] == '\r' {
        s.subrange(i, end - 1)
    } else {
        s.subrange(i, end)
    }
}

/// The lines from `i` on, without their endings. An ending at the end of the
/// text opens no further line.
pub open spec fn lines_from(s: Seq<char>, i: int) -> Seq<Seq<char>>
    decreases s.len() + 1 - i,
{
    if i >= s.len() {
        Seq::empty()
    } else {
        let end = line_end(s, i);
        if end < i || end > s.len() {
            Seq::empty()
        } else {
            seq![line_text(s, i, end)] + lines_from(s, end + 1)
        }
    }
}

/// The lines of a text.
pub fn lines(s: &str) -> (r: Vec<String>)
    ensures
        texts(r@) == lines_from(s@, 0),
{
    let n: usize = s.unicode_len();
    let mut out: Vec<String> = Vec::new();
    let mut i: usize = 0;
    assert(texts(out@) + lines_from(s@, 0) =~= lines_from(s@, 0));
    while i < n
        invariant
            n == s@.len(),
            i <= n,
            texts(out@) + lines_from(s@, i as int) == lines_from(s@, 0),
        decreases n - i,
    {
        let start: usize = i;
        let ghost had = out@;
        let mut line = String::new();
        let mut carried = false;
        assert(s@.subrange(start as int, start as int) =~= Seq::empty());
        while i < n && s.get_char(i) != '\n'
            invariant
                n == s@.len(),
                start <= i <= n,
                line_end(s@, start as int) == line_end(s@, i as int),
                carried == (i > start && s@[i - 1] == '\r'),
                line@ == s@.subrange(
                    start as int,
                    if carried {
                        i - 1
                    } else {
                        i as int
                    },
                ),
            decreases n - i,
        {
            let c = s.get_char(i);
            if carried {
                line.push('\r');
            }
            if c == '\r' {
                carried = true;
            } else {
                carried = false;
                line.push(c);
            }
            i = i + 1;
            assert(line@ =~= s@.subrange(
                start as int,
                if carried {
                    i - 1
                } else {
                    i as int
                },
            ));
        }
        if i == n && carried {
            line.push('\r');
        }
        assert(line@ =~= line_text(s@, start as int, i as int));
        out.push(line);
        assert(texts(out@) =~= texts(had).push(line@));
        if i < n {
            i = i + 1;
            assert(texts(out@) + lines_from(s@, i as int) =~= texts(had) + lines_from(
                s@,
                start as int,
            ));
        } else {
            assert(lines_from(s@, i + 1) =~= Seq::empty());
            assert(texts(out@) + lines_from(s@, i as int) =~= texts(had) + lines_from(
                s@,
                start as int,
            ));
        }
    }
    assert(texts(out@) + lines_from(s@, i as int) =~= texts(out@));
    out
}

} // verus!
