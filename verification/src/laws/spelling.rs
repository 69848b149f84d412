//! Numbers and texts: how they are spelled, read back, put together and taken apart.

use vstd::prelude::*;

use crate::error::{ErrorKind, LError};
use crate::parse::{digits_value, is_space, parse_signed, parse_unsigned, stripped, trim};
use crate::span::Span;
use crate::text::{decimal, digits, hex_padded, join, line_end, lines, lines_from, signed_decimal, texts};
use crate::token::{OwnedToken, SourceLoc, Token};

verus! {

pub(crate) proof fn lemma_decimal_value(n: nat)
    ensures
        digits_value(decimal(n)) == Some(n),
        decimal(n).len() > 0,
        '0' <= decimal(n)[0] <= '9',
        '0' <= decimal(n).last() <= '9',
    decreases n,
{
    if n < 10 {
        let s = decimal(n);
        assert(s.drop_last() =~= Seq::empty());
        assert(digits_value(s.drop_last()) == Some(0nat));
        assert(s.last() as int == 48 + n);
    } else {
        let rest = decimal(n / 10);
        lemma_decimal_value(n / 10);
        let s = decimal(n);
        assert(s.drop_last() =~= rest);
        assert(s.last() as int == 48 + n % 10);
        assert((n / 10) * 10 + n % 10 == n);
    }
}

/// A number that is spelled out reads back as itself, where it is within the bound.
pub proof fn lemma_spelled_number_reads_back(s: &str, n: u64, max: u64, r: Option<u64>)
    requires
        s@ == decimal(n as nat),
        call_ensures(parse_unsigned, (s, max), r),
    ensures
        n <= max ==> r == Some(n),
        n > max ==> r is None,
{
    lemma_decimal_value(n as nat);
    assert(s@[0] != '+' && s@[0] != '-');
}

/// A signed number that is spelled out reads back as itself.
pub proof fn lemma_spelled_signed_number_reads_back(s: &str, n: i64, r: Option<i64>)
    requires
        s@ == signed_decimal(n as int),
        call_ensures(parse_signed, (s,), r),
    ensures
        r == Some(n),
{
    if n < 0 {
        lemma_decimal_value((-n) as nat);
        assert(s@[0] == '-');
        assert(s@.skip(1) =~= decimal((-n) as nat));
        assert('-' != '+');
    } else {
        lemma_decimal_value(n as nat);
        assert(s@[0] != '+' && s@[0] != '-');
    }
}

/// A letter anywhere makes a text no number.
pub proof fn lemma_letters_are_no_number(s: &str, i: int, max: u64, u: Option<u64>, r: Option<i64>)
    requires
        call_ensures(parse_unsigned, (s, max), u),
        call_ensures(parse_signed, (s,), r),
        0 <= i < s@.len(),
        !('0' <= s@[i] <= '9'),
        s@[i] != '+' && s@[i] != '-',
    ensures
        u is None,
        r is None,
{
    lemma_no_value(s@, i);
    if i > 0 {
        assert(s@.skip(1)[i - 1] == s@[i]);
        lemma_no_value(s@.skip(1), i - 1);
    }
}

proof fn lemma_no_value(s: Seq<char>, i: int)
    requires
        0 <= i < s.len(),
        !('0' <= s[i] <= '9'),
    ensures
        digits_value(s) is None,
    decreases s.len(),
{
    if i < s.len() - 1 {
        lemma_no_value(s.drop_last(), i);
    }
}

/// Trimming takes space off both ends and nothing else: what is left is a part of the
/// text, with no space at its ends, and all around it is space.
pub proof fn lemma_trim_takes_only_space(s: &str, r: String) -> (a: int)
    requires
        call_ensures(trim, (s,), r),
    ensures
        0 <= a <= a + r@.len() <= s@.len(),
        r@ == s@.subrange(a, a + r@.len()),
        forall|i: int| 0 <= i < a ==> is_space(#[trigger] s@[i]),
        forall|i: int| a + r@.len() <= i < s@.len() ==> is_space(#[trigger] s@[i]),
        r@.len() > 0 ==> !is_space(r@[0]) && !is_space(r@.last()),
{
    lemma_stripped(s@)
}

proof fn lemma_stripped(s: Seq<char>) -> (a: int)
    ensures
        0 <= a <= a + stripped(s).len() <= s.len(),
        stripped(s) == s.subrange(a, a + stripped(s).len()),
        forall|i: int| 0 <= i < a ==> is_space(#[trigger] s[i]),
        forall|i: int| a + stripped(s).len() <= i < s.len() ==> is_space(#[trigger] s[i]),
        stripped(s).len() > 0 ==> !is_space(stripped(s)[0]) && !is_space(stripped(s).last()),
    decreases s.len(),
{
    if s.len() > 0 && is_space(s.last()) {
        let rest = s.drop_last();
        let a = lemma_stripped(rest);
        assert(stripped(s) =~= s.subrange(a, a + stripped(s).len()));
        assert forall|i: int| 0 <= i < a implies is_space(#[trigger] s[i]) by {
            assert(rest[i] == s[i]);
        }
        assert forall|i: int| a + stripped(s).len() <= i < s.len() implies is_space(#[trigger] s[i]) by {
            if i < rest.len() {
                assert(rest[i] == s[i]);
            }
        }
        a
    } else if s.len() > 0 && is_space(s[0]) {
        let rest = s.skip(1);
        let a = lemma_stripped(rest);
        assert(stripped(s) =~= s.subrange(a + 1, a + 1 + stripped(s).len()));
        assert forall|i: int| 0 <= i < a + 1 implies is_space(#[trigger] s[i]) by {
            if i > 0 {
                assert(rest[i - 1] == s[i]);
            }
        }
        assert forall|i: int| a + 1 + stripped(s).len() <= i < s.len() implies is_space(#[trigger] s[i]) by {
            assert(rest[i - 1] == s[i]);
        }
        a + 1
    } else {
        assert(s =~= s.subrange(0, s.len() as int));
        0
    }
}

/// Joining one part more appends the separator and that part; one part alone is itself,
/// and none is nothing.
pub proof fn lemma_join_appends_a_part(
    parts: Vec<String>,
    more: Vec<String>,
    last: String,
    sep: &str,
    a: String,
    b: String,
)
    requires
        more@ == parts@.push(last),
        call_ensures(join, (&parts, sep), a),
        call_ensures(join, (&more, sep), b),
    ensures
        parts@.len() == 0 ==> a@.len() == 0 && b@ == last@,
        parts@.len() > 0 ==> b@ == a@ + sep@ + last@,
{
    assert(texts(more@).drop_last() =~= texts(parts@));
    assert(texts(more@).last() == last@);
}

proof fn lemma_lines_shift(s: Seq<char>, k: int, i: int)
    requires
        0 <= k <= s.len(),
        0 <= i,
    ensures
        line_end(s.skip(k), i) + k == line_end(s, i + k),
    decreases s.len() - k - i,
{
    if i < s.len() - k && s[i + k] != '\n' {
        assert(s.skip(k)[i] == s[i + k]);
        lemma_lines_shift(s, k, i + 1);
    } else if i < s.len() - k {
        assert(s.skip(k)[i] == s[i + k]);
    }
}

proof fn lemma_lines_from_shift(s: Seq<char>, k: int, i: int)
    requires
        0 <= k <= s.len(),
        0 <= i,
    ensures
        lines_from(s.skip(k), i) == lines_from(s, i + k),
    decreases s.len() + 1 - k - i,
{
    if i < s.len() - k {
        let t = s.skip(k);
        lemma_lines_shift(s, k, i);
        let end = line_end(t, i);
        lemma_line_end_bounds(t, i);
        assert(crate::text::line_text(t, i, end) =~= crate::text::line_text(s, i + k, end + k)) by {
            if end < t.len() && i < end {
                assert(t[end - 1] == s[end + k - 1]);
            }
        }
        lemma_lines_from_shift(s, k, end + 1);
    }
}

proof fn lemma_line_end_bounds(s: Seq<char>, i: int)
    requires
        0 <= i <= s.len(),
    ensures
        i <= line_end(s, i) <= s.len(),
    decreases s.len() - i,
{
    if i < s.len() && s[i] != '\n' {
        lemma_line_end_bounds(s, i + 1);
    }
}

proof fn lemma_line_end_at(s: Seq<char>, i: int, end: int)
    requires
        0 <= i <= end <= s.len(),
        end < s.len() ==> s[end] == '\n',
        forall|j: int| i <= j < end ==> s[j] != '\n',
    ensures
        line_end(s, i) == end,
    decreases end - i,
{
    if i < end {
        lemma_line_end_at(s, i + 1, end);
    }
}

/// The lines of a text are its first line and the lines of what follows the line's end;
/// a carriage return before the end belongs to neither.
pub proof fn lemma_lines_come_one_by_one(
    whole: &str,
    rest: &str,
    first: Seq<char>,
    cr: bool,
    a: Vec<String>,
    b: Vec<String>,
)
    requires
        forall|j: int| 0 <= j < first.len() ==> first[j] != '\n',
        !cr && first.len() > 0 ==> first.last() != '\r',
        whole@ == (if cr {
            first.push('\r')
        } else {
            first
        }).push('\n') + rest@,
        call_ensures(lines, (whole,), a),
        call_ensures(lines, (rest,), b),
    ensures
        a@.len() == b@.len() + 1,
        a@[0]@ == first,
        forall|i: int| 0 <= i < b@.len() ==> (#[trigger] a@[i + 1])@ == b@[i]@,
{
    let s = whole@;
    let end: int = if cr {
        first.len() as int + 1
    } else {
        first.len() as int
    };
    assert forall|j: int| 0 <= j < end implies s[j] != '\n' by {
        if j < first.len() {
            assert(s[j] == first[j]);
        }
    }
    assert(s[end] == '\n');
    lemma_line_end_at(s, 0, end);
    assert(crate::text::line_text(s, 0, end) =~= first) by {
        if cr {
            assert(s[end - 1] == '\r');
        } else if first.len() > 0 {
            assert(s[end - 1] == first.last());
        }
    }
    assert(s.skip(end + 1) =~= rest@);
    lemma_lines_from_shift(s, end + 1, 0);
    let from = lines_from(s, 0);
    assert(from == seq![first] + lines_from(rest@, 0));
    assert(texts(a@) == from);
    assert(texts(a@).len() == a@.len());
    assert(texts(b@).len() == b@.len());
    assert(texts(a@)[0] == a@[0]@);
    assert forall|i: int| 0 <= i < b@.len() implies (#[trigger] a@[i + 1])@ == b@[i]@ by {
        assert(texts(a@)[i + 1] == a@[i + 1]@);
        assert(texts(b@)[i] == b@[i]@);
    }
}

/// A text without a line's end is one line; an empty one has none.
pub proof fn lemma_one_line_is_itself(s: &str, r: Vec<String>)
    requires
        call_ensures(lines, (s,), r),
        forall|j: int| 0 <= j < s@.len() ==> s@[j] != '\n',
    ensures
        s@.len() == 0 ==> r@.len() == 0,
        s@.len() > 0 ==> r@.len() == 1 && r@[0]@ == s@,
{
    assert(texts(r@).len() == r@.len());
    if s@.len() > 0 {
        lemma_line_end_at(s@, 0, s@.len() as int);
        assert(lines_from(s@, s@.len() as int + 1).len() == 0);
        assert(crate::text::line_text(s@, 0, s@.len() as int) =~= s@);
        assert(texts(r@)[0] == r@[0]@);
    }
}

/// Two spans merge into the smallest that covers both, which begins where the earlier one
/// does; the order does not matter, and a span merged with itself is itself.
pub proof fn lemma_merged_span_covers_both(a: Span, b: Span, ab: Span, ba: Span, aa: Span)
    requires
        call_ensures(Span::merge, (&a, &b), ab),
        call_ensures(Span::merge, (&b, &a), ba),
        call_ensures(Span::merge, (&a, &a), aa),
    ensures
        ab.start <= a.start && ab.start <= b.start && (ab.start == a.start || ab.start == b.start),
        ab.end >= a.end && ab.end >= b.end && (ab.end == a.end || ab.end == b.end),
        (ab.line, ab.col) == (a.line, a.col) || (ab.line, ab.col) == (b.line, b.col),
        ab.line < a.line || (ab.line == a.line && ab.col <= a.col),
        ab.line < b.line || (ab.line == b.line && ab.col <= b.col),
        ab.start == ba.start && ab.end == ba.end && ab.line == ba.line && ab.col == ba.col,
        aa.start == a.start && aa.end == a.end && aa.line == a.line && aa.col == a.col,
        a.file matches Some(f) ==> ab.file is Some && ab.file->0@ == f@,
        a.file is None ==> (b.file matches Some(f) ==> ab.file is Some && ab.file->0@ == f@),
        a.file is None && b.file is None ==> ab.file is None,
{
}

/// A span names its file, its line and its column, and so does the place it stands for;
/// a place without a file is in an unknown one.
pub proof fn lemma_span_names_its_place(a: Span, shown: String, loc: SourceLoc, place: String, unknown: bool)
    requires
        call_ensures(Span::render, (&a,), shown),
        call_ensures(Span::to_source_loc, (&a,), loc),
        call_ensures(SourceLoc::position, (&loc,), place),
        call_ensures(SourceLoc::is_unknown, (&loc,), unknown),
    ensures
        loc.line == a.line,
        loc.col == a.col,
        a.file matches Some(f) ==> loc.file@ == f@ && shown@ == f@ + ":"@ + (decimal(a.line as nat) + ":"@ + decimal(
            a.col as nat,
        )),
        a.file is None ==> unknown && shown@ == decimal(a.line as nat) + ":"@ + decimal(a.col as nat),
        place@ == loc.file@ + ":"@ + decimal(a.line as nat) + ":"@ + decimal(a.col as nat),
{
}

/// An error that is raised at a span is the error that was meant, at the span's place.
pub proof fn lemma_span_errors_stand_at_the_span(
    a: Span,
    msg: String,
    name: String,
    loc: SourceLoc,
    e: LError,
    u: LError,
    bare: LError,
    placed: LError,
)
    requires
        call_ensures(Span::compile_err, (&a, msg), e),
        call_ensures(Span::undefined_var, (&a, name), u),
        call_ensures(LError::compile_failure, (msg,), bare),
        call_ensures(LError::with_location, (bare, loc), placed),
    ensures
        e.kind == (ErrorKind::CompileError { message: msg }),
        e.location matches Some(l) && l.line == a.line && l.col == a.col,
        a.file matches Some(f) ==> (e.location->0).file@ == f@,
        u.kind matches ErrorKind::UndefinedVariable { name: n, suggestions } && n == name && suggestions@.len() == 0,
        u.location matches Some(l) && l.line == a.line && l.col == a.col,
        bare.location is None,
        placed.kind == e.kind,
        placed.location == Some(loc),
{
}

/// A token that is kept says what the borrowed one said.
pub proof fn lemma_kept_token_says_the_same(s: &str, n: i64, b: bool, a: OwnedToken, k: OwnedToken, i: OwnedToken, t: OwnedToken)
    requires
        call_ensures(OwnedToken::from_token, (Token::Symbol(s),), a),
        call_ensures(OwnedToken::from_token, (Token::Keyword(s),), k),
        call_ensures(OwnedToken::from_token, (Token::Integer(n),), i),
        call_ensures(OwnedToken::from_token, (Token::Bool(b),), t),
    ensures
        a matches OwnedToken::Symbol(x) && x@ == s@,
        k matches OwnedToken::Keyword(x) && x@ == s@,
        i == OwnedToken::Integer(n),
        t == OwnedToken::Bool(b),
{
}

/// The number that a text in base 16 spells.
pub open spec fn hex_value(s: Seq<char>) -> nat
    decreases s.len(),
{
    if s.len() == 0 {
        0
    } else {
        let c = s.last() as int;
        (16 * hex_value(s.drop_last()) + if c < 58 {
            c - 48
        } else {
            c - 87
        }) as nat
    }
}

/// A number in base 16 spells that number; with a width it has that many digits.
pub proof fn lemma_hex_spells_the_number(n: nat, width: nat)
    ensures
        hex_value(digits(n, 16)) == n,
        hex_padded(n, width).len() == width,
        n < 16 && width > 0 ==> hex_value(hex_padded(n, width)) == n,
    decreases n, width,
{
    let s = digits(n, 16);
    if n < 16 {
        assert(s.drop_last() =~= Seq::empty());
        assert(hex_value(s.drop_last()) == 0);
    } else {
        assert(s.drop_last() =~= digits(n / 16, 16));
        lemma_hex_spells_the_number(n / 16, 0);
        assert(16 * (n / 16) + n % 16 == n);
    }
    lemma_hex_width(n, width);
    if n < 16 && width > 0 {
        let t = hex_padded(n, width);
        assert(t.drop_last() =~= hex_padded(n / 16, (width - 1) as nat));
        lemma_hex_zeros((width - 1) as nat);
    }
}

proof fn lemma_hex_width(n: nat, width: nat)
    ensures
        hex_padded(n, width).len() == width,
    decreases width,
{
    if width > 0 {
        lemma_hex_width(n / 16, (width - 1) as nat);
    }
}

proof fn lemma_hex_zeros(width: nat)
    ensures
        hex_value(hex_padded(0, width)) == 0,
    decreases width,
{
    if width > 0 {
        let t = hex_padded(0, width);
        assert(t.drop_last() =~= hex_padded(0, (width - 1) as nat));
        lemma_hex_zeros((width - 1) as nat);
    }
}

} // verus!
