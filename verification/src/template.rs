//! Compile-time templates for heap literals.
//!
//! A quoted compound literal is carried as a template: plain data without heap
//! pointers, written inline in the instruction stream and built afresh each
//! time it is executed.

use vstd::prelude::*;
use vstd::utf8::encode_utf8;

use crate::bytes::{
    be4, be8, enc_str, lemma_occurs_bounds, lemma_occurs_byte, lemma_occurs_first, lemma_occurs_split,
    lemma_str_round_trip, lemma_val4, lemma_val8, occurs, parse_str,
    push_be4, push_be8, push_str, take4, take8, take_str, val4, val8,
};
use crate::span::{optional_text, Span};

verus! {

/// The immutable template of a heap literal. A float is held by its IEEE-754
/// bits, a symbol by its name.
pub enum ConstTemplate {
    Nil,
    EmptyList,
    Bool(bool),
    Int(i64),
    Float(u64),
    Symbol(String),
    Keyword(String),
    Str(String),
    StrMut(String),
    Pair(Box<ConstTemplate>, Box<ConstTemplate>),
    Array(Vec<ConstTemplate>),
    ArrayMut(Vec<ConstTemplate>),
    /// A hygiene-bearing macro-template symbol with its scope set.
    SyntaxSymbol { name: String, scopes: Vec<u32>, span: Span, scope_exempt: bool },
}

/// The data of a template.
pub enum Tree {
    Nil,
    EmptyList,
    Bool(bool),
    Int(i64),
    Float(u64),
    Symbol(Seq<char>),
    Keyword(Seq<char>),
    Str(Seq<char>),
    StrMut(Seq<char>),
    Pair(Box<Tree>, Box<Tree>),
    Array(Seq<Tree>),
    ArrayMut(Seq<Tree>),
    SyntaxSymbol {
        name: Seq<char>,
        scopes: Seq<u32>,
        start: usize,
        end: usize,
        line: u32,
        col: u32,
        file: Option<Seq<char>>,
        scope_exempt: bool,
    },
}

pub const TAG_NIL: u8 = 0;
pub const TAG_EMPTY_LIST: u8 = 1;
pub const TAG_BOOL: u8 = 2;
pub const TAG_INT: u8 = 3;
pub const TAG_FLOAT: u8 = 4;
pub const TAG_SYMBOL: u8 = 5;
pub const TAG_KEYWORD: u8 = 6;
pub const TAG_STRING: u8 = 7;
pub const TAG_STRING_MUT: u8 = 8;
pub const TAG_PAIR: u8 = 9;
pub const TAG_ARRAY: u8 = 10;
pub const TAG_ARRAY_MUT: u8 = 11;
pub const TAG_SYNTAX_SYMBOL: u8 = 12;

/// A flag as a byte.
pub open spec fn flag(b: bool) -> Seq<u8> {
    if b {
        seq![1u8]
    } else {
        seq![0u8]
    }
}

/// A run of 32-bit numbers.
pub open spec fn enc_words(words: Seq<u32>) -> Seq<u8>
    decreases words.len(),
{
    if words.len() == 0 {
        Seq::empty()
    } else {
        enc_words(words.drop_last()) + be4(words.last())
    }
}

/// An optional string: a presence byte, and the string where there is one.
pub open spec fn enc_file(file: Option<Seq<char>>) -> Seq<u8> {
    match file {
        Some(f) => seq![1u8] + enc_str(f),
        None => seq![0u8],
    }
}

/// The bytes of a template: its tag, and its contents in order. Each node's
/// size follows from its tag and contents, so no length table is needed.
pub open spec fn enc(t: Tree) -> Seq<u8>
    decreases t,
{
    match t {
        Tree::Nil => seq![TAG_NIL],
        Tree::EmptyList => seq![TAG_EMPTY_LIST],
        Tree::Bool(b) => seq![TAG_BOOL] + flag(b),
        Tree::Int(n) => seq![TAG_INT] + be8(n as u64),
        Tree::Float(f) => seq![TAG_FLOAT] + be8(f),
        Tree::Symbol(s) => seq![TAG_SYMBOL] + enc_str(s),
        Tree::Keyword(s) => seq![TAG_KEYWORD] + enc_str(s),
        Tree::Str(s) => seq![TAG_STRING] + enc_str(s),
        Tree::StrMut(s) => seq![TAG_STRING_MUT] + enc_str(s),
        Tree::Pair(a, b) => seq![TAG_PAIR] + (enc(*a) + enc(*b)),
        Tree::Array(s) => seq![TAG_ARRAY] + (be4(s.len() as u32) + enc_all(s)),
        Tree::ArrayMut(s) => seq![TAG_ARRAY_MUT] + (be4(s.len() as u32) + enc_all(s)),
        Tree::SyntaxSymbol { name, scopes, start, end, line, col, file, scope_exempt } => seq![
            TAG_SYNTAX_SYMBOL,
        ] + (enc_str(name) + (be4(scopes.len() as u32) + (enc_words(scopes) + (be8(start as u64) + (be8(
            end as u64,
        ) + (be4(line) + (be4(col) + (enc_file(file) + flag(scope_exempt))))))))),
    }
}

/// The bytes of a run of templates.
pub open spec fn enc_all(s: Seq<Tree>) -> Seq<u8>
    decreases s,
{
    if s.len() == 0 {
        Seq::empty()
    } else {
        enc(s[0]) + enc_all(s.subrange(1, s.len() as int))
    }
}

/// Every length of the template fits the 32 bits it is written in.
pub open spec fn sizable(t: Tree) -> bool
    decreases t,
{
    match t {
        Tree::Symbol(s) => encode_utf8(s).len() <= u32::MAX,
        Tree::Keyword(s) => encode_utf8(s).len() <= u32::MAX,
        Tree::Str(s) => encode_utf8(s).len() <= u32::MAX,
        Tree::StrMut(s) => encode_utf8(s).len() <= u32::MAX,
        Tree::Pair(a, b) => sizable(*a) && sizable(*b),
        Tree::Array(s) => s.len() <= u32::MAX && all_sizable(s),
        Tree::ArrayMut(s) => s.len() <= u32::MAX && all_sizable(s),
        Tree::SyntaxSymbol { name, scopes, file, .. } => encode_utf8(name).len() <= u32::MAX
            && scopes.len() <= u32::MAX && (file is Some ==> encode_utf8(file->0).len() <= u32::MAX),
        _ => true,
    }
}

/// Every template of a run is sizable.
pub open spec fn all_sizable(s: Seq<Tree>) -> bool
    decreases s,
{
    s.len() > 0 ==> sizable(s[0]) && all_sizable(s.subrange(1, s.len() as int))
}

/// `count` numbers at `ip`.
pub open spec fn parse_words(bytes: Seq<u8>, ip: int, count: nat) -> Option<(Seq<u32>, int)>
    decreases count,
{
    if count == 0 {
        Some((Seq::empty(), ip))
    } else {
        match parse_words(bytes, ip, (count - 1) as nat) {
            Some((s, at)) => if at + 4 > bytes.len() {
                None
            } else {
                Some((s.push(val4(bytes, at)), at + 4))
            },
            None => None,
        }
    }
}

/// The optional string at `ip`.
pub open spec fn parse_file(bytes: Seq<u8>, ip: int) -> Option<(Option<Seq<char>>, int)> {
    if ip >= bytes.len() {
        None
    } else if bytes[ip] != 0 {
        match parse_str(bytes, ip + 1) {
            Some((s, at)) => Some((Some(s), at)),
            None => None,
        }
    } else {
        Some((None, ip + 1))
    }
}

/// The contents of a syntax symbol at `ip`.
pub open spec fn parse_syntax(bytes: Seq<u8>, ip: int) -> Option<(Tree, int)> {
    match parse_str(bytes, ip) {
        None => None,
        Some((name, at)) => if at + 4 > bytes.len() {
            None
        } else {
            match parse_words(bytes, at + 4, val4(bytes, at) as nat) {
                None => None,
                Some((scopes, at)) => if at + 24 > bytes.len() {
                    None
                } else {
                    match parse_file(bytes, at + 24) {
                        None => None,
                        Some((file, last)) => if last >= bytes.len() {
                            None
                        } else {
                            Some(
                                (
                                    Tree::SyntaxSymbol {
                                        name,
                                        scopes,
                                        start: val8(bytes, at) as usize,
                                        end: val8(bytes, at + 8) as usize,
                                        line: val4(bytes, at + 16),
                                        col: val4(bytes, at + 20),
                                        file,
                                        scope_exempt: bytes[last] != 0,
                                    },
                                    last + 1,
                                ),
                            )
                        },
                    }
                },
            }
        },
    }
}

/// The template at `ip`, with where it ends, if one stands there.
pub open spec fn parse(bytes: Seq<u8>, ip: int) -> Option<(Tree, int)>
    decreases bytes.len() - ip, 0nat,
{
    if ip < 0 || ip >= bytes.len() {
        None
    } else {
        let tag = bytes[ip];
        let at = ip + 1;
        if tag == TAG_NIL {
            Some((Tree::Nil, at))
        } else if tag == TAG_EMPTY_LIST {
            Some((Tree::EmptyList, at))
        } else if tag == TAG_BOOL {
            if at >= bytes.len() {
                None
            } else {
                Some((Tree::Bool(bytes[at] != 0), at + 1))
            }
        } else if tag == TAG_INT {
            if at + 8 > bytes.len() {
                None
            } else {
                Some((Tree::Int(val8(bytes, at) as i64), at + 8))
            }
        } else if tag == TAG_FLOAT {
            if at + 8 > bytes.len() {
                None
            } else {
                Some((Tree::Float(val8(bytes, at)), at + 8))
            }
        } else if tag == TAG_SYMBOL {
            match parse_str(bytes, at) {
                Some((s, at)) => Some((Tree::Symbol(s), at)),
                None => None,
            }
        } else if tag == TAG_KEYWORD {
            match parse_str(bytes, at) {
                Some((s, at)) => Some((Tree::Keyword(s), at)),
                None => None,
            }
        } else if tag == TAG_STRING {
            match parse_str(bytes, at) {
                Some((s, at)) => Some((Tree::Str(s), at)),
                None => None,
            }
        } else if tag == TAG_STRING_MUT {
            match parse_str(bytes, at) {
                Some((s, at)) => Some((Tree::StrMut(s), at)),
                None => None,
            }
        } else if tag == TAG_PAIR {
            match parse(bytes, at) {
                Some((a, mid)) => if mid <= at || mid > bytes.len() {
                    None
                } else {
                    match parse(bytes, mid) {
                        Some((b, end)) => Some((Tree::Pair(Box::new(a), Box::new(b)), end)),
                        None => None,
                    }
                },
                None => None,
            }
        } else if tag == TAG_ARRAY {
            if at + 4 > bytes.len() {
                None
            } else {
                match parse_all(bytes, at + 4, val4(bytes, at) as nat) {
                    Some((s, end)) => Some((Tree::Array(s), end)),
                    None => None,
                }
            }
        } else if tag == TAG_ARRAY_MUT {
            if at + 4 > bytes.len() {
                None
            } else {
                match parse_all(bytes, at + 4, val4(bytes, at) as nat) {
                    Some((s, end)) => Some((Tree::ArrayMut(s), end)),
                    None => None,
                }
            }
        } else if tag == TAG_SYNTAX_SYMBOL {
            parse_syntax(bytes, at)
        } else {
            None
        }
    }
}

/// `count` templates at `ip`.
pub open spec fn parse_all(bytes: Seq<u8>, ip: int, count: nat) -> Option<(Seq<Tree>, int)>
    decreases bytes.len() - ip, count + 1,
{
    if count == 0 {
        Some((Seq::empty(), ip))
    } else if ip < 0 || ip >= bytes.len() {
        None
    } else {
        match parse(bytes, ip) {
            Some((t, at)) => if at <= ip || at > bytes.len() {
                None
            } else {
                match parse_all(bytes, at, (count - 1) as nat) {
                    Some((s, end)) => Some((seq![t] + s, end)),
                    None => None,
                }
            },
            None => None,
        }
    }
}

proof fn lemma_words_round_trip(bytes: Seq<u8>, ip: int, words: Seq<u32>)
    requires
        occurs(bytes, ip, enc_words(words)),
    ensures
        enc_words(words).len() == 4 * words.len(),
        parse_words(bytes, ip, words.len()) == Some((words, ip + 4 * words.len())),
    decreases words.len(),
{
    if words.len() > 0 {
        let init = words.drop_last();
        lemma_occurs_split(bytes, ip, enc_words(init), be4(words.last()));
        lemma_words_round_trip(bytes, ip, init);
        lemma_val4(bytes, ip + 4 * init.len(), words.last());
        assert(init.push(words.last()) =~= words);
    } else {
        assert(words =~= Seq::empty());
    }
}

proof fn lemma_file_round_trip(bytes: Seq<u8>, ip: int, file: Option<Seq<char>>)
    requires
        occurs(bytes, ip, enc_file(file)),
        file is Some ==> encode_utf8(file->0).len() <= u32::MAX,
    ensures
        parse_file(bytes, ip) == Some((file, ip + enc_file(file).len())),
{
    match file {
        Some(f) => {
            lemma_occurs_first(bytes, ip, 1u8, enc_str(f));
            lemma_str_round_trip(bytes, ip + 1, f);
        },
        None => {
            lemma_occurs_byte(bytes, ip, 0u8);
        },
    }
}

proof fn lemma_syntax_round_trip(bytes: Seq<u8>, ip: int, t: Tree)
    requires
        t is SyntaxSymbol,
        sizable(t),
        occurs(bytes, ip, enc(t)),
    ensures
        parse_syntax(bytes, ip + 1) == Some((t, ip + enc(t).len())),
        bytes[ip] == TAG_SYNTAX_SYMBOL,
{
    match t {
        Tree::SyntaxSymbol { name, scopes, start, end, line, col, file, scope_exempt } => {
            let s9 = flag(scope_exempt);
            let s8 = enc_file(file) + s9;
            let s7 = be4(col) + s8;
            let s6 = be4(line) + s7;
            let s5 = be8(end as u64) + s6;
            let s4 = be8(start as u64) + s5;
            let s3 = enc_words(scopes) + s4;
            let s2 = be4(scopes.len() as u32) + s3;
            let s1 = enc_str(name) + s2;
            lemma_occurs_first(bytes, ip, TAG_SYNTAX_SYMBOL, s1);
            let p1 = ip + 1;
            lemma_occurs_split(bytes, p1, enc_str(name), s2);
            lemma_str_round_trip(bytes, p1, name);
            let p2 = p1 + enc_str(name).len();
            lemma_occurs_split(bytes, p2, be4(scopes.len() as u32), s3);
            lemma_val4(bytes, p2, scopes.len() as u32);
            let p3 = p2 + 4;
            lemma_occurs_split(bytes, p3, enc_words(scopes), s4);
            lemma_words_round_trip(bytes, p3, scopes);
            let p4 = p3 + 4 * scopes.len();
            lemma_occurs_split(bytes, p4, be8(start as u64), s5);
            lemma_val8(bytes, p4, start as u64);
            lemma_occurs_split(bytes, p4 + 8, be8(end as u64), s6);
            lemma_val8(bytes, p4 + 8, end as u64);
            lemma_occurs_split(bytes, p4 + 16, be4(line), s7);
            lemma_val4(bytes, p4 + 16, line);
            lemma_occurs_split(bytes, p4 + 20, be4(col), s8);
            lemma_val4(bytes, p4 + 20, col);
            let p8 = p4 + 24;
            lemma_occurs_split(bytes, p8, enc_file(file), s9);
            lemma_file_round_trip(bytes, p8, file);
            let last = p8 + enc_file(file).len();
            lemma_occurs_byte(bytes, last, s9[0]);
        },
        _ => {},
    }
}

proof fn lemma_leaf_round_trip(bytes: Seq<u8>, ip: int, t: Tree)
    requires
        sizable(t),
        occurs(bytes, ip, enc(t)),
        !(t is Pair),
        !(t is Array),
        !(t is ArrayMut),
        !(t is SyntaxSymbol),
    ensures
        enc(t).len() >= 1,
        parse(bytes, ip) == Some((t, ip + enc(t).len())),
{
    match t {
        Tree::Nil => {
            lemma_occurs_byte(bytes, ip, TAG_NIL);
        },
        Tree::EmptyList => {
            lemma_occurs_byte(bytes, ip, TAG_EMPTY_LIST);
        },
        Tree::Bool(b) => {
            lemma_occurs_first(bytes, ip, TAG_BOOL, flag(b));
            lemma_occurs_byte(bytes, ip + 1, flag(b)[0]);
        },
        Tree::Int(n) => {
            lemma_occurs_first(bytes, ip, TAG_INT, be8(n as u64));
            lemma_val8(bytes, ip + 1, n as u64);
            assert((n as u64) as i64 == n) by (bit_vector);
        },
        Tree::Float(f) => {
            lemma_occurs_first(bytes, ip, TAG_FLOAT, be8(f));
            lemma_val8(bytes, ip + 1, f);
        },
        Tree::Symbol(x) => {
            lemma_occurs_first(bytes, ip, TAG_SYMBOL, enc_str(x));
            lemma_str_round_trip(bytes, ip + 1, x);
        },
        Tree::Keyword(x) => {
            lemma_occurs_first(bytes, ip, TAG_KEYWORD, enc_str(x));
            lemma_str_round_trip(bytes, ip + 1, x);
        },
        Tree::Str(x) => {
            lemma_occurs_first(bytes, ip, TAG_STRING, enc_str(x));
            lemma_str_round_trip(bytes, ip + 1, x);
        },
        Tree::StrMut(x) => {
            lemma_occurs_first(bytes, ip, TAG_STRING_MUT, enc_str(x));
            lemma_str_round_trip(bytes, ip + 1, x);
        },
        _ => {},
    }
}

/// Reading back: where a template's bytes stand in a stream, decoding at their
/// start gives that template and stops exactly at their end.
#[verifier::rlimit(60)]
#[verifier::spinoff_prover]
pub proof fn lemma_round_trip(bytes: Seq<u8>, ip: int, t: Tree)
    requires
        sizable(t),
        occurs(bytes, ip, enc(t)),
    ensures
        enc(t).len() >= 1,
        parse(bytes, ip) == Some((t, ip + enc(t).len())),
        ip + enc(t).len() <= bytes.len(),
    decreases t,
{
    lemma_occurs_bounds(bytes, ip, enc(t));
    match t {
        Tree::Pair(a, b) => {
            lemma_occurs_first(bytes, ip, TAG_PAIR, enc(*a) + enc(*b));
            lemma_occurs_split(bytes, ip + 1, enc(*a), enc(*b));
            lemma_round_trip(bytes, ip + 1, *a);
            lemma_round_trip(bytes, ip + 1 + enc(*a).len(), *b);
        },
        Tree::Array(items) => {
            let n = items.len() as u32;
            lemma_occurs_first(bytes, ip, TAG_ARRAY, be4(n) + enc_all(items));
            lemma_occurs_split(bytes, ip + 1, be4(n), enc_all(items));
            lemma_val4(bytes, ip + 1, n);
            lemma_round_trip_all(bytes, ip + 5, items);
        },
        Tree::ArrayMut(items) => {
            let n = items.len() as u32;
            lemma_occurs_first(bytes, ip, TAG_ARRAY_MUT, be4(n) + enc_all(items));
            lemma_occurs_split(bytes, ip + 1, be4(n), enc_all(items));
            lemma_val4(bytes, ip + 1, n);
            lemma_round_trip_all(bytes, ip + 5, items);
        },
        Tree::SyntaxSymbol { .. } => {
            lemma_syntax_round_trip(bytes, ip, t);
        },
        _ => {
            lemma_leaf_round_trip(bytes, ip, t);
        },
    }
}

proof fn lemma_round_trip_all(bytes: Seq<u8>, ip: int, items: Seq<Tree>)
    requires
        all_sizable(items),
        occurs(bytes, ip, enc_all(items)),
    ensures
        parse_all(bytes, ip, items.len()) == Some((items, ip + enc_all(items).len())),
    decreases items,
{
    if items.len() > 0 {
        let rest = items.subrange(1, items.len() as int);
        lemma_occurs_split(bytes, ip, enc(items[0]), enc_all(rest));
        lemma_round_trip(bytes, ip, items[0]);
        lemma_round_trip_all(bytes, ip + enc(items[0]).len(), rest);
        assert(seq![items[0]] + rest =~= items);
    } else {
        assert(items =~= Seq::empty());
    }
}

impl ConstTemplate {
    /// The template's data.
    pub open spec fn tree(self) -> Tree
        decreases self,
    {
        match self {
            ConstTemplate::Nil => Tree::Nil,
            ConstTemplate::EmptyList => Tree::EmptyList,
            ConstTemplate::Bool(b) => Tree::Bool(b),
            ConstTemplate::Int(n) => Tree::Int(n),
            ConstTemplate::Float(f) => Tree::Float(f),
            ConstTemplate::Symbol(s) => Tree::Symbol(s@),
            ConstTemplate::Keyword(s) => Tree::Keyword(s@),
            ConstTemplate::Str(s) => Tree::Str(s@),
            ConstTemplate::StrMut(s) => Tree::StrMut(s@),
            ConstTemplate::Pair(a, b) => Tree::Pair(Box::new(a.tree()), Box::new(b.tree())),
            ConstTemplate::Array(v) => Tree::Array(
                Seq::new(
                    v@.len(),
                    |i: int|
                        if 0 <= i < v@.len() {
                            v@[i].tree()
                        } else {
                            Tree::Nil
                        },
                ),
            ),
            ConstTemplate::ArrayMut(v) => Tree::ArrayMut(
                Seq::new(
                    v@.len(),
                    |i: int|
                        if 0 <= i < v@.len() {
                            v@[i].tree()
                        } else {
                            Tree::Nil
                        },
                ),
            ),
            ConstTemplate::SyntaxSymbol { name, scopes, span, scope_exempt } => Tree::SyntaxSymbol {
                name: name@,
                scopes: scopes@,
                start: span.start,
                end: span.end,
                line: span.line,
                col: span.col,
                file: optional_text(span.file),
                scope_exempt,
            },
        }
    }

    /// Write this template into an instruction stream, root first.
    pub fn encode(&self, out: &mut Vec<u8>)
        ensures
            final(out)@ == old(out)@ + enc(self.tree()),
        decreases self,
    {
        let ghost before = out@;
        match self {
            ConstTemplate::Nil => {
                out.push(TAG_NIL);
                assert(out@ =~= before + enc(self.tree()));
            },
            ConstTemplate::EmptyList => {
                out.push(TAG_EMPTY_LIST);
                assert(out@ =~= before + enc(self.tree()));
            },
            ConstTemplate::Bool(b) => {
                out.push(TAG_BOOL);
                out.push(if *b { 1 } else { 0 });
                assert(out@ =~= before + enc(self.tree()));
            },
            ConstTemplate::Int(n) => {
                out.push(TAG_INT);
                push_be8(out, *n as u64);
                assert(out@ =~= before + enc(self.tree()));
            },
            ConstTemplate::Float(f) => {
                out.push(TAG_FLOAT);
                push_be8(out, *f);
                assert(out@ =~= before + enc(self.tree()));
            },
            ConstTemplate::Symbol(s) => {
                out.push(TAG_SYMBOL);
                push_str(out, s);
                assert(out@ =~= before + enc(self.tree()));
            },
            ConstTemplate::Keyword(s) => {
                out.push(TAG_KEYWORD);
                push_str(out, s);
                assert(out@ =~= before + enc(self.tree()));
            },
            ConstTemplate::Str(s) => {
                out.push(TAG_STRING);
                push_str(out, s);
                assert(out@ =~= before + enc(self.tree()));
            },
            ConstTemplate::StrMut(s) => {
                out.push(TAG_STRING_MUT);
                push_str(out, s);
                assert(out@ =~= before + enc(self.tree()));
            },
            ConstTemplate::Pair(a, b) => {
                out.push(TAG_PAIR);
                a.encode(out);
                b.encode(out);
                assert(out@ =~= before + enc(self.tree()));
            },
            ConstTemplate::Array(v) => {
                out.push(TAG_ARRAY);
                push_be4(out, v.len() as u32);
                encode_all(v, out);
                assert(self.tree()->Array_0 =~= trees(v@));
                assert(out@ =~= before + enc(self.tree()));
            },
            ConstTemplate::ArrayMut(v) => {
                out.push(TAG_ARRAY_MUT);
                push_be4(out, v.len() as u32);
                encode_all(v, out);
                assert(self.tree()->ArrayMut_0 =~= trees(v@));
                assert(out@ =~= before + enc(self.tree()));
            },
            ConstTemplate::SyntaxSymbol { name, scopes, span, scope_exempt } => {
                encode_syntax(name, scopes, span, *scope_exempt, out);
            },
        }
    }

    /// Read the template at `ip` and step past it. The stream holds one there:
    /// it was written by `encode`.
    pub fn decode(bytes: &[u8], ip: &mut usize) -> (r: ConstTemplate)
        requires
            parse(bytes@, *old(ip) as int) is Some,
        ensures
            Some((r.tree(), *final(ip) as int)) == parse(bytes@, *old(ip) as int),
        decreases bytes@.len() - *old(ip), 0nat,
    {
        let tag: u8 = bytes[*ip];
        *ip = *ip + 1;
        match tag {
            TAG_NIL => ConstTemplate::Nil,
            TAG_EMPTY_LIST => ConstTemplate::EmptyList,
            TAG_BOOL => {
                let b = bytes[*ip] != 0;
                *ip = *ip + 1;
                ConstTemplate::Bool(b)
            },
            TAG_INT => ConstTemplate::Int(take8(bytes, ip) as i64),
            TAG_FLOAT => ConstTemplate::Float(take8(bytes, ip)),
            TAG_SYMBOL => ConstTemplate::Symbol(take_str(bytes, ip)),
            TAG_KEYWORD => ConstTemplate::Keyword(take_str(bytes, ip)),
            TAG_STRING => ConstTemplate::Str(take_str(bytes, ip)),
            TAG_STRING_MUT => ConstTemplate::StrMut(take_str(bytes, ip)),
            TAG_PAIR => {
                let car = ConstTemplate::decode(bytes, ip);
                let cdr = ConstTemplate::decode(bytes, ip);
                ConstTemplate::Pair(Box::new(car), Box::new(cdr))
            },
            TAG_ARRAY => {
                let count: u32 = take4(bytes, ip);
                let items = decode_all(bytes, ip, count);
                let r = ConstTemplate::Array(items);
                assert(r.tree()->Array_0 =~= trees(items@));
                r
            },
            TAG_ARRAY_MUT => {
                let count: u32 = take4(bytes, ip);
                let items = decode_all(bytes, ip, count);
                let r = ConstTemplate::ArrayMut(items);
                assert(r.tree()->ArrayMut_0 =~= trees(items@));
                r
            },
            _ => {
                let name = take_str(bytes, ip);
                let n: u32 = take4(bytes, ip);
                let scopes = decode_words(bytes, ip, n);
                let start: usize = take8(bytes, ip) as usize;
                let end: usize = take8(bytes, ip) as usize;
                let line: u32 = take4(bytes, ip);
                let col: u32 = take4(bytes, ip);
                let present = bytes[*ip] != 0;
                *ip = *ip + 1;
                let file = if present {
                    Some(take_str(bytes, ip))
                } else {
                    None
                };
                let scope_exempt = bytes[*ip] != 0;
                *ip = *ip + 1;
                let mut span = Span::new(start, end, line, col);
                span.file = file;
                ConstTemplate::SyntaxSymbol { name, scopes, span, scope_exempt }
            },
        }
    }
}

/// The data of a run of templates.
pub open spec fn trees(s: Seq<ConstTemplate>) -> Seq<Tree> {
    Seq::new(s.len(), |i: int| s[i].tree())
}

proof fn lemma_enc_all_push(s: Seq<Tree>, t: Tree)
    ensures
        enc_all(s.push(t)) == enc_all(s) + enc(t),
    decreases s.len(),
{
    if s.len() == 0 {
        assert(s.push(t).subrange(1, 1) =~= Seq::empty());
        assert(s =~= Seq::empty());
        assert(enc_all(Seq::<Tree>::empty()) =~= Seq::empty());
        assert(enc_all(s.push(t)) =~= enc_all(s) + enc(t));
    } else {
        let rest = s.subrange(1, s.len() as int);
        lemma_enc_all_push(rest, t);
        assert(s.push(t).subrange(1, s.len() as int + 1) =~= rest.push(t));
        assert(enc_all(s.push(t)) =~= enc_all(s) + enc(t));
    }
}

fn encode_syntax(name: &String, scopes: &Vec<u32>, span: &Span, scope_exempt: bool, out: &mut Vec<u8>)
    ensures
        final(out)@ == old(out)@ + enc(
            Tree::SyntaxSymbol {
                name: name@,
                scopes: scopes@,
                start: span.start,
                end: span.end,
                line: span.line,
                col: span.col,
                file: optional_text(span.file),
                scope_exempt,
            },
        ),
{
    let ghost a0 = out@;
    out.push(TAG_SYNTAX_SYMBOL);
    let ghost a1 = out@;
    assert(a1 =~= a0 + seq![TAG_SYNTAX_SYMBOL]);
    push_str(out, name);
    let ghost a2 = out@;
    push_be4(out, scopes.len() as u32);
    let ghost a3 = out@;
    encode_words(scopes, out);
    let ghost a4 = out@;
    push_be8(out, span.start as u64);
    let ghost a5 = out@;
    push_be8(out, span.end as u64);
    let ghost a6 = out@;
    push_be4(out, span.line);
    let ghost a7 = out@;
    push_be4(out, span.col);
    let ghost a8 = out@;
    encode_file(&span.file, out);
    let ghost a9 = out@;
    out.push(if scope_exempt { 1 } else { 0 });
    proof {
        let x = flag(scope_exempt);
        assert(out@ =~= a9 + x);
        let s8 = enc_file(optional_text(span.file)) + x;
        let s7 = be4(span.col) + s8;
        let s6 = be4(span.line) + s7;
        let s5 = be8(span.end as u64) + s6;
        let s4 = be8(span.start as u64) + s5;
        let s3 = enc_words(scopes@) + s4;
        let s2 = be4(scopes@.len() as u32) + s3;
        let s1 = enc_str(name@) + s2;
        lemma_add_assoc(a8, enc_file(optional_text(span.file)), x);
        lemma_add_assoc(a7, be4(span.col), s8);
        lemma_add_assoc(a6, be4(span.line), s7);
        lemma_add_assoc(a5, be8(span.end as u64), s6);
        lemma_add_assoc(a4, be8(span.start as u64), s5);
        lemma_add_assoc(a3, enc_words(scopes@), s4);
        lemma_add_assoc(a2, be4(scopes@.len() as u32), s3);
        lemma_add_assoc(a1, enc_str(name@), s2);
        lemma_add_assoc(a0, seq![TAG_SYNTAX_SYMBOL], s1);
    }
}

proof fn lemma_add_assoc(a: Seq<u8>, b: Seq<u8>, c: Seq<u8>)
    ensures
        (a + b) + c == a + (b + c),
{
    assert((a + b) + c =~= a + (b + c));
}

fn encode_words(words: &Vec<u32>, out: &mut Vec<u8>)
    ensures
        final(out)@ == old(out)@ + enc_words(words@),
{
    let ghost here = out@;
    let mut i: usize = 0;
    assert(here =~= here + enc_words(words@.take(0)));
    while i < words.len()
        invariant
            i <= words@.len(),
            out@ == here + enc_words(words@.take(i as int)),
        decreases words.len() - i,
    {
        push_be4(out, words[i]);
        i = i + 1;
        assert(words@.take(i as int).drop_last() =~= words@.take(i - 1));
        assert(out@ =~= here + enc_words(words@.take(i as int)));
    }
    assert(words@.take(i as int) =~= words@);
}

fn encode_file(file: &Option<String>, out: &mut Vec<u8>)
    ensures
        final(out)@ == old(out)@ + enc_file(optional_text(*file)),
{
    let ghost here = out@;
    match file {
        Some(f) => {
            out.push(1);
            push_str(out, f);
        },
        None => {
            out.push(0);
        },
    }
    assert(out@ =~= here + enc_file(optional_text(*file)));
}

fn encode_all(items: &Vec<ConstTemplate>, out: &mut Vec<u8>)
    ensures
        final(out)@ == old(out)@ + enc_all(trees(items@)),
    decreases items,
{
    let ghost before = out@;
    let mut i: usize = 0;
    assert(trees(items@).take(0) =~= Seq::empty());
    while i < items.len()
        invariant
            i <= items@.len(),
            out@ == before + enc_all(trees(items@).take(i as int)),
        decreases items.len() - i,
    {
        assert(decreases_to!(items => items@[i as int]));
        items[i].encode(out);
        proof {
            lemma_enc_all_push(trees(items@).take(i as int), items@[i as int].tree());
            assert(trees(items@).take(i + 1) =~= trees(items@).take(i as int).push(
                items@[i as int].tree(),
            ));
        }
        i = i + 1;
        assert(out@ =~= before + enc_all(trees(items@).take(i as int)));
    }
    assert(trees(items@).take(i as int) =~= trees(items@));
}

proof fn lemma_parse_all_step(bytes: Seq<u8>, ip: int, count: nat)
    requires
        parse_all(bytes, ip, count) is Some,
        count > 0,
    ensures
        parse(bytes, ip) is Some,
        (parse(bytes, ip)->0).1 > ip,
        parse_all(bytes, (parse(bytes, ip)->0).1, (count - 1) as nat) is Some,
        parse_all(bytes, ip, count) == Some(
            (
                seq![(parse(bytes, ip)->0).0] + (parse_all(
                    bytes,
                    (parse(bytes, ip)->0).1,
                    (count - 1) as nat,
                )->0).0,
                (parse_all(bytes, (parse(bytes, ip)->0).1, (count - 1) as nat)->0).1,
            ),
        ),
{
}

fn decode_all(bytes: &[u8], ip: &mut usize, count: u32) -> (r: Vec<ConstTemplate>)
    requires
        parse_all(bytes@, *old(ip) as int, count as nat) is Some,
    ensures
        Some((trees(r@), *final(ip) as int)) == parse_all(bytes@, *old(ip) as int, count as nat),
    decreases bytes@.len() - *old(ip), count + 1,
{
    let ghost start = *ip as int;
    let mut out: Vec<ConstTemplate> = Vec::new();
    let mut left: u32 = count;
    let ghost whole = parse_all(bytes@, start, count as nat);
    assert(trees(out@) =~= Seq::empty());
    assert((whole->0).0 =~= trees(out@) + (whole->0).0);
    while left > 0
        invariant
            start == *old(ip),
            start <= *ip,
            left <= count,
            left < count ==> start < *ip,
            whole is Some,
            parse_all(bytes@, *ip as int, left as nat) is Some,
            (whole->0).0 == trees(out@) + (parse_all(bytes@, *ip as int, left as nat)->0).0,
            (whole->0).1 == (parse_all(bytes@, *ip as int, left as nat)->0).1,
        decreases left,
    {
        proof {
            lemma_parse_all_step(bytes@, *ip as int, left as nat);
        }
        let ghost here = *ip as int;
        let ghost had = trees(out@);
        let t = ConstTemplate::decode(bytes, ip);
        out.push(t);
        left = left - 1;
        proof {
            assert(trees(out@) =~= had.push(t.tree()));
            let rest = (parse_all(bytes@, *ip as int, left as nat)->0).0;
            assert(had + (seq![t.tree()] + rest) =~= had.push(t.tree()) + rest);
        }
    }
    assert(trees(out@) + Seq::<Tree>::empty() =~= trees(out@));
    out
}

proof fn lemma_parse_words_prefix(bytes: Seq<u8>, ip: int, count: nat, k: nat)
    requires
        parse_words(bytes, ip, count) is Some,
        k <= count,
    ensures
        parse_words(bytes, ip, k) is Some,
        (parse_words(bytes, ip, k)->0).1 == ip + 4 * k,
        k < count ==> ip + 4 * k + 4 <= bytes.len(),
    decreases count,
{
    if k < count {
        lemma_parse_words_prefix(bytes, ip, (count - 1) as nat, k);
        if k == count - 1 {
        }
    } else if count > 0 {
        lemma_parse_words_prefix(bytes, ip, (count - 1) as nat, (count - 1) as nat);
    }
}

fn decode_words(bytes: &[u8], ip: &mut usize, count: u32) -> (r: Vec<u32>)
    requires
        parse_words(bytes@, *old(ip) as int, count as nat) is Some,
    ensures
        Some((r@, *final(ip) as int)) == parse_words(bytes@, *old(ip) as int, count as nat),
{
    let ghost start = *ip as int;
    let mut out: Vec<u32> = Vec::new();
    let mut done: u32 = 0;
    assert(out@ =~= Seq::empty());
    while done < count
        invariant
            start == *old(ip),
            done <= count,
            parse_words(bytes@, start, count as nat) is Some,
            parse_words(bytes@, start, done as nat) == Some((out@, *ip as int)),
        decreases count - done,
    {
        proof {
            lemma_parse_words_prefix(bytes@, start, count as nat, done as nat);
        }
        let w: u32 = take4(bytes, ip);
        out.push(w);
        done = done + 1;
    }
    out
}

} // verus!
