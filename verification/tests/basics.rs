//! Texts, numbers, names, places and masks.

use elle_core::capturemask::CaptureMask;
use elle_core::error::ErrorKind;
use elle_core::fields::{get_field, put_field, text_before};
use elle_core::object::TableKey;
use elle_core::pagepool::{
    align_within, mapped_bytes, reset, ByteSpan, Claimed, MapGauge, MmapPage, PageDirty, PageHist, PagePool, Released,
    BASE_PAGE,
};
use elle_core::params::{find_binding, flatten_param_frames};
use elle_core::parse::{parse_signed, parse_unsigned, trim};
use elle_core::regionmap::{MappedRegion, RegionMap};
use elle_core::heap::{FiberHeap, RuntimeRegion};
use elle_core::registry::SignalRegistry;
use elle_core::searchpath::{
    file_name, is_native_library, parent, path_join, resolve_import, root_candidates, split_search_path, Resolution,
    SearchPlaces,
};
use elle_core::signalbits::SignalBits;
use elle_core::signals::{
    squelched_bits, Signal, CAP_MASK, SIG_DEBUG, SIG_ERROR, SIG_FS, SIG_FUEL, SIG_HALT, SIG_IO, SIG_OS_SIGNAL,
    SIG_SWITCH, SIG_YIELD, VM_INTERNAL,
};
use elle_core::span::Span;
use elle_core::symbol::{SymbolId, SymbolTable};
use elle_core::template::ConstTemplate;
use elle_core::text::{join, lines, push_decimal, push_hex, push_hex16, push_signed};
use elle_core::token::{OwnedToken, SourceLoc, Token, TokenWithLoc};
use elle_core::value::{Value, TAG_CONS};
use elle_core::vfs::{is_mounted, mount, mounted_count, read, unmount_all, Mounts};

#[test]
fn numbers_are_written_as_std_writes_them() {
    for n in [0u64, 7, 10, 255, 4096, u64::MAX] {
        let mut s = String::new();
        push_decimal(&mut s, n);
        assert_eq!(s, format!("{n}"));
        let mut s = String::new();
        push_hex(&mut s, n);
        assert_eq!(s, format!("{n:x}"));
        let mut s = String::new();
        push_hex16(&mut s, n);
        assert_eq!(s, format!("{n:016x}"));
    }
    for n in [0i64, -1, 12, i64::MIN, i64::MAX] {
        let mut s = String::new();
        push_signed(&mut s, n);
        assert_eq!(s, format!("{n}"));
    }
    assert_eq!(join(&vec!["a".to_string(), "b".to_string()], ", "), "a, b");
}

#[test]
fn lines_end_as_std_ends_them() {
    for text in ["", "a", "a\n", "a\nb", "a\r\nb\r\n", "\n\n", "a\rb", "a\r"] {
        let want: Vec<String> = text.lines().map(|l| l.to_string()).collect();
        assert_eq!(lines(text), want, "{text:?}");
    }
}

#[test]
fn numbers_are_read_as_std_reads_them() {
    for s in ["", "+", "-", "0", "00", "12", "+12", "-12", "1 2", "18446744073709551615", "18446744073709551616", "-9223372036854775808", "9223372036854775808", "x"] {
        assert_eq!(parse_unsigned(s, u64::MAX), s.parse::<u64>().ok(), "{s}");
        assert_eq!(parse_signed(s), s.parse::<i64>().ok(), "{s}");
    }
    assert_eq!(parse_unsigned("300", 255), None);
    assert_eq!(trim(" \t7\n"), "7");
}

#[test]
fn symbols_are_numbered_in_order() {
    let mut t = SymbolTable::new();
    let a = t.intern(&"a".to_string());
    let b = t.intern(&"b".to_string());
    assert_eq!((a, b), (SymbolId(0), SymbolId(1)));
    assert_eq!(t.intern(&"a".to_string()), a);
    assert_eq!(t.name(b), Some(&"b".to_string()));
    assert_eq!(t.name(SymbolId(2)), None);
    assert_eq!(t.lookup(&"c".to_string()), None);
    assert_eq!(t.len(), 2);
}

#[test]
fn signal_bits_are_a_set() {
    let a = SignalBits::new(SIG_ERROR | SIG_YIELD);
    let b = SignalBits::new(SIG_YIELD | SIG_IO);
    assert_eq!(a.union(b), SignalBits::new(SIG_ERROR | SIG_YIELD | SIG_IO));
    assert_eq!(a.intersection(b), SignalBits::new(SIG_YIELD));
    assert_eq!(a.subtract(b), SignalBits::new(SIG_ERROR));
    assert!(a.intersects(b) && a.covers(b) && a.covers(SignalBits::empty()));
    assert!(!a.covers(SignalBits::new(SIG_IO)));
    assert_eq!(a.complement().complement(), a);
    assert!(SignalBits::from_bit(9).has_bit(9));
    assert_eq!(SignalBits::from_bit(9).trailing_zeros(), 9);
    assert_eq!(SignalBits::empty().trailing_zeros(), 64);
    assert_eq!(a.render(), "0x3");
    assert_eq!(SignalBits::from_i64(-1), SignalBits::all());
}

#[test]
fn signals_combine_and_read_well() {
    let s = Signal::errors().combine(Signal::yields());
    assert_eq!(s, Signal::yields_errors());
    assert_eq!(Signal::combine_all(&vec![Signal::silent(), Signal::ffi()]), Signal::ffi());
    assert_eq!(Signal::silent().render(), "silent");
    assert_eq!(Signal::yields_errors().render(), "yields+errors");
    assert_eq!(Signal::io_yields_errors().render(), "io+errors");
    assert_eq!(Signal::of(SignalBits::new(SIG_HALT | SIG_DEBUG)).render(), "silent+halts+debug");
    let p = Signal::polymorphic(2).combine(Signal::polymorphic_errors(5));
    assert_eq!(p.propagated_params(), vec![2, 5]);
    assert_eq!(p.render(), "polymorphic(2,5)+errors");
    assert!(p.is_polymorphic() && p.may_suspend() && p.may_error() && !p.may_yield());
    assert!(!Signal::silent().may_suspend());
    let squelched = Signal::yields_errors().squelch(SignalBits::new(SIG_YIELD));
    assert!(!squelched.may_yield() && squelched.may_error());
    assert_eq!(CAP_MASK & VM_INTERNAL, 0);
    let all = SignalBits::all();
    assert_eq!(squelched_bits(SignalBits::new(SIG_YIELD), all), SignalBits::new(SIG_YIELD));
    assert!(squelched_bits(SignalBits::new(SIG_YIELD | SIG_ERROR), all).is_empty());
    assert!(squelched_bits(SignalBits::new(SIG_YIELD | SIG_HALT), all).is_empty());
    assert!(squelched_bits(SignalBits::new(SIG_SWITCH), all).is_empty());
    let compound = SignalBits::new(SIG_FUEL | SIG_DEBUG);
    assert_eq!(squelched_bits(compound, all), SignalBits::new(SIG_DEBUG));
}

#[test]
fn a_capture_mask_has_no_bound() {
    let mut m = CaptureMask::empty();
    assert!(m.is_empty());
    assert_eq!(m.render_hex(), "0");
    m.set(3);
    m.set(70);
    assert!(m.is_set(3) && m.is_set(70) && !m.is_set(69) && !m.is_set(1000));
    assert_eq!(m.low_u64(), 8);
    assert_eq!(m.render_hex(), "400000000000000008");
    assert_eq!(CaptureMask::from_words(m.words().clone()).words(), m.words());
    assert_eq!(CaptureMask::from_u64(5).low_u64(), 5);
}

#[test]
fn spans_merge_and_point() {
    let a = Span::new(3, 8, 2, 4).with_file("f.lisp".to_string());
    let b = Span::new(10, 12, 3, 1);
    let m = a.merge(&b);
    assert_eq!((m.start, m.end, m.line, m.col), (3, 12, 2, 4));
    assert_eq!(a.render(), "f.lisp:2:4");
    assert_eq!(b.render(), "3:1");
    let e = a.undefined_var("x".to_string());
    assert!(matches!(e.kind, ErrorKind::UndefinedVariable { .. }));
    assert_eq!(e.location.map(|l| l.position()), Some("f.lisp:2:4".to_string()));
    let e = b.compile_err("bad".to_string());
    assert!(matches!(e.kind, ErrorKind::CompileError { message } if message == "bad"));
}

#[test]
fn places_know_whether_they_are_known() {
    assert!(SourceLoc::from_line_col(1, 2).is_unknown());
    let at = SourceLoc::new("a.lisp".to_string(), 4, 5);
    assert!(!at.is_unknown());
    assert_eq!(at.position(), "a.lisp:4:5");
    assert_eq!(SourceLoc::start().with_file("b".to_string()).position(), "b:1:1");
    assert!(matches!(OwnedToken::from_token(Token::Symbol("x")), OwnedToken::Symbol(s) if s == "x"));
    let t = TokenWithLoc::new(Token::Nil, SourceLoc::start(), 3, 7);
    assert_eq!((t.len, t.byte_offset), (3, 7));
}

#[test]
fn mounted_sources_are_read_back() {
    let mut m = Mounts::new();
    mount(&mut m, "a.lisp".to_string(), "1".to_string());
    mount(&mut m, "b.lisp".to_string(), "2".to_string());
    mount(&mut m, "a.lisp".to_string(), "3".to_string());
    assert_eq!(mounted_count(&m), 2);
    assert_eq!(read(&m, &"a.lisp".to_string()), Some("3".to_string()));
    assert!(is_mounted(&m, &"b.lisp".to_string()));
    assert_eq!(read(&m, &"c.lisp".to_string()), None);
    unmount_all(&mut m);
    assert_eq!(mounted_count(&m), 0);
    assert!(!is_mounted(&m, &"a.lisp".to_string()));
}

#[test]
fn paths_behave_as_std_paths() {
    for p in ["a/b/c", "a", "/a", "/", "", "a/", "a/b/..", "./x"] {
        let want = std::path::Path::new(p);
        assert_eq!(parent(p), want.parent().map(|x| x.to_string_lossy().into_owned()), "{p}");
    }
    for p in ["a/b/c", "a", "/a", "/", ""] {
        let want = std::path::Path::new(p);
        assert_eq!(file_name(p), want.file_name().map(|x| x.to_string_lossy().into_owned()), "{p}");
    }
    for (a, b) in [("a", "b"), ("a/", "b"), ("", "b"), ("a", "/b"), ("a", "")] {
        let want = std::path::Path::new(a).join(b).to_string_lossy().into_owned();
        assert_eq!(path_join(a, b), want, "{a} {b}");
    }
    assert!(is_native_library("x.so") && is_native_library("x.dylib") && is_native_library("x.dll"));
    assert!(!is_native_library("x.lisp"));
    let want: Vec<String> = "a:b::c".split(':').map(|e| e.to_string()).collect();
    assert_eq!(split_search_path("a:b::c"), want);
    assert!(root_candidates("/usr/bin/elle").len() > 0);
}

#[test]
fn a_mounted_source_shadows_the_files() {
    let mut m = Mounts::new();
    let places = SearchPlaces {
        root: None,
        dirs: vec!["lib".to_string()],
        profiles: vec!["release".to_string()],
        dll_ext: "so".to_string(),
    };
    match resolve_import(&m, &"mod.lisp".to_string(), &places) {
        Resolution::Probe(paths) => {
            assert_eq!(paths[0], "mod.lisp");
            assert!(paths.contains(&"lib/mod.lisp".to_string()));
        }
        _ => panic!("nothing is mounted"),
    }
    mount(&mut m, "mod.lisp".to_string(), "1".to_string());
    assert!(matches!(resolve_import(&m, &"mod.lisp".to_string(), &places), Resolution::Mounted(p) if p == "mod.lisp"));
}

fn same(a: &ConstTemplate, b: &ConstTemplate) -> bool {
    let mut x = Vec::new();
    let mut y = Vec::new();
    a.encode(&mut x);
    b.encode(&mut y);
    x == y
}

#[test]
fn templates_survive_their_encoding() {
    let t = ConstTemplate::Array(vec![
        ConstTemplate::Int(-7),
        ConstTemplate::Float(1.5f64.to_bits()),
        ConstTemplate::Str("h\u{e9}".to_string()),
        ConstTemplate::Pair(Box::new(ConstTemplate::Bool(true)), Box::new(ConstTemplate::EmptyList)),
        ConstTemplate::ArrayMut(vec![ConstTemplate::Keyword("k".to_string()), ConstTemplate::Nil]),
        ConstTemplate::SyntaxSymbol {
            name: "s".to_string(),
            scopes: vec![1, 2],
            span: Span::new(1, 2, 3, 4).with_file("f".to_string()),
            scope_exempt: true,
        },
    ]);
    let mut bytes = vec![99u8];
    t.encode(&mut bytes);
    bytes.push(77);
    let mut ip: usize = 1;
    let back = ConstTemplate::decode(&bytes, &mut ip);
    assert_eq!(ip, bytes.len() - 1);
    assert!(same(&t, &back));
    match back {
        ConstTemplate::Array(items) => {
            assert_eq!(items.len(), 6);
            assert!(matches!(&items[2], ConstTemplate::Str(s) if s == "h\u{e9}"));
        }
        _ => panic!("not an array"),
    }
}

#[test]
fn encodings_are_exact() {
    let mut bytes = Vec::new();
    ConstTemplate::Bool(true).encode(&mut bytes);
    ConstTemplate::Keyword("ab".to_string()).encode(&mut bytes);
    assert_eq!(bytes, vec![2, 1, 6, 0, 0, 0, 2, b'a', b'b']);
}

#[test]
fn pages_are_recycled_by_size() {
    let mut pool = PagePool::new(BASE_PAGE, 3 * BASE_PAGE);
    assert!(matches!(pool.claim(100), Claimed::MapFresh(4096)));
    let page = MmapPage::mapped(0x10000, 4096);
    assert!(matches!(pool.release(page, PageDirty::whole(4096), false, false), Released::Cached { blank: None, .. }));
    assert_eq!(pool.cached_bytes(), 4096);
    assert_eq!(pool.peek_cached(4096).map(|p| p.as_ptr()), Some(0x10000));
    match pool.claim(4096) {
        Claimed::Recycled(p) => assert_eq!(p.as_ptr(), 0x10000),
        _ => panic!("a page was cached"),
    }
    assert_eq!(pool.cached_bytes(), 0);
    assert_eq!((pool.counters().claims(), pool.counters().recycles()), (2, 1));
    assert!(matches!(
        pool.release(MmapPage::mapped(0x20000, 16384), PageDirty::whole(16384), false, false),
        Released::Unmapped(_)
    ));
    assert!(matches!(
        pool.release(MmapPage::mapped(0x20000, 4096), PageDirty::whole(4096), true, false),
        Released::Leaked(_)
    ));
    let dirty = PageDirty::new(ByteSpan { start: 64, end: 100 }, ByteSpan { start: 4000, end: 5000 });
    match pool.release(MmapPage::mapped(0x30000, 4096), dirty, false, true) {
        Released::Cached { blank: Some((a, b)), .. } => {
            assert_eq!((a.start, a.end, b.start, b.end), (64, 100, 4000, 4096));
        }
        _ => panic!("it is blanked"),
    }
}

#[test]
fn blanking_touches_only_what_was_written() {
    let mut page = vec![7u8; 16];
    let dirty = PageDirty::new(ByteSpan { start: 2, end: 4 }, ByteSpan { start: 14, end: 20 });
    assert_eq!(reset(&mut page, &dirty), 4);
    assert_eq!(page, vec![7, 7, 0, 0, 7, 7, 7, 7, 7, 7, 7, 7, 7, 7, 0, 0]);
    assert_eq!(reset(&mut page, &PageDirty::whole(16)), 16);
    assert!(page.iter().all(|b| *b == 0));
}

#[test]
fn a_page_is_cut_at_its_own_size() {
    let cut = align_within(0x1234000, 0x4000);
    assert_eq!((cut.start, cut.prefix, cut.suffix), (0x1234000, 0, 0x4000));
    let cut = align_within(0x1235000, 0x4000);
    assert_eq!((cut.start, cut.prefix, cut.suffix), (0x1238000, 0x3000, 0x1000));
    let mut gauge = MapGauge::new();
    gauge.mapped(8192);
    gauge.unmapped(4096);
    assert_eq!(mapped_bytes(&gauge), 4096);
    let mut hist = PageHist::new();
    hist.record_claim(4096);
    hist.record_claim(4096);
    hist.record_claim(8192);
    assert_eq!(
        hist.dump_page_hist(),
        vec![
            "[stats] page-claim size=4096 claims=2 bytes=8192".to_string(),
            "[stats] page-claim size=8192 claims=1 bytes=8192".to_string(),
        ]
    );
}

#[test]
fn fields_are_kept_in_order() {
    let mut f: Vec<(TableKey, Value)> = Vec::new();
    put_field(&mut f, "b".to_string(), Value::integer(1));
    put_field(&mut f, "a".to_string(), Value::integer(2));
    put_field(&mut f, "b".to_string(), Value::integer(3));
    assert_eq!(f.len(), 2);
    assert_eq!(get_field(&f, &"b".to_string()), Some(Value::integer(3)));
    assert_eq!(get_field(&f, &"c".to_string()), None);
    assert!(matches!(&f[0].0, TableKey::Keyword(k) if k == "a"));
    assert!(text_before(&"ab".to_string(), &"b".to_string()));
    assert!(text_before(&"a".to_string(), &"ab".to_string()));
}

#[test]
fn a_region_map_keeps_the_last_mapping() {
    let mut m = RegionMap::new();
    assert_eq!(m.get(3), None);
    let a = MappedRegion { region: RuntimeRegion(7), generation: 1 };
    let b = MappedRegion { region: RuntimeRegion(8), generation: 2 };
    m.insert(3, a);
    m.insert(4, b);
    let copy = m.copy();
    m.insert(3, b);
    assert_eq!(m.get(3), Some(b));
    assert_eq!(copy.get(3), Some(a));
    assert_eq!(copy.get(4), Some(b));
}

#[test]
fn the_innermost_binding_wins() {
    let frames = vec![
        vec![(1u32, Value::integer(10)), (2, Value::integer(20))],
        vec![(1, Value::integer(11))],
    ];
    let flat = flatten_param_frames(&frames);
    assert_eq!(find_binding(&flat, 1), Some(Value::integer(11)));
    assert_eq!(find_binding(&flat, 2), Some(Value::integer(20)));
    assert_eq!(find_binding(&flat, 3), None);
}

#[test]
fn registered_bits_have_names() {
    let r = SignalRegistry { entries: vec![(0, "error".to_string()), (1, "yield".to_string())] };
    assert_eq!(r.names(SignalBits::new(SIG_YIELD)), vec!["yield".to_string()]);
    assert_eq!(r.names(SignalBits::empty()), Vec::<String>::new());
}

#[test]
fn a_word_tells_what_it_holds() {
    assert!(Value::bool(true).is_bool() && Value::bool(false).is_bool() && !Value::nil().is_bool());
    assert!(Value::integer(-1).is_number() && Value::float_bits(0).is_number() && !Value::symbol(1).is_number());
    assert!(Value::pointer(64).is_pointer() && Value::symbol(2).is_symbol() && Value::native_fn(3).is_native_fn());
    assert!(Value::empty_list().is_truthy() && Value::integer(0).is_truthy());
    assert!(!Value::nil().is_truthy() && !Value::bool(false).is_truthy());
    assert_eq!(Value::pointer(0), Value::nil());
    assert_eq!((Value::integer(-5).as_int(), Value::nil().as_int()), (Some(-5), None));
    assert_eq!((Value::bool(false).as_bool(), Value::symbol(7).as_symbol()), (Some(false), Some(7)));
    let cons = Value::from_heap_ptr(4096, TAG_CONS);
    assert!(cons.is_heap());
    assert_eq!(cons.malformed_reason(), None);
    assert_eq!(Value::from_heap_ptr(0, TAG_CONS).malformed_reason(), Some("heap tag with null payload"));
    assert_eq!(Value::from_heap_ptr(12, TAG_CONS).malformed_reason(), Some("heap tag with unaligned payload"));
    assert_eq!(Value::from_heap_ptr(8, 25).malformed_reason(), Some("tag out of range"));
    assert_eq!(Value::from_heap_ptr(8, 24).malformed_reason(), None);
    assert_eq!(Value::from_heap_ptr(8, 26).malformed_reason(), None);
    let wild = Value::from_heap_ptr(255, 99);
    assert_eq!(wild.malformed_reason(), Some("tag out of range"));
    assert_eq!(Value::type_name_line(&vec![Value::integer(1), cons, wild]), "int,cons,bad(0x63,0xff)");
    assert_eq!(Value::type_name_line(&vec![]), "");
}

#[test]
fn a_template_may_be_an_immediate() {
    let mut symbols = SymbolTable::new();
    let mut heap = FiberHeap::new();
    assert_eq!(ConstTemplate::Int(8).immediate_value(&mut symbols, &mut heap), Some(Value::integer(8)));
    let name = ConstTemplate::Symbol("x".to_string()).immediate_value(&mut symbols, &mut heap);
    assert_eq!(name, Some(Value::symbol(symbols.lookup(&"x".to_string()).expect("interned").0)));
    assert_eq!(ConstTemplate::Str("x".to_string()).immediate_value(&mut symbols, &mut heap), None);
    assert_eq!(ConstTemplate::Array(vec![]).immediate_value(&mut symbols, &mut heap), None);
    assert_eq!(heap.len(), 0);
}

#[test]
fn effects_that_reach_the_outside() {
    assert_eq!(Signal::fs_io_yields_errors().bits, SignalBits::new(SIG_IO | SIG_ERROR | SIG_FS));
    assert_eq!(Signal::os_signal_errors().bits, SignalBits::new(SIG_OS_SIGNAL | SIG_ERROR));
}

#[test]
fn a_suggestion_keeps_its_place() {
    let e = Span::new(3, 4, 2, 1).undefined_var_suggest("lenght".to_string(), vec!["length".to_string()]);
    assert!(matches!(e.kind, ErrorKind::UndefinedVariable { name, suggestions }
        if name == "lenght" && suggestions == vec!["length".to_string()]));
    assert!(e.location.is_some());
}
