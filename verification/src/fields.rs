//! Struct fields under keyword keys, kept in key order.

use vstd::prelude::*;

use crate::object::TableKey;
use crate::value::Value;

verus! {

/// `a` comes before `b` in dictionary order.
pub open spec fn lex_less(a: Seq<char>, b: Seq<char>) -> bool
    decreases a.len(),
{
    if b.len() == 0 {
        false
    } else if a.len() == 0 {
        true
    } else if a[0] != b[0] {
        (a[0] as int) < (b[0] as int)
    } else {
        lex_less(a.skip(1), b.skip(1))
    }
}

proof fn lemma_lex_irreflexive(a: Seq<char>)
    ensures
        !lex_less(a, a),
    decreases a.len(),
{
    if a.len() > 0 {
        lemma_lex_irreflexive(a.skip(1));
    }
}

proof fn lemma_lex_total(a: Seq<char>, b: Seq<char>)
    requires
        a != b,
    ensures
        lex_less(a, b) || lex_less(b, a),
    decreases a.len(),
{
    if a.len() > 0 && b.len() > 0 {
        if a[0] == b[0] {
            if a.skip(1) == b.skip(1) {
                assert(a =~= seq![a[0]] + a.skip(1));
                assert(b =~= seq![b[0]] + b.skip(1));
            }
            lemma_lex_total(a.skip(1), b.skip(1));
        }
    } else {
        if a.len() == 0 && b.len() == 0 {
            assert(a =~= b);
        }
    }
}

proof fn lemma_lex_transitive(a: Seq<char>, b: Seq<char>, c: Seq<char>)
    requires
        lex_less(a, b),
        lex_less(b, c),
    ensures
        lex_less(a, c),
    decreases a.len(),
{
    if a.len() > 0 && b.len() > 0 && c.len() > 0 {
        if a[0] == b[0] && b[0] == c[0] {
            lemma_lex_transitive(a.skip(1), b.skip(1), c.skip(1));
        }
    }
}

/// Whether `a` comes before `b` in dictionary order.
pub fn text_before(a: &String, b: &String) -> (r: bool)
    ensures
        r == lex_less(a@, b@),
{
    let sa = a.as_str();
    let sb = b.as_str();
    let la: usize = sa.unicode_len();
    let lb: usize = sb.unicode_len();
    let mut i: usize = 0;
    assert(a@.skip(0) =~= a@);
    assert(b@.skip(0) =~= b@);
    while i < la && i < lb
        invariant
            sa@ == a@,
            sb@ == b@,
            la == a@.len(),
            lb == b@.len(),
            i <= la,
            i <= lb,
            lex_less(a@, b@) == lex_less(a@.skip(i as int), b@.skip(i as int)),
        decreases la - i,
    {
        let ca = sa.get_char(i);
        let cb = sb.get_char(i);
        assert(a@.skip(i as int)[0] == ca);
        assert(b@.skip(i as int)[0] == cb);
        if ca != cb {
            return (ca as u32) < (cb as u32);
        }
        assert(a@.skip(i as int).skip(1) =~= a@.skip(i + 1));
        assert(b@.skip(i as int).skip(1) =~= b@.skip(i + 1));
        i = i + 1;
    }
    la < lb
}

/// The spelling of a keyword key.
pub open spec fn key_text(k: TableKey) -> Seq<char> {
    k->Keyword_0@
}

/// Keyword keys in strictly ascending dictionary order.
pub open spec fn keys_sorted(entries: Seq<(TableKey, Value)>) -> bool {
    &&& forall|i: int| 0 <= i < entries.len() ==> (#[trigger] entries[i]).0 is Keyword
    &&& forall|i: int, j: int|
        0 <= i < j < entries.len() ==> #[trigger] lex_less(
            key_text(entries[i].0),
            key_text(entries[j].0),
        )
}

/// Field `name` holds `v`.
pub open spec fn field_is(entries: Seq<(TableKey, Value)>, name: Seq<char>, v: Value) -> bool {
    exists|i: int| 0 <= i < entries.len() && key_text((#[trigger] entries[i]).0) == name && entries[i].1 == v
}

/// There is a field `name`.
pub open spec fn has_field(entries: Seq<(TableKey, Value)>, name: Seq<char>) -> bool {
    exists|i: int| 0 <= i < entries.len() && key_text((#[trigger] entries[i]).0) == name
}

/// In sorted entries a name has one value.
pub proof fn lemma_field_unique(entries: Seq<(TableKey, Value)>, name: Seq<char>, v: Value, w: Value)
    requires
        keys_sorted(entries),
        field_is(entries, name, v),
        field_is(entries, name, w),
    ensures
        v == w,
{
    let i = choose|i: int|
        0 <= i < entries.len() && key_text((#[trigger] entries[i]).0) == name && entries[i].1 == v;
    let j = choose|j: int|
        0 <= j < entries.len() && key_text((#[trigger] entries[j]).0) == name && entries[j].1 == w;
    lemma_lex_irreflexive(name);
    if i < j {
        assert(lex_less(key_text(entries[i].0), key_text(entries[j].0)));
    }
    if j < i {
        assert(lex_less(key_text(entries[j].0), key_text(entries[i].0)));
    }
}

/// Put `v` under `name`, in place of what was there.
pub fn put_field(entries: &mut Vec<(TableKey, Value)>, name: String, v: Value)
    requires
        keys_sorted(old(entries)@),
    ensures
        keys_sorted(final(entries)@),
        field_is(final(entries)@, name@, v),
        forall|other: Seq<char>, w: Value|
            other != name@ ==> #[trigger] field_is(final(entries)@, other, w) == field_is(
                old(entries)@,
                other,
                w,
            ),
        final(entries)@.len() <= old(entries)@.len() + 1,
        forall|i: int|
            0 <= i < final(entries)@.len() ==> (#[trigger] final(entries)@[i]).1 == v || exists|k: int|
                0 <= k < old(entries)@.len() && (#[trigger] old(entries)@[k]).1 == final(entries)@[i].1,
{
    let ghost before = entries@;
    let mut i: usize = 0;
    let mut same = false;
    while i < entries.len()
        invariant_except_break
            !same,
            i <= entries@.len(),
            entries@ == before,
            keys_sorted(before),
            forall|k: int| 0 <= k < i ==> lex_less(key_text((#[trigger] before[k]).0), name@),
        ensures
            i <= entries@.len(),
            entries@ == before,
            forall|k: int| 0 <= k < i ==> lex_less(key_text((#[trigger] before[k]).0), name@),
            same ==> i < before.len() && key_text(before[i as int].0) == name@,
            !same && i < before.len() ==> lex_less(name@, key_text(before[i as int].0)),
        decreases entries.len() - i,
    {
        let smaller = match &entries[i].0 {
            TableKey::Keyword(k) => {
                if *k == name {
                    same = true;
                    false
                } else {
                    text_before(k, &name)
                }
            },
            _ => false,
        };
        if !smaller {
            proof {
                assert(before[i as int].0 is Keyword);
                if !same {
                    lemma_lex_total(key_text(before[i as int].0), name@);
                }
            }
            break;
        }
        i = i + 1;
    }
    let key = name.clone();
    let ghost entry_key: TableKey;
    if same {
        let mut e = (TableKey::Keyword(key), v);
        proof {
            entry_key = e.0;
        }
        entries.set_and_swap(i, &mut e);
        proof {
            let after = entries@;
            assert forall|a: int, b: int| 0 <= a < b < after.len() implies #[trigger] lex_less(
                key_text(after[a].0),
                key_text(after[b].0),
            ) by {
                assert(lex_less(key_text(before[a].0), key_text(before[b].0)));
            }
            assert(after[i as int].1 == v);
            lemma_put(before, after, i as int, true, name@, v);
        }
    } else {
        let e = (TableKey::Keyword(key), v);
        proof {
            entry_key = e.0;
        }
        entries.insert(i, e);
        proof {
            let after = entries@;
            assert forall|a: int, b: int| 0 <= a < b < after.len() implies #[trigger] lex_less(
                key_text(after[a].0),
                key_text(after[b].0),
            ) by {
                let oa = if a < i { a } else { a - 1 };
                let ob = if b < i { b } else { b - 1 };
                if a != i && b != i {
                    assert(after[a] == before[oa]);
                    assert(after[b] == before[ob]);
                    assert(lex_less(key_text(before[oa].0), key_text(before[ob].0)));
                } else if b == i {
                    assert(after[a] == before[a]);
                } else {
                    assert(after[b] == before[b - 1]);
                    if b - 1 > i {
                        assert(lex_less(key_text(before[i as int].0), key_text(before[b - 1].0)));
                        lemma_lex_transitive(
                            name@,
                            key_text(before[i as int].0),
                            key_text(before[b - 1].0),
                        );
                    }
                }
            }
            assert forall|k: int| 0 <= k < after.len() implies (#[trigger] after[k]).0 is Keyword by {
                if k < i {
                    assert(after[k] == before[k]);
                } else if k > i {
                    assert(after[k] == before[k - 1]);
                }
            }
            lemma_put(before, after, i as int, false, name@, v);
        }
    }
}

proof fn lemma_put(
    before: Seq<(TableKey, Value)>,
    after: Seq<(TableKey, Value)>,
    i: int,
    same: bool,
    name: Seq<char>,
    v: Value,
)
    requires
        same ==> 0 <= i < before.len() && after.len() == before.len() && key_text(before[i].0) == name
            && forall|k: int|
            0 <= k < after.len() && k != i ==> #[trigger] after[k] == before[k],
        !same ==> 0 <= i <= before.len() && after == before.insert(i, after[i]) && after.len()
            == before.len() + 1,
        key_text(after[i].0) == name,
        after[i].1 == v,
    ensures
        field_is(after, name, v),
        forall|other: Seq<char>, w: Value|
            other != name ==> #[trigger] field_is(after, other, w) == field_is(before, other, w),
        forall|k: int|
            0 <= k < after.len() ==> (#[trigger] after[k]).1 == v || exists|j: int|
                0 <= j < before.len() && (#[trigger] before[j]).1 == after[k].1,
{
    assert(field_is(after, name, v));
    assert forall|other: Seq<char>, w: Value| other != name implies #[trigger] field_is(
        after,
        other,
        w,
    ) == field_is(before, other, w) by {
        if field_is(after, other, w) {
            let k = choose|k: int|
                0 <= k < after.len() && key_text((#[trigger] after[k]).0) == other && after[k].1 == w;
            let o = if same || k < i { k } else { k - 1 };
            assert(before[o] == after[k]);
        }
        if field_is(before, other, w) {
            let o = choose|o: int|
                0 <= o < before.len() && key_text((#[trigger] before[o]).0) == other && before[o].1 == w;
            let k = if same || o < i { o } else { o + 1 };
            assert(after[k] == before[o]);
        }
    }
    assert forall|k: int| 0 <= k < after.len() implies (#[trigger] after[k]).1 == v || exists|j: int|
        0 <= j < before.len() && (#[trigger] before[j]).1 == after[k].1 by {
        if k != i {
            let o = if same || k < i { k } else { k - 1 };
            assert(before[o] == after[k]);
        }
    }
}

/// The value of field `name`, if there is one.
pub fn get_field(entries: &Vec<(TableKey, Value)>, name: &String) -> (r: Option<Value>)
    requires
        keys_sorted(entries@),
    ensures
        r is Some == has_field(entries@, name@),
        r is Some ==> field_is(entries@, name@, r->0),
{
    let mut i: usize = 0;
    while i < entries.len()
        invariant
            i <= entries@.len(),
            keys_sorted(entries@),
            forall|k: int| 0 <= k < i ==> key_text((#[trigger] entries@[k]).0) != name@,
        decreases entries.len() - i,
    {
        assert(entries@[i as int].0 is Keyword);
        if let TableKey::Keyword(k) = &entries[i].0 {
            if *k == *name {
                return Some(entries[i].1);
            }
        }
        i = i + 1;
    }
    None
}

} // verus!
