//! What the error of a failed primitive reads as.

use vstd::prelude::*;

use crate::ctx::{error_made, last_extra, with_keyword};
use crate::fibers::keyword_text;
use crate::fields::field_is;
use crate::heap::{lemma_allocated, HeapState, RuntimeRegion};
use crate::prim::{failed, string_at};
use crate::signalbits::SignalBits;
use crate::signals::SIG_ERROR;
use crate::value::{Value, TAG_STRUCT};

verus! {

/// The value reads as an error of this kind with this message: a struct whose `:error`
/// is the keyword and whose `:message` is the text.
pub open spec fn reads_as_error(s: HeapState, v: Value, kind: Seq<char>, msg: Seq<char>) -> bool {
    &&& v.tag == TAG_STRUCT
    &&& s.target(v) is Some
    &&& s.object(v) is LStruct
    &&& exists|k: Value, m: Value|
        #![trigger keyword_text(s.keywords, k), string_at(s, m)]
        keyword_text(s.keywords, k) == Some(kind) && string_at(s, m) == Some(msg) && field_is(
            s.object(v)->LStruct_data@,
            "error"@,
            k,
        ) && field_is(s.object(v)->LStruct_data@, "message"@, m)
}

/// The outcome is an error signal whose value reads as an error of this kind.
pub open spec fn raises(s: HeapState, r: (SignalBits, Value), kind: Seq<char>, msg: Seq<char>) -> bool {
    r.0 == SignalBits::new(SIG_ERROR) && reads_as_error(s, r.1, kind, msg)
}

/// An error reads back as it was made: its kind and its message, and nothing else.
pub proof fn lemma_error_reads_back(
    before: HeapState,
    after: HeapState,
    home: RuntimeRegion,
    kind: Seq<char>,
    msg: Seq<char>,
    err: Value,
)
    requires
        before.valid(),
        home.0 < before.counts.len(),
        before.room(8),
        error_made(before, after, home, kind, msg, err),
    ensures
        reads_as_error(after, err, kind, msg),
        forall|name: Seq<char>, v: Value| #[trigger]
            field_is(after.object(err)->LStruct_data@, name, v) ==> name == "error"@ || name == "message"@,
{
    let none = Seq::<(String, Value)>::empty();
    let named = with_keyword(before, kind);
    let text = after.objects[after.objects.len() - 2];
    assert(named.valid());
    lemma_allocated(named, text, home.0);
    let mid = named.allocated(text, home.0);
    lemma_allocated(mid, after.objects.last(), home.0);
    assert(after.target(err) == Some(mid.objects.len() as int));
    let m = mid.newest();
    assert(mid.resolves(m));
    assert(after.target(m) == mid.target(m));
    assert(after.object(m) == text);
    assert(string_at(after, m) == Some(msg));
    let k = crate::heap::keyword_value(named.keywords, kind);
    assert(before.keywords.contains(kind) || named.keywords.last() == kind);
    assert(named.keywords.contains(kind));
    assert(named.keywords[named.keywords.index_of(kind)] == kind);
    assert(keyword_text(after.keywords, k) == Some(kind));
    assert(last_extra(none, "error"@) is None);
    assert(last_extra(none, "message"@) is None);
    reveal_strlit("error");
    reveal_strlit("message");
    assert("error"@.len() == 5);
    assert("message"@.len() == 7);
    let data = after.object(err)->LStruct_data@;
    assert(field_is(data, "error"@, k));
    assert(field_is(data, "message"@, m));
    assert forall|name: Seq<char>, v: Value| #[trigger] field_is(data, name, v) implies name == "error"@ || name
        == "message"@ by {
        assert(last_extra(none, name) is None);
    }
}

/// The failure of a primitive is an error signal, and reads back as it was made.
pub proof fn lemma_failure_reads_back(
    before: HeapState,
    after: HeapState,
    home: RuntimeRegion,
    kind: Seq<char>,
    msg: Seq<char>,
    r: (SignalBits, Value),
)
    requires
        before.valid(),
        home.0 < before.counts.len(),
        before.room(8),
        failed(before, after, home, kind, msg, r),
    ensures
        raises(after, r, kind, msg),
{
    lemma_error_reads_back(before, after, home, kind, msg, r.1);
}

} // verus!
