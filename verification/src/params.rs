//! Dynamic parameter bindings.

use vstd::prelude::*;

use crate::value::Value;

verus! {

/// The binding of `id` in a frame: the first one.
pub open spec fn bound_in(frame: Seq<(u32, Value)>, id: u32) -> Option<Value>
    decreases frame.len(),
{
    if frame.len() == 0 {
        None
    } else if frame[0].0 == id {
        Some(frame[0].1)
    } else {
        bound_in(frame.skip(1), id)
    }
}

/// What `id` is bound to: the innermost frame that binds it decides.
pub open spec fn bound(frames: Seq<Vec<(u32, Value)>>, id: u32) -> Option<Value>
    decreases frames.len(),
{
    if frames.len() == 0 {
        None
    } else {
        match bound_in(frames.last()@, id) {
            Some(v) => Some(v),
            None => bound(frames.drop_last(), id),
        }
    }
}

/// How many bindings the frames hold.
pub open spec fn binding_count(frames: Seq<Vec<(u32, Value)>>) -> nat
    decreases frames.len(),
{
    if frames.len() == 0 {
        0
    } else {
        binding_count(frames.drop_last()) + frames.last()@.len()
    }
}

/// No parameter is bound twice.
pub open spec fn distinct_ids(frame: Seq<(u32, Value)>) -> bool {
    forall|i: int, j: int| 0 <= i < j < frame.len() ==> frame[i].0 != frame[j].0
}

proof fn lemma_bound_in_push(frame: Seq<(u32, Value)>, e: (u32, Value), id: u32)
    ensures
        bound_in(frame.push(e), id) == match bound_in(frame, id) {
            Some(v) => Some(v),
            None => if e.0 == id {
                Some(e.1)
            } else {
                None
            },
        },
    decreases frame.len(),
{
    let more = frame.push(e);
    if frame.len() == 0 {
        assert(more.skip(1) =~= Seq::empty());
        assert(bound_in(more.skip(1), id) is None);
    } else {
        lemma_bound_in_push(frame.skip(1), e, id);
        assert(more.skip(1) =~= frame.skip(1).push(e));
    }
}

proof fn lemma_bound_in_mentions(frame: Seq<(u32, Value)>, id: u32)
    ensures
        bound_in(frame, id) is Some <==> exists|i: int|
            0 <= i < frame.len() && (#[trigger] frame[i]).0 == id,
    decreases frame.len(),
{
    if frame.len() > 0 {
        lemma_bound_in_mentions(frame.skip(1), id);
        if frame[0].0 != id {
            if exists|i: int| 0 <= i < frame.len() && (#[trigger] frame[i]).0 == id {
                let i = choose|i: int| 0 <= i < frame.len() && (#[trigger] frame[i]).0 == id;
                assert(frame.skip(1)[i - 1].0 == id);
            }
            if exists|i: int|
                0 <= i < frame.skip(1).len() && (#[trigger] frame.skip(1)[i]).0 == id {
                let i = choose|i: int|
                    0 <= i < frame.skip(1).len() && (#[trigger] frame.skip(1)[i]).0 == id;
                assert(frame[i + 1].0 == id);
            }
        }
    }
}

/// The binding of `id` in a frame: the first one.
pub fn find_binding(frame: &Vec<(u32, Value)>, id: u32) -> (r: Option<Value>)
    ensures
        r == bound_in(frame@, id),
{
    let mut i: usize = 0;
    assert(frame@.skip(0) =~= frame@);
    while i < frame.len()
        invariant
            i <= frame@.len(),
            bound_in(frame@, id) == bound_in(frame@.skip(i as int), id),
        decreases frame.len() - i,
    {
        if frame[i].0 == id {
            return Some(frame[i].1);
        }
        assert(frame@.skip(i as int).skip(1) =~= frame@.skip(i + 1));
        i = i + 1;
    }
    assert(frame@.skip(i as int) =~= Seq::empty());
    None
}

/// Flatten binding frames, outermost first, into one: every bound parameter
/// once, with the binding of the innermost frame that has it.
pub fn flatten_param_frames(frames: &Vec<Vec<(u32, Value)>>) -> (r: Vec<(u32, Value)>)
    ensures
        distinct_ids(r@),
        r@.len() <= binding_count(frames@),
        forall|id: u32| bound_in(r@, id) == #[trigger] bound(frames@, id),
{
    let mut out: Vec<(u32, Value)> = Vec::new();
    let mut k: usize = frames.len();
    assert(frames@.take(k as int) =~= frames@);
    while k > 0
        invariant
            k <= frames@.len(),
            distinct_ids(out@),
            out@.len() + binding_count(frames@.take(k as int)) <= binding_count(frames@),
            forall|id: u32|
                #![trigger bound(frames@, id)]
                bound(frames@, id) == match bound_in(out@, id) {
                    Some(v) => Some(v),
                    None => bound(frames@.take(k as int), id),
                },
        decreases k,
    {
        k = k - 1;
        let frame = &frames[k];
        let ghost had = out@;
        let mut i: usize = 0;
        while i < frame.len()
            invariant
                i <= frame@.len(),
                distinct_ids(out@),
                out@.len() <= had.len() + i,
                forall|id: u32|
                    #![trigger bound_in(out@, id)]
                    bound_in(out@, id) == match bound_in(had, id) {
                        Some(v) => Some(v),
                        None => bound_in(frame@.take(i as int), id),
                    },
            decreases frame.len() - i,
        {
            let (id, v) = frame[i];
            let ghost mid = out@;
            let ghost front = frame@.take(i as int);
            proof {
                assert(frame@.take(i + 1) =~= front.push(frame@[i as int]));
                assert forall|q: u32|
                    #![trigger bound_in(frame@.take(i + 1), q)]
                    bound_in(frame@.take(i + 1), q) == match bound_in(front, q) {
                        Some(w) => Some(w),
                        None => if frame@[i as int].0 == q {
                            Some(frame@[i as int].1)
                        } else {
                            None
                        },
                    } by {
                    lemma_bound_in_push(front, frame@[i as int], q);
                }
            }
            if find_binding(&out, id).is_none() {
                proof {
                    lemma_bound_in_mentions(out@, id);
                }
                out.push((id, v));
                proof {
                    assert forall|q: u32|
                        #![trigger bound_in(out@, q)]
                        bound_in(out@, q) == match bound_in(mid, q) {
                            Some(w) => Some(w),
                            None => if id == q {
                                Some(v)
                            } else {
                                None
                            },
                        } by {
                        lemma_bound_in_push(mid, (id, v), q);
                    }
                }
            }
            proof {
                assert forall|q: u32|
                    #![trigger bound_in(out@, q)]
                    bound_in(out@, q) == match bound_in(had, q) {
                        Some(w) => Some(w),
                        None => bound_in(frame@.take(i + 1), q),
                    } by {
                    assert(bound_in(mid, q) == match bound_in(had, q) {
                        Some(w) => Some(w),
                        None => bound_in(front, q),
                    });
                }
            }
            i = i + 1;
        }
        proof {
            assert(frame@.take(i as int) =~= frame@);
            let before = frames@.take(k + 1);
            assert(before.last() == frames@[k as int]);
            assert(before.drop_last() =~= frames@.take(k as int));
            assert forall|id: u32|
                #![trigger bound(frames@, id)]
                bound(frames@, id) == match bound_in(out@, id) {
                    Some(v) => Some(v),
                    None => bound(frames@.take(k as int), id),
                } by {
                assert(bound_in(out@, id) == match bound_in(had, id) {
                    Some(v) => Some(v),
                    None => bound_in(frame@, id),
                });
            }
        }
    }
    assert(frames@.take(0) =~= Seq::empty());
    out
}

} // verus!
