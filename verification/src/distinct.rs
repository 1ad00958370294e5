//! Core ids in order, each once.

use vstd::prelude::*;

verus! {

/// Every element is less than the one after it.
pub open spec fn strictly_increasing(ids: Seq<usize>) -> bool {
    forall|i: int, j: int| 0 <= i < j < ids.len() ==> ids[i] < ids[j]
}

/// Whether `id` is among the first `upto` elements of `list`.
pub open spec fn among_first(list: Seq<usize>, upto: int, id: usize) -> bool {
    exists|k: int| 0 <= k < upto && k < list.len() && #[trigger] list[k] == id
}

/// The ids of `list` in increasing order, each once.
pub fn sorted_distinct(list: &Vec<usize>) -> (ids: Vec<usize>)
    ensures
        strictly_increasing(ids@),
        forall|id: usize| ids@.contains(id) <==> list@.contains(id),
{
    let mut ids: Vec<usize> = Vec::new();
    let mut next: usize = 0;
    while next < list.len()
        invariant
            next <= list@.len(),
            strictly_increasing(ids@),
            forall|id: usize| ids@.contains(id) <==> among_first(list@, next as int, id),
        decreases list@.len() - next,
    {
        let id = list[next];
        let mut at: usize = 0;
        while at < ids.len() && ids[at] < id
            invariant
                at <= ids@.len(),
                strictly_increasing(ids@),
                forall|k: int| 0 <= k < at ==> ids@[k] < id,
            decreases ids@.len() - at,
        {
            at += 1;
        }
        let ghost before = ids@;
        if at == ids.len() || ids[at] != id {
            ids.insert(at, id);
            proof {
                assert forall|v: usize| before.contains(v) || v == id implies ids@.contains(v) by {
                    if v == id {
                        assert(ids@[at as int] == v);
                    } else {
                        let k = choose|k: int| 0 <= k < before.len() && before[k] == v;
                        assert(ids@[if k < at { k } else { k + 1 }] == v);
                    }
                }
            }
        }
        proof {
            // What was seen before is still seen, and `id` is seen now.
            assert forall|v: usize| ids@.contains(v) <==> among_first(list@, next + 1, v) by {
                assert(before.contains(v) <==> among_first(list@, next as int, v));
            }
        }
        next += 1;
    }
    ids
}

} // verus!
