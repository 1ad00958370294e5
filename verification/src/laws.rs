//! What holds of every allocator, stated over its view and proved.

use crate::load::lemma_load_of_insert;
use crate::load::lemma_load_of_remove;
use crate::load::lemma_totals_of_split;
use crate::load::totals_of;
use crate::model::AllocatorView;
use vstd::prelude::*;
use vstd::seq_lib::seq_to_set_is_finite;
use vstd::set_lib::lemma_len_subset;

verus! {

/// Stickiness: a name that asks twice is answered with the same core both
/// times, whatever the two priorities are, and the second request changes
/// nothing.
pub proof fn law_same_name_same_core(
    start: AllocatorView,
    name: Seq<char>,
    first_priority: nat,
    first_core: usize,
    between: AllocatorView,
    second_priority: nat,
    second_core: usize,
    end: AllocatorView,
)
    requires
        start.assigns(name, first_priority, first_core, between),
        between.assigns(name, second_priority, second_core, end),
    ensures
        second_core == first_core,
        end == between,
{
}

/// Stickiness: a request for one name leaves the core of every other assigned
/// name as it was.
pub proof fn law_request_keeps_assignments(
    start: AllocatorView,
    name: Seq<char>,
    priority: nat,
    core_id: usize,
    end: AllocatorView,
    other: Seq<char>,
)
    requires
        start.assigns(name, priority, core_id, end),
        start.assignments.contains_key(other),
    ensures
        end.assignments.contains_key(other),
        end.assignments[other] == start.assignments[other],
{
}

/// Stickiness: removing one name leaves the core of every other assigned name
/// as it was.
pub proof fn law_removal_keeps_assignments(start: AllocatorView, name: Seq<char>, other: Seq<char>)
    requires
        start.assignments.contains_key(other),
        other != name,
    ensures
        start.without(name).assignments.contains_key(other),
        start.without(name).assignments[other] == start.assignments[other],
{
}

/// A new allocator over finitely many cores is in a state that holds together.
pub proof fn law_fresh_is_consistent(ids: Set<usize>)
    requires
        ids.finite(),
    ensures
        AllocatorView::fresh(ids).consistent(),
{
    assert(AllocatorView::fresh(ids).cores.dom() =~= ids);
}

/// A request leaves a state that holds together in a state that holds
/// together.
pub proof fn law_request_keeps_consistency(
    start: AllocatorView,
    name: Seq<char>,
    priority: nat,
    core_id: usize,
    end: AllocatorView,
)
    requires
        start.consistent(),
        start.assigns(name, priority, core_id, end),
    ensures
        end.consistent(),
{
    if !start.assignments.contains_key(name) && !start.cores.dom().is_empty() {
        assert(end.cores.contains_key(core_id));
    }
}

/// A removal leaves a state that holds together in a state that holds
/// together.
pub proof fn law_removal_keeps_consistency(start: AllocatorView, name: Seq<char>)
    requires
        start.consistent(),
    ensures
        start.without(name).consistent(),
{
    assert(start.without(name).cores.dom() =~= start.cores.dom());
}

/// Utilization consistency: a new name adds its priority to the utilization of
/// the core that takes it, and to no other.
pub proof fn law_request_adds_priority(
    start: AllocatorView,
    name: Seq<char>,
    priority: nat,
    core_id: usize,
    end: AllocatorView,
    other: usize,
)
    requires
        start.consistent(),
        start.assigns(name, priority, core_id, end),
        !start.assignments.contains_key(name),
        !start.cores.dom().is_empty(),
    ensures
        end.load(core_id) == start.load(core_id) + priority,
        other != core_id ==> end.load(other) == start.load(other),
{
    lemma_load_of_insert(start.cores[core_id], name, priority);
}

/// Utilization consistency: a name that is removed takes its priority off the
/// utilization of the core it was on, and off no other.
pub proof fn law_removal_subtracts_priority(start: AllocatorView, name: Seq<char>, other: usize)
    requires
        start.consistent(),
        start.assignments.contains_key(name),
        !start.cores.dom().is_empty(),
    ensures
        start.without(name).load(start.assignments[name]) == start.load(start.assignments[name])
            - start.cores[start.assignments[name]][name],
        other != start.assignments[name] ==> start.without(name).load(other) == start.load(other),
{
    lemma_load_of_remove(start.cores[start.assignments[name]], name);
}

/// Removal idempotence: removing a name a second time changes nothing.
pub proof fn law_removal_is_idempotent(start: AllocatorView, name: Seq<char>)
    ensures
        start.without(name).without(name) == start.without(name),
{
}

/// After its removal a name is as if it had never been seen: it has no
/// assignment and is a thread of no core, so the next request for it is that
/// of a new name.
pub proof fn law_removed_name_is_new(start: AllocatorView, name: Seq<char>)
    requires
        start.consistent(),
    ensures
        !start.without(name).assignments.contains_key(name),
        forall|id: usize|
            start.without(name).cores.contains_key(id) ==> !(
            #[trigger] start.without(name).cores[id]).contains_key(name),
{
    law_removal_keeps_consistency(start, name);
}

/// Deduplication: two lists that name the same core ids, however often and in
/// whatever order, start an allocator in the same state.
pub proof fn law_duplicates_count_once(first: Seq<usize>, second: Seq<usize>)
    requires
        forall|id: usize| first.contains(id) <==> second.contains(id),
    ensures
        AllocatorView::fresh(first.to_set()) == AllocatorView::fresh(second.to_set()),
{
    assert(first.to_set() =~= second.to_set());
}

/// Without any cores every request is answered with core 0, and no core
/// appears.
pub proof fn law_no_cores_answers_zero(
    start: AllocatorView,
    name: Seq<char>,
    priority: nat,
    core_id: usize,
    end: AllocatorView,
)
    requires
        start.consistent(),
        start.cores.dom().is_empty(),
        start.assigns(name, priority, core_id, end),
    ensures
        core_id == 0,
        end.cores == start.cores,
{
}

/// The request at place `i` of a run leads from the state at that place to the
/// next one.
pub open spec fn is_step(
    states: Seq<AllocatorView>,
    names: Seq<Seq<char>>,
    priorities: Seq<nat>,
    picks: Seq<usize>,
    i: int,
) -> bool {
    states[i].assigns(names[i], priorities[i], picks[i], states[i + 1])
}

/// A run of requests: from each state to the next by a request for the name
/// and priority at that place, answered with the core at that place.
pub open spec fn is_run(
    states: Seq<AllocatorView>,
    names: Seq<Seq<char>>,
    priorities: Seq<nat>,
    picks: Seq<usize>,
) -> bool {
    &&& states.len() == names.len() + 1
    &&& priorities.len() == names.len()
    &&& picks.len() == names.len()
    &&& forall|i: int|
        0 <= i < names.len() ==> #[trigger] is_step(states, names, priorities, picks, i)
}

/// Whether `id` is among the first `n` of `picks`.
spec fn picked(picks: Seq<usize>, n: int, id: usize) -> bool {
    exists|i: int| 0 <= i < n && #[trigger] picks[i] == id
}

/// Whether `name` is among the first `n` of `names`.
spec fn named(names: Seq<Seq<char>>, n: int, name: Seq<char>) -> bool {
    exists|i: int| 0 <= i < n && #[trigger] names[i] == name
}

/// The threads of a core that runs one thread.
pub open spec fn one_thread(name: Seq<char>, priority: nat) -> Map<Seq<char>, nat> {
    Map::<Seq<char>, nat>::empty().insert(name, priority)
}

/// After `n` requests of a run that spreads out, the first `n` picks are
/// different cores with one thread each, and the other cores are idle.
spec fn spread_out(
    ids: Set<usize>,
    state: AllocatorView,
    names: Seq<Seq<char>>,
    priorities: Seq<nat>,
    picks: Seq<usize>,
    n: int,
) -> bool {
    &&& state.cores.dom() == ids
    &&& forall|i: int| 0 <= i < n ==> ids.contains(#[trigger] picks[i])
    &&& forall|i: int, j: int| 0 <= i < j < n ==> #[trigger] picks[i] != #[trigger] picks[j]
    &&& forall|i: int|
        0 <= i < n ==> state.cores[#[trigger] picks[i]] == one_thread(names[i], priorities[i])
    &&& forall|id: usize|
        ids.contains(id) && !picked(picks, n, id) ==> #[trigger] state.cores[id] == Map::<
            Seq<char>,
            nat,
        >::empty()
    &&& forall|name: Seq<char>| #[trigger]
        state.assignments.contains_key(name) <==> named(names, n, name)
}

/// Fewer cores are picked than there are, so one of them is not picked.
proof fn lemma_one_is_not_picked(ids: Set<usize>, picks: Seq<usize>, k: int) -> (idle: usize)
    requires
        ids.finite(),
        0 <= k <= picks.len(),
        k < ids.len(),
    ensures
        ids.contains(idle),
        !picked(picks, k, idle),
{
    let taken = picks.take(k).to_set();
    picks.take(k).lemma_cardinality_of_set();
    seq_to_set_is_finite(picks.take(k));
    if ids.subset_of(taken) {
        lemma_len_subset(ids, taken);
    }
    let idle = choose|id: usize| ids.contains(id) && !taken.contains(id);
    if picked(picks, k, idle) {
        let i = choose|i: int| 0 <= i < k && picks[i] == idle;
        assert(picks.take(k)[i] == idle);
        assert(picks.take(k).contains(idle));
    }
    idle
}

/// A request in a state that is spread out, for a new name and with idle cores
/// left, picks an idle core and leaves the state spread out.
proof fn lemma_spread_step(
    ids: Set<usize>,
    before: AllocatorView,
    after: AllocatorView,
    names: Seq<Seq<char>>,
    priorities: Seq<nat>,
    picks: Seq<usize>,
    k: int,
)
    requires
        ids.finite(),
        names.no_duplicates(),
        priorities.len() == names.len(),
        picks.len() == names.len(),
        0 <= k < names.len() <= ids.len(),
        forall|i: int| 0 <= i < priorities.len() ==> priorities[i] > 0,
        spread_out(ids, before, names, priorities, picks, k),
        before.assigns(names[k], priorities[k], picks[k], after),
    ensures
        !picked(picks, k, picks[k]),
        before.cores.contains_key(picks[k]),
        before.cores[picks[k]] == Map::<Seq<char>, nat>::empty(),
        after == before.with_thread(names[k], priorities[k], picks[k]),
        spread_out(ids, after, names, priorities, picks, k + 1),
{
    let name = names[k];
    let pick = picks[k];
    // The names differ, so this one is new to the allocator.
    if named(names, k, name) {
        let i = choose|i: int| 0 <= i < k && names[i] == name;
        assert(names[i] != names[k]);
    }
    assert(!before.assignments.contains_key(name));
    // One core is idle, so the core of least utilization is idle too.
    let idle = lemma_one_is_not_picked(ids, picks, k);
    assert(before.cores.contains_key(idle));
    assert(before.cores[idle] == Map::<Seq<char>, nat>::empty());
    assert(before.load(idle) == 0);
    assert(before.is_least_loaded(pick));
    assert(before.load(pick) == 0);
    // A core that runs a thread is not idle, so none of them is picked again.
    if picked(picks, k, pick) {
        let i = choose|i: int| 0 <= i < k && picks[i] == pick;
        lemma_load_of_insert(Map::<Seq<char>, nat>::empty(), names[i], priorities[i]);
        assert(before.cores[picks[i]] == one_thread(names[i], priorities[i]));
        assert(before.load(pick) == priorities[i]);
    }
    assert(!picked(picks, k, pick));
    assert(before.cores[pick] == Map::<Seq<char>, nat>::empty());
    assert(after == before.with_thread(name, priorities[k], pick));
    // The state is spread out as before, with one core more.
    assert(after.cores.dom() =~= ids);
    assert forall|i: int| 0 <= i < k + 1 implies ids.contains(#[trigger] picks[i]) by {}
    assert forall|i: int, j: int| 0 <= i < j < k + 1 implies #[trigger] picks[i]
        != #[trigger] picks[j] by {
        if j == k {
            assert(picked(picks, k, picks[i]));
        }
    }
    assert forall|i: int| 0 <= i < k + 1 implies after.cores[#[trigger] picks[i]] == one_thread(
        names[i],
        priorities[i],
    ) by {
        if i < k {
            assert(picked(picks, k, picks[i]));
            assert(after.cores[picks[i]] == before.cores[picks[i]]);
        }
    }
    assert forall|id: usize| ids.contains(id) && !picked(picks, k + 1, id) implies #[trigger] after.cores[id]
        == Map::<Seq<char>, nat>::empty() by {
        assert(picks[k] != id);
        if picked(picks, k, id) {
            let i = choose|i: int| 0 <= i < k && picks[i] == id;
            assert(picks[i] == id);
        }
        assert(after.cores[id] == before.cores[id]);
    }
    assert forall|other: Seq<char>| #[trigger]
        after.assignments.contains_key(other) <==> named(names, k + 1, other) by {
        if other == name {
            assert(names[k] == other);
        }
        if named(names, k, other) {
            let i = choose|i: int| 0 <= i < k && names[i] == other;
            assert(names[i] == other);
        }
        if named(names, k + 1, other) && other != name {
            let i = choose|i: int| 0 <= i < k + 1 && names[i] == other;
            assert(names[i] == other);
            assert(named(names, k, other));
        }
    }
}

/// Every state of a run that starts with idle cores, with no more threads than
/// cores, different names and priorities above zero, is spread out.
proof fn lemma_spread_out(
    ids: Set<usize>,
    states: Seq<AllocatorView>,
    names: Seq<Seq<char>>,
    priorities: Seq<nat>,
    picks: Seq<usize>,
    n: int,
)
    requires
        ids.finite(),
        is_run(states, names, priorities, picks),
        states[0] == AllocatorView::fresh(ids),
        names.no_duplicates(),
        names.len() <= ids.len(),
        forall|i: int| 0 <= i < priorities.len() ==> priorities[i] > 0,
        0 <= n <= names.len(),
    ensures
        spread_out(ids, states[n], names, priorities, picks, n),
    decreases n,
{
    if n == 0 {
        assert(states[0].cores.dom() =~= ids);
    } else {
        let k = n - 1;
        lemma_spread_out(ids, states, names, priorities, picks, k);
        assert(is_step(states, names, priorities, picks, k));
        lemma_spread_step(ids, states[k], states[k + 1], names, priorities, picks, k);
    }
}

/// Least loaded first: when an allocator with all its cores idle is asked for
/// cores for no more threads than it has cores, under different names and with
/// priorities above zero, it answers each request with another core, and in the
/// end each of these cores runs the one thread that it was picked for.
pub proof fn law_idle_cores_first(
    ids: Set<usize>,
    states: Seq<AllocatorView>,
    names: Seq<Seq<char>>,
    priorities: Seq<nat>,
    picks: Seq<usize>,
)
    requires
        ids.finite(),
        is_run(states, names, priorities, picks),
        states[0] == AllocatorView::fresh(ids),
        names.no_duplicates(),
        names.len() <= ids.len(),
        forall|i: int| 0 <= i < priorities.len() ==> priorities[i] > 0,
    ensures
        picks.no_duplicates(),
        forall|i: int| 0 <= i < picks.len() ==> ids.contains(picks[i]),
        forall|i: int|
            0 <= i < picks.len() ==> states.last().cores[picks[i]] == one_thread(
                names[i],
                priorities[i],
            ),
        forall|i: int| 0 <= i < picks.len() ==> states.last().load(picks[i]) == priorities[i],
        forall|id: usize|
            ids.contains(id) && !picks.contains(id) ==> states.last().cores[id] == Map::<
                Seq<char>,
                nat,
            >::empty() && states.last().load(id) == 0,
{
    lemma_spread_out(ids, states, names, priorities, picks, names.len() as int);
    assert forall|i: int| 0 <= i < picks.len() implies states.last().load(picks[i])
        == priorities[i] by {
        lemma_load_of_insert(Map::<Seq<char>, nat>::empty(), names[i], priorities[i]);
    }
    assert forall|id: usize| ids.contains(id) && !picks.contains(id) implies states.last().cores[id]
        == Map::<Seq<char>, nat>::empty() && states.last().load(id) == 0 by {
        assert(!picked(picks, picks.len() as int, id));
    }
}

/// After `n` requests of a run that spreads out, the utilizations of the
/// cores are those of the idle cores with `n` zeros exchanged for the first `n`
/// priorities.
proof fn lemma_spread_totals(
    ids: Set<usize>,
    states: Seq<AllocatorView>,
    names: Seq<Seq<char>>,
    priorities: Seq<nat>,
    picks: Seq<usize>,
    n: int,
)
    requires
        ids.finite(),
        is_run(states, names, priorities, picks),
        states[0] == AllocatorView::fresh(ids),
        names.no_duplicates(),
        names.len() <= ids.len(),
        forall|i: int| 0 <= i < priorities.len() ==> priorities[i] > 0,
        0 <= n <= names.len(),
    ensures
        forall|v: nat|
            states[n].totals().count(v) + (if v == 0 {
                n
            } else {
                0
            }) == AllocatorView::fresh(ids).totals().count(v) + priorities.take(
                n,
            ).to_multiset().count(v),
    decreases n,
{
    if n == 0 {
        priorities.take(0).to_multiset_ensures();
    } else {
        let k = n - 1;
        lemma_spread_totals(ids, states, names, priorities, picks, k);
        lemma_spread_out(ids, states, names, priorities, picks, k);
        assert(is_step(states, names, priorities, picks, k));
        let before = states[k];
        let after = states[k + 1];
        let pick = picks[k];
        lemma_spread_step(ids, before, after, names, priorities, picks, k);
        // The pick was idle and now runs one thread; the other cores are as
        // they were.
        lemma_totals_of_split(before.cores, pick);
        lemma_totals_of_split(after.cores, pick);
        assert(after.cores.remove(pick) =~= before.cores.remove(pick));
        lemma_load_of_insert(Map::<Seq<char>, nat>::empty(), names[k], priorities[k]);
        assert(before.load(pick) == 0);
        assert(after.load(pick) == priorities[k]);
        let rest = totals_of(before.cores.remove(pick));
        assert(before.totals() == rest.insert(0));
        assert(after.totals() == rest.insert(priorities[k]));
        // The priorities so far are those before with this one.
        priorities.take(k).to_multiset_ensures();
        assert(priorities.take(n) =~= priorities.take(k).push(priorities[k]));
        let asked = priorities.take(k).to_multiset();
        assert(priorities.take(n).to_multiset() == asked.insert(priorities[k]));
        assert forall|v: nat|
            after.totals().count(v) + (if v == 0 {
                n
            } else {
                0
            }) == AllocatorView::fresh(ids).totals().count(v) + priorities.take(
                n,
            ).to_multiset().count(v) by {
            assert(before.totals().count(v) + (if v == 0 {
                k
            } else {
                0
            }) == AllocatorView::fresh(ids).totals().count(v) + asked.count(v));
        }
    }
}

/// Order independence, as far as it holds: while there are no more threads
/// than cores, it does not matter in which order the threads ask. Two runs
/// from idle cores with the same priorities, in whatever order, leave the
/// cores with the same utilizations, each counted as often as it occurs.
pub proof fn law_order_is_immaterial_while_cores_are_idle(
    ids: Set<usize>,
    states: Seq<AllocatorView>,
    names: Seq<Seq<char>>,
    priorities: Seq<nat>,
    picks: Seq<usize>,
    other_states: Seq<AllocatorView>,
    other_names: Seq<Seq<char>>,
    other_priorities: Seq<nat>,
    other_picks: Seq<usize>,
)
    requires
        ids.finite(),
        is_run(states, names, priorities, picks),
        is_run(other_states, other_names, other_priorities, other_picks),
        states[0] == AllocatorView::fresh(ids),
        other_states[0] == AllocatorView::fresh(ids),
        names.no_duplicates(),
        other_names.no_duplicates(),
        names.len() <= ids.len(),
        forall|i: int| 0 <= i < priorities.len() ==> priorities[i] > 0,
        other_priorities.to_multiset() == priorities.to_multiset(),
    ensures
        other_states.last().totals() == states.last().totals(),
{
    let n = names.len() as int;
    priorities.to_multiset_ensures();
    other_priorities.to_multiset_ensures();
    assert forall|i: int| 0 <= i < other_priorities.len() implies other_priorities[i] > 0 by {
        let priority = other_priorities[i];
        assert(other_priorities.contains(priority));
        assert(priorities.to_multiset().count(priority) > 0);
    }
    lemma_spread_totals(ids, states, names, priorities, picks, n);
    lemma_spread_totals(ids, other_states, other_names, other_priorities, other_picks, n);
    assert(priorities.take(n) =~= priorities);
    assert(other_priorities.take(n) =~= other_priorities);
    let idle = AllocatorView::fresh(ids).totals();
    let asked = priorities.to_multiset();
    assert forall|v: nat| other_states.last().totals().count(v) == states.last().totals().count(
        v,
    ) by {
        let zeros = if v == 0 { n } else { 0 };
        assert(states[n].totals().count(v) + zeros == idle.count(v) + asked.count(v));
        assert(other_states[n].totals().count(v) + zeros == idle.count(v) + asked.count(v));
    }
    assert(other_states.last().totals() =~= states.last().totals());
}

} // verus!
