//! The utilization that a set of threads amounts to.

use vstd::multiset::Multiset;
use vstd::prelude::*;

verus! {

/// The sum of the priorities in `threads`, a finite map from thread name to
/// priority.
pub open spec fn load_of(threads: Map<Seq<char>, nat>) -> nat
    decreases threads.dom().len(),
    when threads.dom().finite()
{
    if threads.dom().is_empty() {
        0
    } else {
        let name = threads.dom().choose();
        threads[name] + load_of(threads.remove(name))
    }
}

/// Any one thread can be split off the sum.
pub proof fn lemma_load_of_split(threads: Map<Seq<char>, nat>, name: Seq<char>)
    requires
        threads.dom().finite(),
        threads.contains_key(name),
    ensures
        load_of(threads) == threads[name] + load_of(threads.remove(name)),
    decreases threads.dom().len(),
{
    let first = threads.dom().choose();
    if first != name {
        let rest = threads.remove(first);
        let others = threads.remove(name);
        lemma_load_of_split(rest, name);
        lemma_load_of_split(others, first);
        assert(rest.remove(name) =~= others.remove(first));
    }
}

/// Putting a thread in, in place of the one of that name if there is one, adds
/// its priority to what the others weigh.
pub proof fn lemma_load_of_insert(threads: Map<Seq<char>, nat>, name: Seq<char>, priority: nat)
    requires
        threads.dom().finite(),
    ensures
        load_of(threads.insert(name, priority)) == load_of(threads.remove(name)) + priority,
        !threads.contains_key(name) ==> load_of(threads.insert(name, priority)) == load_of(threads)
            + priority,
{
    let grown = threads.insert(name, priority);
    lemma_load_of_split(grown, name);
    assert(grown.remove(name) =~= threads.remove(name));
    if !threads.contains_key(name) {
        assert(threads.remove(name) =~= threads);
    }
}

/// Taking a thread away takes its priority away.
pub proof fn lemma_load_of_remove(threads: Map<Seq<char>, nat>, name: Seq<char>)
    requires
        threads.dom().finite(),
    ensures
        threads.contains_key(name) ==> load_of(threads.remove(name)) == load_of(threads)
            - threads[name],
        !threads.contains_key(name) ==> load_of(threads.remove(name)) == load_of(threads),
{
    if threads.contains_key(name) {
        lemma_load_of_split(threads, name);
    } else {
        assert(threads.remove(name) =~= threads);
    }
}

/// The utilizations of `cores`, each counted as often as it occurs among them.
pub open spec fn totals_of(cores: Map<usize, Map<Seq<char>, nat>>) -> Multiset<nat>
    decreases cores.dom().len(),
    when cores.dom().finite()
{
    if cores.dom().is_empty() {
        Multiset::empty()
    } else {
        let id = cores.dom().choose();
        totals_of(cores.remove(id)).insert(load_of(cores[id]))
    }
}

/// Any one core can be split off the utilizations.
pub proof fn lemma_totals_of_split(cores: Map<usize, Map<Seq<char>, nat>>, id: usize)
    requires
        cores.dom().finite(),
        cores.contains_key(id),
    ensures
        totals_of(cores) == totals_of(cores.remove(id)).insert(load_of(cores[id])),
    decreases cores.dom().len(),
{
    let first = cores.dom().choose();
    if first != id {
        let rest = cores.remove(first);
        let others = cores.remove(id);
        lemma_totals_of_split(rest, id);
        lemma_totals_of_split(others, first);
        assert(rest.remove(id) =~= others.remove(first));
        assert(totals_of(cores) =~= totals_of(others).insert(load_of(cores[id])));
    }
}

} // verus!
