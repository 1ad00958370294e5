//! The pool of cores: a binary min-heap ordered by utilization.

use crate::cpu_core::Core;
use crate::keyed::as_map;
use crate::keyed::keys_distinct;
use crate::keyed::lemma_entry;
use crate::keyed::lemma_exchange;
use crate::keyed::lemma_finite;
use crate::keyed::lemma_push;
use crate::keyed::lemma_swap_remove;
use crate::keyed::place_of;
use crate::listing::listed_cores;
use crate::listing::listing_text;
use crate::listing::lists;
use crate::listing::CoreListing;
use crate::load::load_of;
use vstd::prelude::*;
use vstd::string::StringExecFns;

verus! {

/// The cores as entries: each id with the threads assigned to that core.
spec fn entries_of(cores: Seq<Core>) -> Seq<(usize, Map<Seq<char>, nat>)> {
    cores.map_values(|core: Core| (core.id(), core.threads()))
}

/// Every core is well formed.
spec fn all_wf(cores: Seq<Core>) -> bool {
    forall|i: int| 0 <= i < cores.len() ==> (#[trigger] cores[i]).wf()
}

/// The place above place `i` in the heap.
spec fn parent(i: int) -> int {
    (i - 1) / 2
}

/// No core is lighter than the one above it.
spec fn ordered(cores: Seq<Core>) -> bool {
    forall|i: int|
        0 < i < cores.len() ==> cores[parent(i)].utilization() <= (
        #[trigger] cores[i]).utilization()
}

/// The heap order holds but between `hole` and the core above it; the cores
/// below `hole` are no lighter than the core above it.
spec fn ordered_but_above(cores: Seq<Core>, hole: int) -> bool {
    &&& forall|i: int|
        0 < i < cores.len() && i != hole ==> cores[parent(i)].utilization() <= (
        #[trigger] cores[i]).utilization()
    &&& forall|i: int|
        0 < i < cores.len() && parent(i) == hole && hole > 0 ==> cores[parent(hole)].utilization()
            <= (#[trigger] cores[i]).utilization()
}

/// The heap order holds but between `hole` and the cores below it; the cores
/// below `hole` are no lighter than the core above it.
spec fn ordered_but_below(cores: Seq<Core>, hole: int) -> bool {
    &&& forall|i: int|
        0 < i < cores.len() && parent(i) != hole ==> cores[parent(i)].utilization() <= (
        #[trigger] cores[i]).utilization()
    &&& forall|i: int|
        0 < i < cores.len() && parent(i) == hole && hole > 0 ==> cores[parent(hole)].utilization()
            <= (#[trigger] cores[i]).utilization()
}

/// In a heap no core is lighter than the first.
proof fn lemma_first_is_least(cores: Seq<Core>, i: int)
    requires
        ordered(cores),
        0 <= i < cores.len(),
    ensures
        cores[0].utilization() <= cores[i].utilization(),
    decreases i,
{
    if i > 0 {
        lemma_first_is_least(cores, parent(i));
    }
}

/// Exchanges the cores at places `i` and `j`.
fn exchange(cores: &mut Vec<Core>, i: usize, j: usize)
    requires
        i < old(cores)@.len(),
        j < old(cores)@.len(),
        keys_distinct(entries_of(old(cores)@)),
        all_wf(old(cores)@),
    ensures
        final(cores)@ == old(cores)@.update(i as int, old(cores)@[j as int]).update(
            j as int,
            old(cores)@[i as int],
        ),
        keys_distinct(entries_of(final(cores)@)),
        all_wf(final(cores)@),
        as_map(entries_of(final(cores)@)) == as_map(entries_of(old(cores)@)),
{
    if i != j {
        // Two places of one vector cannot be borrowed at once: the cores change
        // places by way of a spare one.
        let mut spare = Core::new(0);
        std::mem::swap(&mut cores[i], &mut spare);
        std::mem::swap(&mut cores[j], &mut spare);
        std::mem::swap(&mut cores[i], &mut spare);
    }
    proof {
        let before = old(cores)@;
        let turned = before.update(i as int, before[j as int]).update(j as int, before[i as int]);
        assert(cores@ =~= turned);
        let entries = entries_of(before);
        lemma_exchange(entries, i as int, j as int);
        assert(entries_of(turned) =~= entries.update(i as int, entries[j as int]).update(
            j as int,
            entries[i as int],
        ));
    }
}

/// Lets the core at `start` rise until the core above it is no heavier.
fn sift_up(cores: &mut Vec<Core>, start: usize)
    requires
        start < old(cores)@.len(),
        keys_distinct(entries_of(old(cores)@)),
        all_wf(old(cores)@),
        ordered_but_above(old(cores)@, start as int),
    ensures
        final(cores)@.len() == old(cores)@.len(),
        keys_distinct(entries_of(final(cores)@)),
        all_wf(final(cores)@),
        as_map(entries_of(final(cores)@)) == as_map(entries_of(old(cores)@)),
        ordered(final(cores)@),
{
    let mut at = start;
    while at > 0 && cores[at].get_utilization() < cores[(at - 1) / 2].get_utilization()
        invariant
            at < cores@.len(),
            cores@.len() == old(cores)@.len(),
            keys_distinct(entries_of(cores@)),
            all_wf(cores@),
            as_map(entries_of(cores@)) == as_map(entries_of(old(cores)@)),
            ordered_but_above(cores@, at as int),
        decreases at,
    {
        let above = (at - 1) / 2;
        exchange(cores, at, above);
        at = above;
    }
}

/// Lets the core at `start` sink until the cores below it are no lighter.
fn sift_down(cores: &mut Vec<Core>, start: usize)
    requires
        start < old(cores)@.len(),
        keys_distinct(entries_of(old(cores)@)),
        all_wf(old(cores)@),
        ordered_but_below(old(cores)@, start as int),
    ensures
        final(cores)@.len() == old(cores)@.len(),
        keys_distinct(entries_of(final(cores)@)),
        all_wf(final(cores)@),
        as_map(entries_of(final(cores)@)) == as_map(entries_of(old(cores)@)),
        ordered(final(cores)@),
{
    let len = cores.len();
    let mut at = start;
    while at < len / 2
        invariant
            at < len,
            len == cores@.len(),
            cores@.len() == old(cores)@.len(),
            keys_distinct(entries_of(cores@)),
            all_wf(cores@),
            as_map(entries_of(cores@)) == as_map(entries_of(old(cores)@)),
            ordered_but_below(cores@, at as int),
        ensures
            cores@.len() == old(cores)@.len(),
            keys_distinct(entries_of(cores@)),
            all_wf(cores@),
            as_map(entries_of(cores@)) == as_map(entries_of(old(cores)@)),
            ordered(cores@),
        decreases len - at,
    {
        let left = 2 * at + 1;
        let right = left + 1;
        let below = if right < len && cores[right].get_utilization()
            < cores[left].get_utilization() {
            right
        } else {
            left
        };
        if cores[below].get_utilization() < cores[at].get_utilization() {
            exchange(cores, at, below);
            at = below;
        } else {
            break ;
        }
    }
}

/// The cores among which threads are shared out, each known by its id.
///
/// The pool gives out a core of least utilization and takes it back when its
/// threads have changed.
#[derive(Debug, Clone)]
pub struct Pool {
    cores: Vec<Core>,
}

impl View for Pool {
    type V = Map<usize, Map<Seq<char>, nat>>;

    /// The pool as a map from core id to the threads assigned to that core,
    /// each thread name with its priority.
    closed spec fn view(&self) -> Map<usize, Map<Seq<char>, nat>> {
        as_map(entries_of(self.cores@))
    }
}

impl Pool {
    /// The pool keeps its cores as a heap: every core is well formed, no id
    /// occurs twice, and no core is lighter than the one above it.
    pub closed spec fn is_heap(&self) -> bool {
        &&& all_wf(self.cores@)
        &&& keys_distinct(entries_of(self.cores@))
        &&& ordered(self.cores@)
    }

    /// The pool is well formed: it is a heap of finitely many cores, each with
    /// finitely many threads.
    pub open spec fn wf(&self) -> bool {
        &&& self.is_heap()
        &&& self@.dom().finite()
        &&& forall|id: usize| self@.contains_key(id) ==> (#[trigger] self@[id]).dom().finite()
    }

    /// The cores in the order in which the pool keeps them.
    pub closed spec fn listing(&self) -> Seq<CoreListing> {
        self.cores@.map_values(
            |core: Core|
                CoreListing { id: core.id(), utilization: core.utilization(), roster: core.roster() },
        )
    }

    /// The listing of a well-formed pool lists the cores of the pool.
    pub proof fn lemma_listing(&self)
        requires
            self.wf(),
        ensures
            lists(self.listing(), self@),
    {
        assert(listed_cores(self.listing()) =~= entries_of(self.cores@));
    }

    /// The finiteness that `wf` asks for follows from the heap.
    proof fn lemma_heap_is_wf(&self)
        requires
            self.is_heap(),
        ensures
            self.wf(),
    {
        let entries = entries_of(self.cores@);
        lemma_finite(entries);
        assert forall|id: usize| self@.contains_key(id) implies (#[trigger] self@[id]).dom().finite() by {
            let i = place_of(entries, id);
            lemma_entry(entries, i);
        }
    }

    /// A pool without cores.
    pub fn new() -> (pool: Self)
        ensures
            pool.wf(),
            pool@ == Map::<usize, Map<Seq<char>, nat>>::empty(),
    {
        let pool = Pool { cores: Vec::new() };
        proof {
            pool.lemma_heap_is_wf();
        }
        pool
    }

    /// Whether the pool has no cores.
    pub fn is_empty(&self) -> (empty: bool)
        requires
            self.wf(),
        ensures
            empty == self@.dom().is_empty(),
    {
        proof {
            if self.cores@.len() > 0 {
                lemma_entry(entries_of(self.cores@), 0);
            }
        }
        self.cores.len() == 0
    }

    /// Puts `core` into the pool.
    pub fn push(&mut self, core: Core)
        requires
            old(self).wf(),
            core.wf(),
            !old(self)@.contains_key(core.id()),
        ensures
            final(self).wf(),
            final(self)@ == old(self)@.insert(core.id(), core.threads()),
    {
        proof {
            let entries = entries_of(self.cores@);
            lemma_push(entries, (core.id(), core.threads()));
            assert(entries_of(self.cores@.push(core)) =~= entries.push((core.id(), core.threads())));
        }
        self.cores.push(core);
        let last = self.cores.len() - 1;
        sift_up(&mut self.cores, last);
        proof {
            self.lemma_heap_is_wf();
        }
    }

    /// Takes a core of least utilization out of the pool; `None` if the pool is
    /// empty.
    pub fn pop(&mut self) -> (least: Option<Core>)
        requires
            old(self).wf(),
        ensures
            final(self).wf(),
            match least {
                Some(core) => {
                    &&& core.wf()
                    &&& old(self)@.contains_key(core.id())
                    &&& old(self)@[core.id()] == core.threads()
                    &&& final(self)@ == old(self)@.remove(core.id())
                    &&& forall|id: usize| #[trigger]
                        old(self)@.contains_key(id) ==> load_of(core.threads()) <= load_of(
                            old(self)@[id],
                        )
                },
                None => old(self)@.dom().is_empty() && final(self)@ == old(self)@,
            },
    {
        if self.cores.len() == 0 {
            return None;
        }
        proof {
            let before = self.cores@;
            let entries = entries_of(before);
            lemma_entry(entries, 0);
            lemma_swap_remove(entries, 0);
            assert(entries_of(before.update(0, before.last()).drop_last()) =~= entries.update(
                0,
                entries.last(),
            ).drop_last());
            assert forall|id: usize| #[trigger] self@.contains_key(id) implies load_of(
                before[0].threads(),
            ) <= load_of(self@[id]) by {
                let i = place_of(entries, id);
                lemma_entry(entries, i);
                lemma_first_is_least(before, i);
            }
        }
        let least = self.cores.swap_remove(0);
        if self.cores.len() > 0 {
            sift_down(&mut self.cores, 0);
        }
        proof {
            self.lemma_heap_is_wf();
        }
        Some(least)
    }

    /// A core of least utilization, left in the pool; `None` if the pool is
    /// empty.
    pub fn peek(&self) -> (least: Option<&Core>)
        requires
            self.wf(),
        ensures
            match least {
                Some(core) => {
                    &&& core.wf()
                    &&& self@.contains_key(core.id())
                    &&& self@[core.id()] == core.threads()
                    &&& forall|id: usize| #[trigger]
                        self@.contains_key(id) ==> load_of(core.threads()) <= load_of(self@[id])
                },
                None => self@.dom().is_empty(),
            },
    {
        if self.cores.len() == 0 {
            return None;
        }
        proof {
            let entries = entries_of(self.cores@);
            lemma_entry(entries, 0);
            assert forall|id: usize| #[trigger] self@.contains_key(id) implies load_of(
                self.cores@[0].threads(),
            ) <= load_of(self@[id]) by {
                let i = place_of(entries, id);
                lemma_entry(entries, i);
                lemma_first_is_least(self.cores@, i);
            }
        }
        Some(&self.cores[0])
    }

    /// The pool as text: one line for each core, in the order in which the pool
    /// keeps them.
    pub fn render(&self) -> (text: String)
        ensures
            text@ == listing_text(self.listing()),
    {
        let mut text = String::new();
        let mut at: usize = 0;
        while at < self.cores.len()
            invariant
                at <= self.cores@.len(),
                text@ == listing_text(self.listing().take(at as int)),
            decreases self.cores@.len() - at,
        {
            proof {
                let shown = self.listing().take(at + 1);
                assert(shown.drop_last() =~= self.listing().take(at as int));
            }
            text.append(self.cores[at].render().as_str());
            at += 1;
        }
        proof {
            assert(self.listing().take(at as int) =~= self.listing());
        }
        text
    }

    /// The core with id `core_id`, if the pool holds it.
    pub fn find(&self, core_id: usize) -> (found: Option<&Core>)
        requires
            self.wf(),
        ensures
            match found {
                Some(core) => {
                    &&& core.wf()
                    &&& core.id() == core_id
                    &&& self@.contains_key(core_id)
                    &&& self@[core_id] == core.threads()
                },
                None => !self@.contains_key(core_id),
            },
    {
        let mut at: usize = 0;
        while at < self.cores.len()
            invariant
                self.wf(),
                at <= self.cores@.len(),
                forall|k: int| 0 <= k < at ==> (#[trigger] entries_of(self.cores@)[k]).0 != core_id,
            decreases self.cores@.len() - at,
        {
            if self.cores[at].get_core_num() == core_id {
                proof {
                    lemma_entry(entries_of(self.cores@), at as int);
                }
                return Some(&self.cores[at]);
            }
            at += 1;
        }
        None
    }
}

} // verus!
