//! What an allocator stands for, and what assigning and removing do to it.

use crate::load::load_of;
use crate::load::totals_of;
use vstd::multiset::Multiset;
use vstd::prelude::*;

verus! {

/// The state of an allocator as plain mathematics.
pub struct AllocatorView {
    /// Each core id with the threads assigned to that core: their names and
    /// priorities.
    pub cores: Map<usize, Map<Seq<char>, nat>>,
    /// Each thread name that has been given a core, with that core's id.
    pub assignments: Map<Seq<char>, usize>,
}

impl AllocatorView {
    /// The state of a new allocator over the cores `ids`: every core idle, no
    /// name assigned.
    pub open spec fn fresh(ids: Set<usize>) -> AllocatorView {
        AllocatorView {
            cores: Map::new(|id: usize| ids.contains(id), |id: usize| Map::empty()),
            assignments: Map::empty(),
        }
    }

    /// The utilization of core `id`: the sum of the priorities of its threads.
    pub open spec fn load(self, id: usize) -> nat {
        load_of(self.cores[id])
    }

    /// The utilizations of the cores, each counted as often as it occurs.
    pub open spec fn totals(self) -> Multiset<nat> {
        totals_of(self.cores)
    }

    /// Core `id` is in the pool and no core of the pool has less utilization.
    pub open spec fn is_least_loaded(self, id: usize) -> bool {
        &&& self.cores.contains_key(id)
        &&& forall|other: usize| #[trigger]
            self.cores.contains_key(other) ==> self.load(id) <= self.load(other)
    }

    /// A thread called `name` with the given priority can be taken in without
    /// a utilization leaving the range of `usize`: the name has its core
    /// already, or there are no cores, or some core has room for the priority.
    pub open spec fn has_room(self, name: Seq<char>, priority: nat) -> bool {
        ||| self.assignments.contains_key(name)
        ||| self.cores.dom().is_empty()
        ||| exists|id: usize| #[trigger]
            self.cores.contains_key(id) && self.load(id) + priority <= usize::MAX
    }

    /// The state holds together: there are finitely many cores and threads;
    /// every assigned name is a thread of the core it is assigned to (with no
    /// cores at all, it is assigned to core 0); and every thread of a core is
    /// assigned to that core.
    pub open spec fn consistent(self) -> bool {
        &&& self.cores.dom().finite()
        &&& forall|id: usize|
            self.cores.contains_key(id) ==> (#[trigger] self.cores[id]).dom().finite()
        &&& forall|name: Seq<char>| #[trigger]
            self.assignments.contains_key(name) ==> if self.cores.dom().is_empty() {
                self.assignments[name] == 0
            } else {
                &&& self.cores.contains_key(self.assignments[name])
                &&& self.cores[self.assignments[name]].contains_key(name)
            }
        &&& forall|id: usize, name: Seq<char>|
            self.cores.contains_key(id) && (#[trigger] self.cores[id].contains_key(name))
                ==> self.assignments.contains_key(name) && self.assignments[name] == id
    }

    /// The state after the thread called `name` has been put on core `id` with
    /// the given priority and assigned to it.
    pub open spec fn with_thread(self, name: Seq<char>, priority: nat, id: usize) -> AllocatorView {
        AllocatorView {
            cores: self.cores.insert(id, self.cores[id].insert(name, priority)),
            assignments: self.assignments.insert(name, id),
        }
    }

    /// Asking for a core for the thread called `name` with the given priority
    /// may answer `core_id` and leave the state `after`.
    ///
    /// A name that is assigned keeps its core and nothing changes. A new name
    /// goes to a core of least utilization, whichever that is among several;
    /// without any cores it is assigned to core 0 and weighs on none.
    pub open spec fn assigns(
        self,
        name: Seq<char>,
        priority: nat,
        core_id: usize,
        after: AllocatorView,
    ) -> bool {
        if self.assignments.contains_key(name) {
            core_id == self.assignments[name] && after == self
        } else if self.cores.dom().is_empty() {
            core_id == 0 && after == (AllocatorView {
                cores: self.cores,
                assignments: self.assignments.insert(name, 0),
            })
        } else {
            self.is_least_loaded(core_id) && after == self.with_thread(name, priority, core_id)
        }
    }

    /// The state after the thread called `name` has been removed: its
    /// assignment is gone, and it is no longer a thread of the core it was
    /// assigned to. A name that is not assigned changes nothing.
    pub open spec fn without(self, name: Seq<char>) -> AllocatorView {
        if self.assignments.contains_key(name) {
            let id = self.assignments[name];
            AllocatorView {
                cores: if self.cores.contains_key(id) {
                    self.cores.insert(id, self.cores[id].remove(name))
                } else {
                    self.cores
                },
                assignments: self.assignments.remove(name),
            }
        } else {
            self
        }
    }
}

} // verus!
