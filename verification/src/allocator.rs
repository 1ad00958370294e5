//! The allocator: which core each thread runs on.

use crate::cpu_core::Core;
use crate::distinct::among_first;
use crate::distinct::sorted_distinct;
use crate::distinct::strictly_increasing;
use crate::laws::law_removal_keeps_consistency;
use crate::laws::law_request_keeps_consistency;
use crate::listing::listing_text;
use crate::listing::lists;
use crate::listing::CoreListing;
use crate::load::load_of;
use crate::model::AllocatorView;
use crate::pool::Pool;
use vstd::hash_map::StringHashMap;
use vstd::prelude::*;

verus! {

/// Keeps track of the utilization of a fixed set of cores and gives each
/// thread the core of least utilization, the same core every time the thread
/// asks again. The utilization of a core is the sum of the priorities of the
/// threads assigned to it.
pub struct Allocator {
    cores: Pool,
    mappings: StringHashMap<usize>,
}

impl View for Allocator {
    type V = AllocatorView;

    closed spec fn view(&self) -> AllocatorView {
        AllocatorView { cores: self.cores@, assignments: self.mappings@ }
    }
}

impl Allocator {
    /// The pool of cores is kept as a heap.
    pub closed spec fn pool_is_heap(&self) -> bool {
        self.cores.wf()
    }

    /// The allocator is well formed: its pool is in order and its state holds
    /// together.
    pub open spec fn wf(&self) -> bool {
        &&& self.pool_is_heap()
        &&& self@.consistent()
    }

    /// The cores in the order in which the allocator keeps them at present.
    pub closed spec fn listing(&self) -> Seq<CoreListing> {
        self.cores.listing()
    }

    /// Utilization consistency: the listing of a well-formed allocator names
    /// each of its cores once, with its threads once each, and the utilization
    /// that a core keeps count of is the sum of the priorities of its threads.
    pub proof fn lemma_listing(&self)
        requires
            self.wf(),
        ensures
            lists(self.listing(), self@.cores),
    {
        self.cores.lemma_listing();
    }

    /// An allocator that shares out the cores of `cores_list`. An id that is
    /// listed more than once counts once.
    pub fn new(cores_list: Vec<usize>) -> (allocator: Self)
        ensures
            allocator.wf(),
            allocator@ == AllocatorView::fresh(cores_list@.to_set()),
    {
        let ids = sorted_distinct(&cores_list);
        let mut cores = Pool::new();
        let mut next: usize = 0;
        while next < ids.len()
            invariant
                next <= ids@.len(),
                strictly_increasing(ids@),
                cores.wf(),
                forall|id: usize| cores@.contains_key(id) <==> among_first(ids@, next as int, id),
                forall|id: usize|
                    cores@.contains_key(id) ==> #[trigger] cores@[id] == Map::<
                        Seq<char>,
                        nat,
                    >::empty(),
            decreases ids@.len() - next,
        {
            let core = Core::new(ids[next]);
            proof {
                // The ids rise, so this one has not come before.
                assert(!among_first(ids@, next as int, ids@[next as int]));
            }
            cores.push(core);
            proof {
                assert(ids@[next as int] == core.id());
            }
            next += 1;
        }
        let allocator = Allocator { cores, mappings: StringHashMap::new() };
        proof {
            let fresh = AllocatorView::fresh(cores_list@.to_set());
            assert forall|id: usize| allocator@.cores.contains_key(id) <==> fresh.cores.contains_key(
                id,
            ) by {
                assert(among_first(ids@, next as int, id) <==> ids@.contains(id));
            }
            assert(allocator@.cores =~= fresh.cores);
            assert(allocator@.assignments =~= fresh.assignments);
        }
        allocator
    }

    /// The core for the thread called `thread_name`.
    ///
    /// A thread that has a core keeps it, and `priority` is not looked at. A
    /// new thread is put on a core of least utilization with the given
    /// priority. Without any cores the answer is core 0, and the thread weighs
    /// on none.
    ///
    /// The request must have room: see [`Allocator::has_room`].
    pub fn get_core_for_thread(&mut self, thread_name: &str, priority: usize) -> (core_id: usize)
        requires
            old(self).wf(),
            old(self)@.has_room(thread_name@, priority as nat),
        ensures
            final(self).wf(),
            old(self)@.assigns(thread_name@, priority as nat, core_id, final(self)@),
    {
        match self.mappings.get(thread_name) {
            Some(known) => {
                return *known;
            },
            None => {},
        }
        let ghost before = self@;
        let core_id = match self.cores.pop() {
            Some(mut core) => {
                let core_num = core.get_core_num();
                proof {
                    // The thread is on no core, and the lightest core has room
                    // wherever any core has.
                    assert(!core.threads().contains_key(thread_name@));
                    let room = choose|id: usize| #[trigger]
                        before.cores.contains_key(id) && before.load(id) + priority <= usize::MAX;
                    assert(load_of(core.threads()) <= before.load(room));
                }
                core.add_thread(thread_name, priority);
                self.cores.push(core);
                proof {
                    assert(self.cores@ =~= before.with_thread(
                        thread_name@,
                        priority as nat,
                        core_num,
                    ).cores);
                }
                core_num
            },
            None => 0,
        };
        self.mappings.insert(thread_name.to_owned(), core_id);
        proof {
            assert(before.assigns(thread_name@, priority as nat, core_id, self@));
            law_request_keeps_consistency(before, thread_name@, priority as nat, core_id, self@);
        }
        core_id
    }

    /// Whether a request for the thread called `thread_name` with the given
    /// priority can be served without a utilization leaving the range of
    /// `usize`.
    pub fn has_room(&self, thread_name: &str, priority: usize) -> (fits: bool)
        requires
            self.wf(),
        ensures
            fits == self@.has_room(thread_name@, priority as nat),
    {
        if self.mappings.contains_key(thread_name) {
            return true;
        }
        match self.cores.peek() {
            Some(core) => {
                // No core is lighter than this one: where it has no room, none has.
                core.get_utilization() <= usize::MAX - priority
            },
            None => true,
        }
    }

    /// The core that the thread called `thread_name` is assigned to, if it is
    /// assigned.
    pub fn get_assigned_core(&self, thread_name: &str) -> (core_id: Option<usize>)
        ensures
            core_id is Some <==> self@.assignments.contains_key(thread_name@),
            core_id is Some ==> core_id->0 == self@.assignments[thread_name@],
    {
        match self.mappings.get(thread_name) {
            Some(known) => Some(*known),
            None => None,
        }
    }

    /// The utilization of core `core_id`, if the allocator has that core.
    pub fn get_utilization(&self, core_id: usize) -> (utilization: Option<usize>)
        requires
            self.wf(),
        ensures
            utilization is Some <==> self@.cores.contains_key(core_id),
            utilization is Some ==> utilization->0 == self@.load(core_id),
    {
        match self.cores.find(core_id) {
            Some(core) => Some(core.get_utilization()),
            None => None,
        }
    }

    /// The allocator as text: one line for each core, in the order in which
    /// the allocator keeps them at present, with the core's threads as
    /// `name(priority)` pairs.
    pub fn render(&self) -> (text: String)
        ensures
            text@ == listing_text(self.listing()),
    {
        self.cores.render()
    }

    /// Takes the thread called `thread_name` off its core and forgets its
    /// assignment. A thread that has no core changes nothing.
    pub fn remove_thread(&mut self, thread_name: &str)
        requires
            old(self).wf(),
        ensures
            final(self).wf(),
            final(self)@ == old(self)@.without(thread_name@),
    {
        let core_num = match self.mappings.get(thread_name) {
            Some(known) => *known,
            None => {
                return ;
            },
        };
        let ghost before = self@;
        let ghost target = before.without(thread_name@);
        self.mappings.remove(thread_name);
        let mut rebuilt = Pool::new();
        loop
            invariant
                self.cores.wf(),
                rebuilt.wf(),
                before.assignments.contains_key(thread_name@),
                before.assignments[thread_name@] == core_num,
                target == before.without(thread_name@),
                self.mappings@ == target.assignments,
                forall|id: usize| #[trigger]
                    self.cores@.contains_key(id) ==> before.cores.contains_key(id)
                        && self.cores@[id] == before.cores[id] && !rebuilt@.contains_key(id),
                forall|id: usize| #[trigger]
                    rebuilt@.contains_key(id) ==> target.cores.contains_key(id) && rebuilt@[id]
                        == target.cores[id],
                forall|id: usize| #[trigger]
                    before.cores.contains_key(id) ==> self.cores@.contains_key(id)
                        || rebuilt@.contains_key(id),
            ensures
                rebuilt.wf(),
                rebuilt@ == target.cores,
                self.mappings@ == target.assignments,
            decreases self.cores@.dom().len(),
        {
            match self.cores.pop() {
                Some(mut core) => {
                    if core.get_core_num() == core_num {
                        core.remove_thread(thread_name);
                    }
                    rebuilt.push(core);
                },
                None => {
                    break ;
                },
            }
        }
        self.cores = rebuilt;
        proof {
            law_removal_keeps_consistency(before, thread_name@);
        }
    }
}

} // verus!
