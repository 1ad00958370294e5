//! A core: an id, the threads it runs, and what they weigh together.

use crate::keyed::as_map;
use crate::keyed::has_key;
use crate::keyed::keys_distinct;
use crate::keyed::lemma_entry;
use crate::keyed::lemma_finite;
use crate::keyed::lemma_push;
use crate::keyed::lemma_remove;
use crate::keyed::lemma_update;
use crate::load::lemma_load_of_insert;
use crate::load::lemma_load_of_remove;
use crate::load::load_of;
use crate::text::core_text;
use crate::text::decimal_text;
use crate::text::roster_text;
use crate::text::same_text;
use crate::thread::Thread;
use std::cmp::Ordering;
use vstd::prelude::*;
use vstd::string::StringExecFns;
use vstd::std_specs::cmp::PartialEqSpecImpl;
use vstd::std_specs::cmp::PartialOrdSpecImpl;

verus! {

/// The threads of a core as entries: each name with its priority.
spec fn entries_of(threads: Seq<Thread>) -> Seq<(Seq<char>, nat)> {
    threads.map_values(|thread: Thread| (thread.name(), thread.weight()))
}

/// One physical core: its id, which never changes, the threads assigned to it,
/// and its utilization, the sum of their priorities.
///
/// Two cores are the same core when their ids are equal.
#[derive(Debug, Clone, Eq)]
pub struct Core {
    core_number: usize,
    utilization: usize,
    threads: Vec<Thread>,
}

impl Core {
    /// The core's id.
    pub closed spec fn id(&self) -> usize {
        self.core_number
    }

    /// The utilization that the core keeps count of.
    pub closed spec fn utilization(&self) -> nat {
        self.utilization as nat
    }

    /// The threads assigned to the core in the order in which the core keeps
    /// them: each name with its priority.
    pub closed spec fn roster(&self) -> Seq<(Seq<char>, nat)> {
        entries_of(self.threads@)
    }

    /// The threads assigned to the core: each name with its priority.
    pub open spec fn threads(&self) -> Map<Seq<char>, nat> {
        as_map(self.roster())
    }

    /// The core is well formed: it keeps each name once, and its utilization is
    /// the sum of the priorities of the threads assigned to it.
    pub open spec fn wf(&self) -> bool {
        &&& keys_distinct(self.roster())
        &&& self.threads().dom().finite()
        &&& self.utilization() == load_of(self.threads())
    }

    /// What the thread called `name` weighs on this core; nothing if it is not here.
    pub open spec fn weight_of(&self, name: Seq<char>) -> nat {
        if self.threads().contains_key(name) {
            self.threads()[name]
        } else {
            0
        }
    }

    /// How this core stands to `other`: a core stands equal to itself; two cores
    /// are ordered by utilization alone.
    pub open spec fn order(&self, other: &Core) -> Ordering {
        if self.id() == other.id() || self.utilization() == other.utilization() {
            Ordering::Equal
        } else if self.utilization() < other.utilization() {
            Ordering::Less
        } else {
            Ordering::Greater
        }
    }

    /// An idle core with id `core_number`.
    pub fn new(core_number: usize) -> (core: Self)
        ensures
            core.wf(),
            core.id() == core_number,
            core.utilization() == 0,
            core.threads() == Map::<Seq<char>, nat>::empty(),
    {
        let core = Core { core_number, utilization: 0, threads: Vec::new() };
        proof {
            assert(core.threads() =~= Map::<Seq<char>, nat>::empty());
        }
        core
    }

    /// Where the thread called `thread_name` is kept, if it is here.
    fn find(&self, thread_name: &str) -> (slot: Option<usize>)
        ensures
            match slot {
                Some(i) => i < self.threads@.len() && self.threads@[i as int].name()
                    == thread_name@,
                None => !has_key(entries_of(self.threads@), thread_name@),
            },
    {
        let mut at: usize = 0;
        while at < self.threads.len()
            invariant
                at <= self.threads@.len(),
                forall|k: int|
                    0 <= k < at ==> (#[trigger] entries_of(self.threads@)[k]).0 != thread_name@,
            decreases self.threads@.len() - at,
        {
            if same_text(self.threads[at].get_name(), thread_name) {
                return Some(at);
            }
            at += 1;
        }
        None
    }

    /// Assigns the thread called `thread_name` to this core with the given
    /// priority. A thread of that name that is already here is replaced, so the
    /// core keeps one record per name.
    pub fn add_thread(&mut self, thread_name: &str, priority: usize)
        requires
            old(self).wf(),
            old(self).utilization() - old(self).weight_of(thread_name@) + priority <= usize::MAX,
        ensures
            final(self).wf(),
            final(self).id() == old(self).id(),
            final(self).threads() == old(self).threads().insert(thread_name@, priority as nat),
            final(self).utilization() == old(self).utilization() - old(self).weight_of(
                thread_name@,
            ) + priority,
    {
        let thread = Thread::new(thread_name, priority);
        proof {
            lemma_load_of_insert(self.threads(), thread_name@, priority as nat);
            lemma_load_of_remove(self.threads(), thread_name@);
        }
        match self.find(thread_name) {
            Some(slot) => {
                proof {
                    let entries = entries_of(self.threads@);
                    let entry = (thread.name(), thread.weight());
                    lemma_entry(entries, slot as int);
                    lemma_update(entries, slot as int, entry);
                    assert(entries_of(self.threads@.update(slot as int, thread))
                        =~= entries.update(slot as int, entry));
                }
                self.utilization = self.utilization - self.threads[slot].get_priority() + priority;
                self.threads[slot] = thread;
            },
            None => {
                proof {
                    let entries = entries_of(self.threads@);
                    let entry = (thread.name(), thread.weight());
                    lemma_push(entries, entry);
                    assert(entries_of(self.threads@.push(thread)) =~= entries.push(entry));
                }
                self.utilization = self.utilization + priority;
                self.threads.push(thread);
            },
        }
        proof {
            lemma_finite(entries_of(self.threads@));
        }
    }

    /// Takes the thread called `thread_name` off this core; nothing changes if it
    /// is not here.
    pub fn remove_thread(&mut self, thread_name: &str)
        requires
            old(self).wf(),
        ensures
            final(self).wf(),
            final(self).id() == old(self).id(),
            final(self).threads() == old(self).threads().remove(thread_name@),
            final(self).utilization() == old(self).utilization() - old(self).weight_of(
                thread_name@,
            ),
    {
        proof {
            lemma_load_of_remove(self.threads(), thread_name@);
        }
        match self.find(thread_name) {
            Some(slot) => {
                proof {
                    let entries = entries_of(self.threads@);
                    lemma_entry(entries, slot as int);
                    lemma_remove(entries, slot as int);
                    assert(entries_of(self.threads@.remove(slot as int)) =~= entries.remove(
                        slot as int,
                    ));
                }
                self.utilization = self.utilization - self.threads[slot].get_priority();
                let _ = self.threads.remove(slot);
            },
            None => {},
        }
        proof {
            lemma_finite(entries_of(self.threads@));
        }
    }

    /// The core as one line of text: its id, its utilization in square
    /// brackets, and its threads as `name(priority)` pairs.
    pub fn render(&self) -> (text: String)
        ensures
            text@ == core_text(self.id(), self.utilization(), self.roster()),
    {
        let mut text = String::from_str("Core ");
        text.append(decimal_text(self.core_number).as_str());
        text.append(" [");
        text.append(decimal_text(self.utilization).as_str());
        text.append("]:");
        let ghost head = text@;
        let mut at: usize = 0;
        while at < self.threads.len()
            invariant
                at <= self.threads@.len(),
                text@ == head + roster_text(self.roster().take(at as int)),
            decreases self.threads@.len() - at,
        {
            proof {
                let shown = self.roster().take(at + 1);
                assert(shown.drop_last() =~= self.roster().take(at as int));
            }
            text.append(" ");
            text.append(self.threads[at].render_pair().as_str());
            at += 1;
        }
        proof {
            assert(self.roster().take(at as int) =~= self.roster());
        }
        text.append("\n");
        text
    }

    /// Compares two cores: equal when the ids are equal, else by utilization.
    pub fn cmp(&self, other: &Core) -> (order: Ordering)
        ensures
            order == self.order(other),
    {
        if self.core_number == other.core_number {
            Ordering::Equal
        } else if self.utilization < other.utilization {
            Ordering::Less
        } else if self.utilization > other.utilization {
            Ordering::Greater
        } else {
            Ordering::Equal
        }
    }

    /// The core's id.
    pub fn get_core_num(&self) -> (core_number: usize)
        ensures
            core_number == self.id(),
    {
        self.core_number
    }

    /// The core's utilization.
    pub fn get_utilization(&self) -> (utilization: usize)
        ensures
            utilization == self.utilization(),
    {
        self.utilization
    }

    /// The priority of the thread called `thread_name`, if it is assigned here.
    pub fn get_thread_priority(&self, thread_name: &str) -> (priority: Option<usize>)
        requires
            self.wf(),
        ensures
            priority is Some <==> self.threads().contains_key(thread_name@),
            priority is Some ==> priority->0 == self.threads()[thread_name@],
    {
        match self.find(thread_name) {
            Some(slot) => {
                proof {
                    lemma_entry(entries_of(self.threads@), slot as int);
                }
                Some(self.threads[slot].get_priority())
            },
            None => None,
        }
    }
}

impl PartialEq for Core {
    fn eq(&self, other: &Core) -> (same: bool) {
        self.core_number == other.core_number
    }
}

impl PartialEqSpecImpl for Core {
    open spec fn obeys_eq_spec() -> bool {
        true
    }

    open spec fn eq_spec(&self, other: &Core) -> bool {
        self.id() == other.id()
    }
}

impl PartialOrd for Core {
    fn partial_cmp(&self, other: &Core) -> (order: Option<Ordering>) {
        Some(self.cmp(other))
    }
}

impl PartialOrdSpecImpl for Core {
    open spec fn obeys_partial_cmp_spec() -> bool {
        true
    }

    open spec fn partial_cmp_spec(&self, other: &Core) -> Option<Ordering> {
        Some(self.order(other))
    }
}

} // verus!
