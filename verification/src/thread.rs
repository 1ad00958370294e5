//! A thread: a name and a priority.

use crate::text::decimal_text;
use crate::text::pair_text;
use crate::text::thread_text;
use std::cmp::Ordering;
use vstd::prelude::*;
use vstd::string::StringExecFns;
use vstd::std_specs::cmp::PartialEqSpecImpl;
use vstd::std_specs::cmp::PartialOrdSpecImpl;

verus! {

/// A logical execution unit that asks for a core: its name, and the weight it
/// puts on the core that takes it.
///
/// Two threads are the same thread when their names are equal, whatever their
/// priorities.
#[derive(Debug, Clone, Eq)]
pub struct Thread {
    thread_name: String,
    priority: usize,
}

impl Thread {
    /// The thread's name, as characters.
    pub closed spec fn name(&self) -> Seq<char> {
        self.thread_name@
    }

    /// The thread's priority, as a number.
    pub closed spec fn weight(&self) -> nat {
        self.priority as nat
    }

    /// How this thread stands to `other`: threads of one name stand equal;
    /// otherwise the priorities decide.
    pub open spec fn order(&self, other: &Thread) -> Ordering {
        if self.name() == other.name() || self.weight() == other.weight() {
            Ordering::Equal
        } else if self.weight() < other.weight() {
            Ordering::Less
        } else {
            Ordering::Greater
        }
    }

    /// A thread called `thread_name` that weighs `priority`.
    pub fn new(thread_name: &str, priority: usize) -> (thread: Self)
        ensures
            thread.name() == thread_name@,
            thread.weight() == priority,
    {
        Thread { thread_name: thread_name.to_owned(), priority }
    }

    /// The thread's priority.
    pub fn get_priority(&self) -> (priority: usize)
        ensures
            priority == self.weight(),
    {
        self.priority
    }

    /// The thread's name.
    pub fn get_name(&self) -> (thread_name: &str)
        ensures
            thread_name@ == self.name(),
    {
        self.thread_name.as_str()
    }

    /// The thread as a pair, `name(priority)`.
    pub fn render_pair(&self) -> (text: String)
        ensures
            text@ == pair_text(self.name(), self.weight()),
    {
        let mut text = self.thread_name.clone();
        text.append("(");
        text.append(decimal_text(self.priority).as_str());
        text.append(")");
        text
    }

    /// The thread as text: `Thread(Priority): name(priority)`.
    pub fn render(&self) -> (text: String)
        ensures
            text@ == thread_text(self.name(), self.weight()),
    {
        let mut text = String::from_str("Thread(Priority): ");
        text.append(self.render_pair().as_str());
        text
    }

    /// Compares two threads: equal when the names are equal, else by priority.
    pub fn cmp(&self, other: &Thread) -> (order: Ordering)
        ensures
            order == self.order(other),
    {
        if self.thread_name == other.thread_name {
            Ordering::Equal
        } else if self.priority < other.priority {
            Ordering::Less
        } else if self.priority > other.priority {
            Ordering::Greater
        } else {
            Ordering::Equal
        }
    }
}

impl PartialEq for Thread {
    fn eq(&self, other: &Thread) -> (same: bool) {
        self.thread_name == other.thread_name
    }
}

impl PartialEqSpecImpl for Thread {
    open spec fn obeys_eq_spec() -> bool {
        true
    }

    open spec fn eq_spec(&self, other: &Thread) -> bool {
        self.name() == other.name()
    }
}

impl PartialOrd for Thread {
    fn partial_cmp(&self, other: &Thread) -> (order: Option<Ordering>) {
        Some(self.cmp(other))
    }
}

impl PartialOrdSpecImpl for Thread {
    open spec fn obeys_partial_cmp_spec() -> bool {
        true
    }

    open spec fn partial_cmp_spec(&self, other: &Thread) -> Option<Ordering> {
        Some(self.order(other))
    }
}

} // verus!
