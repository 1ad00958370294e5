use core_allocator::thread::Thread;
use std::cmp::Ordering;

#[test]
fn thread_keeps_its_name_and_priority() {
    let thread = Thread::new("worker", 89);
    assert_eq!(thread.get_priority(), 89);
    assert_eq!(thread.get_name(), "worker");
    let nameless = Thread::new("", 0);
    assert_eq!(nameless.get_priority(), 0);
    assert_eq!(nameless.get_name(), "");
}

#[test]
fn threads_are_equal_by_name() {
    assert!(Thread::new("a", 1) == Thread::new("a", 2));
    assert!(Thread::new("a", 1) != Thread::new("b", 1));
    assert!(Thread::new("", 1) == Thread::new("", 7));
}

#[test]
fn threads_are_ordered_by_priority() {
    let low = Thread::new("low", 1);
    let high = Thread::new("high", 2);
    let level = Thread::new("level", 2);
    let namesake = Thread::new("low", 50);
    assert_eq!(low.cmp(&high), Ordering::Less);
    assert_eq!(high.cmp(&low), Ordering::Greater);
    assert_eq!(high.cmp(&level), Ordering::Equal);
    assert_eq!(low.cmp(&namesake), Ordering::Equal);
    assert_eq!(namesake.cmp(&low), Ordering::Equal);
    assert_eq!(low.partial_cmp(&high), Some(Ordering::Less));
    assert_eq!(high.partial_cmp(&low), Some(Ordering::Greater));
    assert_eq!(low.partial_cmp(&namesake), Some(Ordering::Equal));
    assert!(low < high);
    assert!(high > low);
    assert!(!(low < namesake));
    assert!(low >= namesake);
}

#[test]
fn thread_renders_as_name_and_priority() {
    assert_eq!(Thread::new("worker", 89).render(), "Thread(Priority): worker(89)");
    assert_eq!(Thread::new("", 0).render(), "Thread(Priority): (0)");
    assert_eq!(Thread::new("worker", 89).render_pair(), "worker(89)");
    assert_eq!(
        Thread::new("tr\u{e4}ger", usize::MAX).render_pair(),
        format!("tr\u{e4}ger({})", usize::MAX)
    );
}

#[test]
fn thread_can_be_cloned() {
    let thread = Thread::new("worker", 3);
    let copy = thread.clone();
    assert!(copy == thread);
    assert_eq!(copy.get_priority(), 3);
    assert_eq!(copy.get_name(), "worker");
}
