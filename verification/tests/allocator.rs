use core_allocator::allocator::Allocator;

fn ten_cores() -> Allocator {
    Allocator::new((0..10).collect())
}

#[test]
fn same_thread_gets_same_core() {
    let thread_name = "TestThread";
    let cores = (0..10).collect();

    let mut allocator = Allocator::new(cores);

    let core_num = allocator.get_core_for_thread(thread_name, 100);
    for i in 0..1000 {
        assert_eq!(core_num, allocator.get_core_for_thread(thread_name, i));
    }
}

#[test]
fn least_busy_cores_first() {
    let thread_prefix = "TestThread";
    let cores = (0..10).collect();

    let mut allocator = Allocator::new(cores);

    // Start with the lowest priority tasks
    for i in 1..11 {
        let thread_name = format!("{}{}", thread_prefix, i);
        let _ = allocator.get_core_for_thread(&thread_name, i);
    }

    assert_eq!(
        allocator.get_core_for_thread(thread_prefix, 10),
        allocator.get_core_for_thread("TestThread1", 10)
    );
}

#[test]
fn order_doesnt_matter() {
    let thread_prefix = "TestThread";
    let cores = (0..10).collect();

    let mut allocator = Allocator::new(cores);

    // Start with the highest priority tasks
    for i in (1..11).rev() {
        let thread_name = format!("{}{}", thread_prefix, i);
        let _ = allocator.get_core_for_thread(&thread_name, i);
    }

    assert_eq!(
        allocator.get_core_for_thread(thread_prefix, 10),
        allocator.get_core_for_thread("TestThread1", 10)
    );
}

#[test]
fn repeated_request_ignores_the_new_priority() {
    let mut allocator = Allocator::new(vec![4, 9]);
    let first = allocator.get_core_for_thread("worker", 7);
    let second = allocator.get_core_for_thread("worker", 1000);
    assert_eq!(first, second);
    assert_eq!(allocator.get_utilization(first), Some(7));
    assert_eq!(allocator.get_assigned_core("worker"), Some(first));
}

#[test]
fn assignment_survives_other_requests_and_removals() {
    let mut allocator = Allocator::new(vec![0, 1, 2]);
    let kept = allocator.get_core_for_thread("kept", 3);
    let _ = allocator.get_core_for_thread("a", 1);
    let _ = allocator.get_core_for_thread("b", 2);
    allocator.remove_thread("a");
    let _ = allocator.get_core_for_thread("c", 9);
    allocator.remove_thread("missing");
    assert_eq!(allocator.get_core_for_thread("kept", 50), kept);
    assert_eq!(allocator.get_assigned_core("kept"), Some(kept));
}

#[test]
fn first_threads_spread_over_all_cores() {
    let mut allocator = ten_cores();
    let mut seen: Vec<usize> = Vec::new();
    for i in 1..11 {
        let name = format!("T{}", i);
        let core = allocator.get_core_for_thread(&name, i);
        assert!(core < 10);
        assert!(!seen.contains(&core));
        seen.push(core);
        assert_eq!(allocator.get_utilization(core), Some(i));
    }
    seen.sort();
    assert_eq!(seen, (0..10).collect::<Vec<usize>>());
}

#[test]
fn new_thread_goes_to_a_least_loaded_core() {
    let mut allocator = Allocator::new(vec![10, 20, 30]);
    let a = allocator.get_core_for_thread("a", 5);
    let b = allocator.get_core_for_thread("b", 3);
    let c = allocator.get_core_for_thread("c", 4);
    assert!(a != b && b != c && a != c);
    // Utilizations are 5, 3 and 4: the next thread joins "b", the one after "c".
    assert_eq!(allocator.get_core_for_thread("d", 2), b);
    assert_eq!(allocator.get_utilization(b), Some(5));
    assert_eq!(allocator.get_core_for_thread("e", 2), c);
    assert_eq!(allocator.get_utilization(c), Some(6));
    assert_eq!(allocator.get_utilization(a), Some(5));
}

fn sorted_utilizations(allocator: &Allocator, cores: usize) -> Vec<usize> {
    let mut totals: Vec<usize> = Vec::new();
    for id in 0..cores {
        totals.push(allocator.get_utilization(id).unwrap());
    }
    totals.sort();
    totals
}

#[test]
fn ten_threads_in_either_order_give_the_same_totals() {
    let mut rising = ten_cores();
    for i in 1..11 {
        let _ = rising.get_core_for_thread(&format!("T{}", i), i);
    }
    let mut falling = ten_cores();
    for i in (1..11).rev() {
        let _ = falling.get_core_for_thread(&format!("T{}", i), i);
    }
    let expected: Vec<usize> = (1..11).collect();
    assert_eq!(sorted_utilizations(&rising, 10), expected);
    assert_eq!(sorted_utilizations(&falling, 10), expected);
    let once = rising.get_core_for_thread("T1", 10);
    assert_eq!(rising.get_core_for_thread("T1", 10), once);
    let once = falling.get_core_for_thread("T1", 10);
    assert_eq!(falling.get_core_for_thread("T1", 10), once);
}

#[test]
fn order_matters_once_cores_are_shared() {
    let mut rising = Allocator::new(vec![0, 1]);
    let _ = rising.get_core_for_thread("a", 1);
    let _ = rising.get_core_for_thread("b", 1);
    let _ = rising.get_core_for_thread("c", 2);
    assert_eq!(sorted_utilizations(&rising, 2), vec![1, 3]);
    let mut falling = Allocator::new(vec![0, 1]);
    let _ = falling.get_core_for_thread("c", 2);
    let _ = falling.get_core_for_thread("b", 1);
    let _ = falling.get_core_for_thread("a", 1);
    assert_eq!(sorted_utilizations(&falling, 2), vec![2, 2]);
}

#[test]
fn utilization_is_the_sum_of_the_assigned_priorities() {
    let mut allocator = Allocator::new(vec![0, 1]);
    let priorities = [("a", 5usize), ("b", 1), ("c", 2), ("d", 8), ("e", 3), ("f", 13)];
    let mut expected = [0usize, 0usize];
    let mut homes: Vec<(&str, usize, usize)> = Vec::new();
    for (name, priority) in priorities.iter() {
        let core = allocator.get_core_for_thread(name, *priority);
        expected[core] += *priority;
        homes.push((*name, *priority, core));
        assert_eq!(allocator.get_utilization(0), Some(expected[0]));
        assert_eq!(allocator.get_utilization(1), Some(expected[1]));
    }
    assert_eq!(expected[0] + expected[1], 32);
    for (name, priority, core) in homes.iter() {
        allocator.remove_thread(name);
        expected[*core] -= *priority;
        assert_eq!(allocator.get_utilization(0), Some(expected[0]));
        assert_eq!(allocator.get_utilization(1), Some(expected[1]));
        let again = allocator.get_core_for_thread("extra", 1);
        expected[again] += 1;
        allocator.remove_thread("extra");
        expected[again] -= 1;
    }
    assert_eq!(allocator.get_utilization(0), Some(0));
    assert_eq!(allocator.get_utilization(1), Some(0));
}

#[test]
fn removing_twice_is_removing_once() {
    let mut allocator = Allocator::new(vec![0, 1, 2]);
    let _ = allocator.get_core_for_thread("stay", 4);
    let home = allocator.get_core_for_thread("go", 6);
    allocator.remove_thread("go");
    let after_once = allocator.render();
    assert_eq!(allocator.get_assigned_core("go"), None);
    assert_eq!(allocator.get_utilization(home), Some(0));
    allocator.remove_thread("go");
    assert_eq!(allocator.render(), after_once);
    assert_eq!(allocator.get_assigned_core("go"), None);
    assert_eq!(allocator.get_utilization(home), Some(0));
}

#[test]
fn removed_thread_is_assigned_anew() {
    let mut allocator = Allocator::new(vec![0, 1]);
    let first = allocator.get_core_for_thread("mover", 1);
    let other = allocator.get_core_for_thread("anchor", 10);
    assert!(first != other);
    let _ = allocator.get_core_for_thread("ballast", 5);
    // "mover" shares its core with "ballast"; once removed it is a new thread
    // and its new priority counts.
    allocator.remove_thread("mover");
    assert_eq!(allocator.get_utilization(first), Some(5));
    assert_eq!(allocator.get_core_for_thread("mover", 20), first);
    assert_eq!(allocator.get_utilization(first), Some(25));
    allocator.remove_thread("mover");
    allocator.remove_thread("ballast");
    let _ = allocator.get_core_for_thread("ballast", 50);
    assert_eq!(allocator.get_core_for_thread("mover", 1), other);
}

#[test]
fn removing_an_unknown_thread_changes_nothing() {
    let mut allocator = Allocator::new(vec![3, 5]);
    let home = allocator.get_core_for_thread("known", 2);
    let before = allocator.render();
    allocator.remove_thread("unknown");
    allocator.remove_thread("");
    assert_eq!(allocator.render(), before);
    assert_eq!(allocator.get_assigned_core("known"), Some(home));
}

#[test]
fn duplicate_core_ids_count_once() {
    let mut repeated = Allocator::new(vec![1, 1, 2, 3, 3, 3]);
    let mut plain = Allocator::new(vec![1, 2, 3]);
    assert_eq!(repeated.render(), plain.render());
    assert_eq!(repeated.render(), "Core 1 [0]:\nCore 2 [0]:\nCore 3 [0]:\n");
    for id in 0..5 {
        assert_eq!(repeated.get_utilization(id), plain.get_utilization(id));
    }
    assert_eq!(repeated.get_utilization(0), None);
    assert_eq!(repeated.get_utilization(3), Some(0));
    let requests = [("a", 3usize), ("b", 1), ("c", 1), ("d", 7), ("a", 9), ("e", 2), ("f", 2)];
    for (name, priority) in requests.iter() {
        assert_eq!(
            repeated.get_core_for_thread(name, *priority),
            plain.get_core_for_thread(name, *priority)
        );
    }
    repeated.remove_thread("d");
    plain.remove_thread("d");
    assert_eq!(
        repeated.get_core_for_thread("g", 4),
        plain.get_core_for_thread("g", 4)
    );
    assert_eq!(repeated.render(), plain.render());
}

#[test]
fn three_distinct_ids_take_three_threads_apart() {
    let mut allocator = Allocator::new(vec![1, 1, 2, 3, 3, 3]);
    let mut seen = vec![
        allocator.get_core_for_thread("a", 1),
        allocator.get_core_for_thread("b", 2),
        allocator.get_core_for_thread("c", 3),
    ];
    seen.sort();
    assert_eq!(seen, vec![1, 2, 3]);
}

#[test]
fn unordered_core_ids_are_all_used() {
    let mut allocator = Allocator::new(vec![42, 7, 19, 7]);
    let mut seen = vec![
        allocator.get_core_for_thread("a", 1),
        allocator.get_core_for_thread("b", 1),
        allocator.get_core_for_thread("c", 1),
    ];
    seen.sort();
    assert_eq!(seen, vec![7, 19, 42]);
}

#[test]
fn empty_pool_falls_back_to_core_zero() {
    let mut allocator = Allocator::new(vec![]);
    assert_eq!(allocator.get_core_for_thread("x", 5), 0);
    assert_eq!(allocator.get_core_for_thread("x", 9), 0);
    assert_eq!(allocator.get_core_for_thread("y", usize::MAX), 0);
    assert_eq!(allocator.get_assigned_core("x"), Some(0));
    assert_eq!(allocator.get_utilization(0), None);
    assert_eq!(allocator.render(), "");
    allocator.remove_thread("x");
    assert_eq!(allocator.get_assigned_core("x"), None);
    assert_eq!(allocator.get_core_for_thread("x", 1), 0);
}

#[test]
fn empty_name_and_zero_priority_are_accepted() {
    let mut allocator = Allocator::new(vec![0, 1]);
    let nameless = allocator.get_core_for_thread("", 0);
    assert_eq!(allocator.get_core_for_thread("", 4), nameless);
    assert_eq!(allocator.get_utilization(nameless), Some(0));
    allocator.remove_thread("");
    assert_eq!(allocator.get_assigned_core(""), None);
}

#[test]
fn room_is_judged_by_the_least_loaded_core() {
    let mut allocator = Allocator::new(vec![0, 1]);
    assert!(allocator.has_room("huge", usize::MAX));
    let huge = allocator.get_core_for_thread("huge", usize::MAX);
    assert_eq!(allocator.get_utilization(huge), Some(usize::MAX));
    assert!(allocator.has_room("next", usize::MAX));
    let next = allocator.get_core_for_thread("next", usize::MAX - 1);
    assert!(next != huge);
    assert!(allocator.has_room("one", 1));
    assert!(!allocator.has_room("two", 2));
    // A thread that has its core needs no room.
    assert!(allocator.has_room("huge", usize::MAX));
    assert_eq!(allocator.get_core_for_thread("one", 1), next);
    assert!(!allocator.has_room("more", 1));
    assert!(allocator.has_room("nothing", 0));
    let empty = Allocator::new(vec![]);
    assert!(empty.has_room("any", usize::MAX));
}

#[test]
fn rendering_lists_each_core_with_its_threads() {
    let mut allocator = Allocator::new(vec![7]);
    assert_eq!(allocator.render(), "Core 7 [0]:\n");
    let _ = allocator.get_core_for_thread("main", 12);
    let _ = allocator.get_core_for_thread("io", 30);
    assert_eq!(allocator.render(), "Core 7 [42]: main(12) io(30)\n");
    allocator.remove_thread("main");
    assert_eq!(allocator.render(), "Core 7 [30]: io(30)\n");
}

#[test]
fn rendering_shows_every_core_once() {
    let mut allocator = Allocator::new(vec![2, 0, 1]);
    let _ = allocator.get_core_for_thread("a", 4);
    let _ = allocator.get_core_for_thread("b", 5);
    let text = allocator.render();
    let mut lines: Vec<&str> = text.lines().collect();
    assert_eq!(lines.len(), 3);
    lines.sort();
    assert!(lines[0].starts_with("Core 0 ["));
    assert!(lines[1].starts_with("Core 1 ["));
    assert!(lines[2].starts_with("Core 2 ["));
    assert_eq!(text.matches("a(4)").count(), 1);
    assert_eq!(text.matches("b(5)").count(), 1);
    assert_eq!(text.matches("[0]:").count(), 1);
}

#[test]
fn long_run_agrees_with_a_plain_table() {
    // A table kept by hand beside the allocator: for every core its threads,
    // for every thread its core.
    let ids: Vec<usize> = vec![11, 3, 7, 5, 2, 13, 17];
    let mut allocator = Allocator::new(ids.clone());
    let mut homes: Vec<(String, usize, usize)> = Vec::new();
    let mut seed: u64 = 0x2545_f491_4f6c_dd1d;
    for round in 0..600 {
        seed = seed.wrapping_mul(6364136223846793005).wrapping_add(1442695040888963407);
        let name = format!("t{}", (seed >> 33) % 40);
        let priority = ((seed >> 20) % 50) as usize;
        let known = homes.iter().position(|home| home.0 == name);
        if (seed >> 11) % 3 == 0 {
            allocator.remove_thread(&name);
            if let Some(at) = known {
                homes.remove(at);
            }
        } else {
            let load = |id: usize| -> usize {
                homes.iter().filter(|home| home.2 == id).map(|home| home.1).sum()
            };
            let least = ids.iter().map(|id| load(*id)).min().unwrap();
            assert!(allocator.has_room(&name, priority));
            let core = allocator.get_core_for_thread(&name, priority);
            match known {
                Some(at) => assert_eq!(core, homes[at].2, "round {}", round),
                None => {
                    assert!(ids.contains(&core));
                    assert_eq!(load(core), least, "round {}", round);
                    homes.push((name.clone(), priority, core));
                }
            }
        }
        for id in ids.iter() {
            let total: usize = homes.iter().filter(|home| home.2 == *id).map(|home| home.1).sum();
            assert_eq!(allocator.get_utilization(*id), Some(total), "round {}", round);
        }
        for home in homes.iter() {
            assert_eq!(allocator.get_assigned_core(&home.0), Some(home.2));
        }
    }
}
