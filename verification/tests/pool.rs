use core_allocator::cpu_core::Core;
use core_allocator::pool::Pool;

fn loaded(id: usize, load: usize) -> Core {
    let mut core = Core::new(id);
    core.add_thread("load", load);
    core
}

#[test]
fn empty_pool_gives_nothing() {
    let mut pool = Pool::new();
    assert!(pool.is_empty());
    assert!(pool.pop().is_none());
    assert!(pool.peek().is_none());
    assert!(pool.find(0).is_none());
    assert_eq!(pool.render(), "");
}

#[test]
fn pool_gives_cores_out_lightest_first() {
    let loads = [9usize, 4, 7, 1, 8, 2, 6, 3, 5, 0, 12, 11, 10];
    let mut pool = Pool::new();
    for (id, load) in loads.iter().enumerate() {
        pool.push(loaded(id, *load));
    }
    assert!(!pool.is_empty());
    assert_eq!(pool.peek().unwrap().get_utilization(), 0);
    let mut out: Vec<usize> = Vec::new();
    let mut ids: Vec<usize> = Vec::new();
    while let Some(core) = pool.pop() {
        assert_eq!(core.get_utilization(), loads[core.get_core_num()]);
        out.push(core.get_utilization());
        ids.push(core.get_core_num());
    }
    assert_eq!(out, (0..13).collect::<Vec<usize>>());
    ids.sort();
    assert_eq!(ids, (0..13).collect::<Vec<usize>>());
    assert!(pool.is_empty());
}

#[test]
fn pool_keeps_cores_of_equal_load() {
    let mut pool = Pool::new();
    for id in 0..6 {
        pool.push(loaded(id, 3));
    }
    pool.push(loaded(6, 1));
    assert_eq!(pool.pop().unwrap().get_core_num(), 6);
    let mut ids: Vec<usize> = Vec::new();
    while let Some(core) = pool.pop() {
        assert_eq!(core.get_utilization(), 3);
        ids.push(core.get_core_num());
    }
    ids.sort();
    assert_eq!(ids, vec![0, 1, 2, 3, 4, 5]);
}

#[test]
fn pool_finds_cores_by_id() {
    let mut pool = Pool::new();
    pool.push(loaded(10, 5));
    pool.push(loaded(20, 3));
    pool.push(loaded(30, 4));
    assert_eq!(pool.find(10).unwrap().get_utilization(), 5);
    assert_eq!(pool.find(20).unwrap().get_utilization(), 3);
    assert_eq!(pool.find(30).unwrap().get_core_num(), 30);
    assert!(pool.find(40).is_none());
    let least = pool.peek().unwrap();
    assert_eq!(least.get_core_num(), 20);
    let popped = pool.pop().unwrap();
    assert_eq!(popped.get_core_num(), 20);
    assert!(pool.find(20).is_none());
    assert_eq!(pool.peek().unwrap().get_core_num(), 30);
}

#[test]
fn pool_takes_a_core_back_after_a_change() {
    let mut pool = Pool::new();
    pool.push(loaded(1, 1));
    pool.push(loaded(2, 2));
    let mut core = pool.pop().unwrap();
    assert_eq!(core.get_core_num(), 1);
    core.add_thread("more", 5);
    pool.push(core);
    assert_eq!(pool.peek().unwrap().get_core_num(), 2);
    assert_eq!(pool.find(1).unwrap().get_utilization(), 6);
}

#[test]
fn pool_renders_one_line_for_each_core() {
    let mut pool = Pool::new();
    pool.push(loaded(1, 1));
    assert_eq!(pool.render(), "Core 1 [1]: load(1)\n");
    pool.push(loaded(2, 2));
    assert_eq!(pool.render(), "Core 1 [1]: load(1)\nCore 2 [2]: load(2)\n");
}
