use std::cell::Cell;
use std::rc::Rc;

use task_manager::{limit_from_cores, Action, DequeueOrder, Task, TaskManager, TaskRegistry, BACKOFF_MILLIS};

type Work = Box<dyn Fn() -> Result<(), String>>;

fn counting_work(counter: &Rc<Cell<u32>>) -> Work {
    let c = counter.clone();
    Box::new(move || {
        c.set(c.get() + 1);
        Ok(())
    })
}

/// Drives a manager the way a dispatch loop does, but on one thread: a
/// dispatched task is held "in flight" until the loop is told to wait, then
/// the oldest one is run and reported finished. Returns the peak number in
/// flight and the number of waits.
fn drive(m: &mut TaskManager<Work>) -> (u32, u32) {
    let mut running: Vec<Task<Work>> = Vec::new();
    let mut peak: u32 = 0;
    let mut waits: u32 = 0;
    loop {
        match m.next_action() {
            Action::Dispatch(task) => {
                running.push(task);
                peak = peak.max(m.current_threads());
                assert!(m.current_threads() <= m.max_threads());
            }
            Action::Wait(ms) => {
                assert_eq!(ms, BACKOFF_MILLIS);
                waits += 1;
                let task = running.remove(0);
                let _outcome = (task.closure)();
                m.task_finished();
            }
            Action::Done => {
                assert!(running.is_empty());
                return (peak, waits);
            }
        }
    }
}

#[test]
fn task_new_keeps_its_fields() {
    let t = Task::new(7, "job".to_string(), 42u8);
    assert_eq!(t.id, 7);
    assert_eq!(t.name, "job");
    assert_eq!(t.closure, 42u8);
}

#[test]
fn new_manager_is_empty_and_idle() {
    let m: TaskManager<u8> = TaskManager::new(Some(3));
    assert_eq!(m.max_threads(), 3);
    assert_eq!(m.current_threads(), 0);
    assert_eq!(m.pending_len(), 0);
    assert_eq!(m.order(), DequeueOrder::Fifo);
}

#[test]
fn default_limit_is_the_logical_core_count() {
    let m: TaskManager<u8> = TaskManager::new(None);
    assert!(m.max_threads() >= 1);
    assert_eq!(m.max_threads(), limit_from_cores(num_cpus::get()));
}

#[test]
fn ids_are_pending_count_plus_one() {
    let mut m: TaskManager<u8> = TaskManager::new(Some(2));
    assert_eq!(m.create_task("a".to_string(), 1), 1);
    assert_eq!(m.create_task("b".to_string(), 2), 2);
    assert_eq!(m.create_task("c".to_string(), 3), 3);
    assert_eq!(m.pending_len(), 3);
}

#[test]
fn ids_strictly_increase_without_removal() {
    let mut m: TaskManager<u8> = TaskManager::new(Some(1));
    let mut last: u32 = 0;
    for i in 0..20u8 {
        let id = m.create_task(format!("t{}", i), i);
        assert!(id > last);
        last = id;
    }
    assert_eq!(last, 20);
}

#[test]
fn ids_keep_increasing_after_removal() {
    let mut m: TaskManager<u8> = TaskManager::new(Some(1));
    assert_eq!(m.last_id(), 0);
    assert_eq!(m.create_task("a".to_string(), 1), 1);
    match m.next_action() {
        Action::Dispatch(t) => assert_eq!(t.id, 1),
        _ => panic!("expected a dispatch"),
    }
    assert_eq!(m.pending_len(), 0);
    assert_eq!(m.create_task("b".to_string(), 2), 2);
    assert_eq!(m.create_task("c".to_string(), 3), 3);
    assert_eq!(m.last_id(), 3);
}

#[test]
fn limit_from_cores_keeps_a_count_that_fits() {
    assert_eq!(limit_from_cores(1), 1);
    assert_eq!(limit_from_cores(8), 8);
    assert_eq!(limit_from_cores(u32::MAX as usize), u32::MAX);
}

#[test]
fn limit_from_cores_saturates_a_count_that_does_not_fit() {
    assert_eq!(limit_from_cores(u32::MAX as usize + 1), u32::MAX);
    assert_eq!(limit_from_cores(usize::MAX), u32::MAX);
}

#[test]
fn add_task_keeps_the_given_id() {
    let mut m: TaskManager<u8> = TaskManager::new(Some(1));
    m.add_task(Task::new(99, "x".to_string(), 5));
    assert_eq!(m.pending_len(), 1);
    assert_eq!(m.last_id(), 0);
    match m.next_action() {
        Action::Dispatch(t) => {
            assert_eq!(t.id, 99);
            assert_eq!(t.closure, 5);
        }
        _ => panic!("expected a dispatch"),
    }
}

#[test]
fn fifo_dispatches_oldest_first() {
    let mut m: TaskManager<u8> = TaskManager::new(Some(3));
    m.create_task("a".to_string(), 10);
    m.create_task("b".to_string(), 20);
    m.create_task("c".to_string(), 30);
    let mut seen = Vec::new();
    for _ in 0..3 {
        match m.next_action() {
            Action::Dispatch(t) => seen.push(t.closure),
            _ => panic!("expected a dispatch"),
        }
    }
    assert_eq!(seen, vec![10, 20, 30]);
}

#[test]
fn lifo_dispatches_newest_first() {
    let mut m: TaskManager<u8> = TaskManager::with_order(Some(3), DequeueOrder::Lifo);
    assert_eq!(m.order(), DequeueOrder::Lifo);
    m.create_task("a".to_string(), 10);
    m.create_task("b".to_string(), 20);
    m.create_task("c".to_string(), 30);
    let mut seen = Vec::new();
    for _ in 0..3 {
        match m.next_action() {
            Action::Dispatch(t) => seen.push(t.closure),
            _ => panic!("expected a dispatch"),
        }
    }
    assert_eq!(seen, vec![30, 20, 10]);
}

#[test]
fn concurrency_never_exceeds_the_limit() {
    let max: u32 = 4;
    let counter = Rc::new(Cell::new(0));
    let mut m: TaskManager<Work> = TaskManager::new(Some(max));
    for i in 0..3 * max {
        m.create_task(format!("t{}", i), counting_work(&counter));
    }
    let (peak, _) = drive(&mut m);
    assert_eq!(peak, max);
    assert_eq!(counter.get(), 3 * max);
}

#[test]
fn every_task_runs_exactly_once() {
    let n: u32 = 25;
    let counter = Rc::new(Cell::new(0));
    let mut m: TaskManager<Work> = TaskManager::new(Some(3));
    for i in 0..n {
        m.create_task(format!("t{}", i), counting_work(&counter));
    }
    drive(&mut m);
    assert_eq!(counter.get(), n);
    assert_eq!(m.pending_len(), 0);
    assert_eq!(m.current_threads(), 0);
}

#[test]
fn done_only_after_everything_finished() {
    let flag = Rc::new(Cell::new(false));
    let f = flag.clone();
    let mut m: TaskManager<Work> = TaskManager::new(Some(2));
    m.create_task(
        "slow".to_string(),
        Box::new(move || {
            f.set(true);
            Ok(())
        }),
    );
    let task = match m.next_action() {
        Action::Dispatch(t) => t,
        _ => panic!("expected a dispatch"),
    };
    // Still in flight: the run is not complete.
    assert!(matches!(m.next_action(), Action::Wait(_)));
    assert!(!flag.get());
    let _ = (task.closure)();
    m.task_finished();
    assert!(matches!(m.next_action(), Action::Done));
    assert!(flag.get());
}

#[test]
fn a_failing_task_does_not_stop_the_others() {
    let flag = Rc::new(Cell::new(false));
    let f = flag.clone();
    let mut m: TaskManager<Work> = TaskManager::new(Some(1));
    m.create_task("fails".to_string(), Box::new(|| Err("boom".to_string())));
    m.create_task(
        "normal".to_string(),
        Box::new(move || {
            f.set(true);
            Ok(())
        }),
    );
    drive(&mut m);
    assert!(flag.get());
    assert_eq!(m.current_threads(), 0);
}

#[test]
fn at_capacity_the_loop_backs_off_without_dequeuing() {
    let mut m: TaskManager<u8> = TaskManager::new(Some(1));
    m.create_task("a".to_string(), 1);
    m.create_task("b".to_string(), 2);
    assert!(matches!(m.next_action(), Action::Dispatch(_)));
    for _ in 0..5 {
        match m.next_action() {
            Action::Wait(ms) => assert_eq!(ms, BACKOFF_MILLIS),
            _ => panic!("expected a wait"),
        }
        assert_eq!(m.pending_len(), 1);
        assert_eq!(m.current_threads(), 1);
    }
    assert!(BACKOFF_MILLIS > 0 && BACKOFF_MILLIS <= 1000);
}

#[test]
fn empty_manager_is_done_at_once() {
    let mut m: TaskManager<u8> = TaskManager::new(Some(2));
    assert!(matches!(m.next_action(), Action::Done));
    assert_eq!(m.current_threads(), 0);
}

#[test]
fn waits_while_the_last_task_is_in_flight() {
    let mut m: TaskManager<u8> = TaskManager::new(Some(2));
    m.create_task("a".to_string(), 1);
    assert!(matches!(m.next_action(), Action::Dispatch(_)));
    assert!(matches!(m.next_action(), Action::Wait(_)));
    m.task_finished();
    assert!(matches!(m.next_action(), Action::Done));
}

#[test]
fn registry_enqueue_and_dequeue() {
    let mut r: TaskRegistry<u8> = TaskRegistry::new(DequeueOrder::Fifo);
    assert!(r.is_empty());
    assert!(r.dequeue().is_none());
    r.enqueue(Task::new(1, "a".to_string(), 1));
    r.enqueue(Task::new(2, "b".to_string(), 2));
    assert_eq!(r.len(), 2);
    assert!(!r.is_empty());
    assert_eq!(r.dequeue().map(|t| t.id), Some(1));
    assert_eq!(r.dequeue().map(|t| t.id), Some(2));
    assert!(r.dequeue().is_none());
    assert_eq!(r.order(), DequeueOrder::Fifo);
}

#[test]
fn registry_lifo_pops_the_newest() {
    let mut r: TaskRegistry<u8> = TaskRegistry::new(DequeueOrder::Lifo);
    r.enqueue(Task::new(1, "a".to_string(), 1));
    r.enqueue(Task::new(2, "b".to_string(), 2));
    assert_eq!(r.dequeue().map(|t| t.id), Some(2));
    assert_eq!(r.len(), 1);
}
