use rustnet::afterfunc::{AfterFn, NANOS_PER_SEC};

#[test]
fn added_task_can_be_taken() {
    let mut a: AfterFn<u16, &'static str> = AfterFn::new();
    a.add_fn(80, 100, 50, "first");
    a.add_fn(81, 100, 10, "second");
    assert_eq!(Some("first"), a.remove_task(1));
    assert_eq!(None, a.remove_task(1));
    assert_eq!(Some("second"), a.remove_task(2));
}

#[test]
fn earliest_due_task_comes_first() {
    let mut a: AfterFn<u16, &'static str> = AfterFn::new().with_timeout(5);
    a.add_fn(80, 100, 50, "late");
    a.add_fn(81, 100, 10, "early");
    assert_eq!(None, a.get_taskaddr_from_time(110, 110));
    assert_eq!(Some((81, 2)), a.get_taskaddr_from_time(111, 111));
    assert_eq!(None, a.get_taskaddr_from_time(120, 120));
    assert_eq!(Some((80, 1)), a.get_taskaddr_from_time(151, 151));
    assert_eq!(None, a.get_taskaddr_from_time(1000, 1000));
}

#[test]
fn due_tasks_are_dropped_after_timeout() {
    let mut a: AfterFn<u16, &'static str> = AfterFn::new().with_timeout(5);
    a.add_fn(80, 0, 1, "t");
    assert_eq!(Some((80, 1)), a.get_taskaddr_from_time(2, 10));
    a.check_delete(15);
    assert_eq!(Some("t"), a.remove_task(1));
    a.add_fn(80, 0, 1, "u");
    assert_eq!(Some((80, 2)), a.get_taskaddr_from_time(2, 10));
    a.check_delete(16);
    assert_eq!(None, a.remove_task(2));
}

#[test]
fn taken_task_is_not_reported() {
    let mut a: AfterFn<u16, u8> = AfterFn::new();
    a.add_fn(9, 0, 3 * NANOS_PER_SEC, 1);
    assert_eq!(Some(1), a.remove_task(1));
    assert_eq!(None, a.get_taskaddr_from_time(4 * NANOS_PER_SEC, 0));
}

#[test]
fn due_task_is_taken_within_pending_count() {
    let mut a: AfterFn<u16, &'static str> = AfterFn::new();
    a.add_fn(1, 0, 5, "a");
    a.add_fn(2, 0, 3, "b");
    a.add_fn(3, 0, 9, "c");
    assert_eq!(Some((2, 2)), a.get_taskaddr_from_time(10, 10));
    assert_eq!(Some((1, 1)), a.get_taskaddr_from_time(10, 10));
    assert_eq!(Some((3, 3)), a.get_taskaddr_from_time(10, 10));
    assert_eq!(None, a.get_taskaddr_from_time(10, 10));
}
