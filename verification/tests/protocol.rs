use decurse::Context;
use decurse::FactorialFrame;
use decurse::Frame;
use decurse::PendOnce;
use decurse::Step;

#[test]
fn pend_once_reports_not_ready_exactly_once() {
    let mut p = PendOnce::new();
    assert!(!p.poll());
    assert!(p.poll());
    assert!(p.poll());
}

#[test]
fn handoff_slot_round_trip() {
    let mut slot: Context<u32, u32> = Context::new();
    slot.set_next(5);
    assert_eq!(slot.take_next(), 5);
    slot.set_next(6);
    assert_eq!(slot.take_next(), 6);
    slot.set_result(7);
    assert_eq!(slot.get_result(), 7);
    slot.set_result(8);
    assert_eq!(slot.get_result(), 8);
}

#[test]
fn single_pending_child_drives_one_level() {
    // Drive one suspension by hand: the frame registers exactly one child,
    // which must be taken out of the slot before anything else is
    // registered; the child's value flows back through the result cell.
    let mut slot: Context<FactorialFrame, u32> = Context::new();
    let mut parent = FactorialFrame::new(1);
    let first = parent.poll(&mut slot);
    assert!(matches!(first, Step::Pending));
    let mut child = slot.take_next();
    let second = child.poll(&mut slot);
    match second {
        Step::Ready(v) => {
            assert_eq!(v, 1);
            slot.set_result(v);
        }
        Step::Pending => panic!(),
    }
    match parent.poll(&mut slot) {
        Step::Ready(v) => assert_eq!(v, 1),
        Step::Pending => panic!(),
    }
}

#[test]
fn free_slot_functions_reach_the_same_cells() {
    let mut slot: Context<FactorialFrame, u32> = Context::new();
    decurse::set_next(&mut slot, FactorialFrame::new(0));
    let mut child = slot.take_next();
    match child.poll(&mut slot) {
        Step::Ready(v) => slot.set_result(v),
        Step::Pending => panic!(),
    }
    assert_eq!(decurse::get_result(&mut slot), 1);
}

#[test]
fn factorial_smallest_and_largest() {
    assert_eq!(decurse::factorial(0), 1);
    assert_eq!(decurse::factorial(1), 1);
    assert_eq!(decurse::factorial(12), 479001600);
}

#[test]
fn fibonacci_base_cases() {
    assert_eq!(decurse::fibonacci(0), 1);
    assert_eq!(decurse::fibonacci(1), 1);
    assert_eq!(decurse::fibonacci(2), 2);
}

#[test]
fn triangular_base_cases() {
    assert_eq!(decurse::triangular(0), 0);
    assert_eq!(decurse::triangular(1), 1);
    assert_eq!(decurse::triangular(3), 6);
}

#[test]
fn arena_peak_is_call_depth_not_node_count() {
    // fibonacci's call tree for 10 has far more than 10 nodes, but only one
    // root-to-leaf chain is ever suspended at a time.
    let (value, high_water) = decurse::fibonacci_metered(10);
    assert_eq!(value, 89);
    assert_eq!(high_water, 10);
}

#[test]
fn binary_search_cases() {
    let empty: Vec<i32> = Vec::new();
    assert_eq!(decurse::binary_search(&empty, 5), 0);
    let arr = vec![2, 4, 6];
    assert_eq!(decurse::binary_search(&arr, 2), 0);
    assert_eq!(decurse::binary_search(&arr, 4), 1);
    assert_eq!(decurse::binary_search(&arr, 6), 2);
    assert_eq!(decurse::binary_search(&arr, 5), 2);
}
