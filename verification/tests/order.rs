use cosmic_switch_less::mru::{MruOrder, PROMOTION_DELAY_MS};

fn id(s: &str) -> String {
    s.to_string()
}

fn ranks(order: &MruOrder, ids: &[&str]) -> Vec<usize> {
    ids.iter().map(|s| order.rank(&id(s))).collect()
}

#[test]
fn empty_order_ranks_everything_alike() {
    let order = MruOrder::new();
    assert_eq!(ranks(&order, &["a", ""]), vec![0, 0]);
}

#[test]
fn lasting_focus_moves_a_toplevel_to_the_top() {
    assert_eq!(PROMOTION_DELAY_MS, 300);
    let mut order = MruOrder::new();
    order.note(&id("a"), false, 0);
    order.note(&id("b"), false, 0);
    order.note(&id("c"), false, 0);
    assert_eq!(ranks(&order, &["a", "b", "c"]), vec![0, 1, 2]);
    order.note(&id("b"), true, 1000);
    assert_eq!(ranks(&order, &["a", "b", "c"]), vec![0, 1, 2]);
    assert!(!order.settle(1299));
    assert_eq!(ranks(&order, &["a", "b", "c"]), vec![0, 1, 2]);
    assert!(order.settle(1300));
    assert_eq!(ranks(&order, &["a", "b", "c"]), vec![1, 0, 2]);
    order.note(&id("b"), false, 2000);
    order.note(&id("c"), true, 2000);
    assert!(order.settle(9000));
    assert!(!order.settle(9000));
    assert_eq!(ranks(&order, &["a", "b", "c"]), vec![2, 1, 0]);
}

#[test]
fn flash_of_focus_does_not_promote() {
    let mut order = MruOrder::new();
    order.note(&id("a"), false, 0);
    order.note(&id("b"), true, 0);
    order.settle(500);
    assert_eq!(ranks(&order, &["a", "b"]), vec![1, 0]);
    order.note(&id("a"), true, 1000);
    order.note(&id("a"), false, 1299);
    assert!(!order.settle(5000));
    assert_eq!(ranks(&order, &["a", "b"]), vec![1, 0]);
    // One millisecond more is a real focus, though nothing came in between.
    order.note(&id("a"), true, 6000);
    order.note(&id("a"), false, 6300);
    assert_eq!(ranks(&order, &["a", "b"]), vec![0, 1]);
}

#[test]
fn flash_of_a_new_toplevel_puts_it_last() {
    let mut order = MruOrder::new();
    order.note(&id("a"), true, 0);
    order.note(&id("b"), true, 500);
    order.settle(1000);
    order.note(&id("x"), true, 1000);
    assert_eq!(ranks(&order, &["a", "b", "x"]), vec![2, 1, 0]);
    order.note(&id("x"), false, 1050);
    assert_eq!(ranks(&order, &["a", "b", "x"]), vec![1, 0, 2]);
    assert_eq!(order.wait(1050), None);
    order.settle(60000);
    assert_eq!(ranks(&order, &["a", "b", "x"]), vec![1, 0, 2]);
    // It is known now, and a lasting focus promotes it.
    order.note(&id("x"), true, 61000);
    assert_eq!(ranks(&order, &["a", "b", "x"]), vec![1, 0, 2]);
    order.note(&id("x"), false, 61300);
    assert_eq!(ranks(&order, &["a", "b", "x"]), vec![2, 1, 0]);
}

#[test]
fn new_toplevel_whose_focus_lasts_keeps_its_place() {
    let mut order = MruOrder::new();
    order.note(&id("a"), true, 0);
    order.note(&id("x"), true, 1000);
    order.note(&id("x"), false, 1300);
    assert_eq!(ranks(&order, &["a", "x"]), vec![1, 0]);
}

#[test]
fn flash_does_not_cancel_the_focus_of_another() {
    let mut order = MruOrder::new();
    order.note(&id("a"), false, 0);
    order.note(&id("b"), false, 0);
    order.note(&id("c"), false, 0);
    order.note(&id("c"), true, 1000);
    order.note(&id("b"), true, 1100);
    order.note(&id("b"), false, 1150);
    assert!(order.settle(1400));
    assert_eq!(ranks(&order, &["a", "b", "c"]), vec![1, 2, 0]);
}

#[test]
fn wait_is_until_the_first_promotion() {
    let mut order = MruOrder::new();
    assert_eq!(order.wait(0), None);
    order.note(&id("a"), false, 0);
    order.note(&id("b"), false, 0);
    assert_eq!(order.wait(0), None);
    order.note(&id("a"), true, 1000);
    order.note(&id("b"), true, 1100);
    assert_eq!(order.wait(1100), Some(200));
    assert_eq!(order.wait(1300), Some(0));
    assert_eq!(order.wait(9000), Some(0));
    assert_eq!(order.wait(10), Some(300));
    assert!(order.settle(1300));
    assert_eq!(order.wait(1300), Some(100));
    assert!(order.settle(1400));
    assert_eq!(order.wait(1400), None);
    assert_eq!(ranks(&order, &["a", "b"]), vec![1, 0]);
}

#[test]
fn new_toplevel_with_focus_is_most_recent() {
    let mut order = MruOrder::new();
    order.note(&id("a"), true, 0);
    order.note(&id("b"), true, 0);
    assert_eq!(ranks(&order, &["a", "b"]), vec![1, 0]);
    order.settle(300);
    assert_eq!(ranks(&order, &["a", "b"]), vec![1, 0]);
}

#[test]
fn new_toplevel_without_focus_is_least_recent() {
    let mut order = MruOrder::new();
    order.note(&id("a"), true, 0);
    order.note(&id("b"), false, 0);
    assert_eq!(ranks(&order, &["a", "b"]), vec![0, 1]);
}

#[test]
fn stale_claim_of_focus_does_not_promote() {
    let mut order = MruOrder::new();
    order.note(&id("a"), true, 0);
    order.note(&id("b"), true, 1000);
    // `a` has lost focus, but its own state event is still to come.
    order.note(&id("a"), true, 1400);
    order.settle(2000);
    assert_eq!(ranks(&order, &["a", "b"]), vec![1, 0]);
    order.note(&id("a"), false, 2000);
    assert_eq!(ranks(&order, &["a", "b"]), vec![1, 0]);
    // This is a real change of focus.
    order.note(&id("a"), true, 3000);
    order.settle(3300);
    assert_eq!(ranks(&order, &["a", "b"]), vec![0, 1]);
}

#[test]
fn closed_toplevel_is_forgotten() {
    let mut order = MruOrder::new();
    order.note(&id("a"), true, 0);
    order.note(&id("b"), true, 1);
    order.note(&id("c"), true, 2);
    order.forget(&id("b"));
    order.settle(1000);
    assert_eq!(ranks(&order, &["a", "b", "c"]), vec![1, 2, 0]);
    order.forget(&id("unknown"));
    assert_eq!(ranks(&order, &["a", "c"]), vec![1, 0]);
    // The same identifier comes back as a new toplevel.
    order.note(&id("b"), true, 2000);
    assert_eq!(ranks(&order, &["a", "b", "c"]), vec![2, 0, 1]);
}

#[test]
fn opening_and_closing_leaves_no_trace() {
    let mut order = MruOrder::new();
    order.note(&id("a"), false, 0);
    order.note(&id("b"), true, 0);
    order.settle(1000);
    order.note(&id("x"), true, 1000);
    order.note(&id("x"), false, 1100);
    order.note(&id("x"), true, 1200);
    order.forget(&id("x"));
    assert_eq!(order.wait(1200), None);
    assert_eq!(ranks(&order, &["a", "b", "x"]), vec![1, 0, 2]);
}

#[test]
fn previous_is_second_after_a_batch_of_reports() {
    let mut order = MruOrder::new();
    order.note(&id("x"), false, 0);
    order.note(&id("y"), false, 0);
    order.note(&id("current"), false, 0);
    order.note(&id("previous"), true, 1);
    order.settle(1000);
    order.note(&id("current"), true, 2000);
    // Stale claims, the loss of focus, a new toplevel and a closed one.
    order.note(&id("previous"), true, 2010);
    order.note(&id("previous"), true, 2020);
    order.note(&id("current"), true, 2030);
    order.note(&id("previous"), false, 2040);
    order.note(&id("new"), false, 2050);
    order.forget(&id("y"));
    order.settle(2100);
    order.settle(2300);
    assert_eq!(order.wait(2300), None);
    assert_eq!(ranks(&order, &["current", "previous", "x", "new"]), vec![0, 1, 2, 3]);
}

#[test]
fn flash_amid_other_reports_leaves_the_order() {
    let mut order = MruOrder::new();
    let mut without = MruOrder::new();
    for o in [&mut order, &mut without] {
        o.note(&id("a"), false, 0);
        o.note(&id("b"), false, 0);
        o.note(&id("c"), true, 0);
        o.settle(1000);
    }
    order.note(&id("a"), true, 2000);
    for o in [&mut order, &mut without] {
        o.note(&id("b"), true, 2010);
        o.note(&id("c"), false, 2020);
        o.note(&id("d"), false, 2030);
    }
    order.note(&id("a"), false, 2100);
    for o in [&mut order, &mut without] {
        o.settle(3000);
    }
    let ids = ["a", "b", "c", "d"];
    assert_eq!(ranks(&order, &ids), ranks(&without, &ids));
    assert_eq!(ranks(&order, &ids), vec![2, 0, 1, 3]);
}
