use clf_parser::alert::{AlertState, AlertWindow};

#[test]
fn window_is_first_in_first_out() {
    let mut window = AlertWindow::new(3);
    assert_eq!(window.size(), 3);
    assert_eq!(window.len(), 0);
    assert!(!window.is_full());
    assert!(window.values().is_empty());
    window.push(1);
    window.push(2);
    assert_eq!(window.len(), 2);
    assert!(!window.is_full());
    assert_eq!(window.values(), vec![1, 2]);
    window.push(3);
    assert_eq!(window.len(), 3);
    assert!(window.is_full());
    assert_eq!(window.values(), vec![1, 2, 3]);
    window.push(4);
    assert_eq!(window.len(), 3);
    assert_eq!(window.values(), vec![2, 3, 4]);
    assert_eq!(window.values(), vec![2, 3, 4]);
    for total in 5..20 {
        window.push(total);
        assert_eq!(window.len(), 3);
        assert_eq!(window.values(), vec![total - 2, total - 1, total]);
    }
}

#[test]
fn window_of_one() {
    let mut window = AlertWindow::new(1);
    assert_eq!(window.average(7), None);
    window.push(70);
    assert!(window.is_full());
    assert_eq!(window.average(7), Some(10));
    window.push(6);
    assert_eq!(window.values(), vec![6]);
    assert_eq!(window.average(7), Some(0));
}

#[test]
fn average_is_defined_once_the_window_is_full() {
    let mut window = AlertWindow::new(2);
    assert_eq!(window.average(10), None);
    window.push(60);
    assert_eq!(window.average(10), None);
    assert_eq!(window.sum(), 60);
    window.push(0);
    assert_eq!(window.sum(), 60);
    assert_eq!(window.average(10), Some(3));
    window.push(100);
    assert_eq!(window.average(10), Some(5));
    window.push(100);
    assert_eq!(window.average(10), Some(10));
    window.push(99);
    assert_eq!(window.average(10), Some(9));
}

#[test]
fn sum_does_not_overflow() {
    let mut window = AlertWindow::new(4);
    for _ in 0..4 {
        window.push(u64::MAX);
    }
    assert_eq!(window.sum(), 4 * (u64::MAX as u128));
    assert_eq!(window.average(1), Some(u64::MAX));
    assert_eq!(window.average(2), Some(u64::MAX / 2));
    assert_eq!(window.average(u64::MAX), Some(1));
}

#[test]
fn state_machine_steps() {
    let mut state = AlertState::new();
    assert_eq!(state, AlertState { firing: false, since: None, last_average: 0 });
    state.observe(4, 5, 10);
    assert_eq!(state, AlertState { firing: false, since: None, last_average: 4 });
    state.observe(5, 5, 20);
    assert_eq!(state, AlertState { firing: true, since: Some(20), last_average: 5 });
    state.observe(9, 5, 30);
    assert_eq!(state, AlertState { firing: true, since: Some(20), last_average: 9 });
    state.observe(4, 5, 40);
    assert_eq!(state, AlertState { firing: false, since: Some(40), last_average: 4 });
    state.observe(0, 5, 50);
    assert_eq!(state, AlertState { firing: false, since: Some(40), last_average: 0 });
    state.reverse(60);
    assert_eq!(state, AlertState { firing: true, since: Some(60), last_average: 0 });
    state.reverse(-1);
    assert_eq!(state, AlertState { firing: false, since: Some(-1), last_average: 0 });
}
