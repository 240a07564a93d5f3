use agent_microtone::{path_segment, smooth_transition};

#[test]
fn path_segment_follows_whole_part() {
    let points = [-1.0, 0.0, 1.0];
    assert_eq!(path_segment(&points, 0), (0, -1.0, 0.0));
    assert_eq!(path_segment(&points, 1), (1, 0.0, 1.0));
}

#[test]
fn path_segment_holds_at_last_segment() {
    let points = [-1.0, 0.0, 1.0];
    assert_eq!(path_segment(&points, 2), (1, 0.0, 1.0));
    assert_eq!(path_segment(&points, usize::MAX), (1, 0.0, 1.0));
    let two = [3, 4];
    assert_eq!(path_segment(&two, 7), (0, 3, 4));
}

#[test]
fn smooth_transition_pairs_elements() {
    let from = [-1.0, 0.0];
    let to = [1.0, 1.0];
    let mid = smooth_transition(&from, &to, |a: f64, b: f64| (a + b) / 2.0);
    assert_eq!(mid.len(), 2);
    assert!((mid[0] - 0.0).abs() < 1e-10);
    assert!((mid[1] - 0.5).abs() < 1e-10);
}

#[test]
fn smooth_transition_stops_at_shorter_array() {
    let from = [1, 2, 3, 4];
    let to = [10, 20];
    let out = smooth_transition(&from, &to, |a: i32, b: i32| b - a);
    assert_eq!(out, vec![9, 18]);
    let none = smooth_transition(&[] as &[i32], &to, |a: i32, b: i32| a + b);
    assert!(none.is_empty());
}
