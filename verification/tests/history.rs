use eww::history::History;

fn times<T>(h: &History<T>) -> Vec<u64> {
    h.history.iter().map(|p| p.0).collect()
}

#[test]
fn old_points_leave_the_history() {
    let mut h: History<u32> = History::new(0);
    h.update_history(0, 10, (0, 1));
    h.update_history(5, 10, (5, 2));
    h.update_history(10, 10, (10, 3));
    assert_eq!(times(&h), vec![0, 5, 10]);
    assert!(h.extra_point.is_none());
    h.update_history(12, 10, (12, 4));
    assert_eq!(times(&h), vec![5, 10, 12]);
    assert_eq!(h.extra_point, Some((0, 1)));
    assert_eq!(h.last_updated_at, 12);
    h.update_history(30, 10, (30, 5));
    assert_eq!(times(&h), vec![30]);
    assert_eq!(h.extra_point, Some((12, 4)));
}

#[test]
fn points_from_the_future_stay() {
    let mut h: History<&str> = History::new(0);
    h.update_history(100, 10, (200, "later"));
    h.update_history(150, 10, (150, "now"));
    assert_eq!(times(&h), vec![200, 150]);
    assert!(h.extra_point.is_none());
}
