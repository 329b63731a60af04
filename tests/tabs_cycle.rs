use jamespy_tui::tabs::TabsState;

#[test]
fn next_wraps_from_last_to_first() {
    let mut t = TabsState::new(vec!["a", "b", "c"]);
    t.index = 2;
    t.next();
    assert_eq!(t.index, 0);
}

#[test]
fn next_k_times_returns_to_start() {
    for start in 0..4usize {
        let mut t = TabsState::new(vec!["a", "b", "c", "d"]);
        t.index = start;
        for _ in 0..4 {
            t.next();
        }
        assert_eq!(t.index, start);
    }
}

#[test]
fn previous_from_first_selects_last() {
    let mut t = TabsState::new(vec!["a", "b", "c"]);
    assert_eq!(t.index, 0);
    t.previous();
    assert_eq!(t.index, 2);
    t.previous();
    assert_eq!(t.index, 1);
}

#[test]
fn single_title_stays_put() {
    let mut t = TabsState::new(vec!["only"]);
    t.next();
    assert_eq!(t.index, 0);
    t.previous();
    assert_eq!(t.index, 0);
    assert_eq!(t.titles, vec!["only"]);
}
