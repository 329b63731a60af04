use jamespy_tui::store::LogStore;
use jamespy_tui::styled::{LogEntry, Span, StyledLine};

fn tagged(n: usize) -> LogEntry {
    LogEntry { lines: vec![StyledLine::from_spans(vec![Span::raw(&n.to_string())])] }
}

fn tag_of(e: &LogEntry) -> usize {
    e.lines[0].spans[0].content.parse().unwrap()
}

#[test]
fn capacity_500_keeps_latest_500_of_501() {
    let mut s = LogStore::new(500);
    for i in 1..=501 {
        s.push(tagged(i));
    }
    let snap = s.snapshot();
    assert_eq!(snap.len(), 500);
    let tags: Vec<usize> = snap.iter().map(tag_of).collect();
    let expected: Vec<usize> = (2..=501).collect();
    assert_eq!(tags, expected);
}

#[test]
fn keeps_last_n_of_m_pushes() {
    for (n, m) in [(1usize, 2usize), (3, 10), (5, 6), (4, 4), (7, 3)] {
        let mut s = LogStore::new(n);
        for i in 1..=m {
            s.push(tagged(i));
            assert!(s.len() <= n);
        }
        let tags: Vec<usize> = s.snapshot().iter().map(tag_of).collect();
        let first = if m > n { m - n + 1 } else { 1 };
        let expected: Vec<usize> = (first..=m).collect();
        assert_eq!(tags, expected);
    }
}

#[test]
fn sustained_pushes_stay_bounded() {
    let mut s = LogStore::new(50);
    for i in 1..=10_000 {
        s.push(tagged(i));
    }
    assert_eq!(s.len(), 50);
    assert_eq!(s.capacity(), 50);
    assert_eq!(tag_of(&s.snapshot()[0]), 9951);
}

#[test]
fn snapshot_is_an_independent_copy() {
    let mut s = LogStore::new(3);
    s.push(tagged(1));
    let snap = s.snapshot();
    s.push(tagged(2));
    assert_eq!(snap.len(), 1);
    assert_eq!(s.len(), 2);
    assert_eq!(tag_of(&snap[0]), 1);
}

#[test]
fn empty_store_snapshot_is_empty() {
    let s = LogStore::new(10);
    assert!(s.snapshot().is_empty());
    assert_eq!(s.len(), 0);
}
