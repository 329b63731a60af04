use jamespy_tui::styled::{LogEntry, Span, StyledLine};
use jamespy_tui::viewport::{layout_events, recompute_offset, visible_rows, wrap_entries};

fn line(s: &str) -> StyledLine {
    StyledLine::from_spans(vec![Span::raw(s)])
}

fn text_of(l: &StyledLine) -> String {
    l.spans.iter().map(|s| s.content.clone()).collect()
}

#[test]
fn offset_sticks_to_bottom() {
    assert_eq!(recompute_offset(100, 20), 80);
    assert_eq!(recompute_offset(20, 20), 0);
    assert_eq!(recompute_offset(5, 20), 0);
    assert_eq!(recompute_offset(0, 0), 0);
    assert_eq!(recompute_offset(7, 0), 7);
}

#[test]
fn offset_stays_in_range() {
    for c in 0..30usize {
        for h in 0..30usize {
            let o = recompute_offset(c, h);
            let most = if c > h { c - h } else { 0 };
            assert!(o <= most);
            assert!(o + h >= c);
        }
    }
}

#[test]
fn entries_are_flattened_then_wrapped_in_order() {
    let entries = vec![
        LogEntry { lines: vec![line("abcdefg"), line("h")] },
        LogEntry { lines: vec![line("ijk")] },
    ];
    let rows = wrap_entries(&entries, 3);
    let texts: Vec<String> = rows.iter().map(text_of).collect();
    assert_eq!(texts, vec!["abc", "def", "g", "h", "ijk"]);
}

#[test]
fn zero_width_gives_one_row_per_line() {
    let entries = vec![
        LogEntry { lines: vec![line("abcdefg"), line("h")] },
        LogEntry { lines: vec![line("ijk")] },
    ];
    let rows = wrap_entries(&entries, 0);
    assert_eq!(rows.len(), 3);
    assert!(rows.iter().all(|r| text_of(r).is_empty()));
}

#[test]
fn visible_rows_clip_to_the_viewport() {
    let rows: Vec<StyledLine> = ["a", "b", "c", "d", "e"].iter().map(|s| line(s)).collect();
    let shown: Vec<String> = visible_rows(rows, 3, 4).iter().map(text_of).collect();
    assert_eq!(shown, vec!["d", "e"]);
    let rows: Vec<StyledLine> = ["a", "b"].iter().map(|s| line(s)).collect();
    assert!(visible_rows(rows, 9, 4).is_empty());
}

#[test]
fn layout_pins_newest_rows_with_border() {
    let entries: Vec<LogEntry> =
        (0..10).map(|i| LogEntry { lines: vec![line(&format!("row{i}"))] }).collect();
    let frame = layout_events(&entries, 12, 6, true);
    assert_eq!(frame.content_length, 10);
    assert_eq!(frame.offset, 6);
    let shown: Vec<String> = frame.rows.iter().map(text_of).collect();
    assert_eq!(shown, vec!["row6", "row7", "row8", "row9"]);
}

#[test]
fn layout_without_border_uses_full_area() {
    let entries = vec![LogEntry { lines: vec![line("abcdefghij")] }];
    let frame = layout_events(&entries, 4, 2, false);
    assert_eq!(frame.content_length, 3);
    assert_eq!(frame.offset, 1);
    let shown: Vec<String> = frame.rows.iter().map(text_of).collect();
    assert_eq!(shown, vec!["efgh", "ij"]);
}

#[test]
fn layout_of_tiny_area_does_not_fail() {
    let entries = vec![LogEntry { lines: vec![line("abc"), line("de")] }];
    let frame = layout_events(&entries, 1, 1, true);
    assert_eq!(frame.content_length, 2);
    assert_eq!(frame.offset, 2);
    assert!(frame.rows.is_empty());
}
