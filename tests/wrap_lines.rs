use jamespy_tui::styled::{Span, StyleTag, StyledLine};
use jamespy_tui::wrap::{split_line, wrap};

fn text_of(l: &StyledLine) -> String {
    l.spans.iter().map(|s| s.content.clone()).collect()
}

fn width_of(l: &StyledLine) -> usize {
    l.spans.iter().map(|s| s.content.chars().count()).sum()
}

#[test]
fn forty_two_chars_at_ten_gives_five_rows() {
    let text: String = (0..42).map(|i| char::from(b'a' + (i % 26) as u8)).collect();
    let line = StyledLine::from_spans(vec![Span::styled(&text, StyleTag::Cyan)]);
    let rows = wrap(&line, 10);
    let widths: Vec<usize> = rows.iter().map(width_of).collect();
    assert_eq!(widths, vec![10, 10, 10, 10, 2]);
    for r in &rows {
        assert_eq!(r.spans.len(), 1);
        assert_eq!(r.spans[0].style, StyleTag::Cyan);
    }
    let joined: String = rows.iter().map(text_of).collect();
    assert_eq!(joined, text);
    assert_eq!(text_of(&rows[4]), "op");
}

#[test]
fn fitting_line_is_returned_unchanged() {
    let line = StyledLine::from_spans(vec![
        Span::styled("ab", StyleTag::Green),
        Span::raw(""),
        Span::styled("cd", StyleTag::Green),
    ]);
    let rows = wrap(&line, 4);
    assert_eq!(rows.len(), 1);
    assert_eq!(rows[0].spans.len(), 3);
    assert_eq!(rows[0].spans[1].content, "");
}

#[test]
fn runs_keep_their_styles_across_rows() {
    let line = StyledLine::from_spans(vec![
        Span::styled("abc", StyleTag::DarkGray),
        Span::raw("defgh"),
        Span::styled("ij", StyleTag::Cyan),
    ]);
    let rows = wrap(&line, 4);
    assert_eq!(rows.len(), 3);
    let r0: Vec<(String, StyleTag)> =
        rows[0].spans.iter().map(|s| (s.content.clone(), s.style)).collect();
    assert_eq!(r0, vec![("abc".to_string(), StyleTag::DarkGray), ("d".to_string(), StyleTag::Plain)]);
    let r1: Vec<(String, StyleTag)> =
        rows[1].spans.iter().map(|s| (s.content.clone(), s.style)).collect();
    assert_eq!(r1, vec![("efgh".to_string(), StyleTag::Plain)]);
    let r2: Vec<(String, StyleTag)> =
        rows[2].spans.iter().map(|s| (s.content.clone(), s.style)).collect();
    assert_eq!(r2, vec![("ij".to_string(), StyleTag::Cyan)]);
}

#[test]
fn same_styles_are_not_merged() {
    let line = StyledLine::from_spans(vec![Span::raw("ab"), Span::raw("cd"), Span::raw("e")]);
    let rows = wrap(&line, 4);
    assert_eq!(rows.len(), 2);
    assert_eq!(rows[0].spans.len(), 2);
    assert_eq!(text_of(&rows[1]), "e");
}

#[test]
fn wrapping_keeps_every_character_and_bounds_widths() {
    let line = StyledLine::from_spans(vec![
        Span::styled("héllo wörld", StyleTag::Yellow),
        Span::raw(" — "),
        Span::styled("ünïcode text here", StyleTag::MagentaBold),
    ]);
    let full = text_of(&line);
    let n = full.chars().count();
    for w in 1..=n + 2 {
        let rows = wrap(&line, w);
        let joined: String = rows.iter().map(text_of).collect();
        assert_eq!(joined, full);
        assert!(rows.iter().all(|r| width_of(r) <= w));
        assert_eq!(rows.len(), (n + w - 1) / w);
    }
}

#[test]
fn zero_width_gives_one_empty_row() {
    let line = StyledLine::from_spans(vec![Span::raw("abcdef")]);
    let rows = wrap(&line, 0);
    assert_eq!(rows.len(), 1);
    assert_eq!(width_of(&rows[0]), 0);
    let empty = StyledLine::from_spans(vec![]);
    assert_eq!(wrap(&empty, 0).len(), 1);
}

#[test]
fn empty_line_stays_one_row() {
    let empty = StyledLine::from_spans(vec![]);
    let rows = wrap(&empty, 5);
    assert_eq!(rows.len(), 1);
    assert!(rows[0].spans.is_empty());
}

#[test]
fn split_line_exact_multiple() {
    let line = StyledLine::from_spans(vec![Span::raw("abcdefghij"), Span::raw("klmnopqrst")]);
    let rows = split_line(&line, 10);
    assert_eq!(rows.len(), 2);
    assert_eq!(text_of(&rows[0]), "abcdefghij");
    assert_eq!(rows[0].spans.len(), 1);
    assert_eq!(text_of(&rows[1]), "klmnopqrst");
}

#[test]
fn line_width_counts_characters() {
    let line = StyledLine::from_spans(vec![Span::raw("äb"), Span::raw("c")]);
    assert_eq!(line.width(), 3);
    assert_eq!(line.spans[0].width(), 2);
}
