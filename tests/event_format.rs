use jamespy_tui::format::{join, message_edit, new_message, split_newlines, text_lines, MessageInfo};
use jamespy_tui::ingest::{ingest, LogEvent};
use jamespy_tui::store::LogStore;
use jamespy_tui::styled::{LogEntry, StyleTag};

fn msg(content: &str, author: &str) -> MessageInfo {
    MessageInfo {
        content: content.to_string(),
        author_name: author.to_string(),
        author_is_bot: false,
        attachment_names: vec![],
        embed_kinds: vec![],
    }
}

fn spans(e: &LogEntry, i: usize) -> Vec<(String, StyleTag)> {
    e.lines[i].spans.iter().map(|s| (s.content.clone(), s.style)).collect()
}

fn s(t: &str, st: StyleTag) -> (String, StyleTag) {
    (t.to_string(), st)
}

#[test]
fn splitting_and_lines() {
    assert_eq!(split_newlines("a\nb\n"), vec!["a", "b", ""]);
    assert_eq!(split_newlines(""), vec![""]);
    assert_eq!(text_lines("a\r\nb\n"), vec!["a", "b"]);
    assert_eq!(text_lines("a\n\nb\r"), vec!["a", "", "b\r"]);
    assert!(text_lines("").is_empty());
    let parts = vec!["x".to_string(), "y".to_string(), "z".to_string()];
    assert_eq!(join(&parts, ", "), "x, y, z");
    assert_eq!(join(&vec![], ", "), "");
}

#[test]
fn new_message_single_line() {
    let e = new_message(&msg("hello", "ann"), "Guild", "general");
    assert_eq!(e.lines.len(), 1);
    assert_eq!(
        spans(&e, 0),
        vec![
            s("[Guild] [#general] ", StyleTag::DarkGray),
            s("ann: ", StyleTag::Plain),
            s("hello", StyleTag::Plain),
            s("", StyleTag::Cyan),
        ]
    );
}

#[test]
fn new_message_many_lines_with_attachments_and_embeds() {
    let mut m = msg("one\r\ntwo\nthree", "bo");
    m.attachment_names = vec!["a.png".to_string(), "b.txt".to_string()];
    m.embed_kinds = vec![Some("rich".to_string()), None];
    let e = new_message(&m, "G", "c");
    assert_eq!(e.lines.len(), 3);
    assert_eq!(spans(&e, 0).len(), 3);
    assert_eq!(spans(&e, 0)[2], s("one", StyleTag::Plain));
    assert_eq!(spans(&e, 1), vec![s("two", StyleTag::Plain)]);
    assert_eq!(
        spans(&e, 2),
        vec![
            s("three", StyleTag::Plain),
            s(" <a.png, b.txt> {rich, Unknown Type}", StyleTag::Cyan),
        ]
    );
}

#[test]
fn new_message_empty_content_still_has_a_line() {
    let mut m = msg("", "c");
    m.attachment_names = vec!["f".to_string()];
    let e = new_message(&m, "G", "x");
    assert_eq!(e.lines.len(), 1);
    assert_eq!(spans(&e, 0)[3], s(" <f>", StyleTag::Cyan));
}

#[test]
fn edit_with_both_versions() {
    let old = msg("before\nmore", "dan");
    let mut new = msg("after", "dan");
    new.embed_kinds = vec![Some("video".to_string())];
    let e = message_edit(Some(old), Some(new), "42", "G", "c").unwrap();
    assert_eq!(e.lines.len(), 4);
    assert_eq!(
        spans(&e, 0),
        vec![
            s("[G] [#c] A message by ", StyleTag::Cyan),
            s("dan", StyleTag::Plain),
            s(" was edited:", StyleTag::Cyan),
        ]
    );
    assert_eq!(spans(&e, 1), vec![s("BEFORE: dan: before", StyleTag::Cyan)]);
    assert_eq!(spans(&e, 2), vec![s("more", StyleTag::Cyan)]);
    assert_eq!(spans(&e, 3), vec![s("AFTER: dan: after {video}", StyleTag::Cyan)]);
}

#[test]
fn edit_by_bot_or_without_change_shows_nothing() {
    let mut bot = msg("b", "robot");
    bot.author_is_bot = true;
    assert!(message_edit(Some(msg("a", "robot")), Some(bot), "1", "G", "c").is_none());
    assert!(message_edit(Some(msg("same", "x")), Some(msg("same", "x")), "1", "G", "c").is_none());
    assert!(message_edit(None, Some(msg("a", "x")), "1", "G", "c").is_none());
    assert!(message_edit(Some(msg("a", "x")), None, "1", "G", "c").is_none());
}

#[test]
fn edit_not_in_cache() {
    let e = message_edit(None, None, "1234", "G", "c").unwrap();
    assert_eq!(e.lines.len(), 1);
    assert_eq!(
        spans(&e, 0),
        vec![s("A message (ID:1234) was edited but was not in cache", StyleTag::Cyan)]
    );
}

#[test]
fn ingest_pushes_shown_events_only() {
    let mut store = LogStore::new(2);
    ingest(&mut store, LogEvent::Other);
    assert_eq!(store.len(), 0);
    ingest(
        &mut store,
        LogEvent::NewMessage {
            message: msg("hi", "a"),
            guild_name: "G".to_string(),
            channel_name: "c".to_string(),
        },
    );
    ingest(
        &mut store,
        LogEvent::MessageEdit {
            old_if_available: Some(msg("x", "a")),
            new: Some(msg("x", "a")),
            message_id: "5".to_string(),
            guild_name: "G".to_string(),
            channel_name: "c".to_string(),
        },
    );
    assert_eq!(store.len(), 1);
    for _ in 0..3 {
        ingest(
            &mut store,
            LogEvent::MessageEdit {
                old_if_available: None,
                new: None,
                message_id: "5".to_string(),
                guild_name: "G".to_string(),
                channel_name: "c".to_string(),
            },
        );
    }
    assert_eq!(store.len(), 2);
}

fn no_breaks(e: &LogEntry) -> bool {
    e.lines.iter().all(|l| l.spans.iter().all(|s| !s.content.contains('\n')))
}

#[test]
fn names_with_line_breaks_stay_on_one_line() {
    let mut m = msg("x\ny", "a\nb");
    m.attachment_names = vec!["f\n.png".to_string()];
    m.embed_kinds = vec![Some("ri\nch".to_string())];
    let e = new_message(&m, "\n", "c\n");
    assert!(no_breaks(&e));
    assert_eq!(spans(&e, 0)[0], s("[ ] [#c ] ", StyleTag::DarkGray));
    assert_eq!(spans(&e, 0)[1], s("a b: ", StyleTag::Plain));
    assert_eq!(spans(&e, 1)[1], s(" <f .png> {ri ch}", StyleTag::Cyan));

    let mut new = msg("two", "a\nb");
    new.attachment_names = vec!["g\n".to_string()];
    let e = message_edit(Some(msg("one", "a")), Some(new), "1", "\n", "c").unwrap();
    assert!(no_breaks(&e));
    assert_eq!(spans(&e, 0)[0], s("[ ] [#c] A message by ", StyleTag::Cyan));
    assert_eq!(spans(&e, 2), vec![s("AFTER: a b: two <g >", StyleTag::Cyan)]);
    let e = message_edit(None, None, "7\n", "G", "c").unwrap();
    assert!(no_breaks(&e));
}
