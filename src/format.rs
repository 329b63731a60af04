use vstd::prelude::*;
use crate::styled::{LogEntry, Span, SpanView, StyleTag, StyledLine};

verus! {

/// The pieces of `s` between newline characters: one more piece than there are newlines.
pub open spec fn split_newlines_spec(s: Seq<char>) -> Seq<Seq<char>>
    decreases s.len(),
{
    if s.len() == 0 {
        seq![Seq::empty()]
    } else {
        let p = split_newlines_spec(s.drop_last());
        if s.last() == '\n' {
            p.push(Seq::empty())
        } else {
            p.update(p.len() - 1, p.last().push(s.last()))
        }
    }
}

/// `s` without one trailing carriage return, if it has one.
pub open spec fn strip_cr(s: Seq<char>) -> Seq<char> {
    if s.len() > 0 && s.last() == '\r' {
        s.drop_last()
    } else {
        s
    }
}

/// The lines of a text: the pieces between newlines, a carriage return before a newline
/// taken off, and no last line when the text is empty or ends with a newline.
pub open spec fn text_lines_spec(s: Seq<char>) -> Seq<Seq<char>> {
    let p = split_newlines_spec(s);
    let ended = Seq::new((p.len() - 1) as nat, |i: int| strip_cr(p[i]));
    if p.last().len() == 0 {
        ended
    } else {
        ended.push(p.last())
    }
}

proof fn lemma_split_nonempty(s: Seq<char>)
    ensures
        split_newlines_spec(s).len() >= 1,
    decreases s.len(),
{
    if s.len() > 0 {
        lemma_split_nonempty(s.drop_last());
    }
}

/// The views of a vector of strings.
pub open spec fn strings_view(v: Seq<String>) -> Seq<Seq<char>> {
    v.map_values(|x: String| x@)
}

/// Splits `s` at each newline character.
pub fn split_newlines(s: &str) -> (r: Vec<String>)
    ensures
        strings_view(r@) == split_newlines_spec(s@),
{
    let n = s.unicode_len();
    let mut pieces: Vec<String> = Vec::new();
    let mut start: usize = 0;
    let mut i: usize = 0;
    proof {
        assert(s@.subrange(0, 0) =~= Seq::<char>::empty());
        assert(strings_view(pieces@).push(s@.subrange(0, 0)) =~= seq![Seq::<char>::empty()]);
    }
    while i < n
        invariant
            n == s@.len(),
            start <= i <= n,
            strings_view(pieces@).push(s@.subrange(start as int, i as int)) == split_newlines_spec(
                s@.subrange(0, i as int),
            ),
        decreases n - i,
    {
        let c = s.get_char(i);
        let ghost pre = s@.subrange(0, i as int);
        proof {
            assert(s@.subrange(0, i + 1).drop_last() =~= pre);
            assert(s@.subrange(0, i + 1).last() == c);
            lemma_split_nonempty(pre);
        }
        if c == '\n' {
            let ghost before = strings_view(pieces@);
            let ghost old_start = start;
            pieces.push(String::from_str(s.substring_char(start, i)));
            start = i + 1;
            proof {
                assert(strings_view(pieces@) =~= before.push(s@.subrange(old_start as int, i as int)));
                assert(s@.subrange(start as int, i + 1) =~= Seq::<char>::empty());
                assert(strings_view(pieces@).push(s@.subrange(start as int, i + 1)) =~= split_newlines_spec(
                    s@.subrange(0, i + 1),
                ));
            }
        } else {
            proof {
                assert(s@.subrange(start as int, i + 1) =~= s@.subrange(start as int, i as int).push(c));
                assert(strings_view(pieces@).push(s@.subrange(start as int, i + 1)) =~= split_newlines_spec(
                    s@.subrange(0, i + 1),
                ));
            }
        }
        i += 1;
    }
    pieces.push(String::from_str(s.substring_char(start, n)));
    proof {
        assert(s@.subrange(0, n as int) =~= s@);
        assert(strings_view(pieces@) =~= split_newlines_spec(s@));
    }
    pieces
}

/// `s` without one trailing carriage return, if it has one.
fn strip_cr_of(s: &str) -> (r: String)
    ensures
        r@ == strip_cr(s@),
{
    let n = s.unicode_len();
    if n > 0 && s.get_char(n - 1) == '\r' {
        String::from_str(s.substring_char(0, n - 1))
    } else {
        String::from_str(s)
    }
}

/// The lines of `s`, as `str::lines` gives them.
pub fn text_lines(s: &str) -> (r: Vec<String>)
    ensures
        strings_view(r@) == text_lines_spec(s@),
{
    let pieces = split_newlines(s);
    proof {
        lemma_split_nonempty(s@);
    }
    let ghost p = split_newlines_spec(s@);
    let last = pieces.len() - 1;
    let mut lines: Vec<String> = Vec::new();
    let mut i: usize = 0;
    while i < last
        invariant
            strings_view(pieces@) == p,
            last == p.len() - 1,
            i <= last,
            lines@.len() == i,
            forall|j: int| 0 <= j < i ==> #[trigger] lines@[j]@ == strip_cr(p[j]),
        decreases last - i,
    {
        assert(pieces@[i as int]@ == p[i as int]);
        lines.push(strip_cr_of(pieces[i].as_str()));
        i += 1;
    }
    assert(pieces@[last as int]@ == p.last());
    if pieces[last].as_str().unicode_len() > 0 {
        lines.push(pieces[last].clone());
    }
    proof {
        assert(strings_view(lines@) =~= text_lines_spec(s@));
    }
    lines
}

/// The parts with `sep` between each two.
pub open spec fn join_spec(parts: Seq<Seq<char>>, sep: Seq<char>) -> Seq<char>
    decreases parts.len(),
{
    if parts.len() == 0 {
        Seq::empty()
    } else if parts.len() == 1 {
        parts[0]
    } else {
        join_spec(parts.drop_last(), sep) + sep + parts.last()
    }
}

/// Joins the strings with `sep` between each two.
pub fn join(parts: &Vec<String>, sep: &str) -> (r: String)
    ensures
        r@ == join_spec(strings_view(parts@), sep@),
{
    let ghost ps = strings_view(parts@);
    let mut out = String::new();
    let mut i: usize = 0;
    while i < parts.len()
        invariant
            ps == strings_view(parts@),
            i <= parts@.len(),
            out@ == join_spec(ps.subrange(0, i as int), sep@),
        decreases parts@.len() - i,
    {
        proof {
            assert(ps.subrange(0, i + 1).drop_last() =~= ps.subrange(0, i as int));
            assert(ps.subrange(0, i + 1).last() == parts@[i as int]@);
            if i == 0 {
                assert(out@ =~= Seq::<char>::empty());
            }
        }
        if i > 0 {
            out.append(sep);
        }
        out.append(parts[i].as_str());
        proof {
            if i == 0 {
                assert(out@ =~= ps.subrange(0, 1)[0]);
            }
        }
        i += 1;
    }
    assert(ps.subrange(0, i as int) =~= ps);
    out
}

/// A message as the formatter needs it.
pub struct MessageInfo {
    pub content: String,
    pub author_name: String,
    pub author_is_bot: bool,
    /// The file name of each attachment.
    pub attachment_names: Vec<String>,
    /// The kind of each embed, where it has one.
    pub embed_kinds: Vec<Option<String>>,
}

/// The name shown for an embed kind.
pub open spec fn kind_name(k: Option<Seq<char>>) -> Seq<char> {
    match k {
        Some(s) => s,
        None => "Unknown Type"@,
    }
}

/// ` <a, b>` naming the attachments, or nothing when there are none.
pub open spec fn attachments_note(names: Seq<Seq<char>>) -> Seq<char> {
    if names.len() == 0 {
        Seq::empty()
    } else {
        " <"@ + join_spec(names, ", "@) + ">"@
    }
}

/// ` {a, b}` naming the embed kinds, or nothing when there are none.
pub open spec fn embeds_note(kinds: Seq<Option<Seq<char>>>) -> Seq<char> {
    if kinds.len() == 0 {
        Seq::empty()
    } else {
        " {"@ + join_spec(kinds.map_values(|k: Option<Seq<char>>| kind_name(k)), ", "@) + "}"@
    }
}

impl MessageInfo {
    /// The embed kinds as plain values.
    pub open spec fn kinds_view(&self) -> Seq<Option<Seq<char>>> {
        self.embed_kinds@.map_values(|k: Option<String>| match k {
            Some(s) => Some(s@),
            None => None,
        })
    }

    /// The note on attachments and embeds that ends the message's last line.
    pub open spec fn note(&self) -> Seq<char> {
        attachments_note(strings_view(self.attachment_names@)) + embeds_note(self.kinds_view())
    }

    /// Builds the note on attachments and embeds.
    pub fn note_text(&self) -> (r: String)
        ensures
            r@ == self.note(),
    {
        let mut out = String::new();
        if self.attachment_names.len() > 0 {
            out.append(" <");
            let names = join(&self.attachment_names, ", ");
            out.append(names.as_str());
            out.append(">");
        }
        if self.embed_kinds.len() > 0 {
            let mut kinds: Vec<String> = Vec::new();
            let mut i: usize = 0;
            while i < self.embed_kinds.len()
                invariant
                    i <= self.embed_kinds@.len(),
                    kinds@.len() == i,
                    forall|j: int|
                        0 <= j < i ==> #[trigger] kinds@[j]@ == kind_name(self.kinds_view()[j]),
                decreases self.embed_kinds@.len() - i,
            {
                match &self.embed_kinds[i] {
                    Some(k) => kinds.push(k.clone()),
                    None => {
                        proof {
                            reveal_strlit("Unknown Type");
                        }
                        kinds.push(String::from_str("Unknown Type"));
                    },
                }
                i += 1;
            }
            out.append(" {");
            let joined = join(&kinds, ", ");
            out.append(joined.as_str());
            out.append("}");
            proof {
                assert(strings_view(kinds@) =~= self.kinds_view().map_values(
                    |k: Option<Seq<char>>| kind_name(k),
                ));
            }
        }
        proof {
            reveal_strlit(" <");
            reveal_strlit(">");
            reveal_strlit(" {");
            reveal_strlit("}");
            reveal_strlit(", ");
        }
        assert(out@ =~= self.note());
        out
    }
}

/// `s` with each line break replaced by a space, so that it can stand inside one line.
pub open spec fn one_line(s: Seq<char>) -> Seq<char> {
    Seq::new(s.len(), |i: int| if s[i] == '\n' { ' ' } else { s[i] })
}

/// `s` holds no line break.
pub open spec fn no_break(s: Seq<char>) -> bool {
    forall|i: int| 0 <= i < s.len() ==> s[i] != '\n'
}

/// No run of any line of the entry holds a line break.
pub open spec fn entry_no_breaks(e: Seq<Seq<SpanView>>) -> bool {
    forall|i: int, j: int| 0 <= i < e.len() && 0 <= j < e[i].len() ==> no_break(#[trigger] e[i][j].0)
}

/// Builds `s` with each line break replaced by a space.
pub fn one_line_of(s: &str) -> (r: String)
    ensures
        r@ == one_line(s@),
{
    let n = s.unicode_len();
    let mut out = String::new();
    let mut i: usize = 0;
    while i < n
        invariant
            n == s@.len(),
            i <= n,
            out@ == one_line(s@.subrange(0, i as int)),
        decreases n - i,
    {
        let c = s.get_char(i);
        if c == '\n' {
            out.append(" ");
        } else {
            out.append(s.substring_char(i, i + 1));
        }
        proof {
            reveal_strlit(" ");
            assert(out@ =~= one_line(s@.subrange(0, i + 1)));
        }
        i += 1;
    }
    assert(s@.subrange(0, n as int) =~= s@);
    out
}

proof fn lemma_one_line_no_break(s: Seq<char>)
    ensures
        no_break(one_line(s)),
{
}

proof fn lemma_no_break_concat(a: Seq<char>, b: Seq<char>)
    requires
        no_break(a),
        no_break(b),
    ensures
        no_break(a + b),
{
    assert forall|i: int| 0 <= i < (a + b).len() implies (a + b)[i] != '\n' by {
        if i < a.len() {
            assert((a + b)[i] == a[i]);
        } else {
            assert((a + b)[i] == b[i - a.len()]);
        }
    }
}

proof fn lemma_split_no_break(s: Seq<char>)
    ensures
        forall|i: int|
            0 <= i < split_newlines_spec(s).len() ==> no_break(#[trigger] split_newlines_spec(s)[i]),
    decreases s.len(),
{
    if s.len() > 0 {
        lemma_split_no_break(s.drop_last());
        lemma_split_nonempty(s.drop_last());
        let p = split_newlines_spec(s.drop_last());
        if s.last() != '\n' {
            assert(no_break(p.last()));
            assert(no_break(p.last().push(s.last())));
        }
    }
}

proof fn lemma_lines_no_break(s: Seq<char>)
    ensures
        forall|i: int| 0 <= i < content_lines(s).len() ==> no_break(#[trigger] content_lines(s)[i]),
{
    lemma_split_no_break(s);
    lemma_split_nonempty(s);
    let p = split_newlines_spec(s);
    assert forall|i: int| 0 <= i < p.len() implies no_break(#[trigger] strip_cr(p[i])) by {
        assert(no_break(p[i]));
    }
    assert(no_break(p.last()));
}

/// `[guild] [#channel] `, the place a message was sent in, each name on one line.
pub open spec fn place(guild: Seq<char>, channel: Seq<char>) -> Seq<char> {
    "["@ + one_line(guild) + "] [#"@ + one_line(channel) + "] "@
}

/// The lines of a message's content; an empty content still gives one, empty, line.
pub open spec fn content_lines(content: Seq<char>) -> Seq<Seq<char>> {
    if text_lines_spec(content).len() == 0 {
        seq![Seq::empty()]
    } else {
        text_lines_spec(content)
    }
}

/// Line `i` of a new message: the first one starts with the place and the author, the
/// last one ends with the note on attachments and embeds.
pub open spec fn new_message_line(
    m: MessageInfo,
    guild: Seq<char>,
    channel: Seq<char>,
    i: int,
) -> Seq<SpanView> {
    let ls = content_lines(m.content@);
    let head: Seq<SpanView> = if i == 0 {
        seq![(place(guild, channel), StyleTag::DarkGray), (one_line(m.author_name@) + ": "@, StyleTag::Plain)]
    } else {
        Seq::empty()
    };
    let tail: Seq<SpanView> = if i == ls.len() - 1 {
        seq![(one_line(m.note()), StyleTag::Cyan)]
    } else {
        Seq::empty()
    };
    head + seq![(ls[i], StyleTag::Plain)] + tail
}

/// The entry for a new message: one line per line of its content.
pub open spec fn new_message_spec(m: MessageInfo, guild: Seq<char>, channel: Seq<char>) -> Seq<
    Seq<SpanView>,
> {
    Seq::new(content_lines(m.content@).len(), |i: int| new_message_line(m, guild, channel, i))
}

/// Builds `[guild] [#channel] `.
fn place_text(guild: &str, channel: &str) -> (r: String)
    ensures
        r@ == place(guild@, channel@),
{
    let mut out = String::from_str("[");
    out.append(one_line_of(guild).as_str());
    out.append("] [#");
    out.append(one_line_of(channel).as_str());
    out.append("] ");
    proof {
        reveal_strlit("[");
        reveal_strlit("] [#");
        reveal_strlit("] ");
    }
    assert(out@ =~= place(guild@, channel@));
    out
}

/// The log entry for a new message sent in `channel_name` of `guild_name`.
pub fn new_message(message: &MessageInfo, guild_name: &str, channel_name: &str) -> (r: LogEntry)
    ensures
        r.wf(),
        r@ == new_message_spec(*message, guild_name@, channel_name@),
        entry_no_breaks(r@),
{
    let mut content = text_lines(message.content.as_str());
    if content.len() == 0 {
        content.push(String::new());
    }
    let ghost ls = content_lines(message.content@);
    assert(strings_view(content@) =~= ls);
    let note = one_line_of(message.note_text().as_str());
    let last = content.len() - 1;
    let mut lines: Vec<StyledLine> = Vec::new();
    let mut i: usize = 0;
    while i < content.len()
        invariant
            strings_view(content@) == ls,
            ls == content_lines(message.content@),
            last == ls.len() - 1,
            note@ == one_line(message.note()),
            i <= ls.len(),
            lines@.len() == i,
            forall|j: int|
                0 <= j < i ==> #[trigger] lines@[j]@ == new_message_line(
                    *message,
                    guild_name@,
                    channel_name@,
                    j,
                ),
        decreases ls.len() - i,
    {
        let ghost m = *message;
        let ghost head: Seq<SpanView> = if i == 0 {
            seq![(place(guild_name@, channel_name@), StyleTag::DarkGray), (one_line(m.author_name@) + ": "@, StyleTag::Plain)]
        } else {
            Seq::empty()
        };
        let ghost tail: Seq<SpanView> = if i == last {
            seq![(one_line(m.note()), StyleTag::Cyan)]
        } else {
            Seq::empty()
        };
        let mut spans: Vec<Span> = Vec::new();
        if i == 0 {
            let place = place_text(guild_name, channel_name);
            spans.push(Span::styled(place.as_str(), StyleTag::DarkGray));
            let mut author = one_line_of(message.author_name.as_str());
            author.append(": ");
            spans.push(Span::raw(author.as_str()));
        }
        assert(spans@.map_values(|x: Span| x@) =~= head);
        assert(content@[i as int]@ == ls[i as int]);
        spans.push(Span::raw(content[i].as_str()));
        assert(spans@.map_values(|x: Span| x@) =~= head + seq![(ls[i as int], StyleTag::Plain)]);
        if i == last {
            spans.push(Span::styled(note.as_str(), StyleTag::Cyan));
        }
        let line = StyledLine { spans };
        proof {
            assert(line@ =~= head + seq![(ls[i as int], StyleTag::Plain)] + tail);
            assert(new_message_line(m, guild_name@, channel_name@, i as int) == head + seq![(ls[i as int], StyleTag::Plain)] + tail);
        }
        lines.push(line);
        i += 1;
    }
    let r = LogEntry { lines };
    assert(r@ =~= new_message_spec(*message, guild_name@, channel_name@));
    proof {
        lemma_new_message_no_breaks(*message, guild_name@, channel_name@);
    }
    r
}

/// Row `i` of one side of an edit: the first row starts with `label` and the author, the
/// last row ends with `note`.
pub open spec fn edit_row(
    label: Seq<char>,
    author: Seq<char>,
    pieces: Seq<Seq<char>>,
    note: Seq<char>,
    i: int,
) -> Seq<SpanView> {
    let head = if i == 0 {
        label + author + ": "@
    } else {
        Seq::empty()
    };
    let tail = if i == pieces.len() - 1 {
        note
    } else {
        Seq::empty()
    };
    seq![(head + pieces[i] + tail, StyleTag::Cyan)]
}

/// The rows of one side of an edit, one per piece of the content between newlines.
pub open spec fn edit_rows(
    label: Seq<char>,
    author: Seq<char>,
    pieces: Seq<Seq<char>>,
    note: Seq<char>,
) -> Seq<Seq<SpanView>> {
    Seq::new(pieces.len(), |i: int| edit_row(label, author, pieces, note, i))
}

/// The entry for an edited message: who edited where, the old content, the new content
/// with the note on its attachments and embeds.
pub open spec fn edited_spec(
    old: MessageInfo,
    new: MessageInfo,
    guild: Seq<char>,
    channel: Seq<char>,
) -> Seq<Seq<SpanView>> {
    let header = seq![
        (place(guild, channel) + "A message by "@, StyleTag::Cyan),
        (one_line(new.author_name@), StyleTag::Plain),
        (" was edited:"@, StyleTag::Cyan),
    ];
    seq![header] + edit_rows(
        "BEFORE: "@,
        one_line(new.author_name@),
        split_newlines_spec(old.content@),
        Seq::empty(),
    ) + edit_rows(
        "AFTER: "@,
        one_line(new.author_name@),
        split_newlines_spec(new.content@),
        one_line(new.note()),
    )
}

/// What an edit event shows. Both versions known: the edit, unless a bot wrote it or the
/// content did not change. Neither known: a line saying that the message was not in the
/// cache. One of the two known: nothing.
pub open spec fn message_edit_spec(
    old: Option<MessageInfo>,
    new: Option<MessageInfo>,
    message_id: Seq<char>,
    guild: Seq<char>,
    channel: Seq<char>,
) -> Option<Seq<Seq<SpanView>>> {
    match (old, new) {
        (Some(o), Some(n)) => if n.author_is_bot || o.content@ == n.content@ {
            None
        } else {
            Some(edited_spec(o, n, guild, channel))
        },
        (None, None) => Some(
            seq![seq![("A message (ID:"@ + one_line(message_id) + ") was edited but was not in cache"@, StyleTag::Cyan)]],
        ),
        _ => None,
    }
}

/// Builds the rows of one side of an edit.
fn edit_rows_of(label: &str, author: &str, pieces: &Vec<String>, note: &str) -> (r: Vec<StyledLine>)
    ensures
        r@.map_values(|l: StyledLine| l@) == edit_rows(label@, author@, strings_view(pieces@), note@),
{
    let ghost ps = strings_view(pieces@);
    let mut rows: Vec<StyledLine> = Vec::new();
    let mut i: usize = 0;
    while i < pieces.len()
        invariant
            ps == strings_view(pieces@),
            i <= pieces@.len(),
            rows@.len() == i,
            forall|j: int|
                0 <= j < i ==> #[trigger] rows@[j]@ == edit_row(label@, author@, ps, note@, j),
        decreases pieces@.len() - i,
    {
        let mut text = String::new();
        if i == 0 {
            text.append(label);
            text.append(author);
            text.append(": ");
        }
        text.append(pieces[i].as_str());
        if i == pieces.len() - 1 {
            text.append(note);
        }
        let line = StyledLine { spans: vec![Span::styled(text.as_str(), StyleTag::Cyan)] };
        proof {
            reveal_strlit(": ");
            assert(pieces@[i as int]@ == ps[i as int]);
            assert(line@ =~= edit_row(label@, author@, ps, note@, i as int));
        }
        rows.push(line);
        i += 1;
    }
    let r = rows;
    assert(r@.map_values(|l: StyledLine| l@) =~= edit_rows(label@, author@, ps, note@));
    r
}

/// The log entry for an edit of the message `message_id` in `channel_name` of
/// `guild_name`, or `None` when the edit is not shown.
pub fn message_edit(
    old_if_available: Option<MessageInfo>,
    new: Option<MessageInfo>,
    message_id: &str,
    guild_name: &str,
    channel_name: &str,
) -> (r: Option<LogEntry>)
    ensures
        match r {
            Some(e) => e.wf() && entry_no_breaks(e@) && message_edit_spec(
                old_if_available,
                new,
                message_id@,
                guild_name@,
                channel_name@,
            ) == Some(e@),
            None => message_edit_spec(
                old_if_available,
                new,
                message_id@,
                guild_name@,
                channel_name@,
            ) is None,
        },
{
    proof {
        reveal_strlit("A message by ");
        reveal_strlit(" was edited:");
        reveal_strlit("BEFORE: ");
        reveal_strlit("AFTER: ");
        reveal_strlit("A message (ID:");
        reveal_strlit(") was edited but was not in cache");
    }
    match (old_if_available, new) {
        (Some(old_message), Some(new_message)) => {
            if new_message.author_is_bot || old_message.content == new_message.content {
                return None;
            }
            let author_line = one_line_of(new_message.author_name.as_str());
            let mut first = place_text(guild_name, channel_name);
            first.append("A message by ");
            let header = StyledLine {
                spans: vec![
                    Span::styled(first.as_str(), StyleTag::Cyan),
                    Span::raw(author_line.as_str()),
                    Span::styled(" was edited:", StyleTag::Cyan),
                ],
            };
            let author = author_line.as_str();
            let note = one_line_of(new_message.note_text().as_str());
            let mut lines = vec![header];
            let mut before = edit_rows_of(
                "BEFORE: ",
                author,
                &split_newlines(old_message.content.as_str()),
                "",
            );
            let mut after = edit_rows_of(
                "AFTER: ",
                author,
                &split_newlines(new_message.content.as_str()),
                note.as_str(),
            );
            let ghost hv = lines@.map_values(|l: StyledLine| l@);
            let ghost bv = before@.map_values(|l: StyledLine| l@);
            let ghost av = after@.map_values(|l: StyledLine| l@);
            lines.append(&mut before);
            lines.append(&mut after);
            let r = LogEntry { lines };
            proof {
                reveal_strlit("");
                assert(""@ =~= Seq::<char>::empty());
                assert(r@ =~= hv + bv + av);
                assert(hv[0] =~= seq![
                    (place(guild_name@, channel_name@) + "A message by "@, StyleTag::Cyan),
                    (one_line(new_message.author_name@), StyleTag::Plain),
                    (" was edited:"@, StyleTag::Cyan),
                ]);
                assert(r@ =~= edited_spec(old_message, new_message, guild_name@, channel_name@));
                lemma_edited_no_breaks(old_message, new_message, guild_name@, channel_name@);
            }
            Some(r)
        },
        (None, None) => {
            let mut text = String::from_str("A message (ID:");
            text.append(one_line_of(message_id).as_str());
            text.append(") was edited but was not in cache");
            let r = LogEntry {
                lines: vec![StyledLine { spans: vec![Span::styled(text.as_str(), StyleTag::Cyan)] }],
            };
            assert(r.lines@[0]@ =~= seq![("A message (ID:"@ + one_line(message_id@) + ") was edited but was not in cache"@, StyleTag::Cyan)]);
            assert(r@ =~= seq![seq![("A message (ID:"@ + one_line(message_id@) + ") was edited but was not in cache"@, StyleTag::Cyan)]]);
            proof {
                lemma_literal_no_break("A message (ID:");
                lemma_literal_no_break(") was edited but was not in cache");
                lemma_no_break_concat("A message (ID:"@, one_line(message_id@));
                lemma_no_break_concat("A message (ID:"@ + one_line(message_id@), ") was edited but was not in cache"@);
            }
            Some(r)
        },
        _ => None,
    }
}

proof fn lemma_literal_no_break(s: &str)
    requires
        s == "[" || s == "] [#" || s == "] " || s == ": " || s == "A message by " || s
            == " was edited:" || s == "BEFORE: " || s == "AFTER: " || s == "A message (ID:" || s
            == ") was edited but was not in cache",
    ensures
        no_break(s@),
{
    reveal_strlit("[");
    reveal_strlit("] [#");
    reveal_strlit("] ");
    reveal_strlit(": ");
    reveal_strlit("A message by ");
    reveal_strlit(" was edited:");
    reveal_strlit("BEFORE: ");
    reveal_strlit("AFTER: ");
    reveal_strlit("A message (ID:");
    reveal_strlit(") was edited but was not in cache");
}

proof fn lemma_place_no_break(guild: Seq<char>, channel: Seq<char>)
    ensures
        no_break(place(guild, channel)),
{
    lemma_literal_no_break("[");
    lemma_literal_no_break("] [#");
    lemma_literal_no_break("] ");
    lemma_no_break_concat("["@, one_line(guild));
    lemma_no_break_concat("["@ + one_line(guild), "] [#"@);
    lemma_no_break_concat("["@ + one_line(guild) + "] [#"@, one_line(channel));
    lemma_no_break_concat("["@ + one_line(guild) + "] [#"@ + one_line(channel), "] "@);
}

proof fn lemma_new_message_no_breaks(m: MessageInfo, guild: Seq<char>, channel: Seq<char>)
    ensures
        entry_no_breaks(new_message_spec(m, guild, channel)),
{
    let e = new_message_spec(m, guild, channel);
    let ls = content_lines(m.content@);
    lemma_lines_no_break(m.content@);
    lemma_place_no_break(guild, channel);
    lemma_literal_no_break(": ");
    lemma_no_break_concat(one_line(m.author_name@), ": "@);
    assert forall|i: int, j: int| 0 <= i < e.len() && 0 <= j < e[i].len() implies no_break(
        #[trigger] e[i][j].0,
    ) by {
        assert(no_break(ls[i]));
    }
}

proof fn lemma_edit_rows_no_break(
    label: &str,
    author: Seq<char>,
    pieces: Seq<Seq<char>>,
    note: Seq<char>,
)
    requires
        label == "BEFORE: " || label == "AFTER: ",
        no_break(author),
        no_break(note),
        forall|i: int| 0 <= i < pieces.len() ==> no_break(#[trigger] pieces[i]),
    ensures
        entry_no_breaks(edit_rows(label@, author, pieces, note)),
{
    let e = edit_rows(label@, author, pieces, note);
    lemma_literal_no_break(label);
    lemma_literal_no_break(": ");
    lemma_no_break_concat(label@, author);
    lemma_no_break_concat(label@ + author, ": "@);
    assert forall|i: int, j: int| 0 <= i < e.len() && 0 <= j < e[i].len() implies no_break(
        #[trigger] e[i][j].0,
    ) by {
        let head = if i == 0 {
            label@ + author + ": "@
        } else {
            Seq::empty()
        };
        let tail = if i == pieces.len() - 1 {
            note
        } else {
            Seq::empty()
        };
        assert(no_break(pieces[i]));
        lemma_no_break_concat(head, pieces[i]);
        lemma_no_break_concat(head + pieces[i], tail);
    }
}

proof fn lemma_edited_no_breaks(old: MessageInfo, new: MessageInfo, guild: Seq<char>, channel: Seq<char>)
    ensures
        entry_no_breaks(edited_spec(old, new, guild, channel)),
{
    let author = one_line(new.author_name@);
    let before = edit_rows("BEFORE: "@, author, split_newlines_spec(old.content@), Seq::empty());
    let after = edit_rows("AFTER: "@, author, split_newlines_spec(new.content@), one_line(new.note()));
    lemma_split_no_break(old.content@);
    lemma_split_no_break(new.content@);
    lemma_edit_rows_no_break("BEFORE: ", author, split_newlines_spec(old.content@), Seq::empty());
    lemma_edit_rows_no_break("AFTER: ", author, split_newlines_spec(new.content@), one_line(new.note()));
    lemma_place_no_break(guild, channel);
    lemma_literal_no_break("A message by ");
    lemma_literal_no_break(" was edited:");
    lemma_no_break_concat(place(guild, channel), "A message by "@);
    let header = seq![
        (place(guild, channel) + "A message by "@, StyleTag::Cyan),
        (author, StyleTag::Plain),
        (" was edited:"@, StyleTag::Cyan),
    ];
    let e = edited_spec(old, new, guild, channel);
    assert(e =~= seq![header] + before + after);
    assert forall|i: int, j: int| 0 <= i < e.len() && 0 <= j < e[i].len() implies no_break(
        #[trigger] e[i][j].0,
    ) by {
        if i == 0 {
        } else if i < 1 + before.len() {
            assert(e[i] == before[i - 1]);
        } else {
            assert(e[i] == after[i - 1 - before.len()]);
        }
    }
}

} // verus!
