use vstd::prelude::*;
use crate::styled::{line_width, LogEntry, SpanView, StyledLine};
use crate::wrap::{lemma_wrap_zero_width, wrap, wrap_spec};

verus! {

/// The stick-to-bottom offset: the first row shown when the last row sits at the bottom of
/// a viewport of `viewport_height` rows, or 0 when everything fits.
pub open spec fn bottom_offset(content_length: nat, viewport_height: nat) -> nat {
    if content_length > viewport_height {
        (content_length - viewport_height) as nat
    } else {
        0
    }
}

/// The lines of the entries, entry after entry.
pub open spec fn entries_lines(es: Seq<Seq<Seq<SpanView>>>) -> Seq<Seq<SpanView>>
    decreases es.len(),
{
    if es.len() == 0 {
        Seq::empty()
    } else {
        entries_lines(es.drop_last()) + es.last()
    }
}

/// The rows of the lines, each line wrapped at width `w`, in order.
pub open spec fn wrap_all(ls: Seq<Seq<SpanView>>, w: nat) -> Seq<Seq<SpanView>>
    decreases ls.len(),
{
    if ls.len() == 0 {
        Seq::empty()
    } else {
        wrap_all(ls.drop_last(), w) + wrap_spec(ls.last(), w)
    }
}

/// At width zero every input line gives exactly one row, and that row is empty.
pub proof fn lemma_wrap_all_zero_width(ls: Seq<Seq<SpanView>>)
    ensures
        wrap_all(ls, 0).len() == ls.len(),
        forall|i: int| 0 <= i < ls.len() ==> line_width(#[trigger] wrap_all(ls, 0)[i]) == 0,
    decreases ls.len(),
{
    if ls.len() > 0 {
        lemma_wrap_all_zero_width(ls.drop_last());
        lemma_wrap_zero_width(ls.last());
        let prev = wrap_all(ls.drop_last(), 0);
        assert forall|i: int| 0 <= i < ls.len() implies line_width(#[trigger] wrap_all(ls, 0)[i]) == 0 by {
            if i < prev.len() {
                assert(wrap_all(ls, 0)[i] == prev[i]);
            } else {
                assert(wrap_all(ls, 0)[i] == wrap_spec(ls.last(), 0)[0]);
            }
        }
    }
}

/// The rows that a viewport of `height` rows starting at row `offset` shows.
pub open spec fn window(rows: Seq<Seq<SpanView>>, offset: nat, height: nat) -> Seq<Seq<SpanView>> {
    let lo = if offset <= rows.len() { offset as int } else { rows.len() as int };
    let hi = if offset + height <= rows.len() { (offset + height) as int } else { rows.len() as int };
    rows.subrange(lo, hi)
}

/// Every line of the entries has a width that a `usize` can count.
pub open spec fn widths_fit(es: Seq<Seq<Seq<SpanView>>>) -> bool {
    forall|i: int, j: int|
        0 <= i < es.len() && 0 <= j < es[i].len() ==> line_width(#[trigger] es[i][j]) <= usize::MAX
}

/// The entries' view.
pub open spec fn entries_view(es: Seq<LogEntry>) -> Seq<Seq<Seq<SpanView>>> {
    es.map_values(|e: LogEntry| e@)
}

/// The rows' view.
pub open spec fn rows_view(rs: Seq<StyledLine>) -> Seq<Seq<SpanView>> {
    rs.map_values(|r: StyledLine| r@)
}

/// The offset that keeps the newest row at the bottom of the viewport.
pub fn recompute_offset(content_length: usize, viewport_height: usize) -> (r: usize)
    ensures
        r == bottom_offset(content_length as nat, viewport_height as nat),
{
    if content_length > viewport_height {
        content_length - viewport_height
    } else {
        0
    }
}

/// Scrolling stays in range: the offset is never past the last full viewport of content.
pub proof fn lemma_offset_in_range(content_length: nat, viewport_height: nat)
    ensures
        0 <= bottom_offset(content_length, viewport_height),
        bottom_offset(content_length, viewport_height) <= if content_length > viewport_height {
            content_length - viewport_height
        } else {
            0
        },
        bottom_offset(content_length, viewport_height) + viewport_height >= content_length,
{
}

/// Wraps every line of every entry at `max_width` columns, keeping the order.
pub fn wrap_entries(entries: &Vec<LogEntry>, max_width: usize) -> (r: Vec<StyledLine>)
    requires
        widths_fit(entries_view(entries@)),
    ensures
        rows_view(r@) == wrap_all(entries_lines(entries_view(entries@)), max_width as nat),
{
    let ghost es = entries_view(entries@);
    let mut rows: Vec<StyledLine> = Vec::new();
    let mut i: usize = 0;
    while i < entries.len()
        invariant
            i <= entries@.len(),
            es == entries_view(entries@),
            widths_fit(es),
            rows_view(rows@) == wrap_all(entries_lines(es.subrange(0, i as int)), max_width as nat),
        decreases entries@.len() - i,
    {
        let entry = &entries[i];
        let ghost done = entries_lines(es.subrange(0, i as int));
        proof {
            assert(es.subrange(0, i + 1).drop_last() =~= es.subrange(0, i as int));
            assert(es[i as int] == entry@);
            assert(done + entry@.subrange(0, 0) =~= done);
        }
        let mut j: usize = 0;
        while j < entry.lines.len()
            invariant
                i < entries@.len(),
                es == entries_view(entries@),
                entry@ == es[i as int],
                j <= entry.lines@.len(),
                widths_fit(es),
                rows_view(rows@) == wrap_all(done + entry@.subrange(0, j as int), max_width as nat),
            decreases entry.lines@.len() - j,
        {
            let ghost before = rows_view(rows@);
            proof {
                assert(es[i as int][j as int] == entry.lines@[j as int]@);
                assert(line_width(es[i as int][j as int]) <= usize::MAX);
                assert((done + entry@.subrange(0, j + 1)).drop_last() =~= done + entry@.subrange(0, j as int));
                assert((done + entry@.subrange(0, j + 1)).last() == entry.lines@[j as int]@);
            }
            let mut wrapped = wrap(&entry.lines[j], max_width);
            let ghost ws = wrapped@;
            rows.append(&mut wrapped);
            proof {
                assert(rows_view(rows@) =~= before + rows_view(ws));
            }
            j += 1;
        }
        proof {
            assert(entry@.subrange(0, j as int) =~= entry@);
            assert(entries_lines(es.subrange(0, i + 1)) == done + entry@);
        }
        i += 1;
    }
    assert(es.subrange(0, i as int) =~= es);
    rows
}

/// The rows of a viewport `height` rows tall whose first row is row `offset` of `rows`.
pub fn visible_rows(rows: Vec<StyledLine>, offset: usize, height: usize) -> (r: Vec<StyledLine>)
    ensures
        rows_view(r@) == window(rows_view(rows@), offset as nat, height as nat),
{
    let mut rows = rows;
    let ghost all = rows@;
    let n = rows.len();
    let lo: usize = if offset <= n { offset } else { n };
    let count: usize = if height <= n - lo { height } else { n - lo };
    let mut shown = rows.split_off(lo);
    shown.truncate(count);
    proof {
        assert(shown@ == all.subrange(lo as int, lo + count));
        assert(rows_view(shown@) =~= window(rows_view(all), offset as nat, height as nat));
    }
    shown
}

/// What one frame of the events pane shows.
pub struct EventsFrame {
    /// The rows inside the viewport, top to bottom.
    pub rows: Vec<StyledLine>,
    /// The index of the first row shown among all wrapped rows.
    pub offset: usize,
    /// The number of wrapped rows of the whole log.
    pub content_length: usize,
}

/// The inner size of a pane: a border takes one cell on each side.
pub open spec fn inner(size: nat, border: bool) -> nat {
    if border {
        if size >= 2 {
            (size - 2) as nat
        } else {
            0
        }
    } else {
        size
    }
}

/// Lays out the events pane of `width` by `height` cells, with or without a border: all
/// lines of all entries wrapped at the inner width, and the viewport pinned to the newest
/// row.
pub fn layout_events(entries: &Vec<LogEntry>, width: usize, height: usize, border: bool) -> (r:
    EventsFrame)
    requires
        widths_fit(entries_view(entries@)),
    ensures
        ({
            let all = wrap_all(
                entries_lines(entries_view(entries@)),
                inner(width as nat, border),
            );
            &&& r.content_length == all.len()
            &&& r.offset == bottom_offset(all.len(), inner(height as nat, border))
            &&& rows_view(r.rows@) == window(all, r.offset as nat, inner(height as nat, border))
        }),
{
    let border_width: usize = if border { 2 } else { 0 };
    let max_width = width.saturating_sub(border_width);
    let logs_height = height.saturating_sub(border_width);
    let rows = wrap_entries(entries, max_width);
    let content_length = rows.len();
    let offset = recompute_offset(content_length, logs_height);
    let rows = visible_rows(rows, offset, logs_height);
    EventsFrame { rows, offset, content_length }
}

} // verus!
