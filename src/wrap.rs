use vstd::prelude::*;
use crate::styled::{
    lemma_line_text_single, lemma_line_text_split, line_text, line_width, lines_text, Span,
    SpanView, StyledLine,
};

verus! {

/// `x` brought into `[lo, hi]`.
pub open spec fn clamp(x: int, lo: int, hi: int) -> int {
    if x < lo {
        lo
    } else if x > hi {
        hi
    } else {
        x
    }
}

/// What remains of run `x` when only the characters at positions `[lo, hi)` of it are kept:
/// nothing if that range misses the run, else one run in the same style.
pub open spec fn piece(x: SpanView, lo: int, hi: int) -> Seq<SpanView> {
    let a = clamp(lo, 0, x.0.len() as int);
    let b = clamp(hi, 0, x.0.len() as int);
    if a < b {
        seq![(x.0.subrange(a, b), x.1)]
    } else {
        Seq::empty()
    }
}

/// The runs of line `l` cut down to its characters at positions `[lo, hi)`: each run keeps
/// its own style, and runs left empty are dropped.
pub open spec fn fragment(l: Seq<SpanView>, lo: int, hi: int) -> Seq<SpanView>
    decreases l.len(),
{
    if l.len() == 0 {
        Seq::empty()
    } else {
        let w = line_width(l.drop_last()) as int;
        fragment(l.drop_last(), lo, hi) + piece(l.last(), lo - w, hi - w)
    }
}

/// The number of rows of width `w` that `n` characters fill.
pub open spec fn rows_needed(n: nat, w: nat) -> nat
    recommends
        w > 0,
{
    if n == 0 {
        0
    } else {
        ((n - 1) as nat / w + 1) as nat
    }
}

/// The rows that wrapping `l` at width `w` gives. Width 0 gives one empty row. A line that
/// fits is kept as it is. Otherwise row `k` holds the characters at `[k * w, (k + 1) * w)`,
/// the last row what is left.
pub open spec fn wrap_spec(l: Seq<SpanView>, w: nat) -> Seq<Seq<SpanView>> {
    let n = line_width(l);
    if w == 0 {
        seq![Seq::empty()]
    } else if n <= w {
        seq![l]
    } else {
        Seq::new(
            rows_needed(n, w),
            |k: int| fragment(l, k * w, if (k + 1) * w <= n { (k + 1) * w } else { n as int }),
        )
    }
}

/// Builds the runs of `line` that fall at character positions `[lo, hi)`.
fn fragment_of(line: &StyledLine, lo: usize, hi: usize) -> (r: StyledLine)
    requires
        lo <= hi,
        line_width(line@) <= usize::MAX,
    ensures
        r@ == fragment(line@, lo as int, hi as int),
{
    let mut spans: Vec<Span> = Vec::new();
    let mut start: usize = 0;
    let mut j: usize = 0;
    while j < line.spans.len()
        invariant
            j <= line.spans@.len(),
            line_width(line@) <= usize::MAX,
            start == line_width(line@.subrange(0, j as int)),
            spans@.map_values(|s: Span| s@) == fragment(line@.subrange(0, j as int), lo as int, hi as int),
        decreases line.spans@.len() - j,
    {
        let ghost pre = line@.subrange(0, j as int);
        let ghost next = line@.subrange(0, j + 1);
        proof {
            assert(next.drop_last() =~= pre);
            assert(next.last() == line@[j as int]);
            lemma_line_text_split(next, j as int);
            assert(next.subrange(0, j as int) =~= pre);
            assert(next.subrange(j as int, j + 1) =~= seq![line@[j as int]]);
            lemma_line_text_single(line@[j as int]);
            lemma_line_text_split(line@, j + 1);
        }
        let span = &line.spans[j];
        let sw = span.width();
        let a: usize = if lo <= start { 0 } else if lo - start > sw { sw } else { lo - start };
        let b: usize = if hi <= start { 0 } else if hi - start > sw { sw } else { hi - start };
        let ghost before = spans@.map_values(|s: Span| s@);
        if a < b {
            let part = span.content.as_str().substring_char(a, b);
            spans.push(Span::styled(part, span.style));
        }
        proof {
            assert(spans@.map_values(|s: Span| s@) =~= before + piece(
                line@[j as int],
                lo - start,
                hi - start,
            ));
        }
        start = start + sw;
        j += 1;
    }
    assert(line@.subrange(0, j as int) =~= line@);
    let r = StyledLine { spans };
    r
}

/// Wraps `line` at `max_width` columns. Breaks fall on character counts alone; each run
/// keeps its style, also when it is cut across two rows. Width 0 gives one empty row.
pub fn wrap(line: &StyledLine, max_width: usize) -> (r: Vec<StyledLine>)
    requires
        line_width(line@) <= usize::MAX,
    ensures
        r@.map_values(|x: StyledLine| x@) == wrap_spec(line@, max_width as nat),
        max_width >= 1 ==> lines_text(r@.map_values(|x: StyledLine| x@)) == line_text(line@),
        forall|i: int|
            0 <= i < r@.len() ==> line_width(#[trigger] r@[i]@) <= max_width || max_width == 0,
        max_width >= 1 && line_width(line@) >= 1 ==> r@.len() == rows_needed(
            line_width(line@),
            max_width as nat,
        ),
        max_width == 0 ==> r@.len() == 1 && line_width(r@[0]@) == 0,
{
    proof {
        lemma_wrap_laws(line@, max_width as nat);
    }
    if max_width == 0 {
        let r = vec![StyledLine { spans: Vec::new() }];
        assert(r@[0]@ =~= Seq::<SpanView>::empty());
        assert(r@.map_values(|x: StyledLine| x@) =~= wrap_spec(line@, 0));
        return r;
    }
    let n = line.width();
    if n <= max_width {
        let r = vec![line.duplicate()];
        assert(r@.map_values(|x: StyledLine| x@) =~= wrap_spec(line@, max_width as nat));
        return r;
    }
    split_line(line, max_width)
}

/// Cuts a line wider than `max_width` into rows of `max_width` characters, the last row
/// holding what is left.
pub fn split_line(line: &StyledLine, max_width: usize) -> (r: Vec<StyledLine>)
    requires
        max_width > 0,
        max_width < line_width(line@) <= usize::MAX,
    ensures
        r@.map_values(|x: StyledLine| x@) == wrap_spec(line@, max_width as nat),
        max_width >= 1 ==> lines_text(r@.map_values(|x: StyledLine| x@)) == line_text(line@),
        forall|i: int|
            0 <= i < r@.len() ==> line_width(#[trigger] r@[i]@) <= max_width || max_width == 0,
        max_width >= 1 && line_width(line@) >= 1 ==> r@.len() == rows_needed(
            line_width(line@),
            max_width as nat,
        ),
        max_width == 0 ==> r@.len() == 1 && line_width(r@[0]@) == 0,
{
    proof {
        lemma_wrap_laws(line@, max_width as nat);
    }
    let n = line.width();
    let ghost w = max_width as nat;
    let count: usize = (n - 1) / max_width + 1;
    let mut rows: Vec<StyledLine> = Vec::new();
    let mut k: usize = 0;
    let mut lo: usize = 0;
    while k < count
        invariant
            count == rows_needed(n as nat, w),
            n == line_width(line@),
            max_width == w,
            0 < w < n,
            k <= count,
            lo as int == if k * w <= n { (k * w) as int } else { n as int },
            rows@.len() == k,
            forall|i: int|
                0 <= i < k ==> #[trigger] rows@[i]@ == wrap_spec(line@, w)[i],
        decreases count - k,
    {
        proof {
            lemma_row_start(n as nat, w, k as nat);
        }
        let hi: usize = if n - lo > max_width { lo + max_width } else { n };
        proof {
            assert((k + 1) * w == k * w + w) by (nonlinear_arith);
        }
        rows.push(fragment_of(line, lo, hi));
        k += 1;
        lo = hi;
        proof {
            if (k * w) as int > n as int {
                lemma_last_row(n as nat, w, k as nat, count as nat);
            }
        }
    }
    assert(rows@.map_values(|x: StyledLine| x@) =~= wrap_spec(line@, w));
    rows
}

proof fn lemma_row_start(n: nat, w: nat, k: nat)
    requires
        0 < w,
        0 < n,
        k < rows_needed(n, w),
    ensures
        k * w < n,
{
    let q = (n - 1) as nat / w;
    assert(k <= q);
    assert(q * w <= n - 1) by {
        vstd::arithmetic::div_mod::lemma_fundamental_div_mod((n - 1) as int, w as int);
        vstd::arithmetic::div_mod::lemma_mod_pos_bound((n - 1) as int, w as int);
    }
    assert(k * w <= q * w) by (nonlinear_arith)
        requires
            k <= q,
    ;
}

proof fn lemma_last_row(n: nat, w: nat, k: nat, count: nat)
    requires
        0 < w,
        0 < n,
        count == rows_needed(n, w),
        k <= count,
        k * w > n,
    ensures
        k == count,
{
    if k < count {
        assert(k * w <= (k + 1) * w) by (nonlinear_arith);
        lemma_row_start(n, w, k);
    }
}

proof fn lemma_line_text_concat(a: Seq<SpanView>, b: Seq<SpanView>)
    ensures
        line_text(a + b) == line_text(a) + line_text(b),
{
    lemma_line_text_split(a + b, a.len() as int);
    assert((a + b).subrange(0, a.len() as int) =~= a);
    assert((a + b).subrange(a.len() as int, (a + b).len() as int) =~= b);
}

proof fn lemma_line_text_last(l: Seq<SpanView>)
    requires
        l.len() > 0,
    ensures
        line_text(l) == line_text(l.drop_last()) + l.last().0,
{
    lemma_line_text_split(l, l.len() - 1);
    assert(l.subrange(0, l.len() - 1) =~= l.drop_last());
    assert(l.subrange(l.len() - 1, l.len() as int) =~= seq![l.last()]);
    lemma_line_text_single(l.last());
}

proof fn lemma_piece_text(x: SpanView, lo: int, hi: int)
    requires
        lo <= hi,
    ensures
        line_text(piece(x, lo, hi)) == x.0.subrange(
            clamp(lo, 0, x.0.len() as int),
            clamp(hi, 0, x.0.len() as int),
        ),
{
    let a = clamp(lo, 0, x.0.len() as int);
    let b = clamp(hi, 0, x.0.len() as int);
    if a < b {
        lemma_line_text_single((x.0.subrange(a, b), x.1));
    } else {
        assert(x.0.subrange(a, b) =~= Seq::<char>::empty());
    }
}

/// The text of a fragment is the matching stretch of the line's text.
pub proof fn lemma_fragment_text(l: Seq<SpanView>, lo: int, hi: int)
    requires
        lo <= hi,
    ensures
        line_text(fragment(l, lo, hi)) == line_text(l).subrange(
            clamp(lo, 0, line_width(l) as int),
            clamp(hi, 0, line_width(l) as int),
        ),
    decreases l.len(),
{
    if l.len() == 0 {
        assert(line_text(l).subrange(0, 0) =~= Seq::<char>::empty());
    } else {
        let l0 = l.drop_last();
        let x = l.last();
        let w0 = line_width(l0) as int;
        lemma_fragment_text(l0, lo, hi);
        lemma_piece_text(x, lo - w0, hi - w0);
        lemma_line_text_concat(fragment(l0, lo, hi), piece(x, lo - w0, hi - w0));
        lemma_line_text_last(l);
        let t0 = line_text(l0);
        let n = line_width(l) as int;
        let m = x.0.len() as int;
        assert(line_text(l).subrange(clamp(lo, 0, n), clamp(hi, 0, n)) =~= t0.subrange(
            clamp(lo, 0, w0),
            clamp(hi, 0, w0),
        ) + x.0.subrange(clamp(lo - w0, 0, m), clamp(hi - w0, 0, m)));
    }
}

proof fn lemma_lines_text_push(ls: Seq<Seq<SpanView>>, x: Seq<SpanView>)
    ensures
        lines_text(ls.push(x)) == lines_text(ls) + line_text(x),
    decreases ls.len(),
{
    if ls.len() == 0 {
        assert(ls.push(x).drop_first() =~= Seq::<Seq<SpanView>>::empty());
        assert(lines_text(ls.push(x).drop_first()) == Seq::<char>::empty());
        assert(ls.push(x)[0] == x);
        assert(line_text(x) + Seq::<char>::empty() =~= line_text(x));
        assert(Seq::<char>::empty() + line_text(x) =~= line_text(x));
    } else {
        lemma_lines_text_push(ls.drop_first(), x);
        assert(ls.push(x).drop_first() =~= ls.drop_first().push(x));
        assert(lines_text(ls.push(x)) =~= lines_text(ls) + line_text(x));
    }
}

proof fn lemma_rows_text(l: Seq<SpanView>, w: nat, k: nat)
    requires
        0 < w < line_width(l),
        k <= rows_needed(line_width(l), w),
    ensures
        lines_text(wrap_spec(l, w).take(k as int)) == line_text(l).subrange(
            0,
            if k * w <= line_width(l) { (k * w) as int } else { line_width(l) as int },
        ),
    decreases k,
{
    let n = line_width(l);
    let rows = wrap_spec(l, w);
    if k == 0 {
        assert(rows.take(0) =~= Seq::<Seq<SpanView>>::empty());
        assert(line_text(l).subrange(0, 0) =~= Seq::<char>::empty());
    } else {
        let j = (k - 1) as nat;
        lemma_rows_text(l, w, j);
        lemma_row_start(n, w, j);
        assert(rows.take(k as int) =~= rows.take(j as int).push(rows[j as int]));
        lemma_lines_text_push(rows.take(j as int), rows[j as int]);
        assert(k * w == j * w + w) by (nonlinear_arith)
            requires
                k == j + 1,
        ;
        let hi = if k * w <= n { (k * w) as int } else { n as int };
        lemma_fragment_text(l, (j * w) as int, hi);
        assert(line_text(l).subrange(0, hi) =~= line_text(l).subrange(0, (j * w) as int)
            + line_text(l).subrange((j * w) as int, hi));
    }
}

/// Wrapping loses, repeats and reorders no character: the rows' texts, one after another,
/// are the line's text, and no row is wider than the width asked for.
pub proof fn lemma_wrap_keeps_text(l: Seq<SpanView>, w: nat)
    requires
        w >= 1,
    ensures
        lines_text(wrap_spec(l, w)) == line_text(l),
        forall|i: int|
            0 <= i < wrap_spec(l, w).len() ==> line_width(#[trigger] wrap_spec(l, w)[i]) <= w,
{
    let n = line_width(l);
    let rows = wrap_spec(l, w);
    if n <= w {
        assert(rows.drop_first() =~= Seq::<Seq<SpanView>>::empty());
        assert(lines_text(rows.drop_first()) == Seq::<char>::empty());
        assert(line_text(l) + Seq::<char>::empty() =~= line_text(l));
    } else {
        let c = rows_needed(n, w);
        lemma_rows_text(l, w, c);
        assert(rows.take(c as int) =~= rows);
        if c * w <= n {
            assert(line_text(l).subrange(0, (c * w) as int) =~= line_text(l)) by {
                lemma_covers(n, w);
            }
        } else {
            assert(line_text(l).subrange(0, n as int) =~= line_text(l));
        }
        assert forall|i: int| 0 <= i < rows.len() implies line_width(#[trigger] rows[i]) <= w by {
            lemma_row_start(n, w, i as nat);
            assert((i + 1) * w == i * w + w) by (nonlinear_arith);
            let hi = if (i + 1) * w <= n { (i + 1) * w } else { n as int };
            lemma_fragment_text(l, i * w, hi);
        }
    }
}

proof fn lemma_covers(n: nat, w: nat)
    requires
        0 < w,
        0 < n,
    ensures
        rows_needed(n, w) * w >= n,
{
    let q = (n - 1) as nat / w;
    vstd::arithmetic::div_mod::lemma_fundamental_div_mod((n - 1) as int, w as int);
    vstd::arithmetic::div_mod::lemma_mod_pos_bound((n - 1) as int, w as int);
    assert((q + 1) * w == q * w + w) by (nonlinear_arith);
}

/// Row count: a line of width `n >= 1` wrapped at width `w >= 1` gives `ceil(n / w)` rows.
pub proof fn lemma_wrap_row_count(l: Seq<SpanView>, w: nat)
    requires
        w >= 1,
        line_width(l) >= 1,
    ensures
        wrap_spec(l, w).len() == rows_needed(line_width(l), w),
        wrap_spec(l, w).len() * w >= line_width(l),
        (wrap_spec(l, w).len() - 1) * w < line_width(l),
{
    let n = line_width(l);
    lemma_covers(n, w);
    let c = rows_needed(n, w);
    lemma_row_start(n, w, (c - 1) as nat);
    if n <= w {
        assert((n - 1) as nat / w == 0) by {
            vstd::arithmetic::div_mod::lemma_basic_div((n - 1) as int, w as int);
        }
    }
}

/// Width zero stops nothing: it gives exactly one empty row.
pub proof fn lemma_wrap_zero_width(l: Seq<SpanView>)
    ensures
        wrap_spec(l, 0) == seq![Seq::<SpanView>::empty()],
        wrap_spec(l, 0).len() == 1,
        line_width(wrap_spec(l, 0)[0]) == 0,
{
    assert(line_text(Seq::<SpanView>::empty()) == Seq::<char>::empty());
}

proof fn lemma_wrap_laws(l: Seq<SpanView>, w: nat)
    ensures
        w >= 1 ==> lines_text(wrap_spec(l, w)) == line_text(l),
        forall|i: int|
            0 <= i < wrap_spec(l, w).len() ==> line_width(#[trigger] wrap_spec(l, w)[i]) <= w || w
                == 0,
        w >= 1 && line_width(l) >= 1 ==> wrap_spec(l, w).len() == rows_needed(line_width(l), w),
        w == 0 ==> wrap_spec(l, w).len() == 1 && line_width(wrap_spec(l, w)[0]) == 0,
{
    if w >= 1 {
        lemma_wrap_keeps_text(l, w);
        if line_width(l) >= 1 {
            lemma_wrap_row_count(l, w);
        }
    } else {
        lemma_wrap_zero_width(l);
    }
}

} // verus!
