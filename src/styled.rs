use vstd::prelude::*;

verus! {

/// One of the fixed palette of visual styles. Only equality between tags matters.
#[derive(Clone, Copy, Debug, PartialEq, Eq, Structural)]
pub enum StyleTag {
    Plain,
    DarkGray,
    Cyan,
    Green,
    Yellow,
    MagentaBold,
}

/// A run of characters drawn in one style.
#[derive(Debug)]
pub struct Span {
    pub content: String,
    pub style: StyleTag,
}

/// What a span is: its characters and its style.
pub type SpanView = (Seq<char>, StyleTag);

/// One terminal line: an ordered sequence of style runs, with no line break in it.
#[derive(Debug)]
pub struct StyledLine {
    pub spans: Vec<Span>,
}

/// One event of the log: one or more lines.
#[derive(Debug)]
pub struct LogEntry {
    pub lines: Vec<StyledLine>,
}

impl View for Span {
    type V = SpanView;

    open spec fn view(&self) -> SpanView {
        (self.content@, self.style)
    }
}

impl View for StyledLine {
    type V = Seq<SpanView>;

    open spec fn view(&self) -> Seq<SpanView> {
        self.spans@.map_values(|s: Span| s@)
    }
}

impl View for LogEntry {
    type V = Seq<Seq<SpanView>>;

    open spec fn view(&self) -> Seq<Seq<SpanView>> {
        self.lines@.map_values(|l: StyledLine| l@)
    }
}

/// The characters of a line, run after run.
pub open spec fn line_text(l: Seq<SpanView>) -> Seq<char>
    decreases l.len(),
{
    if l.len() == 0 {
        Seq::empty()
    } else {
        l[0].0 + line_text(l.drop_first())
    }
}

/// The width of a line: the number of its characters.
pub open spec fn line_width(l: Seq<SpanView>) -> nat {
    line_text(l).len()
}

/// The characters of several lines, one after another.
pub open spec fn lines_text(ls: Seq<Seq<SpanView>>) -> Seq<char>
    decreases ls.len(),
{
    if ls.len() == 0 {
        Seq::empty()
    } else {
        line_text(ls[0]) + lines_text(ls.drop_first())
    }
}

impl Span {
    /// A span of the given text in the given style.
    pub fn styled(content: &str, style: StyleTag) -> (r: Span)
        ensures
            r@ == (content@, style),
    {
        Span { content: String::from_str(content), style }
    }

    /// A span of the given text in the plain style.
    pub fn raw(content: &str) -> (r: Span)
        ensures
            r@ == (content@, StyleTag::Plain),
    {
        Span::styled(content, StyleTag::Plain)
    }

    /// An independent copy.
    pub fn duplicate(&self) -> (r: Span)
        ensures
            r@ == self@,
    {
        Span { content: self.content.clone(), style: self.style }
    }

    /// The number of characters.
    pub fn width(&self) -> (r: usize)
        ensures
            r == self.content@.len(),
    {
        self.content.as_str().unicode_len()
    }
}

impl StyledLine {
    /// A line made of the given runs.
    pub fn from_spans(spans: Vec<Span>) -> (r: StyledLine)
        ensures
            r.spans@ == spans@,
    {
        StyledLine { spans }
    }

    /// An independent copy.
    pub fn duplicate(&self) -> (r: StyledLine)
        ensures
            r@ == self@,
    {
        let mut spans: Vec<Span> = Vec::new();
        let mut i: usize = 0;
        while i < self.spans.len()
            invariant
                i <= self.spans@.len(),
                spans@.len() == i,
                forall|j: int| 0 <= j < i ==> #[trigger] spans@[j]@ == self.spans@[j]@,
            decreases self.spans@.len() - i,
        {
            spans.push(self.spans[i].duplicate());
            i += 1;
        }
        let r = StyledLine { spans };
        assert(r@ =~= self@);
        r
    }

    /// The width of the line: the number of its characters over all runs.
    pub fn width(&self) -> (r: usize)
        requires
            line_width(self@) <= usize::MAX,
        ensures
            r == line_width(self@),
    {
        let mut total: usize = 0;
        let mut i: usize = 0;
        while i < self.spans.len()
            invariant
                i <= self.spans@.len(),
                line_width(self@) <= usize::MAX,
                total == line_width(self@.subrange(0, i as int)),
            decreases self.spans@.len() - i,
        {
            proof {
                lemma_line_text_split(self@, i as int);
                lemma_line_text_split(self@, i + 1);
                lemma_line_text_split(self@.subrange(0, i + 1), i as int);
                assert(self@.subrange(0, i + 1).subrange(0, i as int) =~= self@.subrange(0, i as int));
                assert(self@.subrange(0, i + 1).subrange(i as int, i + 1) =~= seq![self@[i as int]]);
                lemma_line_text_single(self@[i as int]);
            }
            total = total + self.spans[i].width();
            i += 1;
        }
        assert(self@.subrange(0, i as int) =~= self@);
        total
    }
}

impl LogEntry {
    /// An entry holds at least one line.
    pub open spec fn wf(&self) -> bool {
        self.lines@.len() > 0
    }

    /// An independent copy.
    pub fn duplicate(&self) -> (r: LogEntry)
        ensures
            r@ == self@,
    {
        let mut lines: Vec<StyledLine> = Vec::new();
        let mut i: usize = 0;
        while i < self.lines.len()
            invariant
                i <= self.lines@.len(),
                lines@.len() == i,
                forall|j: int| 0 <= j < i ==> #[trigger] lines@[j]@ == self.lines@[j]@,
            decreases self.lines@.len() - i,
        {
            lines.push(self.lines[i].duplicate());
            i += 1;
        }
        let r = LogEntry { lines };
        assert(r@ =~= self@);
        r
    }
}

/// A line of one run has that run's text.
pub proof fn lemma_line_text_single(x: SpanView)
    ensures
        line_text(seq![x]) == x.0,
{
    assert(seq![x].drop_first() =~= Seq::<SpanView>::empty());
    assert(line_text(Seq::<SpanView>::empty()) == Seq::<char>::empty());
    assert(x.0 + Seq::<char>::empty() =~= x.0);
}

/// The text of a line splits at any run boundary.
pub proof fn lemma_line_text_split(l: Seq<SpanView>, i: int)
    requires
        0 <= i <= l.len(),
    ensures
        line_text(l) == line_text(l.subrange(0, i)) + line_text(l.subrange(i, l.len() as int)),
    decreases i,
{
    if i == 0 {
        assert(l.subrange(0, 0) =~= Seq::<SpanView>::empty());
        assert(l.subrange(0, l.len() as int) =~= l);
        assert(line_text(Seq::<SpanView>::empty()) + line_text(l) =~= line_text(l));
    } else {
        lemma_line_text_split(l.drop_first(), i - 1);
        assert(l.drop_first().subrange(0, i - 1) =~= l.subrange(0, i).drop_first());
        assert(l.drop_first().subrange(i - 1, l.len() - 1) =~= l.subrange(i, l.len() as int));
        assert(l.subrange(0, i)[0] == l[0]);
        assert(line_text(l) =~= line_text(l.subrange(0, i)) + line_text(l.subrange(i, l.len() as int)));
    }
}

} // verus!
