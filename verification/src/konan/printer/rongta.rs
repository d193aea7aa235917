use vstd::prelude::*;
use vstd::std_specs::iter::IteratorSpec;
use super::element::{
    Justification, Line, LineModel, StyledChar, TextSize, lemma_model_add_char_fits, model_add_char,
    seq_width,
};

verus! {

broadcast use vstd::string::group_string_axioms;

/// A fresh, empty, start-aligned line.
pub open spec fn empty_line() -> LineModel {
    LineModel { chars: Seq::empty(), justification: Justification::Start, cached_width: 0 }
}

/// Adding one glyph to the last of `lines`; a line that overflows is appended.
pub open spec fn push_glyph(lines: Seq<LineModel>, c: StyledChar) -> Seq<LineModel> {
    let (last, moved) = model_add_char(lines.last(), c);
    let kept = lines.drop_last().push(last);
    match moved {
        Some(n) => kept.push(n),
        None => kept,
    }
}

/// Adding the glyphs of `text`, in order, all in the same style.
pub open spec fn push_glyphs(lines: Seq<LineModel>, text: Seq<char>, size: TextSize, bold: bool) -> Seq<
    LineModel,
>
    decreases text.len(),
{
    if text.len() == 0 {
        lines
    } else {
        push_glyph(
            push_glyphs(lines, text.drop_last(), size, bold),
            StyledChar { ch: text.last(), text_size: size, bold },
        )
    }
}

/// The plain-value pictures of `lines`.
pub open spec fn models(lines: Seq<Line>) -> Seq<LineModel> {
    lines.map_values(|l: Line| l.model())
}

/// The plain-value picture of a printer: its lines and the style that the next
/// text is added in.
pub struct PrinterModel {
    pub lines: Seq<LineModel>,
    pub cut: bool,
    pub text_size: TextSize,
    pub bold: bool,
}

impl PrinterModel {
    /// Every line fits its running width, which fits a `usize`.
    pub open spec fn wf(self) -> bool {
        forall|i: int|
            0 <= i < self.lines.len() ==> {
                &&& seq_width(#[trigger] self.lines[i].chars) <= self.lines[i].cached_width
                &&& self.lines[i].cached_width <= usize::MAX
            }
    }

    /// The running width of the line that text is added to.
    pub open spec fn pending_width(self) -> nat {
        if self.lines.len() == 0 {
            0
        } else {
            self.lines.last().cached_width
        }
    }

    /// The lines, with an empty one when there are none.
    pub open spec fn started(self) -> Seq<LineModel> {
        if self.lines.len() == 0 {
            seq![empty_line()]
        } else {
            self.lines
        }
    }

    pub open spec fn with_lines(self, lines: Seq<LineModel>) -> PrinterModel {
        PrinterModel { lines, cut: self.cut, text_size: self.text_size, bold: self.bold }
    }

    pub open spec fn with_style(self, text_size: TextSize, bold: bool) -> PrinterModel {
        PrinterModel { lines: self.lines, cut: self.cut, text_size, bold }
    }

    /// The printer after `add_content(text)`.
    pub open spec fn content_added(self, text: Seq<char>) -> PrinterModel {
        self.with_lines(push_glyphs(self.started(), text, self.text_size, self.bold))
    }

    /// The printer after `add_new_line()`.
    pub open spec fn new_line_added(self) -> PrinterModel {
        self.with_lines(self.lines.push(empty_line()))
    }

    /// The printer after `set_line_justification(j)`.
    pub open spec fn justified(self, j: Justification) -> PrinterModel {
        let ls = self.started();
        let last = ls.last();
        self.with_lines(
            ls.update(
                ls.len() - 1,
                LineModel { chars: last.chars, justification: j, cached_width: last.cached_width },
            ),
        )
    }
}

/// Starting a line leaves no running width; restyling keeps it; aligning never raises it.
pub proof fn lemma_pending_width(p: PrinterModel, j: Justification, t: TextSize, b: bool)
    ensures
        p.new_line_added().pending_width() == 0,
        p.with_style(t, b).pending_width() == p.pending_width(),
        p.justified(j).pending_width() <= p.pending_width(),
        p.wf() ==> p.justified(j).wf() && p.new_line_added().wf() && p.with_style(t, b).wf(),
{
    let ls = p.started();
    let q = p.justified(j);
    assert(q.lines.len() == ls.len());
    assert(q.lines.last().cached_width == ls.last().cached_width);
    if p.wf() {
        assert forall|i: int| 0 <= i < q.lines.len() implies {
            &&& seq_width(#[trigger] q.lines[i].chars) <= q.lines[i].cached_width
            &&& q.lines[i].cached_width <= usize::MAX
        } by {
            if i < ls.len() - 1 {
                assert(q.lines[i] == ls[i]);
                assert(ls[i] == p.lines[i]);
            } else {
                assert(q.lines[i].chars == ls.last().chars);
                if p.lines.len() == 0 {
                    assert(seq_width(empty_line().chars) == 0);
                } else {
                    assert(ls.last() == p.lines[p.lines.len() - 1]);
                }
            }
        }
        assert(q.wf());
        let r = p.new_line_added();
        assert forall|i: int| 0 <= i < r.lines.len() implies {
            &&& seq_width(#[trigger] r.lines[i].chars) <= r.lines[i].cached_width
            &&& r.lines[i].cached_width <= usize::MAX
        } by {
            if i < p.lines.len() {
                assert(r.lines[i] == p.lines[i]);
            } else {
                assert(seq_width(empty_line().chars) == 0);
            }
        }
        assert(r.wf());
        let w = p.with_style(t, b);
        assert(w.lines == p.lines);
    }
}

/// Lays text out into lines of at most `CPL` columns and remembers the style
/// in which further text is added.
pub struct RongtaPrinter {
    lines: Vec<Line>,
    cut: bool,
    cached_text_size: TextSize,
    cached_bold: bool,
}

impl View for RongtaPrinter {
    type V = PrinterModel;

    closed spec fn view(&self) -> PrinterModel {
        PrinterModel {
            lines: models(self.lines@),
            cut: self.cut,
            text_size: self.cached_text_size,
            bold: self.cached_bold,
        }
    }
}

impl RongtaPrinter {
    #[verifier::type_invariant]
    spec fn lines_fit(&self) -> bool {
        forall|i: int| 0 <= i < self.lines@.len() ==> (#[trigger] self.lines@[i]).wf()
    }

    proof fn lemma_model_wf(&self)
        requires
            self.lines_fit(),
        ensures
            self@.wf(),
    {
        assert forall|i: int| 0 <= i < self@.lines.len() implies {
            &&& seq_width(#[trigger] self@.lines[i].chars) <= self@.lines[i].cached_width
            &&& self@.lines[i].cached_width <= usize::MAX
        } by {
            assert(self.lines@[i].wf());
        }
    }

    /// A printer with no lines, medium plain text, that cuts the paper when done if `cut`.
    pub fn new(cut: bool) -> (p: Self)
        ensures
            p@ == (PrinterModel { lines: Seq::empty(), cut, text_size: TextSize::Medium, bold: false }),
            p@.wf(),
    {
        let p = RongtaPrinter {
            lines: Vec::new(),
            cut,
            cached_text_size: TextSize::Medium,
            cached_bold: false,
        };
        assert(p@.lines =~= Seq::<LineModel>::empty());
        proof {
            use_type_invariant(&p);
            p.lemma_model_wf();
        }
        p
    }

    /// The lines laid out so far.
    pub fn lines(&self) -> (r: &Vec<Line>)
        ensures
            models(r@) == self@.lines,
    {
        &self.lines
    }

    /// The running width of the line that text is added to.
    pub fn pending_width(&self) -> (w: usize)
        ensures
            w == self@.pending_width(),
    {
        proof {
            use_type_invariant(self);
            self.lemma_model_wf();
        }
        let n = self.lines.len();
        if n == 0 {
            0
        } else {
            assert(self@.lines[n - 1] == self.lines@[n - 1].model());
            self.lines[n - 1].cached_width
        }
    }

    /// Whether the paper is cut when printing ends.
    pub fn cut(&self) -> (r: bool)
        ensures
            r == self@.cut,
    {
        self.cut
    }

    /// Add content to lines using cached text size and bold setting
    pub fn add_content(&mut self, content: &str)
        requires
            old(self)@.pending_width() + 3 * content@.len() <= usize::MAX,
        ensures
            final(self)@ == old(self)@.content_added(content@),
            final(self)@.wf(),
            final(self)@.pending_width() <= old(self)@.pending_width() + 3 * content@.len(),
    {
        proof {
            use_type_invariant(&*self);
        }
        if self.lines.len() == 0 {
            self.add_new_line();
        }
        proof {
            use_type_invariant(&*self);
        }
        let ghost base = self@.lines;
        let ghost text = content@;
        assert(base == old(self)@.started());
        let mut lines: Vec<Line> = Vec::new();
        std::mem::swap(&mut lines, &mut self.lines);
        assert(models(lines@) == base);
        assert(models(lines@)[lines@.len() - 1] == lines@.last().model());
        let mut iter = content.chars();
        let ghost mut i: int = 0;
        loop
            invariant
                0 <= i <= text.len(),
                iter.remaining() == text.skip(i),
                forall|k: int| 0 <= k < lines@.len() ==> (#[trigger] lines@[k]).wf(),
                models(lines@) == push_glyphs(
                    base,
                    text.take(i),
                    self.cached_text_size,
                    self.cached_bold,
                ),
                self.cached_text_size == old(self)@.text_size,
                self.cached_bold == old(self)@.bold,
                self.cut == old(self)@.cut,
                lines@.len() > 0,
                lines@.last().cached_width <= old(self)@.pending_width() + 3 * i,
                old(self)@.pending_width() + 3 * text.len() <= usize::MAX,
                iter.obeys_prophetic_iter_laws(),
            ensures
                forall|k: int| 0 <= k < lines@.len() ==> (#[trigger] lines@[k]).wf(),
                models(lines@) == push_glyphs(base, text, self.cached_text_size, self.cached_bold),
                self.cached_text_size == old(self)@.text_size,
                self.cached_bold == old(self)@.bold,
                self.cut == old(self)@.cut,
                lines@.len() > 0,
                lines@.last().cached_width <= old(self)@.pending_width() + 3 * text.len(),
            decreases text.len() - i,
        {
            match iter.next() {
                Some(ch) => {
                    let ghost before = models(lines@);
                    let mut last = lines.pop().unwrap();
                    assert(last.model() == before.last());
                    let sc = StyledChar { ch, text_size: self.cached_text_size, bold: self.cached_bold };
                    let new_line = last.add_char(sc);
                    lines.push(last);
                    if let Some(new_line) = new_line {
                        lines.push(new_line);
                    }
                    proof {
                        lemma_model_add_char_fits(before.last(), sc);
                        assert(text.take(i + 1).drop_last() =~= text.take(i));
                        assert(text.skip(i)[0] == text[i]);
                        assert(models(lines@) =~= push_glyph(before, sc));
                        i = i + 1;
                    }
                },
                None => {
                    proof {
                        assert(text.take(i) =~= text) by {
                            if i < text.len() {
                                assert(text.skip(i).len() > 0);
                            }
                        }
                    }
                    break;
                },
            }
        }
        self.lines = lines;
        proof {
            use_type_invariant(&*self);
            self.lemma_model_wf();
        }
    }

    pub fn add_new_line(&mut self)
        ensures
            final(self)@ == old(self)@.new_line_added(),
            final(self)@.wf(),
    {
        proof {
            use_type_invariant(&*self);
        }
        let mut lines: Vec<Line> = Vec::new();
        std::mem::swap(&mut lines, &mut self.lines);
        lines.push(Line::empty());
        self.lines = lines;
        assert(self@.lines =~= old(self)@.lines.push(empty_line()));
        proof {
            use_type_invariant(&*self);
            self.lemma_model_wf();
        }
    }

    pub fn set_line_justification(&mut self, justification: Justification)
        ensures
            final(self)@ == old(self)@.justified(justification),
            final(self)@.wf(),
    {
        if self.lines.len() == 0 {
            self.add_new_line();
        }
        proof {
            use_type_invariant(&*self);
        }
        let ghost ls = self@.lines;
        assert(ls == old(self)@.started());
        let mut lines: Vec<Line> = Vec::new();
        std::mem::swap(&mut lines, &mut self.lines);
        let mut last = lines.pop().unwrap();
        last.justification = justification;
        lines.push(last);
        self.lines = lines;
        assert(self@.lines =~= ls.update(
            ls.len() - 1,
            LineModel {
                chars: ls.last().chars,
                justification,
                cached_width: ls.last().cached_width,
            },
        ));
        proof {
            use_type_invariant(&*self);
            self.lemma_model_wf();
        }
    }

    pub fn set_cached_text_size(&mut self, text_size: TextSize)
        ensures
            final(self)@ == old(self)@.with_style(text_size, old(self)@.bold),
            final(self)@.wf(),
    {
        proof {
            use_type_invariant(&*self);
        }
        self.cached_text_size = text_size;
        proof {
            use_type_invariant(&*self);
            self.lemma_model_wf();
        }
    }

    pub fn set_cached_bold(&mut self, bold: bool)
        ensures
            final(self)@ == old(self)@.with_style(old(self)@.text_size, bold),
            final(self)@.wf(),
    {
        proof {
            use_type_invariant(&*self);
        }
        self.cached_bold = bold;
        proof {
            use_type_invariant(&*self);
            self.lemma_model_wf();
        }
    }

    pub fn reset_cached(&mut self)
        ensures
            final(self)@ == old(self)@.with_style(TextSize::Medium, false),
            final(self)@.wf(),
    {
        proof {
            use_type_invariant(&*self);
        }
        self.cached_bold = false;
        self.cached_text_size = TextSize::Medium;
        proof {
            use_type_invariant(&*self);
            self.lemma_model_wf();
        }
    }
}

} // verus!
