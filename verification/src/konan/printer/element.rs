use vstd::prelude::*;

verus! {

/// Characters per line of the thermal printer.
pub const CPL: u8 = 48;

/// The three print sizes; each scales a glyph horizontally.
#[derive(Clone, Copy, Debug, PartialEq, Eq, Structural)]
pub enum TextSize {
    Medium,
    Large,
    ExtraLarge,
}

impl TextSize {
    /// Columns taken by one glyph of this size.
    pub open spec fn width(self) -> nat {
        match self {
            TextSize::Medium => 1,
            TextSize::Large => 2,
            TextSize::ExtraLarge => 3,
        }
    }

    /// How many columns one glyph of this size occupies.
    pub fn char_width(&self) -> (w: usize)
        ensures
            w == self.width(),
    {
        match self {
            TextSize::Medium => 1,
            TextSize::Large => 2,
            TextSize::ExtraLarge => 3,
        }
    }
}

impl Default for TextSize {
    fn default() -> (s: Self)
        ensures
            s == TextSize::Medium,
    {
        TextSize::Medium
    }
}

/// Horizontal alignment of a printed line.
#[derive(Clone, Copy, Debug, PartialEq, Eq, Structural)]
pub enum Justification {
    Start,
    Center,
    End,
}

impl Default for Justification {
    fn default() -> (j: Self)
        ensures
            j == Justification::Start,
    {
        Justification::Start
    }
}

/// One glyph together with the style it is printed in.
#[derive(Clone, Copy, Debug, PartialEq, Eq, Structural)]
pub struct StyledChar {
    pub ch: char,
    pub text_size: TextSize,
    pub bold: bool,
}

/// `char::is_whitespace`: the Unicode `White_Space` property.
pub open spec fn is_whitespace(c: char) -> bool {
    let v = c as u32;
    ||| 0x9 <= v <= 0xd
    ||| v == 0x20
    ||| v == 0x85
    ||| v == 0xa0
    ||| v == 0x1680
    ||| 0x2000 <= v <= 0x200a
    ||| v == 0x2028
    ||| v == 0x2029
    ||| v == 0x202f
    ||| v == 0x205f
    ||| v == 0x3000
}

/// Whether `c` is Unicode white space (same answer as `char::is_whitespace`).
pub fn char_is_whitespace(c: char) -> (b: bool)
    ensures
        b == is_whitespace(c),
{
    let v = c as u32;
    (0x9 <= v && v <= 0xd) || v == 0x20 || v == 0x85 || v == 0xa0 || v == 0x1680 || (0x2000
        <= v && v <= 0x200a) || v == 0x2028 || v == 0x2029 || v == 0x202f || v == 0x205f || v
        == 0x3000
}

/// Total number of columns that a run of styled glyphs occupies.
pub open spec fn seq_width(s: Seq<StyledChar>) -> nat
    decreases s.len(),
{
    if s.len() == 0 {
        0
    } else {
        seq_width(s.drop_last()) + s.last().text_size.width()
    }
}

/// Index `i` is a place where a full line may be soft-wrapped: a white-space
/// glyph that starts within the first `CPL` columns.
pub open spec fn is_wrap_candidate(s: Seq<StyledChar>, i: int) -> bool {
    &&& 0 <= i < s.len()
    &&& is_whitespace(s[i].ch)
    &&& seq_width(s.take(i)) <= CPL
}

/// The largest wrap candidate below `n`, if any.
pub open spec fn last_wrap_candidate(s: Seq<StyledChar>, n: int) -> Option<int>
    decreases n,
{
    if n <= 0 {
        None
    } else if is_wrap_candidate(s, n - 1) {
        Some(n - 1)
    } else {
        last_wrap_candidate(s, n - 1)
    }
}

/// Where a line holding `s` is soft-wrapped: nowhere while it fits the paper,
/// else at its last wrap candidate.
pub open spec fn wrap_point(s: Seq<StyledChar>) -> Option<int> {
    if seq_width(s) <= CPL {
        None
    } else {
        last_wrap_candidate(s, s.len() as int)
    }
}

pub proof fn lemma_width_take_step(s: Seq<StyledChar>, i: int)
    requires
        0 <= i < s.len(),
    ensures
        seq_width(s.take(i + 1)) == seq_width(s.take(i)) + s[i].text_size.width(),
{
    assert(s.take(i + 1).drop_last() =~= s.take(i));
}

pub proof fn lemma_width_take_mono(s: Seq<StyledChar>, i: int, j: int)
    requires
        0 <= i <= j <= s.len(),
    ensures
        seq_width(s.take(i)) <= seq_width(s.take(j)),
    decreases j - i,
{
    if i < j {
        lemma_width_take_step(s, j - 1);
        lemma_width_take_mono(s, i, j - 1);
    }
}

pub proof fn lemma_width_take_full(s: Seq<StyledChar>)
    ensures
        seq_width(s.take(s.len() as int)) == seq_width(s),
{
    assert(s.take(s.len() as int) =~= s);
}

pub proof fn lemma_width_push(s: Seq<StyledChar>, c: StyledChar)
    ensures
        seq_width(s.push(c)) == seq_width(s) + c.text_size.width(),
{
    assert(s.push(c).drop_last() =~= s);
}

/// A candidate search that finds nothing in `[m, n)` falls back to the search below `m`.
proof fn lemma_last_candidate_skip(s: Seq<StyledChar>, m: int, n: int)
    requires
        0 <= m <= n,
        forall|j: int| m <= j < n ==> !#[trigger] is_wrap_candidate(s, j),
    ensures
        last_wrap_candidate(s, n) == last_wrap_candidate(s, m),
    decreases n - m,
{
    if m < n {
        lemma_last_candidate_skip(s, m, n - 1);
    }
}

/// The result of `last_wrap_candidate` is a candidate below `n`, and none lies above it.
pub proof fn lemma_last_candidate_is_max(s: Seq<StyledChar>, n: int)
    ensures
        last_wrap_candidate(s, n) matches Some(i) ==> {
            &&& i < n
            &&& is_wrap_candidate(s, i)
            &&& forall|j: int| i < j < n ==> !#[trigger] is_wrap_candidate(s, j)
        },
        last_wrap_candidate(s, n) is None ==> forall|j: int|
            j < n ==> !#[trigger] is_wrap_candidate(s, j),
    decreases n,
{
    if n > 0 {
        lemma_last_candidate_is_max(s, n - 1);
    }
}

/// One printed row: its glyphs, its alignment, and the running width that
/// decides when the row is full.
#[derive(Debug)]
pub struct Line {
    pub chars: Vec<StyledChar>,
    pub justification: Justification,
    /// Running width: the columns taken by the glyphs held, kept up to date as
    /// glyphs are added and as the line is cut.
    pub cached_width: usize,
}

/// Total columns taken by `chars`.
fn glyphs_width(chars: &Vec<StyledChar>) -> (w: usize)
    requires
        seq_width(chars@) <= usize::MAX,
    ensures
        w == seq_width(chars@),
{
    let mut w: usize = 0;
    let mut i: usize = 0;
    while i < chars.len()
        invariant
            i <= chars@.len(),
            w == seq_width(chars@.take(i as int)),
            seq_width(chars@) <= usize::MAX,
        decreases chars@.len() - i,
    {
        proof {
            lemma_width_take_step(chars@, i as int);
            lemma_width_take_mono(chars@, i as int + 1, chars@.len() as int);
            lemma_width_take_full(chars@);
        }
        w = w + chars[i].text_size.char_width();
        i = i + 1;
    }
    proof {
        lemma_width_take_full(chars@);
    }
    w
}

impl Line {
    /// The running width of the line.
    pub open spec fn cached_width(&self) -> nat {
        self.cached_width as nat
    }

    pub open spec fn model(&self) -> LineModel {
        LineModel {
            chars: self.chars@,
            justification: self.justification,
            cached_width: self.cached_width as nat,
        }
    }

    /// The running width is the width of the glyphs held.
    pub open spec fn wf(&self) -> bool {
        seq_width(self.chars@) == self.cached_width
    }

    /// A line holding `chars`, whose running width is their width.
    pub fn new(chars: Vec<StyledChar>, justification: Justification) -> (line: Self)
        requires
            seq_width(chars@) <= usize::MAX,
        ensures
            line.chars@ == chars@,
            line.justification == justification,
            line.cached_width() == seq_width(chars@),
            line.wf(),
    {
        let cached_width = glyphs_width(&chars);
        Line { chars, justification, cached_width }
    }

    /// An empty, start-aligned line.
    pub fn empty() -> (line: Self)
        ensures
            line.chars@ == Seq::<StyledChar>::empty(),
            line.justification == Justification::Start,
            line.cached_width() == 0,
            line.wf(),
    {
        Line { chars: Vec::new(), justification: Justification::Start, cached_width: 0 }
    }

    /// Find the character index where we should soft-wrap (at whitespace):
    /// the last white space that starts within the first `CPL` columns.
    /// There is none while the line fits within `CPL` columns.
    pub fn find_wrap_point(&self) -> (r: Option<usize>)
        ensures
            r matches Some(i) ==> wrap_point(self.chars@) == Some(i as int),
            r is None <==> wrap_point(self.chars@) is None,
            seq_width(self.chars@) <= CPL ==> r is None,
    {
        let ghost s = self.chars@;
        proof {
            lemma_width_take_full(s);
        }
        let mut width: usize = 0;
        let mut last: Option<usize> = None;
        let mut over = false;
        let mut i: usize = 0;
        while i < self.chars.len()
            invariant_except_break
                i <= s.len(),
                width == seq_width(s.take(i as int)),
                width <= CPL,
                last matches Some(k) ==> last_wrap_candidate(s, i as int) == Some(k as int),
                last is None ==> last_wrap_candidate(s, i as int) is None,
                !over,
            invariant
                s == self.chars@,
                seq_width(s.take(s.len() as int)) == seq_width(s),
            ensures
                over ==> seq_width(s) > CPL,
                over ==> (last matches Some(k) ==> last_wrap_candidate(s, s.len() as int) == Some(
                    k as int,
                )),
                over ==> (last is None ==> last_wrap_candidate(s, s.len() as int) is None),
                !over ==> seq_width(s) <= CPL,
            decreases s.len() - i,
        {
            let sc = self.chars[i];
            if char_is_whitespace(sc.ch) && width <= CPL as usize {
                last = Some(i);
            }
            proof {
                lemma_width_take_step(s, i as int);
            }
            width = width + sc.text_size.char_width();
            if width > CPL as usize {
                proof {
                    assert forall|j: int| i + 1 <= j < s.len() implies !#[trigger] is_wrap_candidate(
                        s,
                        j,
                    ) by {
                        lemma_width_take_mono(s, i as int + 1, j);
                    }
                    lemma_last_candidate_skip(s, i as int + 1, s.len() as int);
                    lemma_width_take_mono(s, i as int + 1, s.len() as int);
                }
                over = true;
                break;
            }
            i = i + 1;
        }
        if over {
            last
        } else {
            None
        }
    }

    /// Add a character to the line, and return a new line if the line is full.
    /// Uses visual width (accounting for text size) to determine when to wrap:
    /// a full line is cut at its wrap point (the white space there is dropped and
    /// what follows it moves to the new line); without one, the added glyph
    /// alone moves to the new line. A cut line is measured anew, so it fills up
    /// again only when what it keeps plus what is added exceeds the paper.
    pub fn add_char(&mut self, styled_char: StyledChar) -> (r: Option<Line>)
        requires
            seq_width(old(self).chars@) + 3 <= usize::MAX,
            old(self).cached_width() + 3 <= usize::MAX,
        ensures
            old(self).wf() ==> final(self).wf(),
            (final(self).model(), opt_model(r)) == model_add_char(old(self).model(), styled_char),
            r matches Some(l) ==> l.wf(),
            old(self).wf() && seq_width(old(self).chars@) + styled_char.text_size.width() <= CPL
                ==> r is None && final(self).chars@ == old(self).chars@.push(styled_char),
    {
        let ghost pushed = self.chars@.push(styled_char);
        let char_width = styled_char.text_size.char_width();
        self.cached_width = self.cached_width + char_width;
        self.chars.push(styled_char);
        proof {
            lemma_width_push(old(self).chars@, styled_char);
        }
        if self.cached_width <= CPL as usize {
            return None;
        }
        let ghost cached = self.cached_width as nat;
        let remainder = match self.find_wrap_point() {
            Some(wrap_point) => {
                proof {
                    lemma_last_candidate_is_max(pushed, pushed.len() as int);
                }
                let mut remainder = self.chars.split_off(wrap_point);
                assert(remainder@ =~= pushed.skip(wrap_point as int));
                assert(self.chars@ =~= pushed.take(wrap_point as int));
                remainder.remove(0);
                assert(remainder@ =~= pushed.skip(wrap_point as int + 1));
                remainder
            },
            None => {
                let n = self.chars.len();
                let remainder = self.chars.split_off(n - 1);
                assert(remainder@ =~= seq![pushed.last()]);
                assert(self.chars@ =~= pushed.drop_last());
                remainder
            },
        };
        proof {
            let k = pushed.len() - remainder@.len();
            lemma_width_take_mono(pushed, self.chars@.len() as int, pushed.len() as int);
            lemma_width_take_full(pushed);
            assert(self.chars@ =~= pushed.take(self.chars@.len() as int));
            lemma_width_suffix(pushed, k);
            assert(seq_width(remainder@) <= seq_width(pushed));
            assert((self.chars@, remainder@) == split_full_line(pushed, cached));
        }
        self.cached_width = glyphs_width(&self.chars);
        if remainder.len() > 0 {
            Some(Line::new(remainder, self.justification))
        } else {
            None
        }
    }
}

/// The plain-value picture of a line.
pub struct LineModel {
    pub chars: Seq<StyledChar>,
    pub justification: Justification,
    pub cached_width: nat,
}

pub open spec fn opt_model(l: Option<Line>) -> Option<LineModel> {
    match l {
        Some(l) => Some(l.model()),
        None => None,
    }
}

/// What adding glyph `c` to line `l` gives: the line itself and, when it was
/// full, the new line holding what moved off it.
pub open spec fn model_add_char(l: LineModel, c: StyledChar) -> (LineModel, Option<LineModel>) {
    let pushed = l.chars.push(c);
    let cached = l.cached_width + c.text_size.width();
    let (kept, moved) = split_full_line(pushed, cached);
    (
        LineModel {
            chars: kept,
            justification: l.justification,
            cached_width: if cached <= CPL {
                cached
            } else {
                seq_width(kept)
            },
        },
        if moved.len() > 0 {
            Some(
                LineModel {
                    chars: moved,
                    justification: l.justification,
                    cached_width: seq_width(moved),
                },
            )
        } else {
            None
        },
    )
}

/// How `add_char` splits the glyphs of a line once the glyph is pushed and the
/// running width is `cached`: what stays on the line and what moves to a new one.
pub open spec fn split_full_line(pushed: Seq<StyledChar>, cached: nat) -> (Seq<StyledChar>, Seq<
    StyledChar,
>) {
    if cached <= CPL {
        (pushed, Seq::empty())
    } else {
        match wrap_point(pushed) {
            Some(i) => (pushed.take(i), pushed.skip(i + 1)),
            None => (pushed.drop_last(), seq![pushed.last()]),
        }
    }
}

/// The glyphs after position `k` are no wider than the whole run.
pub proof fn lemma_width_suffix(s: Seq<StyledChar>, k: int)
    requires
        0 <= k <= s.len(),
    ensures
        seq_width(s.skip(k)) + seq_width(s.take(k)) == seq_width(s),
    decreases s.len() - k,
{
    if k < s.len() {
        lemma_width_suffix(s.drop_last(), k);
        assert(s.drop_last().skip(k) =~= s.skip(k).drop_last());
        assert(s.drop_last().take(k) =~= s.take(k));
        assert(s.skip(k).last() == s.last());
    } else {
        assert(s.skip(k) =~= Seq::<StyledChar>::empty());
        assert(s.take(k) =~= s);
    }
}

/// Adding a glyph to a line whose glyphs fit its running width: both resulting
/// lines fit theirs (exactly, when the old one did), and neither running width
/// exceeds the old one plus the glyph's width.
pub proof fn lemma_model_add_char_fits(l: LineModel, c: StyledChar)
    requires
        seq_width(l.chars) <= l.cached_width,
    ensures
        ({
            let (kept, moved) = model_add_char(l, c);
            &&& kept.cached_width <= l.cached_width + c.text_size.width()
            &&& seq_width(kept.chars) <= kept.cached_width
            &&& seq_width(l.chars) == l.cached_width ==> seq_width(kept.chars) == kept.cached_width
            &&& moved matches Some(m) ==> {
                &&& seq_width(m.chars) == m.cached_width
                &&& m.cached_width <= l.cached_width + c.text_size.width()
            }
        }),
{
    let pushed = l.chars.push(c);
    let cached = l.cached_width + c.text_size.width();
    lemma_width_push(l.chars, c);
    lemma_width_take_full(pushed);
    if cached > CPL {
        match wrap_point(pushed) {
            Some(i) => {
                lemma_last_candidate_is_max(pushed, pushed.len() as int);
                lemma_width_take_mono(pushed, i, pushed.len() as int);
                lemma_width_suffix(pushed, i + 1);
                assert(seq_width(pushed.take(i)) <= seq_width(pushed));
                assert(seq_width(pushed.skip(i + 1)) <= seq_width(pushed));
            },
            None => {
                assert(pushed.drop_last() =~= l.chars);
                let one = seq![pushed.last()];
                assert(one.drop_last() =~= Seq::<StyledChar>::empty());
                assert(seq_width(one.drop_last()) == 0);
                assert(pushed.last() == c);
                assert(one.last() == c);
                assert(seq_width(one) == c.text_size.width());
            },
        }
    }
}

/// Adding a glyph loses nothing but the white space a line is wrapped at:
/// the kept glyphs, then (on a soft wrap) that white space, then the moved
/// glyphs are the old glyphs followed by the new one; and a line that fitted
/// the paper still fits it.
pub proof fn lemma_add_char_keeps_glyphs(l: LineModel, c: StyledChar)
    requires
        seq_width(l.chars) <= l.cached_width,
    ensures
        ({
            let pushed = l.chars.push(c);
            let (kept, moved) = model_add_char(l, c);
            let rest = match moved {
                Some(m) => m.chars,
                None => Seq::<StyledChar>::empty(),
            };
            &&& kept.chars + rest == pushed || (kept.chars.len() < pushed.len() && is_whitespace(
                pushed[kept.chars.len() as int].ch,
            ) && kept.chars + seq![pushed[kept.chars.len() as int]] + rest == pushed)
            &&& l.cached_width <= CPL ==> seq_width(kept.chars) <= CPL
        }),
{
    let pushed = l.chars.push(c);
    let cached = l.cached_width + c.text_size.width();
    lemma_width_push(l.chars, c);
    let (kept, moved) = model_add_char(l, c);
    if cached <= CPL {
        assert(kept.chars + Seq::<StyledChar>::empty() =~= pushed);
    } else {
        match wrap_point(pushed) {
            Some(i) => {
                lemma_last_candidate_is_max(pushed, pushed.len() as int);
                assert(kept.chars =~= pushed.take(i));
                if moved is None {
                    assert(pushed.skip(i + 1).len() == 0);
                }
                assert(pushed.take(i) + seq![pushed[i]] + pushed.skip(i + 1) =~= pushed);
            },
            None => {
                assert(pushed.drop_last() + seq![pushed.last()] =~= pushed);
                assert(pushed.drop_last() =~= l.chars);
            },
        }
    }
}

} // verus!
