use vstd::prelude::*;
use super::element::{Justification, Line, LineModel, StyledChar, TextSize};
use super::page_code::{CharPageCode, ascii_equivalent, char_page_code, normalize_char, required_page_code};
use super::rongta::{PrinterModel, RongtaPrinter, models};

verus! {

/// One command sent to the ESC/POS printer.
#[derive(Clone, Copy, Debug, PartialEq, Eq, Structural)]
pub enum PrintOp {
    Justify(Justification),
    Bold(bool),
    ResetSize,
    ResetLineSpacing,
    Size(u8, u8),
    LineSpacing(u8),
    PageCode(CharPageCode),
    Write(char),
    Feed,
    Print,
    PrintCut,
}

/// What the printer is currently set to.
#[derive(Clone, Copy, Debug, PartialEq, Eq, Structural)]
pub struct PrintState {
    pub justification: Justification,
    pub text_size: TextSize,
    pub bold: bool,
    pub page_code: CharPageCode,
}

/// The settings of a freshly reset printer.
pub open spec fn initial_state() -> PrintState {
    PrintState {
        justification: Justification::Start,
        text_size: TextSize::Medium,
        bold: false,
        page_code: CharPageCode::Pc437,
    }
}

impl PrintState {
    pub fn initial() -> (s: Self)
        ensures
            s == initial_state(),
    {
        PrintState {
            justification: Justification::Start,
            text_size: TextSize::Medium,
            bold: false,
            page_code: CharPageCode::Pc437,
        }
    }
}

/// The commands that select a text size.
pub open spec fn size_ops(t: TextSize) -> Seq<PrintOp> {
    match t {
        TextSize::Medium => seq![PrintOp::ResetSize, PrintOp::ResetLineSpacing],
        TextSize::Large => seq![PrintOp::Size(2, 2), PrintOp::LineSpacing(2)],
        TextSize::ExtraLarge => seq![PrintOp::Size(3, 3), PrintOp::LineSpacing(3)],
    }
}

impl TextSize {
    /// The commands that switch the printer to this text size.
    pub fn command(&self) -> (ops: Vec<PrintOp>)
        ensures
            ops@ == size_ops(*self),
    {
        let ops = match self {
            TextSize::Medium => vec![PrintOp::ResetSize, PrintOp::ResetLineSpacing],
            TextSize::Large => vec![PrintOp::Size(2, 2), PrintOp::LineSpacing(2)],
            TextSize::ExtraLarge => vec![PrintOp::Size(3, 3), PrintOp::LineSpacing(3)],
        };
        assert(ops@ =~= size_ops(*self));
        ops
    }
}

impl Justification {
    /// The command that switches the printer to this alignment.
    pub fn command(&self) -> (op: PrintOp)
        ensures
            op == PrintOp::Justify(*self),
    {
        PrintOp::Justify(*self)
    }
}

/// Commands produced so far, the printer settings they leave, and whether every
/// glyph so far had a code page.
pub struct Plan {
    pub ops: Seq<PrintOp>,
    pub state: PrintState,
    pub ok: bool,
}

pub open spec fn start_plan() -> Plan {
    Plan { ops: Seq::empty(), state: initial_state(), ok: true }
}

/// The glyph as it is sent: its ASCII stand-in where it has one.
pub open spec fn printed_char(c: char) -> char {
    match ascii_equivalent(c) {
        Some(a) => a,
        None => c,
    }
}

/// Printing one glyph: switch size, weight and code page where they differ,
/// then write it; a glyph no code page holds stops the printing.
pub open spec fn glyph_plan(p: Plan, sc: StyledChar) -> Plan {
    if !p.ok {
        p
    } else {
        let size_part = if p.state.text_size != sc.text_size {
            size_ops(sc.text_size)
        } else {
            Seq::empty()
        };
        let bold_part = if p.state.bold != sc.bold {
            seq![PrintOp::Bold(sc.bold)]
        } else {
            Seq::empty()
        };
        let styled = PrintState { text_size: sc.text_size, bold: sc.bold, ..p.state };
        let c = printed_char(sc.ch);
        match required_page_code(c) {
            None => Plan { ops: p.ops + size_part + bold_part, state: styled, ok: false },
            Some(pc) => {
                let page_part = if p.state.page_code != pc {
                    seq![PrintOp::PageCode(pc)]
                } else {
                    Seq::empty()
                };
                Plan {
                    ops: p.ops + size_part + bold_part + page_part + seq![PrintOp::Write(c)],
                    state: PrintState { page_code: pc, ..styled },
                    ok: true,
                }
            },
        }
    }
}

pub open spec fn glyphs_plan(p: Plan, chars: Seq<StyledChar>) -> Plan
    decreases chars.len(),
{
    if chars.len() == 0 {
        p
    } else {
        glyph_plan(glyphs_plan(p, chars.drop_last()), chars.last())
    }
}

/// Switching to the alignment of `line` where it differs.
pub open spec fn aligned_plan(p: Plan, line: LineModel) -> Plan {
    if p.state.justification != line.justification {
        Plan {
            ops: p.ops.push(PrintOp::Justify(line.justification)),
            state: PrintState { justification: line.justification, ..p.state },
            ok: p.ok,
        }
    } else {
        p
    }
}

/// Printing one line: its alignment where it differs, its glyphs, then a feed.
pub open spec fn line_plan(p: Plan, line: LineModel) -> Plan {
    if !p.ok {
        p
    } else {
        let aligned = aligned_plan(p, line);
        let written = glyphs_plan(aligned, line.chars);
        if written.ok {
            Plan { ops: written.ops.push(PrintOp::Feed), state: written.state, ok: true }
        } else {
            written
        }
    }
}

/// Printing without pages: the first `n` lines one after the other.
pub open spec fn unpaged_plan(lines: Seq<LineModel>, n: int) -> Plan
    decreases n,
{
    if n <= 0 {
        start_plan()
    } else {
        line_plan(unpaged_plan(lines, n - 1), lines[n - 1])
    }
}

/// Printing in pages of `rows` lines: the plan after the first `n` lines and
/// how many lines the current page holds. A full page is cut off and the
/// printer settings start afresh.
pub open spec fn paged_plan(lines: Seq<LineModel>, n: int, rows: nat) -> (Plan, nat)
    decreases n,
{
    if n <= 0 {
        (start_plan(), 0)
    } else {
        let (p, count) = paged_plan(lines, n - 1, rows);
        let q = line_plan(p, lines[n - 1]);
        if !p.ok || !q.ok {
            (q, count)
        } else if count + 1 >= rows {
            (Plan { ops: q.ops.push(PrintOp::PrintCut), state: initial_state(), ok: true }, 0)
        } else {
            (q, count + 1)
        }
    }
}

/// `Feed` repeated `n` times.
pub open spec fn feeds(n: nat) -> Seq<PrintOp> {
    Seq::new(n, |i: int| PrintOp::Feed)
}

/// The commands that print the whole printer: with `rows`, every page is
/// filled up with feeds to `rows` lines and cut; without, the paper is cut or
/// just printed at the end. `ok` is false when a glyph had no code page; the
/// commands then stop before it.
pub open spec fn print_plan(m: PrinterModel, rows: Option<u32>) -> Plan {
    match rows {
        Some(rpp) => {
            let (p, count) = paged_plan(m.lines, m.lines.len() as int, rpp as nat);
            if p.ok && count > 0 {
                Plan {
                    ops: p.ops + feeds((rpp - count) as nat) + seq![PrintOp::PrintCut],
                    state: p.state,
                    ok: true,
                }
            } else {
                p
            }
        },
        None => {
            let p = unpaged_plan(m.lines, m.lines.len() as int);
            if p.ok {
                Plan {
                    ops: p.ops.push(if m.cut { PrintOp::PrintCut } else { PrintOp::Print }),
                    state: p.state,
                    ok: true,
                }
            } else {
                p
            }
        },
    }
}

/// Appends the commands for one glyph to `ops`; returns false when no code page holds it.
fn print_glyph(sc: StyledChar, ops: &mut Vec<PrintOp>, state: &mut PrintState) -> (ok: bool)
    ensures
        ({
            let p = glyph_plan(Plan { ops: old(ops)@, state: *old(state), ok: true }, sc);
            &&& final(ops)@ == p.ops
            &&& *final(state) == p.state
            &&& ok == p.ok
        }),
{
    let ghost ops0 = ops@;
    if state.text_size != sc.text_size {
        let mut size = sc.text_size.command();
        ops.append(&mut size);
        state.text_size = sc.text_size;
    }
    let ghost ops1 = ops@;
    if state.bold != sc.bold {
        ops.push(PrintOp::Bold(sc.bold));
        state.bold = sc.bold;
    }
    let ghost ops2 = ops@;
    let normalized = match normalize_char(sc.ch) {
        Some(a) => a,
        None => sc.ch,
    };
    let required = match char_page_code(normalized) {
        Some(pc) => pc,
        None => {
            assert(ops@ =~= ops0 + (ops1.skip(ops0.len() as int)) + ops2.skip(ops1.len() as int));
            return false;
        },
    };
    if state.page_code != required {
        ops.push(PrintOp::PageCode(required));
        state.page_code = required;
    }
    ops.push(PrintOp::Write(normalized));
    proof {
        let p = glyph_plan(Plan { ops: ops0, state: *old(state), ok: true }, sc);
        assert(ops@ =~= p.ops);
    }
    true
}

/// Appends the commands for one line to `ops`; returns false when a glyph had no code page.
fn print_line(line: &Line, ops: &mut Vec<PrintOp>, state: &mut PrintState) -> (ok: bool)
    ensures
        ({
            let p = line_plan(Plan { ops: old(ops)@, state: *old(state), ok: true }, line.model());
            &&& final(ops)@ == p.ops
            &&& *final(state) == p.state
            &&& ok == p.ok
        }),
{
    if state.justification != line.justification {
        ops.push(line.justification.command());
        state.justification = line.justification;
    }
    let ghost aligned = Plan { ops: ops@, state: *state, ok: true };
    let mut i: usize = 0;
    while i < line.chars.len()
        invariant
            i <= line.chars@.len(),
            aligned == aligned_plan(
                Plan { ops: old(ops)@, state: *old(state), ok: true },
                line.model(),
            ),
            glyphs_plan(aligned, line.chars@.take(i as int)) == (Plan {
                ops: ops@,
                state: *state,
                ok: true,
            }),
        decreases line.chars@.len() - i,
    {
        proof {
            assert(line.chars@.take(i as int + 1).drop_last() =~= line.chars@.take(i as int));
            assert(line.chars@.take(i as int + 1).last() == line.chars@[i as int]);
        }
        let ok = print_glyph(line.chars[i], ops, state);
        if !ok {
            proof {
                lemma_glyphs_plan_stuck(
                    glyphs_plan(aligned, line.chars@.take(i as int + 1)),
                    line.chars@.skip(i as int + 1),
                );
                lemma_glyphs_plan_split(aligned, line.chars@, i as int + 1);
            }
            return false;
        }
        i = i + 1;
    }
    proof {
        assert(line.chars@.take(i as int) =~= line.chars@);
    }
    ops.push(PrintOp::Feed);
    true
}

/// Once a glyph failed, later glyphs add nothing.
pub proof fn lemma_glyphs_plan_stuck(p: Plan, chars: Seq<StyledChar>)
    requires
        !p.ok,
    ensures
        glyphs_plan(p, chars) == p,
    decreases chars.len(),
{
    if chars.len() > 0 {
        lemma_glyphs_plan_stuck(p, chars.drop_last());
    }
}

/// Planning a run of glyphs is planning its first `k` glyphs, then the rest.
pub proof fn lemma_glyphs_plan_split(p: Plan, chars: Seq<StyledChar>, k: int)
    requires
        0 <= k <= chars.len(),
    ensures
        glyphs_plan(p, chars) == glyphs_plan(glyphs_plan(p, chars.take(k)), chars.skip(k)),
    decreases chars.len() - k,
{
    if k == chars.len() {
        assert(chars.take(k) =~= chars);
        assert(chars.skip(k) =~= Seq::<StyledChar>::empty());
    } else {
        lemma_glyphs_plan_split(p, chars.drop_last(), k);
        assert(chars.drop_last().take(k) =~= chars.take(k));
        assert(chars.skip(k).drop_last() =~= chars.drop_last().skip(k));
        assert(chars.skip(k).last() == chars.last());
    }
}

/// Once a line failed, later lines add nothing.
pub proof fn lemma_paged_plan_stuck(lines: Seq<LineModel>, k: int, n: int, rows: nat)
    requires
        0 <= k <= n,
        !paged_plan(lines, k, rows).0.ok,
    ensures
        paged_plan(lines, n, rows) == paged_plan(lines, k, rows),
    decreases n - k,
{
    if k < n {
        lemma_paged_plan_stuck(lines, k, n - 1, rows);
    }
}

/// Once a line failed, later lines add nothing.
pub proof fn lemma_unpaged_plan_stuck(lines: Seq<LineModel>, k: int, n: int)
    requires
        0 <= k <= n,
        !unpaged_plan(lines, k).ok,
    ensures
        unpaged_plan(lines, n) == unpaged_plan(lines, k),
    decreases n - k,
{
    if k < n {
        lemma_unpaged_plan_stuck(lines, k, n - 1);
    }
}

/// The commands that print a printer's lines, and whether every glyph could be printed.
pub struct PrintPlan {
    pub ops: Vec<PrintOp>,
    pub complete: bool,
}

impl RongtaPrinter {
    /// The commands that print this printer's lines. With `rows`, pages of
    /// `rows` lines are cut one by one (a last, partly filled page is filled
    /// up with feeds); without, the paper is cut (or just printed) at the end.
    /// A glyph that no code page holds stops the plan: `complete` is then false
    /// and the commands end before that glyph.
    pub fn print_plan(&self, rows: Option<u32>) -> (r: PrintPlan)
        ensures
            r.ops@ == print_plan(self@, rows).ops,
            r.complete == print_plan(self@, rows).ok,
    {
        let lines = self.lines();
        let ghost ms = self@.lines;
        let mut ops: Vec<PrintOp> = Vec::new();
        let mut state = PrintState::initial();
        match rows {
            Some(rows_per_page) => {
                let mut line_count: u32 = 0;
                let mut i: usize = 0;
                while i < lines.len()
                    invariant
                        models(lines@) == ms,
                        ms == self@.lines,
                        rows == Some(rows_per_page),
                        i <= lines@.len(),
                        line_count == 0 || line_count < rows_per_page,
                        paged_plan(ms, i as int, rows_per_page as nat) == (
                        Plan { ops: ops@, state, ok: true },
                        line_count as nat,
                        ),
                    decreases lines@.len() - i,
                {
                    assert(ms[i as int] == lines@[i as int].model());
                    let ok = print_line(&lines[i], &mut ops, &mut state);
                    if !ok {
                        proof {
                            lemma_paged_plan_stuck(
                                ms,
                                i as int + 1,
                                ms.len() as int,
                                rows_per_page as nat,
                            );
                        }
                        return PrintPlan { ops, complete: false };
                    }
                    line_count = line_count + 1;
                    if line_count >= rows_per_page {
                        ops.push(PrintOp::PrintCut);
                        line_count = 0;
                        state = PrintState::initial();
                    }
                    i = i + 1;
                }
                if line_count > 0 {
                    let ghost base = ops@;
                    let ghost start = line_count;
                    while line_count < rows_per_page
                        invariant
                            start <= line_count <= rows_per_page,
                            ops@ == base + feeds((line_count - start) as nat),
                        decreases rows_per_page - line_count,
                    {
                        ops.push(PrintOp::Feed);
                        line_count = line_count + 1;
                        assert(ops@ =~= base + feeds((line_count - start) as nat));
                    }
                    ops.push(PrintOp::PrintCut);
                }
                PrintPlan { ops, complete: true }
            },
            None => {
                let mut i: usize = 0;
                while i < lines.len()
                    invariant
                        models(lines@) == ms,
                        ms == self@.lines,
                        rows is None,
                        i <= lines@.len(),
                        unpaged_plan(ms, i as int) == (Plan { ops: ops@, state, ok: true }),
                    decreases lines@.len() - i,
                {
                    assert(ms[i as int] == lines@[i as int].model());
                    let ok = print_line(&lines[i], &mut ops, &mut state);
                    if !ok {
                        proof {
                            lemma_unpaged_plan_stuck(ms, i as int + 1, ms.len() as int);
                        }
                        return PrintPlan { ops, complete: false };
                    }
                    i = i + 1;
                }
                if self.cut() {
                    ops.push(PrintOp::PrintCut);
                } else {
                    ops.push(PrintOp::Print);
                }
                PrintPlan { ops, complete: true }
            },
        }
    }
}

/// A glyph can be printed: some code page holds what is sent for it.
pub open spec fn printable(c: char) -> bool {
    required_page_code(printed_char(c)) is Some
}

/// Every glyph of the first `n` lines can be printed.
pub open spec fn lines_printable(lines: Seq<LineModel>, n: int) -> bool {
    forall|i: int, j: int|
        0 <= i < n && 0 <= j < lines[i].chars.len() ==> printable(#[trigger] lines[i].chars[j].ch)
}

proof fn lemma_glyphs_plan_ok(p: Plan, chars: Seq<StyledChar>)
    ensures
        glyphs_plan(p, chars).ok <==> (p.ok && forall|j: int|
            0 <= j < chars.len() ==> printable(#[trigger] chars[j].ch)),
    decreases chars.len(),
{
    if chars.len() > 0 {
        lemma_glyphs_plan_ok(p, chars.drop_last());
        let q = glyphs_plan(p, chars.drop_last());
        if q.ok && printable(chars.last().ch) {
            assert forall|j: int| 0 <= j < chars.len() implies printable(#[trigger] chars[j].ch) by {
                if j < chars.len() - 1 {
                    assert(chars[j] == chars.drop_last()[j]);
                }
            }
        }
        if p.ok && forall|j: int| 0 <= j < chars.len() ==> printable(#[trigger] chars[j].ch) {
            assert forall|j: int| 0 <= j < chars.drop_last().len() implies printable(
                #[trigger] chars.drop_last()[j].ch,
            ) by {
                assert(chars.drop_last()[j] == chars[j]);
            }
            assert(printable(chars[chars.len() - 1].ch));
        }
    }
}

proof fn lemma_line_plan_ok(p: Plan, line: LineModel)
    ensures
        line_plan(p, line).ok <==> (p.ok && forall|j: int|
            0 <= j < line.chars.len() ==> printable(#[trigger] line.chars[j].ch)),
{
    if p.ok {
        lemma_glyphs_plan_ok(aligned_plan(p, line), line.chars);
    }
}

proof fn lemma_unpaged_plan_ok(lines: Seq<LineModel>, n: int)
    requires
        0 <= n <= lines.len(),
    ensures
        unpaged_plan(lines, n).ok <==> lines_printable(lines, n),
    decreases n,
{
    if n > 0 {
        lemma_unpaged_plan_ok(lines, n - 1);
        lemma_line_plan_ok(unpaged_plan(lines, n - 1), lines[n - 1]);
        if lines_printable(lines, n) {
            assert(lines_printable(lines, n - 1));
            assert forall|j: int| 0 <= j < lines[n - 1].chars.len() implies printable(
                #[trigger] lines[n - 1].chars[j].ch,
            ) by {}
        }
    }
}

proof fn lemma_paged_plan_ok(lines: Seq<LineModel>, n: int, rows: nat)
    requires
        0 <= n <= lines.len(),
    ensures
        paged_plan(lines, n, rows).0.ok <==> lines_printable(lines, n),
    decreases n,
{
    if n > 0 {
        lemma_paged_plan_ok(lines, n - 1, rows);
        lemma_line_plan_ok(paged_plan(lines, n - 1, rows).0, lines[n - 1]);
        if lines_printable(lines, n) {
            assert(lines_printable(lines, n - 1));
            assert forall|j: int| 0 <= j < lines[n - 1].chars.len() implies printable(
                #[trigger] lines[n - 1].chars[j].ch,
            ) by {}
        }
    }
}

/// A print plan is complete exactly when every glyph the printer holds can
/// be printed, whether or not it is cut into pages.
pub proof fn lemma_plan_complete_iff_printable(m: PrinterModel, rows: Option<u32>)
    ensures
        print_plan(m, rows).ok <==> lines_printable(m.lines, m.lines.len() as int),
{
    match rows {
        Some(rpp) => lemma_paged_plan_ok(m.lines, m.lines.len() as int, rpp as nat),
        None => lemma_unpaged_plan_ok(m.lines, m.lines.len() as int),
    }
}

/// How many `Feed` commands, each ending a printed line, follow the last
/// `PrintCut` of `ops` (or its start): the lines of the page being filled.
pub open spec fn feeds_since_cut(ops: Seq<PrintOp>) -> nat
    decreases ops.len(),
{
    if ops.len() == 0 {
        0
    } else if ops.last() == PrintOp::PrintCut {
        0
    } else if ops.last() == PrintOp::Feed {
        feeds_since_cut(ops.drop_last()) + 1
    } else {
        feeds_since_cut(ops.drop_last())
    }
}

/// Every page that `ops` cuts off holds exactly `rows` lines: each `PrintCut`
/// comes after exactly `rows` feeds since the cut before it.
pub open spec fn pages_of(ops: Seq<PrintOp>, rows: nat) -> bool {
    forall|i: int|
        #![trigger ops[i]]
        0 <= i < ops.len() && ops[i] == PrintOp::PrintCut ==> feeds_since_cut(ops.take(i)) == rows
}

/// `b` is `a` followed by commands that neither feed nor cut.
pub open spec fn quiet_extension(a: Seq<PrintOp>, b: Seq<PrintOp>) -> bool {
    &&& a.len() <= b.len()
    &&& b.take(a.len() as int) == a
    &&& forall|j: int|
        #![trigger b[j]]
        a.len() <= j < b.len() ==> b[j] != PrintOp::Feed && b[j] != PrintOp::PrintCut
}

proof fn lemma_quiet_trans(a: Seq<PrintOp>, b: Seq<PrintOp>, c: Seq<PrintOp>)
    requires
        quiet_extension(a, b),
        quiet_extension(b, c),
    ensures
        quiet_extension(a, c),
{
    assert(c.take(a.len() as int) =~= c.take(b.len() as int).take(a.len() as int));
    assert forall|j: int| a.len() <= j < c.len() implies c[j] != PrintOp::Feed && c[j]
        != PrintOp::PrintCut by {
        if j < b.len() {
            assert(c[j] == c.take(b.len() as int)[j]);
        }
    }
}

proof fn lemma_push_page(a: Seq<PrintOp>, x: PrintOp, rows: nat)
    requires
        pages_of(a, rows),
        x == PrintOp::PrintCut ==> feeds_since_cut(a) == rows,
    ensures
        pages_of(a.push(x), rows),
        feeds_since_cut(a.push(x)) == if x == PrintOp::PrintCut {
            0
        } else if x == PrintOp::Feed {
            feeds_since_cut(a) + 1
        } else {
            feeds_since_cut(a)
        },
{
    let b = a.push(x);
    assert(b.drop_last() =~= a);
    assert forall|i: int| 0 <= i < b.len() && b[i] == PrintOp::PrintCut implies feeds_since_cut(
        b.take(i),
    ) == rows by {
        if i < a.len() {
            assert(b.take(i) =~= a.take(i));
            assert(b[i] == a[i]);
        } else {
            assert(b.take(i) =~= a);
        }
    }
}

/// Commands that neither feed nor cut leave the page as it was.
proof fn lemma_quiet_pages(a: Seq<PrintOp>, b: Seq<PrintOp>, rows: nat)
    requires
        quiet_extension(a, b),
        pages_of(a, rows),
    ensures
        pages_of(b, rows),
        feeds_since_cut(b) == feeds_since_cut(a),
    decreases b.len() - a.len(),
{
    if b.len() == a.len() {
        assert(b =~= a);
    } else {
        let c = b.drop_last();
        assert(c.take(a.len() as int) =~= b.take(a.len() as int));
        assert forall|j: int| a.len() <= j < c.len() implies c[j] != PrintOp::Feed && c[j]
            != PrintOp::PrintCut by {
            assert(c[j] == b[j]);
        }
        lemma_quiet_pages(a, c, rows);
        assert(b[b.len() - 1] != PrintOp::Feed && b[b.len() - 1] != PrintOp::PrintCut);
        lemma_push_page(c, b.last(), rows);
        assert(c.push(b.last()) =~= b);
    }
}

proof fn lemma_glyph_quiet(p: Plan, sc: StyledChar)
    ensures
        quiet_extension(p.ops, glyph_plan(p, sc).ops),
{
    let q = glyph_plan(p, sc);
    if p.ok {
        assert(q.ops.take(p.ops.len() as int) =~= p.ops);
        assert forall|j: int| p.ops.len() <= j < q.ops.len() implies q.ops[j] != PrintOp::Feed
            && q.ops[j] != PrintOp::PrintCut by {
            let k = j - p.ops.len();
            let size_part = if p.state.text_size != sc.text_size {
                size_ops(sc.text_size)
            } else {
                Seq::empty()
            };
            let bold_part = if p.state.bold != sc.bold {
                seq![PrintOp::Bold(sc.bold)]
            } else {
                Seq::empty()
            };
            if k < size_part.len() {
                assert(q.ops[j] == size_part[k]);
            } else if k < size_part.len() + bold_part.len() {
                assert(q.ops[j] == bold_part[k - size_part.len()]);
            }
        }
    } else {
        assert(q.ops.take(p.ops.len() as int) =~= p.ops);
    }
}

proof fn lemma_glyphs_quiet(p: Plan, chars: Seq<StyledChar>)
    ensures
        quiet_extension(p.ops, glyphs_plan(p, chars).ops),
    decreases chars.len(),
{
    if chars.len() == 0 {
        assert(p.ops.take(p.ops.len() as int) =~= p.ops);
    } else {
        let q = glyphs_plan(p, chars.drop_last());
        lemma_glyphs_quiet(p, chars.drop_last());
        lemma_glyph_quiet(q, chars.last());
        lemma_quiet_trans(p.ops, q.ops, glyphs_plan(p, chars).ops);
    }
}

/// Printing one line adds exactly one feed when it succeeds, none when it
/// stops, and no cut.
proof fn lemma_line_pages(p: Plan, line: LineModel, rows: nat)
    requires
        pages_of(p.ops, rows),
    ensures
        pages_of(line_plan(p, line).ops, rows),
        feeds_since_cut(line_plan(p, line).ops) == feeds_since_cut(p.ops) + if p.ok && line_plan(
            p,
            line,
        ).ok {
            1int
        } else {
            0int
        },
{
    if p.ok {
        let aligned = aligned_plan(p, line);
        assert(quiet_extension(p.ops, aligned.ops)) by {
            assert(aligned.ops.take(p.ops.len() as int) =~= p.ops);
        }
        let written = glyphs_plan(aligned, line.chars);
        lemma_glyphs_quiet(aligned, line.chars);
        lemma_quiet_trans(p.ops, aligned.ops, written.ops);
        lemma_quiet_pages(p.ops, written.ops, rows);
        if written.ok {
            lemma_push_page(written.ops, PrintOp::Feed, rows);
        }
    }
}

proof fn lemma_paged_pages(lines: Seq<LineModel>, n: int, rows: nat)
    requires
        rows >= 1,
        0 <= n <= lines.len(),
    ensures
        pages_of(paged_plan(lines, n, rows).0.ops, rows),
        feeds_since_cut(paged_plan(lines, n, rows).0.ops) == paged_plan(lines, n, rows).1,
        paged_plan(lines, n, rows).1 < rows,
    decreases n,
{
    if n > 0 {
        lemma_paged_pages(lines, n - 1, rows);
        let (p, count) = paged_plan(lines, n - 1, rows);
        let q = line_plan(p, lines[n - 1]);
        lemma_line_pages(p, lines[n - 1], rows);
        if p.ok && q.ok && count + 1 >= rows {
            lemma_push_page(q.ops, PrintOp::PrintCut, rows);
        }
    } else {
        assert(start_plan().ops.len() == 0);
    }
}

proof fn lemma_append_feeds(a: Seq<PrintOp>, k: nat, rows: nat)
    requires
        pages_of(a, rows),
    ensures
        pages_of(a + feeds(k), rows),
        feeds_since_cut(a + feeds(k)) == feeds_since_cut(a) + k,
    decreases k,
{
    if k == 0 {
        assert(a + feeds(0) =~= a);
    } else {
        lemma_append_feeds(a, (k - 1) as nat, rows);
        lemma_push_page(a + feeds((k - 1) as nat), PrintOp::Feed, rows);
        assert((a + feeds((k - 1) as nat)).push(PrintOp::Feed) =~= a + feeds(k));
    }
}

/// Printed in pages of `rows` lines, every page holds exactly `rows` lines:
/// each cut comes after exactly `rows` feeds since the cut before it (the
/// last page is filled up with feeds), and a complete plan ends on a cut, so
/// no line is left on an uncut page.
pub proof fn lemma_pages_hold_rows(m: PrinterModel, rows: u32)
    requires
        rows >= 1,
    ensures
        pages_of(print_plan(m, Some(rows)).ops, rows as nat),
        print_plan(m, Some(rows)).ok ==> feeds_since_cut(print_plan(m, Some(rows)).ops) == 0,
{
    let (p, count) = paged_plan(m.lines, m.lines.len() as int, rows as nat);
    lemma_paged_pages(m.lines, m.lines.len() as int, rows as nat);
    if p.ok && count > 0 {
        let k = (rows - count) as nat;
        lemma_append_feeds(p.ops, k, rows as nat);
        lemma_push_page(p.ops + feeds(k), PrintOp::PrintCut, rows as nat);
        assert((p.ops + feeds(k)).push(PrintOp::PrintCut) =~= p.ops + feeds(k) + seq![
            PrintOp::PrintCut,
        ]);
    }
}

} // verus!
