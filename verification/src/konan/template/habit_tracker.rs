use vstd::prelude::*;
use super::{
    BoxPattern, MAX_TIMESTAMP, MIN_TIMESTAMP, PatternModel, SECS_PER_DAY, add_content_line,
    day_of_month, day_of_month_at, lemma_day_of_month_at_range, format_month_day_year, month_day_year_text,
};
use crate::konan::printer::element::{Justification, TextSize};
use crate::konan::printer::rongta::{PrinterModel, RongtaPrinter, lemma_pending_width};
use crate::text::{ascii_uppercased, digit_char, push_char, push_str, strings_view, to_ascii_uppercase};

verus! {

broadcast use vstd::string::group_string_axioms;

/// A sheet to tick off a habit on every day from `start_date` to `end_date`
/// (Unix seconds), both included.
#[derive(Debug, Clone)]
pub struct HabitTracker {
    pub habit: String,
    pub start_date: i64,
    pub end_date: i64,
}

/// The instants, a day apart, from `t` on and before `limit`.
pub open spec fn day_stamps(t: int, limit: int) -> Seq<int>
    decreases (if t < limit { limit - t } else { 0 }),
{
    if t < limit {
        seq![t] + day_stamps(t + SECS_PER_DAY, limit)
    } else {
        seq![]
    }
}

/// The days a tracker covers: one a day from its start while before the day
/// after its end.
pub open spec fn tracker_stamps(start: i64, end: i64) -> Seq<int> {
    day_stamps(start as int, end + SECS_PER_DAY)
}

/// A tracker can be laid out when its dates are dates and no day it covers,
/// nor the day after its end, runs past the last day a date-time can hold.
pub open spec fn tracker_in_range(start: i64, end: i64) -> bool {
    &&& MIN_TIMESTAMP <= start
    &&& MIN_TIMESTAMP <= end
    &&& end + SECS_PER_DAY <= MAX_TIMESTAMP
    &&& forall|k: int|
        0 <= k < tracker_stamps(start, end).len() ==> #[trigger] tracker_stamps(start, end)[k]
            + SECS_PER_DAY <= MAX_TIMESTAMP
}

/// The day of the month of each day covered.
pub open spec fn tracker_days(start: i64, end: i64) -> Seq<u32> {
    tracker_stamps(start, end).map_values(|t: int| day_of_month_at(t as i64))
}

/// `{:02}` of a number below 100.
pub open spec fn two_digits(d: u32) -> Seq<char> {
    seq![digit_char((d / 10) as nat), digit_char((d % 10) as nat)]
}

/// One box to tick: `( 07 )`.
pub open spec fn cell(d: u32) -> Seq<char> {
    "( "@ + two_digits(d) + " )"@
}

/// The boxes of some days, six spaces apart.
pub open spec fn join_cells(ds: Seq<u32>) -> Seq<char>
    decreases ds.len(),
{
    if ds.len() == 0 {
        seq![]
    } else if ds.len() == 1 {
        cell(ds[0])
    } else {
        join_cells(ds.drop_last()) + "      "@ + cell(ds.last())
    }
}

/// The lines of boxes: four days a line.
pub open spec fn checkmark_lines_of(ds: Seq<u32>) -> Seq<Seq<char>> {
    Seq::new(
        ((ds.len() + 3) / 4) as nat,
        |k: int| join_cells(ds.subrange(4 * k, if 4 * k + 4 <= ds.len() { 4 * k + 4 } else { ds.len() as int })),
    )
}

/// The period line: centred, bold, after an empty line.
pub open spec fn time_period(m: PrinterModel, period: Seq<char>) -> PrinterModel {
    let m1 = m.new_line_added().justified(Justification::Center);
    let m2 = m1.with_style(m1.text_size, true);
    m2.content_added(period).new_line_added()
}

/// An edge of the box: start-aligned, bold, medium.
pub open spec fn box_edge(m: PrinterModel, edge: Seq<char>) -> PrinterModel {
    let m1 = m.justified(Justification::Start);
    let m2 = m1.with_style(m1.text_size, true);
    let m3 = m2.with_style(TextSize::Medium, m2.bold);
    m3.content_added(edge).new_line_added()
}

/// The habit: centred, large, in capitals.
pub open spec fn habit_line(m: PrinterModel, habit: Seq<char>) -> PrinterModel {
    let m1 = m.justified(Justification::Center);
    let m2 = m1.with_style(TextSize::Large, m1.bold);
    m2.content_added(ascii_uppercased(habit)).new_line_added()
}

/// Each of `ls` on a line of its own.
pub open spec fn lines_added(m: PrinterModel, ls: Seq<Seq<char>>) -> PrinterModel
    decreases ls.len(),
{
    if ls.len() == 0 {
        m
    } else {
        lines_added(m, ls.drop_last()).content_added(ls.last()).new_line_added()
    }
}

/// The boxes to tick: centred, bold, medium.
pub open spec fn checkmarks(m: PrinterModel, ls: Seq<Seq<char>>) -> PrinterModel {
    let m1 = m.justified(Justification::Center);
    let m2 = m1.with_style(m1.text_size, true);
    let m3 = m2.with_style(TextSize::Medium, m2.bold);
    lines_added(m3, ls)
}

/// The bottom edge: start-aligned, medium.
pub open spec fn bottom_edge(m: PrinterModel, edge: Seq<char>) -> PrinterModel {
    let m1 = m.justified(Justification::Start);
    let m2 = m1.with_style(TextSize::Medium, m1.bold);
    m2.content_added(edge).new_line_added()
}

/// The whole tracker laid out after what the printer already holds.
pub open spec fn tracker_laid_out(
    m: PrinterModel,
    period: Seq<char>,
    habit: Seq<char>,
    p: PatternModel,
    ls: Seq<Seq<char>>,
) -> PrinterModel {
    let m1 = box_edge(time_period(m, period), p.top);
    let m2 = box_edge(habit_line(m1, habit), p.top);
    bottom_edge(checkmarks(m2, ls), p.bottom)
}

proof fn lemma_day_stamps_step(t: int, limit: int)
    requires
        t < limit,
    ensures
        day_stamps(t, limit).len() >= 1,
        day_stamps(t, limit)[0] == t,
        day_stamps(t, limit).drop_first() == day_stamps(t + SECS_PER_DAY, limit),
{
    assert((seq![t] + day_stamps(t + SECS_PER_DAY, limit)).drop_first() =~= day_stamps(
        t + SECS_PER_DAY,
        limit,
    ));
}

proof fn lemma_join_cells_len(ds: Seq<u32>)
    requires
        ds.len() >= 1,
    ensures
        join_cells(ds).len() == 12 * ds.len() - 6,
    decreases ds.len(),
{
    reveal_strlit("( ");
    reveal_strlit(" )");
    reveal_strlit("      ");
    if ds.len() > 1 {
        lemma_join_cells_len(ds.drop_last());
    }
}

fn push_cell(s: &mut String, d: u32)
    requires
        d < 100,
    ensures
        final(s)@ == old(s)@ + cell(d),
{
    push_str(s, "( ");
    let tens = d / 10;
    let ones = d % 10;
    push_char(s, ((tens as u8) + 48) as char);
    push_char(s, ((ones as u8) + 48) as char);
    push_str(s, " )");
    assert(two_digits(d) =~= seq![((tens as u8) + 48) as char, ((ones as u8) + 48) as char]);
}

impl HabitTracker {
    pub fn new(habit: String, start_date: i64, end_date: i64) -> (t: Self)
        ensures
            t.habit == habit,
            t.start_date == start_date,
            t.end_date == end_date,
    {
        HabitTracker { habit, start_date, end_date }
    }

    pub fn habit(&self) -> (r: &str)
        ensures
            r@ == self.habit@,
    {
        self.habit.as_str()
    }

    pub fn start_date(&self) -> (r: i64)
        ensures
            r == self.start_date,
    {
        self.start_date
    }

    pub fn end_date(&self) -> (r: i64)
        ensures
            r == self.end_date,
    {
        self.end_date
    }

    /// The period line: `<start> - <end>`, each as `%B %d, %Y`.
    pub fn period_text(&self) -> (r: String)
        requires
            MIN_TIMESTAMP <= self.start_date <= MAX_TIMESTAMP,
            MIN_TIMESTAMP <= self.end_date <= MAX_TIMESTAMP,
        ensures
            r@ == month_day_year_text(self.start_date) + " - "@ + month_day_year_text(
                self.end_date,
            ),
    {
        let mut r = format_month_day_year(self.start_date);
        push_str(&mut r, " - ");
        let end = format_month_day_year(self.end_date);
        push_str(&mut r, end.as_str());
        r
    }

    /// The day of the month of every day the tracker covers.
    pub fn days(&self) -> (r: Vec<u32>)
        requires
            tracker_in_range(self.start_date, self.end_date),
        ensures
            r@ == tracker_days(self.start_date, self.end_date),
            forall|k: int| 0 <= k < r@.len() ==> 1 <= #[trigger] r@[k] <= 31,
    {
        let limit = self.end_date + SECS_PER_DAY;
        let ghost all = tracker_stamps(self.start_date, self.end_date);
        let mut r: Vec<u32> = Vec::new();
        let mut cur = self.start_date;
        let ghost mut k: int = 0;
        while cur < limit
            invariant
                limit == self.end_date + SECS_PER_DAY,
                tracker_in_range(self.start_date, self.end_date),
                all == tracker_stamps(self.start_date, self.end_date),
                MIN_TIMESTAMP <= cur,
                0 <= k <= all.len(),
                all.skip(k) == day_stamps(cur as int, limit as int),
                r@ == all.take(k).map_values(|t: int| day_of_month_at(t as i64)),
                forall|j: int| 0 <= j < r@.len() ==> 1 <= #[trigger] r@[j] <= 31,
            decreases all.len() - k,
        {
            proof {
                lemma_day_stamps_step(cur as int, limit as int);
                assert(all.skip(k)[0] == all[k]);
                assert(all[k] + SECS_PER_DAY <= MAX_TIMESTAMP);
                assert(all.skip(k + 1) =~= all.skip(k).drop_first());
            }
            let d = day_of_month(cur);
            r.push(d);
            proof {
                lemma_day_of_month_at_range(cur);
                assert(all.take(k + 1).map_values(|t: int| day_of_month_at(t as i64)) =~= all.take(
                    k,
                ).map_values(|t: int| day_of_month_at(t as i64)).push(d));
                k = k + 1;
            }
            cur = cur + SECS_PER_DAY;
        }
        proof {
            assert(day_stamps(cur as int, limit as int).len() == 0);
            assert(k == all.len());
            assert(all.take(k) =~= all);
        }
        r
    }

    /// The lines of boxes to tick, four days a line.
    pub fn checkmark_lines(&self) -> (r: Vec<String>)
        requires
            tracker_in_range(self.start_date, self.end_date),
        ensures
            strings_view(r@) == checkmark_lines_of(tracker_days(self.start_date, self.end_date)),
            forall|k: int| 0 <= k < r@.len() ==> (#[trigger] r@[k])@.len() <= 42,
    {
        let days = self.days();
        let ghost ds = days@;
        let n = days.len();
        let count = n / 4 + if n % 4 == 0 { 0 } else { 1 };
        assert(count == (n + 3) / 4);
        let mut r: Vec<String> = Vec::new();
        let mut k: usize = 0;
        while k < count
            invariant
                n == ds.len(),
                ds == days@,
                count == (n + 3) / 4,
                forall|j: int| 0 <= j < n ==> 1 <= #[trigger] ds[j] <= 31,
                k <= count,
                r@.len() == k,
                forall|q: int|
                    0 <= q < r@.len() ==> (#[trigger] r@[q])@ == join_cells(
                        ds.subrange(4 * q, if 4 * q + 4 <= n { 4 * q + 4 } else { n as int }),
                    ) && r@[q]@.len() <= 42,
            decreases count - k,
        {
            let i = 4 * k;
            let end = if n - i >= 4 { i + 4 } else { n };
            let mut line = String::new();
            let mut j: usize = i;
            while j < end
                invariant
                    i < end <= n,
                    n == ds.len(),
                    end - i <= 4,
                    ds == days@,
                    forall|q: int| 0 <= q < n ==> 1 <= #[trigger] ds[q] <= 31,
                    i <= j <= end,
                    line@ == join_cells(ds.subrange(i as int, j as int)),
                decreases end - j,
            {
                if j > i {
                    push_str(&mut line, "      ");
                }
                push_cell(&mut line, days[j]);
                proof {
                    let sub = ds.subrange(i as int, j + 1);
                    assert(sub.drop_last() =~= ds.subrange(i as int, j as int));
                    assert(sub.last() == ds[j as int]);
                    if j == i {
                        assert(ds.subrange(i as int, j as int) =~= Seq::<u32>::empty());
                    }
                }
                j = j + 1;
            }
            proof {
                lemma_join_cells_len(ds.subrange(i as int, end as int));
            }
            r.push(line);
            k = k + 1;
        }
        assert(strings_view(r@) =~= checkmark_lines_of(ds));
        r
    }

    /// Lays the tracker out on `printer`: the period line (`period`, the text
    /// of the tracker's dates), the box edge, the habit, the edge again, the
    /// boxes to tick and the bottom edge of `pattern`.
    pub fn lay_out(&self, printer: &mut RongtaPrinter, period: &str, pattern: &BoxPattern)
        requires
            tracker_in_range(self.start_date, self.end_date),
            3 * (period@.len() + self.habit@.len() + pattern.top@.len() + pattern.bottom@.len())
                <= usize::MAX,
        ensures
            final(printer)@ == tracker_laid_out(
                old(printer)@,
                period@,
                self.habit@,
                pattern@,
                checkmark_lines_of(tracker_days(self.start_date, self.end_date)),
            ),
    {
        let ghost m0 = printer@;
        printer.add_new_line();
        printer.set_line_justification(Justification::Center);
        printer.set_cached_bold(true);
        proof {
            let a = m0.new_line_added();
            lemma_pending_width(m0, Justification::Center, TextSize::Medium, true);
            lemma_pending_width(a, Justification::Center, TextSize::Medium, true);
            lemma_pending_width(a.justified(Justification::Center), Justification::Center, a.text_size, true);
        }
        add_content_line(printer, period);
        self.edge(printer, pattern.top.as_str());
        printer.set_line_justification(Justification::Center);
        proof {
            lemma_pending_width(printer@, Justification::Center, TextSize::Large, printer@.bold);
        }
        printer.set_cached_text_size(TextSize::Large);
        let upper = to_ascii_uppercase(self.habit.as_str());
        add_content_line(printer, upper.as_str());
        self.edge(printer, pattern.top.as_str());
        let lines = self.checkmark_lines();
        printer.set_line_justification(Justification::Center);
        printer.set_cached_bold(true);
        printer.set_cached_text_size(TextSize::Medium);
        let ghost m3 = printer@;
        let ghost ls = strings_view(lines@);
        let mut i: usize = 0;
        while i < lines.len()
            invariant
                ls == strings_view(lines@),
                forall|k: int| 0 <= k < lines@.len() ==> (#[trigger] lines@[k])@.len() <= 42,
                i <= lines@.len(),
                printer@ == lines_added(m3, ls.take(i as int)),
                i > 0 ==> printer@.pending_width() == 0,
                i == 0 ==> printer@ == m3,
                m3.pending_width() == 0,
            decreases lines@.len() - i,
        {
            proof {
                assert(ls.take(i + 1).drop_last() =~= ls.take(i as int));
                assert(ls[i as int] == lines@[i as int]@);
            }
            add_content_line(printer, lines[i].as_str());
            i = i + 1;
        }
        proof {
            assert(ls.take(i as int) =~= ls);
        }
        printer.set_line_justification(Justification::Start);
        printer.set_cached_text_size(TextSize::Medium);
        proof {
            let q = printer@;
            lemma_pending_width(q, Justification::Start, TextSize::Medium, q.bold);
        }
        add_content_line(printer, pattern.bottom.as_str());
    }

    /// An edge of the box: start-aligned, bold, medium.
    fn edge(&self, printer: &mut RongtaPrinter, edge: &str)
        requires
            old(printer)@.pending_width() == 0,
            3 * edge@.len() <= usize::MAX,
        ensures
            final(printer)@ == box_edge(old(printer)@, edge@),
            final(printer)@.pending_width() == 0,
    {
        let ghost m = printer@;
        printer.set_line_justification(Justification::Start);
        printer.set_cached_bold(true);
        printer.set_cached_text_size(TextSize::Medium);
        proof {
            lemma_pending_width(m, Justification::Start, m.text_size, true);
            let j = m.justified(Justification::Start);
            lemma_pending_width(j, Justification::Start, j.text_size, true);
            let b = j.with_style(j.text_size, true);
            lemma_pending_width(b, Justification::Start, TextSize::Medium, true);
        }
        add_content_line(printer, edge);
    }
}

} // verus!
