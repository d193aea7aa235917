use vstd::prelude::*;
use super::{BoxPattern, PatternModel, add_content_line};
use crate::konan::printer::element::{Justification, TextSize};
use crate::konan::printer::rongta::{PrinterModel, RongtaPrinter, lemma_pending_width};
use crate::text::{dotted, replace_spaces_with_dots};

verus! {

broadcast use vstd::string::group_string_axioms;

/// A page of boxes to fill in by hand: an optional banner, an optional date
/// line, and a box with `rows` rows, every other row dotted when `lined`.
#[derive(Debug, Clone)]
pub struct BoxOutline {
    pub date: Option<i64>,
    pub banner: Option<String>,
    pub rows: u32,
    pub lined: bool,
}

impl Default for BoxOutline {
    fn default() -> (o: Self)
        ensures
            o.rows == 30,
            o.date is None,
            o.banner is None,
            !o.lined,
    {
        BoxOutline { rows: 30, date: None, banner: None, lined: false }
    }
}

pub open spec fn opt_view(s: Option<String>) -> Option<Seq<char>> {
    match s {
        Some(t) => Some(t@),
        None => None,
    }
}

pub open spec fn opt_str_view(s: Option<&str>) -> Option<Seq<char>> {
    match s {
        Some(t) => Some(t@),
        None => None,
    }
}

pub open spec fn opt_len(s: Option<Seq<char>>) -> nat {
    match s {
        Some(t) => t.len(),
        None => 0,
    }
}

/// The banner: centred, bold, large, followed by an empty line.
pub open spec fn text_banner(m: PrinterModel, banner: Option<Seq<char>>) -> PrinterModel {
    let m0 = m.with_style(TextSize::Medium, false);
    match banner {
        Some(b) => {
            let m1 = m0.justified(Justification::Center);
            let m2 = m1.with_style(m1.text_size, true);
            let m3 = m2.with_style(TextSize::Large, m2.bold);
            m3.content_added(b).new_line_added().new_line_added()
        },
        None => m0,
    }
}

/// The date line: centred and bold.
pub open spec fn date_banner(m: PrinterModel, date: Option<Seq<char>>) -> PrinterModel {
    let m0 = m.with_style(TextSize::Medium, false);
    let m1 = m0.justified(Justification::Center);
    let m2 = m1.with_style(m1.text_size, true);
    match date {
        Some(d) => m2.content_added(d).new_line_added(),
        None => m2,
    }
}

/// The text of row `i`: dotted on even rows of a lined box.
pub open spec fn row_text(row: Seq<char>, i: nat, lined: bool) -> Seq<char> {
    if lined && i % 2 == 0 {
        dotted(row)
    } else {
        row
    }
}

/// The first `count` rows of the box, each on a line of its own.
pub open spec fn rows_added(m: PrinterModel, row: Seq<char>, count: nat, lined: bool) -> PrinterModel
    decreases count,
{
    if count == 0 {
        m
    } else {
        rows_added(m, row, (count - 1) as nat, lined).content_added(
            row_text(row, (count - 1) as nat, lined),
        ).new_line_added()
    }
}

/// The box: bold top edge, the rows, the bottom edge.
pub open spec fn box_body(m: PrinterModel, p: PatternModel, rows: nat, lined: bool) -> PrinterModel {
    let m0 = m.with_style(TextSize::Medium, false);
    let m1 = m0.with_style(m0.text_size, true);
    let m2 = m1.content_added(p.top).new_line_added();
    rows_added(m2, p.row, rows, lined).content_added(p.bottom).new_line_added()
}

/// The whole outline laid out after what the printer already holds.
pub open spec fn outline_laid_out(
    m: PrinterModel,
    banner: Option<Seq<char>>,
    date: Option<Seq<char>>,
    p: PatternModel,
    rows: nat,
    lined: bool,
) -> PrinterModel {
    box_body(date_banner(text_banner(m, banner), date), p, rows, lined)
}

impl BoxOutline {
    pub fn rows(&self) -> (r: u32)
        ensures
            r == self.rows,
    {
        self.rows
    }

    pub fn lined(&self) -> (r: bool)
        ensures
            r == self.lined,
    {
        self.lined
    }

    pub fn banner(&self) -> (r: Option<String>)
        ensures
            opt_view(r) == opt_view(self.banner),
    {
        match &self.banner {
            Some(b) => Some(b.clone()),
            None => None,
        }
    }

    /// The day the date line shows, as a Unix second.
    pub fn date(&self) -> (r: Option<i64>)
        ensures
            r == self.date,
    {
        self.date
    }

    pub fn set_date_banner(&mut self, date: Option<i64>) -> (r: &mut Self)
        ensures
            *r == (BoxOutline { date, ..*old(self) }),
            *final(self) == *final(r),
    {
        self.date = date;
        self
    }

    pub fn set_banner(&mut self, message: Option<String>) -> (r: &mut Self)
        ensures
            *r == (BoxOutline { banner: message, ..*old(self) }),
            *final(self) == *final(r),
    {
        self.banner = message;
        self
    }

    pub fn set_lined(&mut self, lined: bool) -> (r: &mut Self)
        ensures
            *r == (BoxOutline { lined, ..*old(self) }),
            *final(self) == *final(r),
    {
        self.lined = lined;
        self
    }

    pub fn set_rows(&mut self, rows: u32) -> (r: &mut Self)
        ensures
            *r == (BoxOutline { rows, ..*old(self) }),
            *final(self) == *final(r),
    {
        self.rows = rows;
        self
    }

    /// Lays the outline out on `printer`: the banner, the date line
    /// (`date_text`, the text of `self.date`), then the box drawn with `pattern`.
    pub fn lay_out(&self, printer: &mut RongtaPrinter, date_text: Option<&str>, pattern: &BoxPattern)
        requires
            old(printer)@.pending_width() + 3 * (opt_len(opt_view(self.banner)) + opt_len(
                opt_str_view(date_text),
            ) + pattern.top@.len() + pattern.row@.len() + pattern.bottom@.len()) <= usize::MAX,
        ensures
            final(printer)@ == outline_laid_out(
                old(printer)@,
                opt_view(self.banner),
                opt_str_view(date_text),
                pattern@,
                self.rows as nat,
                self.lined,
            ),
    {
        let ghost start = printer@;
        let ghost total = opt_len(opt_view(self.banner)) + opt_len(opt_str_view(date_text))
            + pattern.top@.len() + pattern.row@.len() + pattern.bottom@.len();
        // banner
        printer.reset_cached();
        proof {
            lemma_pending_width(start, Justification::Center, TextSize::Medium, false);
        }
        match &self.banner {
            Some(b) => {
                printer.set_line_justification(Justification::Center);
                proof {
                    lemma_pending_width(
                        start.with_style(TextSize::Medium, false),
                        Justification::Center,
                        TextSize::Medium,
                        false,
                    );
                }
                printer.set_cached_bold(true);
                printer.set_cached_text_size(TextSize::Large);
                add_content_line(printer, b.as_str());
                printer.add_new_line();
            },
            None => {},
        }
        let ghost after_banner = printer@;
        assert(after_banner == text_banner(start, opt_view(self.banner)));
        assert(after_banner.pending_width() <= start.pending_width()) by {
            lemma_pending_width(after_banner, Justification::Center, TextSize::Medium, false);
            lemma_pending_width(printer@, Justification::Center, TextSize::Medium, false);
        }
        // date
        printer.reset_cached();
        printer.set_line_justification(Justification::Center);
        printer.set_cached_bold(true);
        proof {
            lemma_pending_width(after_banner, Justification::Center, TextSize::Medium, false);
            lemma_pending_width(
                after_banner.with_style(TextSize::Medium, false),
                Justification::Center,
                TextSize::Medium,
                true,
            );
            let j = after_banner.with_style(TextSize::Medium, false).justified(Justification::Center);
            lemma_pending_width(j, Justification::Center, j.text_size, true);
        }
        match date_text {
            Some(d) => {
                add_content_line(printer, d);
            },
            None => {},
        }
        let ghost after_date = printer@;
        assert(after_date == date_banner(after_banner, opt_str_view(date_text)));
        // box
        printer.reset_cached();
        printer.set_cached_bold(true);
        proof {
            lemma_pending_width(after_date, Justification::Center, TextSize::Medium, false);
            lemma_pending_width(
                after_date.with_style(TextSize::Medium, false),
                Justification::Center,
                TextSize::Medium,
                true,
            );
        }
        add_content_line(printer, pattern.top.as_str());
        let ghost m2 = printer@;
        let dotted_row = replace_spaces_with_dots(pattern.row.as_str());
        let mut i: u32 = 0;
        while i < self.rows
            invariant
                i <= self.rows,
                printer@ == rows_added(m2, pattern.row@, i as nat, self.lined),
                printer@.pending_width() == 0,
                dotted_row@ == dotted(pattern.row@),
                3 * pattern.row@.len() <= usize::MAX,
            decreases self.rows - i,
        {
            if self.lined && i % 2 == 0 {
                add_content_line(printer, dotted_row.as_str());
            } else {
                add_content_line(printer, pattern.row.as_str());
            }
            i = i + 1;
        }
        add_content_line(printer, pattern.bottom.as_str());
    }
}

} // verus!
