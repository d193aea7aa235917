use vstd::prelude::*;
use crate::konan::printer::rongta::{PrinterModel, RongtaPrinter, lemma_pending_width};
use crate::text::{decimal, digit_char, lines, lines_of, strings_view};

pub mod box_outline;
pub mod habit_tracker;

verus! {

broadcast use vstd::string::group_string_axioms;

/// The earliest Unix second that a date-time can hold.
pub const MIN_TIMESTAMP: i64 = -8334601315200;

/// The latest Unix second that a date-time can hold.
pub const MAX_TIMESTAMP: i64 = 8210266876799;

/// Seconds in a day.
pub const SECS_PER_DAY: i64 = 86400;

/// A box drawn with three lines of text: its top edge, one row (repeated),
/// and its bottom edge.
#[derive(Debug, Clone)]
pub struct BoxPattern {
    pub top: String,
    pub row: String,
    pub bottom: String,
}

pub struct PatternModel {
    pub top: Seq<char>,
    pub row: Seq<char>,
    pub bottom: Seq<char>,
}

impl View for BoxPattern {
    type V = PatternModel;

    open spec fn view(&self) -> PatternModel {
        PatternModel { top: self.top@, row: self.row@, bottom: self.bottom@ }
    }
}

pub open spec fn patterns_view(ps: Seq<BoxPattern>) -> Seq<PatternModel> {
    ps.map_values(|p: BoxPattern| p@)
}

/// The patterns written in `text`: each takes four lines (top, row, bottom
/// and a separator); a last group of three lines counts too.
pub open spec fn box_patterns(text: Seq<char>) -> Seq<PatternModel> {
    let ls = lines_of(text);
    Seq::new(
        ((ls.len() + 1) / 4) as nat,
        |k: int| PatternModel { top: ls[4 * k], row: ls[4 * k + 1], bottom: ls[4 * k + 2] },
    )
}

/// Reads the box patterns of a pattern file.
pub fn get_box_patterns(text: &str) -> (r: Vec<BoxPattern>)
    ensures
        patterns_view(r@) == box_patterns(text@),
{
    let ls = lines(text);
    let ghost lv = strings_view(ls@);
    let n = ls.len();
    let count = n / 4 + if n % 4 == 3 { 1 } else { 0 };
    assert(count == (n + 1) / 4);
    let mut r: Vec<BoxPattern> = Vec::new();
    let mut k: usize = 0;
    while k < count
        invariant
            n == ls@.len(),
            count == (n + 1) / 4,
            lv == strings_view(ls@),
            lv == lines_of(text@),
            k <= count,
            r@.len() == k,
            forall|q: int|
                0 <= q < r@.len() ==> (#[trigger] r@[q])@ == (PatternModel {
                    top: lv[4 * q],
                    row: lv[4 * q + 1],
                    bottom: lv[4 * q + 2],
                }),
        decreases count - k,
    {
        let i = 4 * k;
        let p = BoxPattern {
            top: ls[i].clone(),
            row: ls[i + 1].clone(),
            bottom: ls[i + 2].clone(),
        };
        assert(lv[i as int] == ls@[i as int]@);
        assert(lv[i + 1] == ls@[i + 1]@);
        assert(lv[i + 2] == ls@[i + 2]@);
        r.push(p);
        k = k + 1;
    }
    assert(r@.len() == (n + 1) / 4);
    assert(patterns_view(r@) =~= box_patterns(text@));
    r
}

/// `rand::seq::IndexedRandom::choose` with the thread's generator: one of
/// the patterns, picked at random, or none when there are none. Which one
/// comes out is chance; only that it is one of them is stated.
#[verifier::external_body]
fn choose_pattern(patterns: &Vec<BoxPattern>) -> (r: Option<&BoxPattern>)
    ensures
        r is None <==> patterns@.len() == 0,
        r matches Some(p) ==> exists|i: int| 0 <= i < patterns@.len() && patterns@[i] == *p,
{
    rand::seq::IndexedRandom::choose(patterns.as_slice(), &mut rand::rng())
}

/// Why a template could not be laid out.
#[derive(Debug, Clone, Copy, PartialEq, Eq, Structural)]
pub enum TemplateError {
    /// There was no box pattern to pick from.
    NoBoxPattern,
}

impl TemplateError {
    pub fn message(&self) -> (r: String)
        ensures
            r@ == "Failed to choose a random template"@,
    {
        "Failed to choose a random template".to_string()
    }
}

/// One of the patterns, picked at random; an error when there are none.
pub fn get_random_box_pattern(patterns: &Vec<BoxPattern>) -> (r: Result<&BoxPattern, TemplateError>)
    ensures
        patterns@.len() == 0 ==> r == Err::<&BoxPattern, TemplateError>(TemplateError::NoBoxPattern),
        patterns@.len() > 0 ==> (r matches Ok(p) && exists|i: int|
            0 <= i < patterns@.len() && patterns@[i] == *p),
{
    match choose_pattern(patterns) {
        Some(p) => Ok(p),
        None => Err(TemplateError::NoBoxPattern),
    }
}

/// Adds `text` and then starts a new line.
pub(crate) fn add_content_line(printer: &mut RongtaPrinter, text: &str)
    requires
        old(printer)@.pending_width() + 3 * text@.len() <= usize::MAX,
    ensures
        final(printer)@ == old(printer)@.content_added(text@).new_line_added(),
        final(printer)@.pending_width() == 0,
{
    printer.add_content(text);
    printer.add_new_line();
    proof {
        lemma_pending_width(printer@, crate::konan::printer::element::Justification::Start, printer@.text_size, false);
    }
}

/// The day of the year, counted from March 1st, of day `doe` of a 400-year
/// cycle of the proleptic Gregorian calendar that starts on March 1st.
pub open spec fn civil_day_of_year(doe: int) -> int {
    let yoe = (doe - doe / 1460 + doe / 36524 - doe / 146096) / 365;
    doe - (365 * yoe + yoe / 4 - yoe / 100)
}

/// The day of the month of day `doy` of a year counted from March 1st.
pub open spec fn civil_day_of_month(doy: int) -> int {
    doy - (153 * ((5 * doy + 2) / 153) + 2) / 5 + 1
}

/// The days since 1970-01-01 (UTC) of Unix second `t`, rounded down.
pub open spec fn unix_day(t: i64) -> int {
    t / 86400
}

/// The year, the month (1 for January) and the day of the month of Unix day
/// `z` in the proleptic Gregorian calendar.
pub open spec fn civil_date(z: int) -> (int, int, int) {
    let days = z + 719468;
    let doe = days % 146097;
    let yoe = (doe - doe / 1460 + doe / 36524 - doe / 146096) / 365;
    let doy = civil_day_of_year(doe);
    let mp = (5 * doy + 2) / 153;
    let month = if mp < 10 {
        mp + 3
    } else {
        mp - 9
    };
    let year = yoe + 400 * (days / 146097) + if month <= 2 {
        1int
    } else {
        0int
    };
    (year, month, civil_day_of_month(doy))
}

/// The day of the month (UTC, proleptic Gregorian calendar) of Unix second `t`.
pub open spec fn day_of_month_at(t: i64) -> u32 {
    civil_date(unix_day(t)).2 as u32
}

/// The English name of weekday `w`, counted from 0 for Monday.
pub open spec fn weekday_name(w: int) -> Seq<char> {
    if w == 0 {
        "Monday"@
    } else if w == 1 {
        "Tuesday"@
    } else if w == 2 {
        "Wednesday"@
    } else if w == 3 {
        "Thursday"@
    } else if w == 4 {
        "Friday"@
    } else if w == 5 {
        "Saturday"@
    } else {
        "Sunday"@
    }
}

/// The English name of month `m`, counted from 1 for January.
pub open spec fn month_name(m: int) -> Seq<char> {
    if m == 1 {
        "January"@
    } else if m == 2 {
        "February"@
    } else if m == 3 {
        "March"@
    } else if m == 4 {
        "April"@
    } else if m == 5 {
        "May"@
    } else if m == 6 {
        "June"@
    } else if m == 7 {
        "July"@
    } else if m == 8 {
        "August"@
    } else if m == 9 {
        "September"@
    } else if m == 10 {
        "October"@
    } else if m == 11 {
        "November"@
    } else {
        "December"@
    }
}

/// `%d` of day `d`: two digits, zero-padded.
pub open spec fn day_text(d: int) -> Seq<char> {
    seq![digit_char((d / 10) as nat), digit_char((d % 10) as nat)]
}

/// `%Y` of year `y`: at least four digits, zero-padded, with a sign before a
/// year below 0 or above 9999.
pub open spec fn year_text(y: int) -> Seq<char> {
    let digits = decimal(
        if y < 0 {
            -y
        } else {
            y
        } as nat,
    );
    let padded = if digits.len() >= 4 {
        digits
    } else {
        Seq::new((4 - digits.len()) as nat, |i: int| '0') + digits
    };
    if y < 0 {
        seq!['-'] + padded
    } else if y > 9999 {
        seq!['+'] + padded
    } else {
        padded
    }
}

/// What chrono writes for the day at Unix second `t` with `%B %d, %Y`
/// (as in `January 05, 2026`).
pub open spec fn month_day_year_text(t: i64) -> Seq<char> {
    let (y, m, d) = civil_date(unix_day(t));
    month_name(m) + " "@ + day_text(d) + ", "@ + year_text(y)
}

/// What chrono writes for the day at Unix second `t` with `%A, %B %d, %Y`
/// (as in `Monday, January 05, 2026`); 1970-01-01 was a Thursday.
pub open spec fn long_date_text(t: i64) -> Seq<char> {
    weekday_name((unix_day(t) + 3) % 7) + ", "@ + month_day_year_text(t)
}

proof fn lemma_day_of_year_range(doe: int)
    requires
        0 <= doe < 146097,
    ensures
        0 <= civil_day_of_year(doe) <= 365,
{
    let yoe = (doe - doe / 1460 + doe / 36524 - doe / 146096) / 365;
    assert(0 <= civil_day_of_year(doe) <= 365) by (nonlinear_arith)
        requires
            0 <= doe < 146097,
            yoe == (doe - doe / 1460 + doe / 36524 - doe / 146096) / 365,
            civil_day_of_year(doe) == doe - (365 * yoe + yoe / 4 - yoe / 100),
    ;
}

proof fn lemma_day_of_month_range(doy: int)
    requires
        0 <= doy,
    ensures
        1 <= civil_day_of_month(doy) <= 31,
{
    let mp = (5 * doy + 2) / 153;
    assert(1 <= civil_day_of_month(doy) <= 31) by (nonlinear_arith)
        requires
            0 <= doy,
            mp == (5 * doy + 2) / 153,
            civil_day_of_month(doy) == doy - (153 * mp + 2) / 5 + 1,
    ;
}

/// Every second falls on a day of the month from 1 to 31.
pub proof fn lemma_day_of_month_at_range(t: i64)
    ensures
        1 <= day_of_month_at(t) <= 31,
{
    let days = unix_day(t) + 719468;
    lemma_day_of_year_range(days % 146097);
    lemma_day_of_month_range(civil_day_of_year(days % 146097));
}

/// `DateTime::<Utc>::from_timestamp(t, 0)` formatted with `%A, %B %d, %Y`:
/// English names, in chrono's proleptic Gregorian calendar, as
/// `long_date_text` spells it out.
#[verifier::external_body]
pub(crate) fn format_long_date(t: i64) -> (r: String)
    requires
        MIN_TIMESTAMP <= t <= MAX_TIMESTAMP,
    ensures
        r@ == long_date_text(t),
{
    match chrono::DateTime::from_timestamp(t, 0) {
        Some(d) => d.format("%A, %B %d, %Y").to_string(),
        None => String::new(),
    }
}

/// `DateTime::<Utc>::from_timestamp(t, 0)` formatted with `%B %d, %Y`, as
/// `month_day_year_text` spells it out.
#[verifier::external_body]
pub(crate) fn format_month_day_year(t: i64) -> (r: String)
    requires
        MIN_TIMESTAMP <= t <= MAX_TIMESTAMP,
    ensures
        r@ == month_day_year_text(t),
{
    match chrono::DateTime::from_timestamp(t, 0) {
        Some(d) => d.format("%B %d, %Y").to_string(),
        None => String::new(),
    }
}

/// `chrono::Datelike::day` of `DateTime::<Utc>::from_timestamp(t, 0)`: the
/// day of the month in chrono's proleptic Gregorian calendar, as
/// `day_of_month_at` counts it.
#[verifier::external_body]
pub(crate) fn day_of_month(t: i64) -> (r: u32)
    requires
        MIN_TIMESTAMP <= t <= MAX_TIMESTAMP,
    ensures
        r == day_of_month_at(t),
{
    match chrono::DateTime::from_timestamp(t, 0) {
        Some(d) => chrono::Datelike::day(&d),
        None => 1,
    }
}

/// The date line of a box outline for the day at Unix second `t`.
pub fn date_banner_text(t: i64) -> (r: String)
    requires
        MIN_TIMESTAMP <= t <= MAX_TIMESTAMP,
    ensures
        r@ == long_date_text(t),
{
    format_long_date(t)
}

} // verus!
