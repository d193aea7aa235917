use vstd::prelude::*;
use crate::text::{push_str, str_eq, strings_view};
pub use crate::cadence::database::{MAX_TIMESTAMP, MIN_TIMESTAMP};

verus! {

broadcast use vstd::string::group_string_axioms;

/// Border colour of primary embeds.
pub const COLOR_ACCENT_PRIMARY: u32 = 0x14b8a6;

/// Border colour of secondary embeds.
pub const COLOR_ACCENT_SECONDARY: u32 = 0x8b5cf6;

/// A form field that could not be read.
#[derive(Debug, Clone, PartialEq, Eq)]
pub enum FieldParseError {
    InvalidDate { field: String, value: String },
    InvalidRRule { field: String, value: String },
}

pub open spec fn field_error_message(e: FieldParseError) -> Seq<char> {
    match e {
        FieldParseError::InvalidDate { field, value } => "failed to parse `"@ + field@
            + "` as date (expected format MM-DD-YYYY, got `"@ + value@ + "`)"@,
        FieldParseError::InvalidRRule { field, value } => "failed to parse `"@ + field@
            + "` as RRULE (`"@ + value@ + "`)"@,
    }
}

impl FieldParseError {
    /// The error as shown to the user.
    pub fn message(&self) -> (r: String)
        ensures
            r@ == field_error_message(*self),
    {
        let mut r = "failed to parse `".to_string();
        match self {
            FieldParseError::InvalidDate { field, value } => {
                push_str(&mut r, field.as_str());
                push_str(&mut r, "` as date (expected format MM-DD-YYYY, got `");
                push_str(&mut r, value.as_str());
                push_str(&mut r, "`)");
            },
            FieldParseError::InvalidRRule { field, value } => {
                push_str(&mut r, field.as_str());
                push_str(&mut r, "` as RRULE (`");
                push_str(&mut r, value.as_str());
                push_str(&mut r, "`)");
            },
        }
        r
    }
}

/// What chrono makes of `value` read as `%m-%d-%Y`: the Unix second of that
/// day's midnight UTC, or nothing when `value` is no such date.
pub uninterp spec fn mdy_midnight_utc(value: Seq<char>) -> Option<i64>;

/// `chrono::NaiveDate::parse_from_str(value, "%m-%d-%Y")`, taken at midnight
/// UTC as a Unix timestamp. The result is named, not stated.
#[verifier::external_body]
fn parse_mdy_midnight(value: &str) -> (r: Option<i64>)
    ensures
        r == mdy_midnight_utc(value@),
{
    match chrono::NaiveDate::parse_from_str(value, "%m-%d-%Y") {
        Ok(date) => Some(date.and_time(chrono::NaiveTime::MIN).and_utc().timestamp()),
        Err(_) => None,
    }
}

/// The result of reading form field `field` as a date, given what the date
/// parser made of `value`.
pub fn date_from_parsed(field: &str, value: &str, parsed: Option<i64>) -> (r: Result<
    i64,
    FieldParseError,
>)
    ensures
        match parsed {
            Some(t) => r == Ok::<i64, FieldParseError>(t),
            None => r matches Err(FieldParseError::InvalidDate { field: f, value: v }) && f@
                == field@ && v@ == value@,
        },
{
    match parsed {
        Some(t) => Ok(t),
        None => Err(
            FieldParseError::InvalidDate { field: field.to_string(), value: value.to_string() },
        ),
    }
}

/// Reads a `MM-DD-YYYY` date as the Unix second of its midnight UTC.
pub fn parse_date(field: &str, value: &str) -> (r: Result<i64, FieldParseError>)
    ensures
        match mdy_midnight_utc(value@) {
            Some(t) => r == Ok::<i64, FieldParseError>(t),
            None => r matches Err(FieldParseError::InvalidDate { field: f, value: v }) && f@
                == field@ && v@ == value@,
        },
{
    let parsed = parse_mdy_midnight(value);
    date_from_parsed(field, value, parsed)
}

/// Whether `value` parses as an RRULE that validates against a series
/// starting at Unix second `start` in New York time.
pub uninterp spec fn rrule_valid_from(value: Seq<char>, start: i64) -> bool;

/// `value.parse::<rrule::RRule<Unvalidated>>()` followed by `validate` at
/// `start` in `America/New_York`: whether both succeed. The answer is named, not stated.
#[verifier::external_body]
fn rrule_accepts(value: &str, start: i64) -> (b: bool)
    requires
        MIN_TIMESTAMP <= start <= MAX_TIMESTAMP,
    ensures
        b == rrule_valid_from(value@, start),
{
    let rule: rrule::RRule<rrule::Unvalidated> = match value.parse() {
        Ok(rule) => rule,
        Err(_) => return false,
    };
    match chrono::DateTime::from_timestamp(start, 0) {
        Some(at) => rule.validate(at.with_timezone(&rrule::Tz::America__New_York)).is_ok(),
        None => false,
    }
}

/// The result of reading form field `field` as an RRULE, given whether the
/// rule checker accepted `value`: the rule's text when it did.
pub fn rrule_from_check(field: &str, value: &str, valid: bool) -> (r: Result<String, FieldParseError>)
    ensures
        valid ==> (r matches Ok(s) && s@ == value@),
        !valid ==> (r matches Err(FieldParseError::InvalidRRule { field: f, value: v }) && f@
            == field@ && v@ == value@),
{
    if valid {
        Ok(value.to_string())
    } else {
        Err(FieldParseError::InvalidRRule { field: field.to_string(), value: value.to_string() })
    }
}

/// Reads an RFC 5545 RRULE, checked against a series that starts at Unix
/// second `start`; gives back the rule's text so it can be stored.
pub fn parse_rrule(field: &str, value: &str, start: i64) -> (r: Result<String, FieldParseError>)
    requires
        MIN_TIMESTAMP <= start <= MAX_TIMESTAMP,
    ensures
        rrule_valid_from(value@, start) ==> (r matches Ok(s) && s@ == value@),
        !rrule_valid_from(value@, start) ==> (r matches Err(
            FieldParseError::InvalidRRule { field: f, value: v },
        ) && f@ == field@ && v@ == value@),
{
    let valid = rrule_accepts(value, start);
    rrule_from_check(field, value, valid)
}

/// What a button press on a paginated message does.
#[derive(Debug, Clone, Copy, PartialEq, Eq, Structural)]
pub enum PageTurn {
    /// The action at this index was chosen; pagination ends.
    Chosen(usize),
    /// Show the page at this index.
    Show(usize),
    /// Not a button of this message.
    Ignore,
}

/// `custom_id` without `prefix`, or the empty text when it does not start with it.
pub open spec fn strip_prefix(custom_id: Seq<char>, prefix: Seq<char>) -> Seq<char> {
    if prefix.len() <= custom_id.len() && custom_id.take(prefix.len() as int) == prefix {
        custom_id.skip(prefix.len() as int)
    } else {
        seq![]
    }
}

/// `i` is the first action whose id is `suffix`.
pub open spec fn first_action(ids: Seq<Seq<char>>, suffix: Seq<char>, i: int) -> bool {
    &&& 0 <= i < ids.len()
    &&& ids[i] == suffix
    &&& forall|j: int| 0 <= j < i ==> ids[j] != suffix
}

/// The page after `current`, wrapping to the first.
pub open spec fn next_page(current: nat, pages: nat) -> nat {
    ((current + 1) as nat) % pages
}

proof fn lemma_next_page(current: nat, pages: nat)
    requires
        current < pages,
    ensures
        next_page(current, pages) == if current + 1 == pages { 0 } else { current + 1 },
{
    if current + 1 == pages {
        vstd::arithmetic::div_mod::lemma_mod_self_0(pages as int);
    } else {
        vstd::arithmetic::div_mod::lemma_small_mod((current + 1) as nat, pages);
    }
}

/// The page before `current`, wrapping to the last.
pub open spec fn prev_page(current: nat, pages: nat) -> nat {
    if current == 0 {
        (pages - 1) as nat
    } else {
        (current - 1) as nat
    }
}

/// What a press with suffix `suffix` does: the first action with that id
/// ends pagination; `next` and `prev` turn the page; anything else is ignored.
pub open spec fn is_page_turn(
    t: PageTurn,
    current: nat,
    pages: nat,
    suffix: Seq<char>,
    ids: Seq<Seq<char>>,
) -> bool {
    if exists|i: int| first_action(ids, suffix, i) {
        t matches PageTurn::Chosen(i) && first_action(ids, suffix, i as int)
    } else if suffix == "next"@ {
        t matches PageTurn::Show(p) && p == next_page(current, pages)
    } else if suffix == "prev"@ {
        t matches PageTurn::Show(p) && p == prev_page(current, pages)
    } else {
        t == PageTurn::Ignore
    }
}

/// The custom id of a button: the message's prefix, then the button's own id.
pub fn button_id(prefix: &str, id: &str) -> (r: String)
    ensures
        r@ == prefix@ + id@,
{
    let mut r = prefix.to_string();
    push_str(&mut r, id);
    r
}

fn strip_prefix_exec(custom_id: &str, prefix: &str) -> (r: String)
    ensures
        r@ == strip_prefix(custom_id@, prefix@),
{
    let n = custom_id.unicode_len();
    let p = prefix.unicode_len();
    if p > n {
        return String::new();
    }
    let mut k: usize = 0;
    while k < p
        invariant
            p <= n,
            n == custom_id@.len(),
            p == prefix@.len(),
            k <= p,
            forall|j: int| 0 <= j < k ==> custom_id@[j] == prefix@[j],
        decreases p - k,
    {
        if custom_id.get_char(k) != prefix.get_char(k) {
            assert(custom_id@.take(p as int)[k as int] != prefix@[k as int]);
            return String::new();
        }
        k = k + 1;
    }
    assert(custom_id@.take(p as int) =~= prefix@);
    let mut r = String::new();
    let mut i: usize = p;
    while i < n
        invariant
            p <= i <= n,
            n == custom_id@.len(),
            r@ == custom_id@.subrange(p as int, i as int),
        decreases n - i,
    {
        crate::text::push_char(&mut r, custom_id.get_char(i));
        i = i + 1;
        assert(r@ =~= custom_id@.subrange(p as int, i as int));
    }
    assert(custom_id@.subrange(p as int, n as int) =~= custom_id@.skip(p as int));
    r
}

/// What pressing the button with `custom_id` does to a message with
/// `pages` pages, showing page `current`, whose buttons carry `prefix` and
/// whose actions have ids `action_ids`.
pub fn paginate_step(
    current: usize,
    pages: usize,
    prefix: &str,
    custom_id: &str,
    action_ids: &Vec<String>,
) -> (t: PageTurn)
    requires
        current < pages,
    ensures
        is_page_turn(
            t,
            current as nat,
            pages as nat,
            strip_prefix(custom_id@, prefix@),
            strings_view(action_ids@),
        ),
        t matches PageTurn::Show(p) ==> p < pages,
        t matches PageTurn::Chosen(i) ==> i < action_ids@.len(),
{
    let suffix = strip_prefix_exec(custom_id, prefix);
    let ghost ids = strings_view(action_ids@);
    let mut i: usize = 0;
    while i < action_ids.len()
        invariant
            i <= action_ids@.len(),
            ids == strings_view(action_ids@),
            suffix@ == strip_prefix(custom_id@, prefix@),
            forall|j: int| 0 <= j < i ==> ids[j] != suffix@,
        decreases action_ids@.len() - i,
    {
        assert(ids[i as int] == action_ids@[i as int]@);
        if str_eq(action_ids[i].as_str(), suffix.as_str()) {
            assert(first_action(ids, suffix@, i as int));
            return PageTurn::Chosen(i);
        }
        i = i + 1;
    }
    assert(!exists|j: int| first_action(ids, suffix@, j));
    if str_eq(suffix.as_str(), "next") {
        proof {
            lemma_next_page(current as nat, pages as nat);
        }
        PageTurn::Show((current + 1) % pages)
    } else if str_eq(suffix.as_str(), "prev") {
        if current == 0 {
            PageTurn::Show(pages - 1)
        } else {
            PageTurn::Show(current - 1)
        }
    } else {
        PageTurn::Ignore
    }
}

/// Turning forward then back, or back then forward, shows the same page
/// again, and every page turned to is a page of the message.
pub proof fn lemma_page_turns_undo(current: nat, pages: nat)
    requires
        current < pages,
    ensures
        next_page(current, pages) < pages,
        prev_page(current, pages) < pages,
        prev_page(next_page(current, pages), pages) == current,
        next_page(prev_page(current, pages), pages) == current,
{
    lemma_next_page(current, pages);
    lemma_next_page(prev_page(current, pages), pages);
}

/// Pressing the button made for an action chooses the first action with
/// that id.
pub proof fn lemma_action_button_chosen(
    t: PageTurn,
    current: nat,
    pages: nat,
    prefix: Seq<char>,
    ids: Seq<Seq<char>>,
    k: int,
)
    requires
        0 <= k < ids.len(),
        is_page_turn(t, current, pages, strip_prefix(prefix + ids[k], prefix), ids),
    ensures
        strip_prefix(prefix + ids[k], prefix) == ids[k],
        t matches PageTurn::Chosen(i) && i <= k && ids[i as int] == ids[k],
{
    assert((prefix + ids[k]).take(prefix.len() as int) =~= prefix);
    assert((prefix + ids[k]).skip(prefix.len() as int) =~= ids[k]);
    lemma_first_exists(ids, ids[k], k);
}

proof fn lemma_first_exists(ids: Seq<Seq<char>>, suffix: Seq<char>, k: int)
    requires
        0 <= k < ids.len(),
        ids[k] == suffix,
    ensures
        exists|i: int| first_action(ids, suffix, i),
    decreases k,
{
    if forall|j: int| 0 <= j < k ==> ids[j] != suffix {
        assert(first_action(ids, suffix, k));
    } else {
        let j = choose|j: int| 0 <= j < k && ids[j] == suffix;
        lemma_first_exists(ids, suffix, j);
    }
}

} // verus!
