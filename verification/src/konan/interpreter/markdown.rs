use vstd::prelude::*;
use pulldown_cmark::{Event, Options, Parser, Tag, TagEnd};
use crate::konan::printer::element::{Justification, TextSize};
use crate::konan::printer::rongta::{PrinterModel, RongtaPrinter, empty_line, lemma_pending_width};
use crate::text::lemma_decimal_len;
use super::block_adornment::{
    HorizontalRule, ListItemBefore, TaskListBefore, checkbox, heading_style, lemma_heading_styles,
    horizontal_rule_print_command, list_item_before_print_command, ordered_content, rule_content,
    set_heading_style, task_list_before_print_command,
};

verus! {

/// The start of a markdown element, as far as printing cares.
#[derive(Clone, Copy, Debug, PartialEq, Eq, Structural)]
pub enum MdTag {
    Paragraph,
    Heading(u8),
    BlockQuote,
    CodeBlock,
    List(Option<u64>),
    Item,
    Strong,
    Other,
}

/// The end of a markdown element, as far as printing cares.
#[derive(Clone, Copy, Debug, PartialEq, Eq, Structural)]
pub enum MdTagEnd {
    Paragraph,
    Heading,
    BlockQuote,
    CodeBlock,
    List,
    Item,
    Other,
}

/// One markdown parser event; the ones that printing ignores are `Other`.
#[derive(Clone, Debug)]
pub enum MdEvent {
    Start(MdTag),
    End(MdTagEnd),
    Text(String),
    SoftBreak,
    HardBreak,
    Rule,
    TaskListMarker(bool),
    Other,
}

/// The plain-value picture of a parser event.
pub enum MdEventModel {
    Start(MdTag),
    End(MdTagEnd),
    Text(Seq<char>),
    SoftBreak,
    HardBreak,
    Rule,
    TaskListMarker(bool),
    Other,
}

impl View for MdEvent {
    type V = MdEventModel;

    open spec fn view(&self) -> MdEventModel {
        match self {
            MdEvent::Start(t) => MdEventModel::Start(*t),
            MdEvent::End(t) => MdEventModel::End(*t),
            MdEvent::Text(s) => MdEventModel::Text(s@),
            MdEvent::SoftBreak => MdEventModel::SoftBreak,
            MdEvent::HardBreak => MdEventModel::HardBreak,
            MdEvent::Rule => MdEventModel::Rule,
            MdEvent::TaskListMarker(c) => MdEventModel::TaskListMarker(*c),
            MdEvent::Other => MdEventModel::Other,
        }
    }
}

pub open spec fn events_model(events: Seq<MdEvent>) -> Seq<MdEventModel> {
    events.map_values(|e: MdEvent| e@)
}

#[verifier::external_type_specification]
#[verifier::external_body]
pub struct ExEvent<'a>(Event<'a>);

#[verifier::external_type_specification]
#[verifier::external_body]
pub struct ExTag<'a>(Tag<'a>);

#[verifier::external_type_specification]
#[verifier::external_body]
pub struct ExTagEnd(TagEnd);

/// The events that `pulldown_cmark` yields for a markdown text, in the
/// library's own event type.
pub uninterp spec fn markdown_events(text: Seq<char>) -> Seq<MdEventModel>;

/// `pulldown_cmark::Parser::new_ext` with task lists enabled, run to the end:
/// the events of `markdown`, each turned one for one into an `MdEvent`. Which
/// events come out is the parser's business; the contract only names them.
#[verifier::external_body]
fn parse_markdown(markdown: &str) -> (events: Vec<MdEvent>)
    ensures
        events_model(events@) == markdown_events(markdown@),
{
    Parser::new_ext(markdown, Options::ENABLE_TASKLISTS).map(md_event).collect()
}

/// Turns a `pulldown_cmark::Event` into an `MdEvent`, one variant each.
#[verifier::external_body]
fn md_event(event: Event<'_>) -> MdEvent {
    match event {
        Event::Start(tag) => MdEvent::Start(md_tag(tag)),
        Event::End(tag) => MdEvent::End(md_tag_end(tag)),
        Event::Text(text) => MdEvent::Text(text.to_string()),
        Event::SoftBreak => MdEvent::SoftBreak,
        Event::HardBreak => MdEvent::HardBreak,
        Event::Rule => MdEvent::Rule,
        Event::TaskListMarker(checked) => MdEvent::TaskListMarker(checked),
        _ => MdEvent::Other,
    }
}

/// Turns a `pulldown_cmark::Tag` into an `MdTag`, one variant each.
#[verifier::external_body]
fn md_tag(tag: Tag<'_>) -> MdTag {
    match tag {
        Tag::Paragraph => MdTag::Paragraph,
        Tag::Heading { level, .. } => MdTag::Heading(level as u8),
        Tag::BlockQuote(_) => MdTag::BlockQuote,
        Tag::CodeBlock(_) => MdTag::CodeBlock,
        Tag::List(start) => MdTag::List(start),
        Tag::Item => MdTag::Item,
        Tag::Strong => MdTag::Strong,
        _ => MdTag::Other,
    }
}

/// Turns a `pulldown_cmark::TagEnd` into an `MdTagEnd`, one variant each.
#[verifier::external_body]
fn md_tag_end(tag: TagEnd) -> MdTagEnd {
    match tag {
        TagEnd::Paragraph => MdTagEnd::Paragraph,
        TagEnd::Heading(_) => MdTagEnd::Heading,
        TagEnd::BlockQuote(_) => MdTagEnd::BlockQuote,
        TagEnd::CodeBlock => MdTagEnd::CodeBlock,
        TagEnd::List(_) => MdTagEnd::List,
        TagEnd::Item => MdTagEnd::Item,
        _ => MdTagEnd::Other,
    }
}

/// The plain-value picture of the interpreter: its printer and, for each open
/// list, the number of its next item (`None` for a bulleted list).
pub struct MarkdownModel {
    pub printer: PrinterModel,
    pub list_indices: Seq<Option<u64>>,
}

/// Renders markdown onto a `RongtaPrinter`.
pub struct MarkdownInterpreter {
    printer: RongtaPrinter,
    list_indices: Vec<Option<u64>>,
}

impl View for MarkdownInterpreter {
    type V = MarkdownModel;

    closed spec fn view(&self) -> MarkdownModel {
        MarkdownModel { printer: self.printer@, list_indices: self.list_indices@ }
    }
}

/// The marker of a bulleted item.
pub open spec fn bullet() -> Seq<char> {
    seq!['\u{2219}', ' ']
}

/// Adding a list-item marker: start-aligned, medium bold.
pub open spec fn with_marker(p: PrinterModel, content: Seq<char>) -> PrinterModel {
    p.justified(Justification::Start).with_style(TextSize::Medium, true).content_added(content)
}

/// The number of the next item of the innermost list, when it is numbered.
pub open spec fn current_index(indices: Seq<Option<u64>>) -> Option<u64> {
    if indices.len() == 0 {
        None
    } else {
        indices.last()
    }
}

/// What the start of an element does.
pub open spec fn tag_start(m: MarkdownModel, tag: MdTag) -> MarkdownModel {
    match tag {
        MdTag::Paragraph => MarkdownModel {
            printer: m.printer.new_line_added().with_style(TextSize::Medium, false),
            ..m
        },
        MdTag::Heading(level) => MarkdownModel {
            printer: m.printer.new_line_added().with_style(
                heading_style(level).0,
                heading_style(level).1,
            ),
            ..m
        },
        MdTag::BlockQuote | MdTag::CodeBlock => MarkdownModel {
            printer: m.printer.new_line_added().with_style(TextSize::Medium, true),
            ..m
        },
        MdTag::List(start) => MarkdownModel {
            printer: m.printer.new_line_added(),
            list_indices: m.list_indices.push(start),
        },
        MdTag::Item => match current_index(m.list_indices) {
            Some(i) => MarkdownModel {
                printer: with_marker(m.printer, ordered_content(i as nat, None)),
                list_indices: m.list_indices.update(
                    m.list_indices.len() - 1,
                    Some((i + 1) as u64),
                ),
            },
            None => MarkdownModel { printer: with_marker(m.printer, bullet()), ..m },
        },
        MdTag::Strong => MarkdownModel {
            printer: m.printer.with_style(m.printer.text_size, true),
            ..m
        },
        MdTag::Other => m,
    }
}

/// What one event does.
pub open spec fn event_step(m: MarkdownModel, e: MdEventModel) -> MarkdownModel {
    match e {
        MdEventModel::Start(tag) => tag_start(m, tag),
        MdEventModel::End(tag) => match tag {
            MdTagEnd::List => MarkdownModel {
                printer: m.printer.new_line_added(),
                list_indices: if m.list_indices.len() > 0 {
                    m.list_indices.drop_last()
                } else {
                    m.list_indices
                },
            },
            MdTagEnd::Other => m,
            _ => MarkdownModel { printer: m.printer.new_line_added(), ..m },
        },
        MdEventModel::Text(s) => MarkdownModel { printer: m.printer.content_added(s), ..m },
        MdEventModel::SoftBreak => MarkdownModel { printer: m.printer.new_line_added(), ..m },
        MdEventModel::HardBreak => MarkdownModel {
            printer: m.printer.new_line_added().new_line_added(),
            ..m
        },
        MdEventModel::Rule => MarkdownModel {
            printer: m.printer.new_line_added().with_style(TextSize::Large, true).justified(
                Justification::Center,
            ).content_added(rule_content()).new_line_added(),
            ..m
        },
        MdEventModel::TaskListMarker(checked) => MarkdownModel {
            printer: m.printer.with_style(TextSize::Medium, true).content_added(checkbox(checked)),
            ..m
        },
        MdEventModel::Other => m,
    }
}

/// What the events do, one after the other.
pub open spec fn events_run(m: MarkdownModel, es: Seq<MdEventModel>) -> MarkdownModel
    decreases es.len(),
{
    if es.len() == 0 {
        m
    } else {
        event_step(events_run(m, es.drop_last()), es.last())
    }
}

/// Most characters an event adds to the printer.
pub open spec fn event_cost(e: MdEventModel) -> nat {
    match e {
        MdEventModel::Text(s) => s.len(),
        MdEventModel::Start(MdTag::Item) => 22,
        MdEventModel::Rule => 12,
        MdEventModel::TaskListMarker(_) => 4,
        _ => 0,
    }
}

pub open spec fn events_cost(es: Seq<MdEventModel>) -> nat
    decreases es.len(),
{
    if es.len() == 0 {
        0
    } else {
        events_cost(es.drop_last()) + event_cost(es.last())
    }
}

/// Every list number stays below `u64::MAX` even if `slack` items follow.
pub open spec fn indices_room(indices: Seq<Option<u64>>, slack: nat) -> bool {
    forall|k: int|
        0 <= k < indices.len() ==> (#[trigger] indices[k] matches Some(n) ==> n + slack
            <= u64::MAX)
}

/// Every list that the events open starts low enough to number `slack` items.
pub open spec fn starts_room(es: Seq<MdEventModel>, slack: nat) -> bool {
    forall|k: int|
        0 <= k < es.len() ==> (#[trigger] es[k] matches MdEventModel::Start(
            MdTag::List(Some(n)),
        ) ==> n + slack <= u64::MAX)
}

/// The events can be rendered without the running width of a line or a list
/// number overflowing.
pub open spec fn fits(m: MarkdownModel, es: Seq<MdEventModel>) -> bool {
    &&& m.printer.pending_width() + 3 * events_cost(es) <= usize::MAX
    &&& indices_room(m.list_indices, es.len())
    &&& starts_room(es, es.len())
}

pub proof fn lemma_events_cost_prefix(es: Seq<MdEventModel>, i: int)
    requires
        0 <= i < es.len(),
    ensures
        events_cost(es.take(i + 1)) == events_cost(es.take(i)) + event_cost(es[i]),
        events_cost(es.take(i + 1)) <= events_cost(es),
{
    assert(es.take(i + 1).drop_last() =~= es.take(i));
    lemma_events_cost_mono(es, i + 1);
}

pub proof fn lemma_events_cost_mono(es: Seq<MdEventModel>, i: int)
    requires
        0 <= i <= es.len(),
    ensures
        events_cost(es.take(i)) <= events_cost(es),
    decreases es.len() - i,
{
    if i == es.len() {
        assert(es.take(i) =~= es);
    } else {
        lemma_events_cost_mono(es.drop_last(), i);
        assert(es.drop_last().take(i) =~= es.take(i));
    }
}

impl MarkdownInterpreter {
    /// An interpreter that renders onto `printer`, with no list open.
    pub fn new(printer: RongtaPrinter) -> (m: Self)
        ensures
            m@ == (MarkdownModel { printer: printer@, list_indices: Seq::empty() }),
    {
        Self { printer, list_indices: Vec::new() }
    }

    /// The printer rendered onto.
    pub fn printer(&self) -> (p: &RongtaPrinter)
        ensures
            p@ == self@.printer,
    {
        &self.printer
    }

    /// What the start of an element does: paragraphs, headings, quotes and code
    /// blocks start a new line in their style, lists open a numbering, items
    /// print their marker, strong text turns bold.
    pub fn handle_tag_start(&mut self, tag: &MdTag)
        requires
            old(self)@.printer.pending_width() + 3 * event_cost(MdEventModel::Start(*tag))
                <= usize::MAX,
            current_index(old(self)@.list_indices) matches Some(i) ==> i < u64::MAX,
        ensures
            final(self)@ == tag_start(old(self)@, *tag),
            final(self)@.printer.pending_width() <= old(self)@.printer.pending_width() + 3
                * event_cost(MdEventModel::Start(*tag)),
    {
        proof {
            lemma_pending_width(self@.printer, Justification::Start, TextSize::Medium, true);
            lemma_pending_width(
                self@.printer.new_line_added(),
                Justification::Start,
                TextSize::Medium,
                false,
            );
        }
        match tag {
            MdTag::Paragraph => {
                self.printer.add_new_line();
                self.printer.reset_cached();
            },
            MdTag::Heading(level) => {
                self.printer.add_new_line();
                set_heading_style(*level, &mut self.printer);
            },
            MdTag::BlockQuote | MdTag::CodeBlock => {
                self.printer.add_new_line();
                self.printer.reset_cached();
                self.printer.set_cached_bold(true);
            },
            MdTag::List(ordered_start) => {
                self.list_indices.push(*ordered_start);
                self.printer.add_new_line();
            },
            MdTag::Item => {
                let n = self.list_indices.len();
                let current = if n == 0 {
                    None
                } else {
                    self.list_indices[n - 1]
                };
                let before = match current {
                    Some(i) => {
                        let mut b = ListItemBefore::new_ordered(None);
                        b.next_index(i);
                        self.list_indices.set(n - 1, Some(i + 1));
                        proof {
                            lemma_decimal_len(i as nat);
                        }
                        b
                    },
                    None => ListItemBefore::new_unordered(),
                };
                list_item_before_print_command(before, &mut self.printer);
            },
            MdTag::Strong => {
                self.printer.set_cached_bold(true);
            },
            MdTag::Other => {},
        }
    }

    /// What one event does: element starts and ends, text, line breaks, rules
    /// and task-list checkboxes are rendered; other events are ignored.
    pub fn handle_event(&mut self, event: &MdEvent)
        requires
            old(self)@.printer.pending_width() + 3 * event_cost(event@) <= usize::MAX,
            current_index(old(self)@.list_indices) matches Some(i) ==> i < u64::MAX,
        ensures
            final(self)@ == event_step(old(self)@, event@),
            final(self)@.printer.pending_width() <= old(self)@.printer.pending_width() + 3
                * event_cost(event@),
    {
        proof {
            lemma_pending_width(self@.printer, Justification::Start, TextSize::Medium, true);
        }
        match event {
            MdEvent::Start(tag) => self.handle_tag_start(tag),
            MdEvent::End(tag) => match tag {
                MdTagEnd::List => {
                    self.list_indices.pop();
                    self.printer.add_new_line();
                },
                MdTagEnd::Other => {},
                _ => {
                    self.printer.add_new_line();
                },
            },
            MdEvent::Text(text) => {
                self.printer.add_content(text.as_str());
            },
            MdEvent::SoftBreak => {
                self.printer.add_new_line();
            },
            MdEvent::HardBreak => {
                self.printer.add_new_line();
                self.printer.add_new_line();
            },
            MdEvent::Rule => {
                let r = HorizontalRule::new();
                horizontal_rule_print_command(r, &mut self.printer);
            },
            MdEvent::TaskListMarker(checked) => {
                let before = TaskListBefore::new(*checked);
                task_list_before_print_command(before, &mut self.printer);
            },
            MdEvent::Other => {},
        }
    }

    /// Renders the events in order.
    pub fn render_events(&mut self, events: &Vec<MdEvent>)
        requires
            fits(old(self)@, events_model(events@)),
        ensures
            final(self)@ == events_run(old(self)@, events_model(events@)),
    {
        let ghost es = events_model(events@);
        let ghost p0 = self@.printer.pending_width();
        let mut i: usize = 0;
        while i < events.len()
            invariant
                es == events_model(events@),
                i <= es.len(),
                self@ == events_run(old(self)@, es.take(i as int)),
                self@.printer.pending_width() <= p0 + 3 * events_cost(es.take(i as int)),
                p0 + 3 * events_cost(es) <= usize::MAX,
                indices_room(self@.list_indices, (es.len() - i) as nat),
                starts_room(es, es.len()),
            decreases es.len() - i,
        {
            proof {
                lemma_events_cost_prefix(es, i as int);
                assert(es[i as int] == events@[i as int]@);
                if let Some(k) = current_index(self@.list_indices) {
                    assert(self@.list_indices[self@.list_indices.len() - 1] == Some(k));
                }
            }
            let ghost before = self@;
            self.handle_event(&events[i]);
            proof {
                assert(es.take(i as int + 1).drop_last() =~= es.take(i as int));
                lemma_step_room(before, es[i as int], (es.len() - i - 1) as nat, es);
            }
            i = i + 1;
        }
        proof {
            assert(es.take(i as int) =~= es);
        }
    }

    /// Parses `markdown` and renders its events, if that can be done without
    /// the running width of a line or a list number overflowing; returns
    /// whether it did (when not, nothing changes).
    pub fn render_content(&mut self, markdown: &str) -> (rendered: bool)
        ensures
            rendered == fits(old(self)@, markdown_events(markdown@)),
            rendered ==> final(self)@ == events_run(old(self)@, markdown_events(markdown@)),
            !rendered ==> final(self)@ == old(self)@,
    {
        let events = parse_markdown(markdown);
        if self.fits_events(&events) {
            self.render_events(&events);
            true
        } else {
            false
        }
    }

    /// Whether `events` can be rendered now without overflow.
    fn fits_events(&self, events: &Vec<MdEvent>) -> (b: bool)
        ensures
            b == fits(self@, events_model(events@)),
    {
        let ghost es = events_model(events@);
        let n = events.len();
        let pending = self.printer.pending_width();
        let mut cost: usize = 0;
        let mut i: usize = 0;
        while i < n
            invariant
                es == events_model(events@),
                n == es.len(),
                i <= n,
                cost == events_cost(es.take(i as int)),
                pending == self@.printer.pending_width(),
                pending + 3 * cost <= usize::MAX,
                forall|k: int|
                    0 <= k < i ==> (#[trigger] es[k] matches MdEventModel::Start(
                        MdTag::List(Some(s)),
                    ) ==> s + n <= u64::MAX),
            decreases n - i,
        {
            proof {
                lemma_events_cost_prefix(es, i as int);
                assert(es[i as int] == events@[i as int]@);
            }
            let c: usize = match &events[i] {
                MdEvent::Text(t) => t.as_str().unicode_len(),
                MdEvent::Start(MdTag::Item) => 22,
                MdEvent::Rule => 12,
                MdEvent::TaskListMarker(_) => 4,
                _ => 0,
            };
            if let MdEvent::Start(MdTag::List(Some(s))) = &events[i] {
                if *s as u128 + n as u128 > u64::MAX as u128 {
                    return false;
                }
            }
            if c > (usize::MAX - pending) / 3 - cost {
                proof {
                    lemma_events_cost_mono(es, i as int + 1);
                }
                return false;
            }
            cost = cost + c;
            assert(es.take(i as int + 1).drop_last() =~= es.take(i as int));
            i = i + 1;
        }
        proof {
            assert(es.take(i as int) =~= es);
        }
        assert(starts_room(es, es.len()));
        assert(pending + 3 * events_cost(es) <= usize::MAX);
        let indices = &self.list_indices;
        let mut j: usize = 0;
        while j < indices.len()
            invariant
                j <= indices@.len(),
                indices@ == self@.list_indices,
                es == events_model(events@),
                n == es.len(),
                fits(self@, es) <== indices_room(self@.list_indices, n as nat),
                indices_room(self@.list_indices, n as nat) ==> fits(self@, es),
                forall|k: int|
                    0 <= k < j ==> (#[trigger] indices@[k] matches Some(v) ==> v + n <= u64::MAX),
            decreases indices@.len() - j,
        {
            if let Some(v) = indices[j] {
                if v as u128 + n as u128 > u64::MAX as u128 {
                    assert(!(indices@[j as int] matches Some(w) ==> w + n <= u64::MAX));
                    return false;
                }
            }
            j = j + 1;
        }
        true
    }
}

/// After one event, every list number still has room for the items that can follow.
pub proof fn lemma_step_room(m: MarkdownModel, e: MdEventModel, slack: nat, es: Seq<MdEventModel>)
    requires
        indices_room(m.list_indices, slack + 1),
        es.contains(e),
        starts_room(es, es.len()),
        slack < es.len(),
    ensures
        indices_room(event_step(m, e).list_indices, slack),
{
    let next = event_step(m, e).list_indices;
    assert forall|k: int| 0 <= k < next.len() implies (#[trigger] next[k] matches Some(n) ==> n
        + slack <= u64::MAX) by {
        if k < m.list_indices.len() {
            assert(m.list_indices[k] matches Some(n) ==> n + slack + 1 <= u64::MAX);
        } else {
            let w = choose|w: int| 0 <= w < es.len() && es[w] == e;
            assert(es[w] matches MdEventModel::Start(MdTag::List(Some(n))) ==> n + es.len()
                <= u64::MAX);
        }
    }
}

/// The end of a list item starts a new line: the printer gets one more line,
/// an empty one, and keeps its lines, style and open lists otherwise; so the
/// marker of the next item never lands on the line of the item before.
pub proof fn lemma_item_end_breaks_line(m: MarkdownModel)
    ensures
        ({
            let n = event_step(m, MdEventModel::End(MdTagEnd::Item));
            &&& n.printer.lines == m.printer.lines.push(empty_line())
            &&& n.printer.lines.last().chars.len() == 0
            &&& n.printer.text_size == m.printer.text_size
            &&& n.printer.bold == m.printer.bold
            &&& n.printer.cut == m.printer.cut
            &&& n.list_indices == m.list_indices
        }),
{
}

/// Strong emphasis turns bold on and changes nothing else: the text added
/// after it is bold, in the size it had.
pub proof fn lemma_strong_turns_bold(m: MarkdownModel)
    ensures
        ({
            let n = tag_start(m, MdTag::Strong);
            &&& n.printer.bold
            &&& n.printer.text_size == m.printer.text_size
            &&& n.printer.lines == m.printer.lines
            &&& n.printer.cut == m.printer.cut
            &&& n.list_indices == m.list_indices
        }),
{
}

/// A list numbers its items from the number it starts at: opening a list
/// that starts at `n` and then an item prints the marker `n. ` (a bullet for
/// a bulleted list) on a fresh line, and leaves `n + 1` for the next item.
pub proof fn lemma_list_starts_at(m: MarkdownModel, start: Option<u64>)
    requires
        start matches Some(n) ==> n < u64::MAX,
    ensures
        tag_start(m, MdTag::List(start)).list_indices == m.list_indices.push(start),
        current_index(tag_start(m, MdTag::List(start)).list_indices) == start,
        tag_start(m, MdTag::List(start)).printer.lines == m.printer.lines.push(empty_line()),
        start matches Some(n) ==> tag_start(tag_start(m, MdTag::List(start)), MdTag::Item) == (
        MarkdownModel {
            printer: with_marker(m.printer.new_line_added(), ordered_content(n as nat, None)),
            list_indices: m.list_indices.push(Some((n + 1) as u64)),
        }),
        start is None ==> tag_start(tag_start(m, MdTag::List(start)), MdTag::Item) == (
        MarkdownModel {
            printer: with_marker(m.printer.new_line_added(), bullet()),
            list_indices: m.list_indices.push(None),
        }),
{
    let opened = m.list_indices.push(start);
    assert(opened.update(opened.len() - 1, Some((start->0 + 1) as u64)) =~= m.list_indices.push(
        Some((start->0 + 1) as u64),
    ));
}

/// A heading starts a line of its own in its level's style: bold at every
/// level but 3, extra large at level 1, large at levels 2 and 3, body size
/// below.
pub proof fn lemma_heading_starts_line(m: MarkdownModel, level: u8)
    ensures
        ({
            let n = tag_start(m, MdTag::Heading(level));
            &&& n.printer.lines == m.printer.lines.push(empty_line())
            &&& n.printer.bold <==> level != 3
            &&& level == 1 ==> n.printer.text_size == TextSize::ExtraLarge
            &&& (level == 2 || level == 3) ==> n.printer.text_size == TextSize::Large
            &&& (level == 0 || level >= 4) ==> n.printer.text_size == TextSize::Medium
            &&& n.list_indices == m.list_indices
        }),
{
    lemma_heading_styles(level);
}

} // verus!
