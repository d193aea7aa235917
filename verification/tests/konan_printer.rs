use nara::konan::interpreter::block_adornment::{
    horizontal_rule_print_command, list_item_before_print_command, set_heading_style,
    task_list_before_print_command, HorizontalRule, ListItemBefore, OrderedListType, TaskListBefore,
};
use nara::konan::interpreter::markdown::MarkdownInterpreter;
use nara::konan::printer::element::{Justification, Line, StyledChar, TextSize, CPL};
use nara::konan::printer::page_code::{char_page_code, normalize_char, CharPageCode};
use nara::konan::printer::plan::PrintOp;
use nara::konan::printer::rongta::RongtaPrinter;

fn sc(ch: char) -> StyledChar {
    StyledChar { ch, text_size: TextSize::Medium, bold: false }
}

fn text_of(line: &Line) -> String {
    line.chars.iter().map(|c| c.ch).collect()
}

fn printed(printer: &RongtaPrinter) -> Vec<String> {
    printer.lines().iter().map(text_of).collect()
}

#[test]
fn text_sizes_scale_glyphs() {
    assert_eq!(TextSize::Medium.char_width(), 1);
    assert_eq!(TextSize::Large.char_width(), 2);
    assert_eq!(TextSize::ExtraLarge.char_width(), 3);
    assert_eq!(TextSize::default(), TextSize::Medium);
    assert_eq!(Justification::default(), Justification::Start);
}

#[test]
fn line_new_measures_its_glyphs() {
    let line = Line::new(
        vec![sc('a'), StyledChar { ch: 'b', text_size: TextSize::ExtraLarge, bold: true }],
        Justification::Center,
    );
    assert_eq!(line.cached_width, 4);
    assert_eq!(line.justification, Justification::Center);
}

#[test]
fn add_char_hard_wraps_a_word_longer_than_a_line() {
    let mut line = Line::new(vec![], Justification::Start);
    for _ in 0..CPL {
        assert!(line.add_char(sc('a')).is_none());
    }
    let next = line.add_char(sc('b')).expect("the 49th column wraps");
    assert_eq!(text_of(&line), "a".repeat(48));
    assert_eq!(text_of(&next), "b");
}

#[test]
fn add_char_wraps_at_the_last_space() {
    let mut line = Line::new(vec![], Justification::End);
    let text = format!("{} {}", "a".repeat(40), "b".repeat(8));
    let mut moved = None;
    for c in text.chars() {
        if let Some(l) = line.add_char(sc(c)) {
            moved = Some(l);
        }
    }
    let moved = moved.expect("the line overflowed");
    assert_eq!(text_of(&line), "a".repeat(40));
    assert_eq!(text_of(&moved), "b".repeat(8));
    assert_eq!(moved.justification, Justification::End);
}

#[test]
fn find_wrap_point_is_none_while_the_line_fits() {
    let line = Line::new(vec![sc('a'), sc(' '), sc('b')], Justification::Start);
    assert_eq!(line.find_wrap_point(), None);
    let full: Vec<StyledChar> = format!("{} {}", "a".repeat(40), "b".repeat(8)).chars().map(sc).collect();
    assert_eq!(Line::new(full, Justification::Start).find_wrap_point(), Some(40));
}

#[test]
fn a_cut_line_measures_what_it_kept() {
    let mut line = Line::new(vec![], Justification::Start);
    let text = format!("{} {}", "a".repeat(40), "b".repeat(8));
    for c in text.chars() {
        line.add_char(sc(c));
    }
    assert_eq!(line.cached_width, 40);
    assert!(line.add_char(sc('c')).is_none());
    assert_eq!(text_of(&line), format!("{}c", "a".repeat(40)));
    assert_eq!(line.cached_width, 41);
}

#[test]
fn a_line_emptied_by_a_wrap_takes_glyphs_again() {
    let mut line = Line::new(vec![], Justification::Start);
    let mut moved = None;
    for c in format!(" {}", "b".repeat(48)).chars() {
        if let Some(l) = line.add_char(sc(c)) {
            moved = Some(l);
        }
    }
    assert_eq!(text_of(&moved.expect("the line overflowed")), "b".repeat(48));
    assert_eq!(text_of(&line), "");
    assert_eq!(line.cached_width, 0);
    assert!(line.add_char(sc('c')).is_none());
    assert_eq!(text_of(&line), "c");
}

#[test]
fn large_glyphs_fill_a_line_sooner() {
    let mut line = Line::new(vec![], Justification::Start);
    let big = StyledChar { ch: 'x', text_size: TextSize::Large, bold: false };
    for _ in 0..24 {
        assert!(line.add_char(big).is_none());
    }
    assert!(line.add_char(big).is_some());
}

#[test]
fn page_codes() {
    assert_eq!(char_page_code('a'), Some(CharPageCode::Pc437));
    assert_eq!(char_page_code('é'), Some(CharPageCode::Pc437));
    assert_eq!(char_page_code('Ã'), Some(CharPageCode::Pc850));
    assert_eq!(char_page_code('漢'), None);
    assert_eq!(CharPageCode::default(), CharPageCode::Pc437);
}

#[test]
fn normalized_typography() {
    assert_eq!(normalize_char('\u{2019}'), Some('\''));
    assert_eq!(normalize_char('\u{201C}'), Some('"'));
    assert_eq!(normalize_char('\u{2014}'), Some('-'));
    assert_eq!(normalize_char('\u{2192}'), Some('>'));
    assert_eq!(normalize_char('a'), None);
}

#[test]
fn printer_lays_out_and_restyles() {
    let mut p = RongtaPrinter::new(true);
    assert!(p.lines().is_empty());
    p.set_cached_bold(true);
    p.add_content("hi");
    p.add_new_line();
    p.set_line_justification(Justification::Center);
    p.add_content("there");
    assert_eq!(printed(&p), vec!["hi", "there"]);
    assert!(p.lines()[0].chars.iter().all(|c| c.bold));
    assert_eq!(p.lines()[1].justification, Justification::Center);
    assert_eq!(p.pending_width(), 5);
    p.reset_cached();
    p.set_cached_text_size(TextSize::Large);
    p.add_content("!");
    assert_eq!(p.lines()[1].chars[5].text_size, TextSize::Large);
    assert!(!p.lines()[1].chars[5].bold);
    assert_eq!(p.pending_width(), 7);
    assert!(p.cut());
}

#[test]
fn print_plan_writes_then_cuts() {
    let mut p = RongtaPrinter::new(true);
    p.add_content("hi");
    let plan = p.print_plan(None);
    assert!(plan.complete);
    assert_eq!(plan.ops, vec![PrintOp::Write('h'), PrintOp::Write('i'), PrintOp::Feed, PrintOp::PrintCut]);
    let mut q = RongtaPrinter::new(false);
    q.add_content("a");
    assert_eq!(q.print_plan(None).ops.last(), Some(&PrintOp::Print));
}

#[test]
fn print_plan_switches_styles_only_when_they_change() {
    let mut p = RongtaPrinter::new(false);
    p.set_line_justification(Justification::Center);
    p.set_cached_bold(true);
    p.add_content("ab");
    p.add_new_line();
    p.add_content("c");
    let plan = p.print_plan(None);
    assert_eq!(
        plan.ops,
        vec![
            PrintOp::Justify(Justification::Center),
            PrintOp::Bold(true),
            PrintOp::Write('a'),
            PrintOp::Write('b'),
            PrintOp::Feed,
            PrintOp::Justify(Justification::Start),
            PrintOp::Write('c'),
            PrintOp::Feed,
            PrintOp::Print,
        ]
    );
}

#[test]
fn print_plan_pages_fill_with_feeds() {
    let mut p = RongtaPrinter::new(true);
    p.add_content("x");
    let plan = p.print_plan(Some(3));
    assert_eq!(
        plan.ops,
        vec![PrintOp::Write('x'), PrintOp::Feed, PrintOp::Feed, PrintOp::Feed, PrintOp::PrintCut]
    );
}

#[test]
fn print_plan_normalizes_and_switches_code_pages() {
    let mut p = RongtaPrinter::new(false);
    p.add_content("\u{2019}Ã");
    let plan = p.print_plan(None);
    assert_eq!(
        plan.ops,
        vec![
            PrintOp::Write('\''),
            PrintOp::PageCode(CharPageCode::Pc850),
            PrintOp::Write('Ã'),
            PrintOp::Feed,
            PrintOp::Print,
        ]
    );
}

#[test]
fn print_plan_stops_at_an_unprintable_glyph() {
    let mut p = RongtaPrinter::new(true);
    p.add_content("a漢b");
    let plan = p.print_plan(None);
    assert!(!plan.complete);
    assert_eq!(plan.ops, vec![PrintOp::Write('a')]);
}

#[test]
fn size_and_alignment_commands() {
    assert_eq!(TextSize::Medium.command(), vec![PrintOp::ResetSize, PrintOp::ResetLineSpacing]);
    assert_eq!(TextSize::Large.command(), vec![PrintOp::Size(2, 2), PrintOp::LineSpacing(2)]);
    assert_eq!(TextSize::ExtraLarge.command(), vec![PrintOp::Size(3, 3), PrintOp::LineSpacing(3)]);
    assert_eq!(Justification::End.command(), PrintOp::Justify(Justification::End));
}

#[test]
fn ordered_list_labels() {
    assert_eq!(OrderedListType::from("a"), OrderedListType::LowerCaseLetter);
    assert_eq!(OrderedListType::from("A"), OrderedListType::UpperCaseLetter);
    assert_eq!(OrderedListType::from("i"), OrderedListType::LowerCaseRoman);
    assert_eq!(OrderedListType::from("I"), OrderedListType::UpperCaseRoman);
    assert_eq!(OrderedListType::from("1"), OrderedListType::Number);
    assert_eq!(OrderedListType::default(), OrderedListType::Number);
    assert_eq!(ListItemBefore::ordered_before_content(3, &Some(OrderedListType::LowerCaseRoman)), "iii. ");
    assert_eq!(ListItemBefore::ordered_before_content(28, &Some(OrderedListType::UpperCaseLetter)), "AB. ");
    assert_eq!(ListItemBefore::ordered_before_content(12, &None), "12. ");
}

#[test]
fn letters_for_indices() {
    assert_eq!(ListItemBefore::letter_for_index(0, false), "");
    assert_eq!(ListItemBefore::letter_for_index(1, false), "a");
    assert_eq!(ListItemBefore::letter_for_index(26, true), "Z");
    assert_eq!(ListItemBefore::letter_for_index(27, true), "AA");
    assert_eq!(ListItemBefore::letter_for_index(702, false), "zz");
    assert_eq!(ListItemBefore::letter_for_index(703, false), "aaa");
}

#[test]
fn roman_numerals() {
    assert_eq!(ListItemBefore::roman_numeral(4, false), "iv");
    assert_eq!(ListItemBefore::roman_numeral(1994, true), "MCMXCIV");
    assert_eq!(ListItemBefore::roman_numeral(3999, true), "MMMCMXCIX");
    assert_eq!(ListItemBefore::roman_numeral(0, true), "");
    assert_eq!(ListItemBefore::roman_numeral(4000, true), "");
}

#[test]
fn list_and_task_markers_are_printed() {
    let mut p = RongtaPrinter::new(false);
    list_item_before_print_command(ListItemBefore::new_unordered(), &mut p);
    p.add_content("milk");
    p.add_new_line();
    let mut item = ListItemBefore::new_ordered(Some(OrderedListType::LowerCaseLetter));
    item.next_index(2);
    list_item_before_print_command(item, &mut p);
    p.add_new_line();
    task_list_before_print_command(TaskListBefore::new(true), &mut p);
    p.add_new_line();
    task_list_before_print_command(TaskListBefore::new(false), &mut p);
    assert_eq!(printed(&p), vec!["\u{2219} milk", "b. ", "[\u{25A0}] ", "[ ] "]);
}

#[test]
fn horizontal_rule_fills_a_line() {
    let mut p = RongtaPrinter::new(false);
    horizontal_rule_print_command(HorizontalRule::new(), &mut p);
    let lines = printed(&p);
    let rule = p.lines().iter().find(|l| !l.chars.is_empty()).expect("a rule line");
    assert!(lines.contains(&"-".repeat(12)));
    assert_eq!(rule.justification, Justification::Center);
    assert!(rule.chars.iter().all(|c| c.text_size == TextSize::Large && c.bold));
    assert_eq!(rule.cached_width, 24);
}

#[test]
fn heading_styles() {
    let mut p = RongtaPrinter::new(false);
    set_heading_style(1, &mut p);
    p.add_content("T");
    assert_eq!(p.lines()[0].chars[0].text_size, TextSize::ExtraLarge);
    assert!(p.lines()[0].chars[0].bold);
    set_heading_style(3, &mut p);
    p.add_content("u");
    assert_eq!(p.lines()[0].chars[1].text_size, TextSize::Large);
    assert!(!p.lines()[0].chars[1].bold);
}

#[test]
fn markdown_renders_paragraphs_lists_and_tasks() {
    let mut interp = MarkdownInterpreter::new(RongtaPrinter::new(true));
    let md = "Hello world\n\n- one\n- two\n\n1. first\n2. second\n\n- [x] done\n";
    assert!(interp.render_content(md));
    let lines = printed(interp.printer());
    let all = lines.join("\n");
    assert!(all.contains("Hello world"));
    assert!(all.contains("\u{2219} one"));
    assert!(all.contains("\u{2219} two"));
    assert!(all.contains("1. first"));
    assert!(all.contains("2. second"));
    assert!(all.contains("[\u{25A0}] done"));
}

fn roman_value(s: &str) -> i64 {
    let digit = |c: char| match c.to_ascii_uppercase() {
        'I' => 1,
        'V' => 5,
        'X' => 10,
        'L' => 50,
        'C' => 100,
        'D' => 500,
        'M' => 1000,
        _ => 0,
    };
    let ds: Vec<i64> = s.chars().map(digit).collect();
    let mut total = 0;
    for i in 0..ds.len() {
        if i + 1 < ds.len() && ds[i] < ds[i + 1] {
            total -= ds[i];
        } else {
            total += ds[i];
        }
    }
    total
}

#[test]
fn roman_numerals_read_back_to_their_number() {
    for n in 1..=3999u64 {
        assert_eq!(roman_value(&ListItemBefore::roman_numeral(n, n % 2 == 0)), n as i64);
    }
}

#[test]
fn roman_numerals_are_canonical_and_lowercase_is_lowered() {
    let place = |d: u64, one: &str, five: &str, ten: &str| -> String {
        match d {
            0 => String::new(),
            1..=3 => one.repeat(d as usize),
            4 => format!("{one}{five}"),
            5..=8 => format!("{five}{}", one.repeat(d as usize - 5)),
            _ => format!("{one}{ten}"),
        }
    };
    for n in 1..=3999u64 {
        let upper = ListItemBefore::roman_numeral(n, true);
        let canonical = format!(
            "{}{}{}{}",
            "M".repeat((n / 1000) as usize),
            place(n / 100 % 10, "C", "D", "M"),
            place(n / 10 % 10, "X", "L", "C"),
            place(n % 10, "I", "V", "X")
        );
        assert_eq!(upper, canonical);
        let chars: Vec<char> = upper.chars().collect();
        assert!(chars.windows(4).all(|w| !(w[0] == w[1] && w[1] == w[2] && w[2] == w[3])));
        assert_eq!(ListItemBefore::roman_numeral(n, false), upper.to_lowercase());
    }
    assert_eq!(ListItemBefore::roman_numeral(3888, true), "MMMDCCCLXXXVIII");
}

#[test]
fn letter_labels_read_back_to_their_index() {
    for n in 1..=2000u64 {
        let label = ListItemBefore::letter_for_index(n, false);
        let back = label.chars().fold(0u64, |acc, c| acc * 26 + (c as u64 - 'a' as u64 + 1));
        assert_eq!(back, n);
    }
}

#[test]
fn printer_keeps_every_non_blank_character() {
    let text = "The quick brown fox jumps over the lazy dog and keeps running far beyond the printable width of one line";
    let mut p = RongtaPrinter::new(false);
    p.add_content("lead: ");
    p.set_cached_text_size(TextSize::Large);
    p.add_content(text);
    p.add_new_line();
    p.set_line_justification(Justification::End);
    let printed: String = p.lines().iter().flat_map(|l| l.chars.iter().map(|c| c.ch)).filter(|c| !c.is_whitespace()).collect();
    let expected: String = format!("lead: {text}").chars().filter(|c| !c.is_whitespace()).collect();
    assert_eq!(printed, expected);
    assert!(p.lines().len() > 2);
    for line in p.lines() {
        let width: usize = line.chars.iter().map(|c| c.text_size.char_width()).sum();
        assert!(width <= CPL as usize);
    }
}
