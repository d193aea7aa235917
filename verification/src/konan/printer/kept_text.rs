use vstd::prelude::*;
use super::element::{
    Justification, LineModel, StyledChar, TextSize, is_whitespace, lemma_add_char_keeps_glyphs,
    lemma_model_add_char_fits, model_add_char, seq_width,
};
use super::rongta::{PrinterModel, empty_line, push_glyph, push_glyphs};

verus! {

/// All glyphs of `lines`, line after line.
pub open spec fn printed_glyphs(lines: Seq<LineModel>) -> Seq<StyledChar>
    decreases lines.len(),
{
    if lines.len() == 0 {
        seq![]
    } else {
        printed_glyphs(lines.drop_last()) + lines.last().chars
    }
}

/// The characters of the glyphs that are not white space, in order.
pub open spec fn visible_glyphs(s: Seq<StyledChar>) -> Seq<char>
    decreases s.len(),
{
    if s.len() == 0 {
        seq![]
    } else {
        visible_glyphs(s.drop_last()) + if is_whitespace(s.last().ch) {
            Seq::<char>::empty()
        } else {
            seq![s.last().ch]
        }
    }
}

/// The characters of `t` that are not white space, in order.
pub open spec fn visible_text(t: Seq<char>) -> Seq<char>
    decreases t.len(),
{
    if t.len() == 0 {
        seq![]
    } else {
        visible_text(t.drop_last()) + if is_whitespace(t.last()) {
            Seq::<char>::empty()
        } else {
            seq![t.last()]
        }
    }
}

/// The non-blank characters that the printer holds.
pub open spec fn visible_content(m: PrinterModel) -> Seq<char> {
    visible_glyphs(printed_glyphs(m.lines))
}

proof fn lemma_visible_concat(a: Seq<StyledChar>, b: Seq<StyledChar>)
    ensures
        visible_glyphs(a + b) == visible_glyphs(a) + visible_glyphs(b),
    decreases b.len(),
{
    if b.len() == 0 {
        assert(a + b =~= a);
        assert(visible_glyphs(a) + visible_glyphs(b) =~= visible_glyphs(a));
    } else {
        lemma_visible_concat(a, b.drop_last());
        assert((a + b).drop_last() =~= a + b.drop_last());
        assert((a + b).last() == b.last());
        let tail = if is_whitespace(b.last().ch) {
            Seq::<char>::empty()
        } else {
            seq![b.last().ch]
        };
        assert(visible_glyphs(a) + visible_glyphs(b.drop_last()) + tail =~= visible_glyphs(a) + (
        visible_glyphs(b.drop_last()) + tail));
    }
}

proof fn lemma_push_glyph_visible(lines: Seq<LineModel>, c: StyledChar)
    requires
        lines.len() >= 1,
        seq_width(lines.last().chars) <= lines.last().cached_width,
    ensures
        push_glyph(lines, c).len() >= 1,
        seq_width(push_glyph(lines, c).last().chars) <= push_glyph(lines, c).last().cached_width,
        visible_glyphs(printed_glyphs(push_glyph(lines, c))) == visible_glyphs(printed_glyphs(lines))
            + visible_glyphs(Seq::<StyledChar>::empty().push(c)),
{
    let last = lines.last();
    let pre = lines.drop_last();
    let (kept, moved) = model_add_char(last, c);
    lemma_add_char_keeps_glyphs(last, c);
    lemma_model_add_char_fits(last, c);
    let rest = match moved {
        Some(m) => m.chars,
        None => Seq::<StyledChar>::empty(),
    };
    let one = Seq::<StyledChar>::empty().push(c);
    let pushed = last.chars.push(c);
    assert(pushed =~= last.chars + one);
    lemma_visible_concat(last.chars, one);
    lemma_visible_concat(kept.chars, rest);
    let pv = visible_glyphs(printed_glyphs(pre));
    let lv = visible_glyphs(last.chars);
    let kv = visible_glyphs(kept.chars);
    let rv = visible_glyphs(rest);
    let cv = visible_glyphs(one);
    if kept.chars + rest == pushed {
        assert(kv + rv == lv + cv);
    } else {
        let w = Seq::<StyledChar>::empty().push(pushed[kept.chars.len() as int]);
        lemma_visible_concat(kept.chars, w);
        lemma_visible_concat(kept.chars + w, rest);
        assert(w.drop_last() =~= Seq::<StyledChar>::empty());
        assert(visible_glyphs(Seq::<StyledChar>::empty()) == Seq::<char>::empty());
        assert(w.last() == pushed[kept.chars.len() as int]);
        assert(visible_glyphs(w) =~= Seq::<char>::empty());
        assert(visible_glyphs(kept.chars + w) =~= kv);
        assert(kept.chars + seq![pushed[kept.chars.len() as int]] == kept.chars + w);
        assert(kv + rv == lv + cv);
    }
    assert(lines.drop_last() == pre);
    assert(printed_glyphs(lines) == printed_glyphs(pre) + last.chars);
    lemma_visible_concat(printed_glyphs(pre), last.chars);
    let kept_lines = pre.push(kept);
    assert(kept_lines.drop_last() =~= pre);
    assert(printed_glyphs(kept_lines) == printed_glyphs(pre) + kept.chars);
    lemma_visible_concat(printed_glyphs(pre), kept.chars);
    let after = push_glyph(lines, c);
    match moved {
        Some(m) => {
            let all = kept_lines.push(m);
            assert(all.drop_last() =~= kept_lines);
            assert(after == all);
            assert(printed_glyphs(all) == printed_glyphs(kept_lines) + m.chars);
            lemma_visible_concat(printed_glyphs(kept_lines), m.chars);
            assert(visible_glyphs(printed_glyphs(after)) == pv + kv + rv);
        },
        None => {
            assert(after == kept_lines);
            assert(rv =~= Seq::<char>::empty());
            assert(visible_glyphs(printed_glyphs(after)) =~= pv + kv + rv);
        },
    }
    assert(pv + kv + rv =~= pv + (kv + rv));
    assert(pv + (lv + cv) =~= (pv + lv) + cv);
}

proof fn lemma_one_glyph_visible(c: char, size: TextSize, bold: bool)
    ensures
        visible_glyphs(Seq::<StyledChar>::empty().push(StyledChar { ch: c, text_size: size, bold: bold }))
            == if is_whitespace(c) {
            Seq::<char>::empty()
        } else {
            seq![c]
        },
{
    let one = Seq::<StyledChar>::empty().push(StyledChar { ch: c, text_size: size, bold: bold });
    assert(one.drop_last() =~= Seq::<StyledChar>::empty());
    assert(visible_glyphs(Seq::<StyledChar>::empty()) == Seq::<char>::empty());
    assert(one.last().ch == c);
    assert(visible_glyphs(one) =~= if is_whitespace(c) {
        Seq::<char>::empty()
    } else {
        seq![c]
    });
}

proof fn lemma_push_glyphs_visible(lines: Seq<LineModel>, t: Seq<char>, size: TextSize, bold: bool)
    requires
        lines.len() >= 1,
        seq_width(lines.last().chars) <= lines.last().cached_width,
    ensures
        push_glyphs(lines, t, size, bold).len() >= 1,
        seq_width(push_glyphs(lines, t, size, bold).last().chars) <= push_glyphs(
            lines,
            t,
            size,
            bold,
        ).last().cached_width,
        visible_glyphs(printed_glyphs(push_glyphs(lines, t, size, bold))) == visible_glyphs(
            printed_glyphs(lines),
        ) + visible_text(t),
    decreases t.len(),
{
    if t.len() == 0 {
        assert(visible_glyphs(printed_glyphs(lines)) + visible_text(t) =~= visible_glyphs(
            printed_glyphs(lines),
        ));
    } else {
        let sc = StyledChar { ch: t.last(), text_size: size, bold: bold };
        lemma_one_glyph_visible(t.last(), size, bold);
        let before = push_glyphs(lines, t.drop_last(), size, bold);
        lemma_push_glyphs_visible(lines, t.drop_last(), size, bold);
        lemma_push_glyph_visible(before, sc);
        let tail = if is_whitespace(t.last()) {
            Seq::<char>::empty()
        } else {
            seq![t.last()]
        };
        assert(visible_text(t) == visible_text(t.drop_last()) + tail);
        assert(visible_glyphs(printed_glyphs(lines)) + visible_text(t.drop_last()) + tail
            =~= visible_glyphs(printed_glyphs(lines)) + visible_text(t));
    }
}

/// Text added to the printer is all kept, but for the white space that a
/// line is wrapped at: the non-blank characters afterwards are those before
/// followed by the non-blank characters of the text. Starting a line,
/// aligning it or changing the style keeps them as they are.
pub proof fn lemma_printer_keeps_text(
    m: PrinterModel,
    t: Seq<char>,
    j: Justification,
    size: TextSize,
    bold: bool,
)
    requires
        m.wf(),
    ensures
        visible_content(m.content_added(t)) == visible_content(m) + visible_text(t),
        visible_content(m.new_line_added()) == visible_content(m),
        visible_content(m.justified(j)) == visible_content(m),
        visible_content(m.with_style(size, bold)) == visible_content(m),
{
    let ls = m.started();
    if m.lines.len() == 0 {
        let one = seq![empty_line()];
        assert(one.drop_last() =~= Seq::<LineModel>::empty());
        assert(printed_glyphs(Seq::<LineModel>::empty()) == Seq::<StyledChar>::empty());
        assert(one.last() == empty_line());
        assert(printed_glyphs(one) =~= Seq::<StyledChar>::empty());
        assert(seq_width(empty_line().chars) == 0);
    } else {
        assert(ls.last() == m.lines[m.lines.len() - 1]);
    }
    assert(printed_glyphs(ls) == printed_glyphs(m.lines));
    lemma_push_glyphs_visible(ls, t, m.text_size, m.bold);
    let nl = m.lines.push(empty_line());
    assert(nl.drop_last() =~= m.lines);
    assert(printed_glyphs(nl) =~= printed_glyphs(m.lines));
    let last = ls.last();
    let upd = ls.update(
        ls.len() - 1,
        LineModel { chars: last.chars, justification: j, cached_width: last.cached_width },
    );
    assert(upd.drop_last() =~= ls.drop_last());
    assert(printed_glyphs(upd) == printed_glyphs(ls));
}

} // verus!
