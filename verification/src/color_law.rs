//! Color only adds escape codes: removing them from a colored rendering
//! gives the plain one.

use vstd::prelude::*;
use crate::ansi::{
    adds_codes, csi_closed, lemma_adds_codes_concat, lemma_adds_codes_concat3,
    lemma_adds_codes_text, lemma_colored_adds_codes, lemma_styles_add_codes, strip_csi,
};
use crate::events::{MdEvent, MdTag, MdTagEnd, heading_level};
use crate::laws::plain_theme;
use crate::model::{
    FormatFlag, RenderModel, event_escape_free, events_escape_free, flag_styles, initial,
    item_indent, last_link, lemma_step_escape_free, quote_prefix, rendered, run,
    table_draws_plain, tables_draw_plain,
};
use crate::text::{
    after_newlines, decimal, escape_free, indented, lemma_concat_escape_free,
    lemma_decimal_escape_free, lemma_indented_escape_free, lemma_repeat_escape_free, repeat,
};
use crate::theme::{ThemeModel, rule_char};

verus! {

/// `e` would write a style into the table cell under collection: a link
/// ends inside a cell, or a styled element starts or inline code comes in a
/// cell outside any table.
pub open spec fn cell_styled(m: RenderModel, e: MdEvent) -> bool {
    &&& m.text_buf is Some
    &&& {
        ||| e == MdEvent::End(MdTagEnd::Link)
        ||| !m.in_table() && (e matches MdEvent::Start(MdTag::Strong) || e matches MdEvent::Start(
            MdTag::Emphasis,
        ) || e matches MdEvent::Code(_))
    }
}

/// The plain rendering's state before the `k`-th event.
pub open spec fn plain_state(events: Seq<MdEvent>, widths: Seq<usize>, k: int) -> RenderModel {
    run(initial(plain_theme()), events.take(k), widths.take(k))
}

/// No event writes a style into a table cell.
pub open spec fn styles_stay_out_of_cells(events: Seq<MdEvent>, widths: Seq<usize>) -> bool {
    forall|k: int|
        0 <= k < events.len() ==> !cell_styled(plain_state(events, widths, k), #[trigger] events[k])
}

/// A colored state and a plain one that differ only in their theme and in
/// the escape codes of the colored output.
pub open spec fn related(mc: RenderModel, mp: RenderModel) -> bool {
    &&& mc.theme.color
    &&& mc.theme.palette_ok()
    &&& !mp.theme.color
    &&& mp.escape_free()
    &&& mc.flags == mp.flags
    &&& mc.table == mp.table
    &&& mc.lists == mp.lists
    &&& mc.text_buf == mp.text_buf
    &&& mc.code_buf == mp.code_buf
    &&& mc.code_lang == mp.code_lang
    &&& mc.quote_depth == mp.quote_depth
    &&& strip_csi(mc.output) == mp.output
    &&& csi_closed(mc.output)
}

proof fn lemma_closed_append(a: Seq<char>, b: Seq<char>)
    requires
        csi_closed(a),
        csi_closed(b),
    ensures
        csi_closed(a + b),
        strip_csi(a + b) == strip_csi(a) + strip_csi(b),
{
    assert(strip_csi(a + b) == strip_csi(a) + strip_csi(b));
    assert forall|c: Seq<char>| #[trigger] strip_csi((a + b) + c) == strip_csi(a + b) + strip_csi(
        c,
    ) by {
        assert((a + b) + c =~= a + (b + c));
        assert(strip_csi(a + (b + c)) == strip_csi(a) + strip_csi(b + c));
        assert(strip_csi(b + c) == strip_csi(b) + strip_csi(c));
        assert(strip_csi(a) + (strip_csi(b) + strip_csi(c)) =~= (strip_csi(a) + strip_csi(b))
            + strip_csi(c));
    }
}

/// Writing `sc` to the colored output and `sp` to the plain one keeps them
/// related.
proof fn lemma_write_related(mc: RenderModel, mp: RenderModel, sc: Seq<char>, sp: Seq<char>)
    requires
        strip_csi(mc.output) == mp.output,
        csi_closed(mc.output),
        mc.quote_depth == mp.quote_depth,
        adds_codes(sc, sp),
    ensures
        strip_csi(mc.emit_raw(sc).output) == mp.emit_raw(sp).output,
        csi_closed(mc.emit_raw(sc).output),
{
    let prefix = quote_prefix(mc.quote_depth);
    assert(escape_free(seq!['>', ' ']));
    lemma_repeat_escape_free(seq!['>', ' '], mc.quote_depth);
    let x = after_newlines(sc, prefix);
    assert(strip_csi(x) == after_newlines(sp, prefix));
    assert(csi_closed(x));
    lemma_closed_append(mc.output, x);
}

/// Writing the same escape-free text to both keeps them related.
proof fn lemma_write_same(mc: RenderModel, mp: RenderModel, s: Seq<char>)
    requires
        related(mc, mp),
        escape_free(s),
    ensures
        strip_csi(mc.emit_raw(s).output) == mp.emit_raw(s).output,
        csi_closed(mc.emit_raw(s).output),
{
    lemma_adds_codes_text(s);
    lemma_write_related(mc, mp, s, s);
}

/// Writing codes only to the colored output keeps the outputs related.
proof fn lemma_write_codes(mc: RenderModel, mp: RenderModel, sc: Seq<char>)
    requires
        related(mc, mp),
        adds_codes(sc, Seq::empty()),
    ensures
        strip_csi(mc.emit_raw(sc).output) == mp.output,
        csi_closed(mc.emit_raw(sc).output),
{
    lemma_write_related(mc, mp, sc, Seq::empty());
    assert(after_newlines(Seq::<char>::empty(), quote_prefix(mp.quote_depth)) =~= Seq::<
        char,
    >::empty());
    assert(mp.emit_raw(Seq::empty()).output =~= mp.output);
}

/// With color on, the styles of open flags disappear whole.
proof fn lemma_flag_styles_add_codes(t: ThemeModel, flags: Seq<FormatFlag>)
    requires
        t.color,
        t.palette_ok(),
    ensures
        adds_codes(flag_styles(t, flags), Seq::empty()),
    decreases flags.len(),
{
    lemma_styles_add_codes(t);
    if flags.len() == 0 {
        assert(escape_free(Seq::<char>::empty()));
        lemma_adds_codes_text(Seq::empty());
    } else {
        lemma_flag_styles_add_codes(t, flags.drop_last());
        let last = flags.last();
        let style = crate::model::flag_style(t, last);
        assert(adds_codes(style, Seq::empty())) by {
            match last {
                FormatFlag::Link(_) => {
                    assert(escape_free(Seq::<char>::empty()));
                    lemma_adds_codes_text(Seq::empty());
                },
                _ => {},
            }
        }
        lemma_adds_codes_concat(
            flag_styles(t, flags.drop_last()),
            Seq::empty(),
            style,
            Seq::empty(),
        );
        assert(Seq::<char>::empty() + Seq::<char>::empty() =~= Seq::<char>::empty());
    }
}

/// The reset and the open styles disappear whole.
proof fn lemma_reapply_codes(t: ThemeModel, flags: Seq<FormatFlag>)
    requires
        t.color,
        t.palette_ok(),
    ensures
        adds_codes(t.reset() + flag_styles(t, flags), Seq::empty()),
{
    lemma_styles_add_codes(t);
    lemma_flag_styles_add_codes(t, flags);
    lemma_adds_codes_concat(t.reset(), Seq::empty(), flag_styles(t, flags), Seq::empty());
    assert(Seq::<char>::empty() + Seq::<char>::empty() =~= Seq::<char>::empty());
}

/// The start of an element keeps the states related.
proof fn lemma_start_related(mc: RenderModel, mp: RenderModel, tag: MdTag)
    requires
        related(mc, mp),
        event_escape_free(MdEvent::Start(tag)),
        !cell_styled(mp, MdEvent::Start(tag)),
    ensures
        related(mc.start(tag), mp.start(tag)),
{
    broadcast use lemma_concat_escape_free;

    let tc = mc.theme;
    let tp = mp.theme;
    lemma_styles_add_codes(tc);
    lemma_step_escape_free(mp, MdEvent::Start(tag), 0);
    assert(mp.step(MdEvent::Start(tag), 0) == mp.start(tag));
    assert(escape_free(Seq::<char>::empty()));
    lemma_adds_codes_text(Seq::empty());
    match tag {
        MdTag::Heading(level) => {
            let n = heading_level(level);
            let hashes = repeat(seq!['#'], n as nat) + seq![' '];
            assert(escape_free(seq!['#']));
            assert(escape_free(seq![' ']));
            lemma_repeat_escape_free(seq!['#'], n as nat);
            lemma_adds_codes_text(hashes);
            lemma_adds_codes_concat(tc.heading_style(n), Seq::empty(), hashes, hashes);
            assert(tp.heading_style(n) =~= Seq::<char>::empty());
            assert(tc.heading_style(n) + repeat(seq!['#'], n as nat) + seq![' '] =~= tc.heading_style(n) + hashes);
            assert(tp.heading_style(n) + repeat(seq!['#'], n as nat) + seq![' '] =~= Seq::<char>::empty() + hashes);
            let fc = FormatFlag::Heading(n);
            lemma_write_related(mc.push_flag(fc), mp.push_flag(fc), tc.heading_style(n) + hashes, Seq::<char>::empty() + hashes);
        },
        MdTag::Strong | MdTag::Emphasis => {
            let strong = (tag is Strong);
            let f = if strong { FormatFlag::Bold } else { FormatFlag::Italic };
            let style = if strong { tc.bold_style() } else { tc.italic_style() };
            if !mc.in_table() {
                assert(mc.text_buf is None);
                assert(tp.bold_style() =~= Seq::<char>::empty());
                assert(tp.italic_style() =~= Seq::<char>::empty());
                lemma_write_codes(mc.push_flag(f), mp.push_flag(f), style);
                assert(after_newlines(Seq::<char>::empty(), quote_prefix(mp.quote_depth)) =~= Seq::<char>::empty());
                assert(mp.push_flag(f).emit(Seq::empty()).output =~= mp.output);
            }
        },
        MdTag::BlockQuote => {
            let text = seq!['>', ' '];
            assert(escape_free(text));
            lemma_adds_codes_text(text);
            lemma_adds_codes_concat(tc.blockquote_style(), Seq::empty(), text, text);
            assert(tp.blockquote_style() =~= Seq::<char>::empty());
            assert(Seq::<char>::empty() + text =~= tp.blockquote_style() + text);
            let f = FormatFlag::BlockQuote;
            lemma_write_related(mc.push_flag(f), mp.push_flag(f), tc.blockquote_style() + text, tp.blockquote_style() + text);
        },
        MdTag::Item => {
            let depth = mc.lists.len();
            if depth > 0 {
                assert(escape_free(seq![' ', ' ']));
                lemma_repeat_escape_free(seq![' ', ' '], (depth - 1) as nat);
                match mc.lists.last() {
                    Some(n) => {
                        lemma_decimal_escape_free(n as nat);
                        assert(escape_free(seq!['.', ' ']));
                        let s = item_indent(depth) + decimal(n as nat) + seq!['.', ' '];
                        let lists = mc.lists.update(depth - 1, Some(crate::model::next_number(n)));
                        lemma_write_same(RenderModel { lists, ..mc }, RenderModel { lists, ..mp }, s);
                    },
                    None => {
                        assert(escape_free(seq!['•', ' ']));
                        lemma_write_same(mc, mp, item_indent(depth) + seq!['•', ' ']);
                    },
                }
            }
        },
        _ => {},
    }
}

/// The end of an element keeps the states related.
proof fn lemma_end_related(mc: RenderModel, mp: RenderModel, tag: MdTagEnd)
    requires
        related(mc, mp),
        !cell_styled(mp, MdEvent::End(tag)),
        tag == MdTagEnd::Table ==> table_draws_plain(mc),
    ensures
        related(mc.end(tag), mp.end(tag)),
{
    broadcast use lemma_concat_escape_free;

    let tc = mc.theme;
    let tp = mp.theme;
    lemma_styles_add_codes(tc);
    if tag == MdTagEnd::Table && mp.table is Some {
        let t = mp.table.unwrap();
        assert(escape_free(t.text()));
    }
    lemma_step_escape_free(mp, MdEvent::End(tag), 0);
    assert(mp.step(MdEvent::End(tag), 0) == mp.end(tag));
    assert(tp.reset() =~= Seq::<char>::empty());
    let nl = seq!['\n'];
    assert(escape_free(nl));
    lemma_adds_codes_text(nl);
    match tag {
        MdTagEnd::Heading | MdTagEnd::BlockQuote => {
            lemma_adds_codes_concat(tc.reset(), Seq::empty(), nl, nl);
            assert(Seq::<char>::empty() + nl =~= tp.reset() + nl);
            let k = if tag == MdTagEnd::Heading {
                crate::model::FlagKind::Heading
            } else {
                crate::model::FlagKind::BlockQuote
            };
            let d = if tag == MdTagEnd::Heading {
                mc.quote_depth
            } else {
                crate::model::shallower(mc.quote_depth)
            };
            let mc2 = RenderModel { quote_depth: d, ..mc.drop_flags(k) };
            let mp2 = RenderModel { quote_depth: d, ..mp.drop_flags(k) };
            lemma_write_related(mc2, mp2, tc.reset() + nl, tp.reset() + nl);
            if tag == MdTagEnd::Heading {
                assert(mc2 == mc.drop_flags(k));
                assert(mp2 == mp.drop_flags(k));
            }
        },
        MdTagEnd::Paragraph => {
            assert(escape_free(seq!['\n', '\n']));
            lemma_write_same(mc, mp, seq!['\n', '\n']);
        },
        MdTagEnd::Strong | MdTagEnd::Emphasis => {
            let k = if tag == MdTagEnd::Strong {
                crate::model::FlagKind::Bold
            } else {
                crate::model::FlagKind::Italic
            };
            if !mc.in_table() {
                let mc2 = mc.drop_flags(k);
                lemma_reapply_codes(tc, mc2.flags);
                lemma_write_codes(mc2, mp.drop_flags(k), tc.reset() + flag_styles(tc, mc2.flags));
            }
        },
        MdTagEnd::CodeBlock => {
            match mc.code_buf {
                Some(code) => {
                    lemma_indented_escape_free(code);
                    lemma_adds_codes_text(indented(code));
                    lemma_colored_adds_codes(tc, tc.green, indented(code), indented(code));
                    lemma_adds_codes_concat(tc.code_block(code), indented(code), nl, nl);
                    let mc2 = RenderModel { code_buf: None, ..mc };
                    let mp2 = RenderModel { code_buf: None, ..mp };
                    lemma_write_related(mc2, mp2, tc.code_block(code) + nl, tp.code_block(code) + nl);
                },
                None => {},
            }
        },
        MdTagEnd::List => {
            let lists = if mc.lists.len() > 0 {
                mc.lists.drop_last()
            } else {
                mc.lists
            };
            lemma_write_same(RenderModel { lists, ..mc }, RenderModel { lists, ..mp }, nl);
        },
        MdTagEnd::Item => {
            lemma_write_same(mc, mp, nl);
        },
        MdTagEnd::Table => {
            match mc.table {
                Some(t) => {
                    let text = t.text() + nl;
                    lemma_write_same(RenderModel { table: None, ..mc }, RenderModel { table: None, ..mp }, text);
                },
                None => {},
            }
        },
        MdTagEnd::Link => {
            let k = crate::model::FlagKind::Link;
            match last_link(mc.flags) {
                Some(url) => {
                    assert(mc.text_buf is None);
                    crate::model::lemma_last_link_escape_free(mp.flags);
                    let open = seq![' '];
                    let middle = seq!['('] + url + seq![')'];
                    assert(escape_free(open));
                    assert(escape_free(middle));
                    lemma_adds_codes_text(open);
                    lemma_adds_codes_text(middle);
                    lemma_adds_codes_concat3(open, open, tc.link_url_style(), Seq::empty(), middle, middle);
                    lemma_adds_codes_concat(open + tc.link_url_style() + middle, open + Seq::empty() + middle, tc.reset(), Seq::empty());
                    let sc = seq![' '] + tc.link_url_style() + seq!['('] + url + seq![')'] + tc.reset();
                    let sp = seq![' '] + tp.link_url_style() + seq!['('] + url + seq![')'] + tp.reset();
                    assert(sc =~= open + tc.link_url_style() + middle + tc.reset());
                    assert(tp.link_url_style() =~= Seq::<char>::empty());
                    assert(sp =~= open + Seq::empty() + middle + Seq::empty());
                    let mc2 = mc.drop_flags(k);
                    let mp2 = mp.drop_flags(k);
                    lemma_write_related(mc2, mp2, sc, sp);
                    let mc3 = mc2.emit(sc);
                    let mp3 = mp2.emit(sp);
                    assert(mc3 == mc2.emit_raw(sc));
                    assert(mp3 == mp2.emit_raw(sp));
                    lemma_reapply_codes(tc, mc3.flags);
                    assert(related(mc3, RenderModel { ..mp3 })) by {
                        lemma_step_escape_free(mp, MdEvent::End(tag), 0);
                    }
                    lemma_write_codes(mc3, mp3, tc.reset() + flag_styles(tc, mc3.flags));
                },
                None => {},
            }
        },
        _ => {},
    }
}

/// One event keeps the states related.
proof fn lemma_step_related(mc: RenderModel, mp: RenderModel, e: MdEvent, rule_width: usize)
    requires
        related(mc, mp),
        event_escape_free(e),
        !cell_styled(mp, e),
        e == MdEvent::End(MdTagEnd::Table) ==> table_draws_plain(mc),
    ensures
        related(mc.step(e, rule_width), mp.step(e, rule_width)),
{
    broadcast use lemma_concat_escape_free;

    let tc = mc.theme;
    let tp = mp.theme;
    lemma_styles_add_codes(tc);
    lemma_step_escape_free(mp, e, rule_width);
    match e {
        MdEvent::Start(tag) => {
            lemma_start_related(mc, mp, tag);
        },
        MdEvent::End(tag) => {
            lemma_end_related(mc, mp, tag);
        },
        MdEvent::Text(text) => {
            if mc.code_buf is None && mc.text_buf is None {
                lemma_write_same(mc, mp, text@);
            }
        },
        MdEvent::Code(text) => {
            if mc.text_buf is None {
                if mc.in_table() {
                    lemma_write_same(mc, mp, text@);
                } else {
                    lemma_adds_codes_text(text@);
                    lemma_colored_adds_codes(tc, tc.green, text@, text@);
                    lemma_write_related(mc, mp, tc.inline_code(text@), tp.inline_code(text@));
                }
            }
        },
        MdEvent::SoftBreak => {
            if mc.text_buf is None && mc.code_buf is None {
                assert(escape_free(seq![' ']));
                lemma_write_same(mc, mp, seq![' ']);
            }
        },
        MdEvent::HardBreak => {
            if mc.text_buf is None && mc.code_buf is None {
                assert(escape_free(seq!['\n']));
                lemma_write_same(mc, mp, seq!['\n']);
            }
        },
        MdEvent::Rule => {
            let line = repeat(rule_char(), rule_width as nat);
            assert(escape_free(rule_char()));
            lemma_repeat_escape_free(rule_char(), rule_width as nat);
            lemma_adds_codes_text(line);
            lemma_colored_adds_codes(tc, tc.dark_grey, line, line);
            let nl = seq!['\n'];
            assert(escape_free(nl));
            lemma_adds_codes_text(nl);
            lemma_adds_codes_concat(tc.rule_line(rule_width as nat), line, nl, nl);
            lemma_write_related(mc, mp, tc.rule_line(rule_width as nat) + nl, tp.rule_line(rule_width as nat) + nl);
        },
        _ => {},
    }
}

proof fn lemma_run_related(
    theme: ThemeModel,
    events: Seq<MdEvent>,
    widths: Seq<usize>,
)
    requires
        theme.color,
        theme.palette_ok(),
        events_escape_free(events),
        widths.len() == events.len(),
        tables_draw_plain(theme, events, widths),
        styles_stay_out_of_cells(events, widths),
    ensures
        related(run(initial(theme), events, widths), run(initial(plain_theme()), events, widths)),
    decreases events.len(),
{
    if events.len() == 0 {
        assert(escape_free(Seq::<char>::empty()));
        lemma_adds_codes_text(Seq::empty());
        assert(initial(plain_theme()).escape_free());
    } else {
        let n = events.len() - 1;
        let front = events.drop_last();
        let wfront = widths.drop_last();
        assert(events_escape_free(front)) by {
            assert forall|i: int| 0 <= i < front.len() implies event_escape_free(#[trigger] front[i]) by {
                assert(front[i] == events[i]);
            }
        }
        assert(tables_draw_plain(theme, front, wfront)) by {
            assert forall|k: int|
                0 <= k < front.len() && #[trigger] front[k] == MdEvent::End(MdTagEnd::Table) implies table_draws_plain(
                run(initial(theme), front.take(k), wfront.take(k)),
            ) by {
                assert(front[k] == events[k]);
                assert(front.take(k) =~= events.take(k));
                assert(wfront.take(k) =~= widths.take(k));
            }
        }
        assert(styles_stay_out_of_cells(front, wfront)) by {
            assert forall|k: int| 0 <= k < front.len() implies !cell_styled(
                plain_state(front, wfront, k),
                #[trigger] front[k],
            ) by {
                assert(front[k] == events[k]);
                assert(front.take(k) =~= events.take(k));
                assert(wfront.take(k) =~= widths.take(k));
                assert(!cell_styled(plain_state(events, widths, k), events[k]));
            }
        }
        lemma_run_related(theme, front, wfront);
        let mc = run(initial(theme), front, wfront);
        let mp = run(initial(plain_theme()), front, wfront);
        assert(events.take(n) =~= front);
        assert(widths.take(n) =~= wfront);
        assert(!cell_styled(plain_state(events, widths, n), events[n]));
        assert(events.last() == events[n]);
        assert(event_escape_free(events[n]));
        lemma_step_related(mc, mp, events.last(), widths.last());
    }
}

/// Color only adds escape codes: for a document whose text holds no
/// escape character and where no style is written into a table cell (no
/// link ends inside a cell), in a colored run whose tables draw without
/// one (each rendering states this of its own run), removing the ANSI
/// control sequences from the colored rendering gives the plain rendering
/// with the same rule widths.
pub proof fn law_color_only_adds_escape_codes(
    theme: ThemeModel,
    events: Seq<MdEvent>,
    widths: Seq<usize>,
)
    requires
        theme.color,
        theme.palette_ok(),
        events_escape_free(events),
        widths.len() == events.len(),
        tables_draw_plain(theme, events, widths),
        styles_stay_out_of_cells(events, widths),
    ensures
        strip_csi(rendered(theme, events, widths)) == rendered(plain_theme(), events, widths),
{
    lemma_run_related(theme, events, widths);
}

} // verus!
