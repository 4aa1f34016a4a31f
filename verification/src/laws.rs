//! Properties of the renderer over whole documents.

use vstd::prelude::*;
use crate::events::{MdEvent, MdHeadingLevel, MdTag, MdTagEnd, spec_heading_level};
use crate::model::{
    FlagKind, FormatFlag, RenderModel, flag_style, flag_styles, initial, quote_prefix, rendered,
    run, without,
};
use crate::table::TableModel;
use crate::text::{after_newlines, decimal, escape_char, repeat};
use crate::theme::{
    ThemeAttribute, ThemeColor, ThemeModel, attribute_sequence, bare_sequence,
    foreground_sequence, reset_color_sequence,
};

verus! {

proof fn lemma_prefix_trans(a: Seq<char>, b: Seq<char>, c: Seq<char>)
    requires
        a.is_prefix_of(b),
        b.is_prefix_of(c),
    ensures
        a.is_prefix_of(c),
{
    assert forall|i: int| 0 <= i < a.len() implies a[i] == c.subrange(0, a.len() as int)[i] by {
        assert(a[i] == b.subrange(0, a.len() as int)[i]);
        assert(b[i] == c.subrange(0, b.len() as int)[i]);
    }
}

proof fn lemma_append_prefix(a: Seq<char>, s: Seq<char>)
    ensures
        a.is_prefix_of(a + s),
{
    assert(a =~= (a + s).subrange(0, a.len() as int));
}

proof fn lemma_emit_extends(m: RenderModel, s: Seq<char>)
    ensures
        m.output.is_prefix_of(m.emit(s).output),
        m.output.is_prefix_of(m.emit_raw(s).output),
{
    lemma_append_prefix(m.output, s);
    assert(m.output.is_prefix_of(m.output));
}

proof fn lemma_reapply_extends(m: RenderModel)
    ensures
        m.output.is_prefix_of(m.reapply().output),
{
    lemma_emit_extends(m, m.theme.reset());
    lemma_emit_extends(m, m.theme.reset() + crate::model::flag_styles(m.theme, m.flags));
    assert(m.output.is_prefix_of(m.output));
}

/// One step keeps everything written so far, at its place.
proof fn lemma_step_extends(m: RenderModel, e: MdEvent, rule_width: usize)
    ensures
        m.output.is_prefix_of(m.step(e, rule_width).output),
{
    assert(m.output.is_prefix_of(m.output));
    match e {
        MdEvent::Start(tag) => {
            match tag {
                MdTag::Item => {
                    let depth = m.lists.len();
                    if depth > 0 {
                        match m.lists.last() {
                            Some(n) => {
                                let m2 = RenderModel {
                                    lists: m.lists.update(
                                        depth - 1,
                                        Some(crate::model::next_number(n)),
                                    ),
                                    ..m
                                };
                                lemma_emit_extends(
                                    m2,
                                    crate::model::item_indent(depth) + crate::text::decimal(
                                        n as nat,
                                    ) + seq!['.', ' '],
                                );
                            },
                            None => {
                                lemma_emit_extends(
                                    m,
                                    crate::model::item_indent(depth) + seq!['•', ' '],
                                );
                            },
                        }
                    }
                },
                MdTag::Heading(level) => {
                    let n = crate::events::heading_level(level);
                    let m2 = m.push_flag(crate::model::FormatFlag::Heading(n));
                    lemma_emit_extends(
                        m2,
                        m.theme.heading_style(n) + crate::text::repeat(seq!['#'], n as nat) + seq![' '],
                    );
                },
                MdTag::Strong => {
                    lemma_emit_extends(m.push_flag(crate::model::FormatFlag::Bold), m.theme.bold_style());
                },
                MdTag::Emphasis => {
                    lemma_emit_extends(
                        m.push_flag(crate::model::FormatFlag::Italic),
                        m.theme.italic_style(),
                    );
                },
                MdTag::BlockQuote => {
                    lemma_emit_extends(
                        m.push_flag(crate::model::FormatFlag::BlockQuote),
                        m.theme.blockquote_style() + seq!['>', ' '],
                    );
                },
                _ => {},
            }
        },
        MdEvent::End(tag) => {
            match tag {
                MdTagEnd::Strong | MdTagEnd::Emphasis => {
                    let k = if tag == MdTagEnd::Strong {
                        crate::model::FlagKind::Bold
                    } else {
                        crate::model::FlagKind::Italic
                    };
                    lemma_reapply_extends(m.drop_flags(k));
                },
                MdTagEnd::Link => {
                    let m2 = m.drop_flags(crate::model::FlagKind::Link);
                    match crate::model::last_link(m.flags) {
                        Some(url) => {
                            let s = seq![' '] + m.theme.link_url_style() + seq!['('] + url + seq![')']
                                + m.theme.reset();
                            lemma_emit_extends(m2, s);
                            lemma_reapply_extends(m2.emit(s));
                            lemma_prefix_trans(m.output, m2.emit(s).output, m2.emit(s).reapply().output);
                        },
                        None => {},
                    }
                },
                MdTagEnd::Heading | MdTagEnd::BlockQuote => {
                    let k = if tag == MdTagEnd::Heading {
                        crate::model::FlagKind::Heading
                    } else {
                        crate::model::FlagKind::BlockQuote
                    };
                    lemma_emit_extends(m.drop_flags(k), m.theme.reset() + seq!['\n']);
                },
                MdTagEnd::CodeBlock => {
                    match m.code_buf {
                        Some(code) => {
                            lemma_emit_extends(
                                RenderModel { code_buf: None, ..m },
                                m.theme.code_block(code) + seq!['\n'],
                            );
                        },
                        None => {},
                    }
                },
                MdTagEnd::List => {
                    let m2 = RenderModel {
                        lists: if m.lists.len() > 0 {
                            m.lists.drop_last()
                        } else {
                            m.lists
                        },
                        ..m
                    };
                    lemma_emit_extends(m2, seq!['\n']);
                },
                MdTagEnd::Table => {
                    match m.table {
                        Some(t) => {
                            lemma_emit_extends(RenderModel { table: None, ..m }, t.text() + seq!['\n']);
                        },
                        None => {},
                    }
                },
                _ => {
                    lemma_emit_extends(m, seq!['\n']);
                    lemma_emit_extends(m, seq!['\n', '\n']);
                },
            }
        },
        MdEvent::Text(text) => {
            lemma_emit_extends(m, text@);
        },
        MdEvent::Code(text) => {
            lemma_emit_extends(m, text@);
            lemma_emit_extends(m, m.theme.inline_code(text@));
        },
        MdEvent::SoftBreak => {
            lemma_emit_extends(m, seq![' ']);
        },
        MdEvent::HardBreak => {
            lemma_emit_extends(m, seq!['\n']);
        },
        MdEvent::Rule => {
            lemma_emit_extends(m, m.theme.rule_line(rule_width as nat) + seq!['\n']);
        },
        _ => {},
    }
}

/// Handling an event does what the handler for its kind does: a start
/// what `on_start` does, an end what `on_end` does, text what `on_text`
/// does and inline code what `on_inline_code` does, whatever the rule
/// width.
pub proof fn law_handle_dispatches(
    m: RenderModel,
    start: MdTag,
    end: MdTagEnd,
    text: String,
    rule_width: usize,
)
    ensures
        m.step(MdEvent::Start(start), rule_width) == m.start(start),
        m.step(MdEvent::End(end), rule_width) == m.end(end),
        m.step(MdEvent::Text(text), rule_width) == m.put_text(text@),
        m.step(MdEvent::Code(text), rule_width) == m.put_code(text@),
{
}

/// What has been written stays written: rendering more events only adds
/// text after it.
pub proof fn law_output_only_grows(m: RenderModel, events: Seq<MdEvent>, widths: Seq<usize>)
    ensures
        m.output.is_prefix_of(run(m, events, widths).output),
    decreases events.len(),
{
    if events.len() == 0 {
        assert(m.output.is_prefix_of(m.output));
    } else {
        law_output_only_grows(m, events.drop_last(), widths.drop_last());
        let before = run(m, events.drop_last(), widths.drop_last());
        lemma_step_extends(before, events.last(), widths.last());
        lemma_prefix_trans(m.output, before.output, run(m, events, widths).output);
    }
}

/// With color on, a document with a heading comes out with ANSI escape
/// sequences.
pub proof fn law_heading_is_styled_with_color(
    theme: ThemeModel,
    events: Seq<MdEvent>,
    widths: Seq<usize>,
    i: int,
)
    requires
        theme.color,
        theme.palette_ok(),
        0 <= i < events.len(),
        events[i] matches MdEvent::Start(MdTag::Heading(_)),
    ensures
        rendered(theme, events, widths).contains(escape_char()),
    decreases events.len(),
{
    let before = run(initial(theme), events.drop_last(), widths.drop_last());
    let after = run(initial(theme), events, widths);
    if i == events.len() - 1 {
        assert(events.last() == events[i]);
        assert(before.theme == theme) by {
            lemma_run_keeps_theme(initial(theme), events.drop_last(), widths.drop_last());
        }
        match events[i] {
            MdEvent::Start(MdTag::Heading(level)) => {
                let n = crate::events::heading_level(level);
                let style = theme.heading_style(n);
                assert(style[0] == escape_char()) by {
                    assert(foreground_sequence(ThemeColor::Cyan)[0] == escape_char());
                    assert(foreground_sequence(ThemeColor::Blue)[0] == escape_char());
                    assert(bare_sequence()[0] == escape_char());
                }
                let written = style + crate::text::repeat(seq!['#'], n as nat) + seq![' '];
                let prefix = crate::model::quote_prefix(before.quote_depth);
                assert(written[0] == style[0]);
                crate::text::lemma_after_newlines_first(written, prefix);
                let shown = crate::text::after_newlines(written, prefix);
                assert(after.output == before.output + shown);
                assert(after.output[before.output.len() as int] == shown[0]);
            },
            _ => {},
        }
    } else {
        assert(events.drop_last()[i] == events[i]);
        law_heading_is_styled_with_color(theme, events.drop_last(), widths.drop_last(), i);
        lemma_step_extends(before, events.last(), widths.last());
        let k = choose|k: int| 0 <= k < before.output.len() && before.output[k] == escape_char();
        assert(after.output.subrange(0, before.output.len() as int)[k] == escape_char());
        assert(after.output[k] == escape_char());
    }
}

/// No step changes the theme.
pub proof fn lemma_run_keeps_theme(m: RenderModel, events: Seq<MdEvent>, widths: Seq<usize>)
    ensures
        run(m, events, widths).theme == m.theme,
    decreases events.len(),
{
    if events.len() > 0 {
        lemma_run_keeps_theme(m, events.drop_last(), widths.drop_last());
        let before = run(m, events.drop_last(), widths.drop_last());
        lemma_step_keeps_theme(before, events.last(), widths.last());
    }
}

proof fn lemma_step_keeps_theme(m: RenderModel, e: MdEvent, rule_width: usize)
    ensures
        m.step(e, rule_width).theme == m.theme,
{
}

/// The theme with color off; its colors are never used.
pub open spec fn plain_theme() -> ThemeModel {
    ThemeModel {
        color: false,
        cyan: Seq::empty(),
        blue: Seq::empty(),
        dark_grey: Seq::empty(),
        green: Seq::empty(),
    }
}

proof fn lemma_step_ignores_palette(m: RenderModel, t: ThemeModel, e: MdEvent, rule_width: usize)
    requires
        !m.theme.color,
        !t.color,
    ensures
        (RenderModel { theme: t, ..m }).step(e, rule_width) == (RenderModel {
            theme: t,
            ..m.step(e, rule_width)
        }),
{
    let m2 = RenderModel { theme: t, ..m };
    assert(m.theme.reset() =~= t.reset());
    match e {
        MdEvent::Start(tag) => {
            match tag {
                MdTag::Heading(level) => {
                    let n = crate::events::heading_level(level);
                    assert(m.theme.heading_style(n) =~= t.heading_style(n));
                },
                MdTag::Item => {
                    assert(m2.start_item() =~= RenderModel { theme: t, ..m.start_item() });
                },
                _ => {},
            }
            assert(m2.start(tag) =~= RenderModel { theme: t, ..m.start(tag) });
        },
        MdEvent::End(tag) => {
            match tag {
                MdTagEnd::Link => {
                    assert(m2.end_link() =~= RenderModel { theme: t, ..m.end_link() });
                },
                MdTagEnd::TableCell => {
                    assert(m2.end_cell() =~= RenderModel { theme: t, ..m.end_cell() });
                },
                _ => {},
            }
            assert(m2.end(tag) =~= RenderModel { theme: t, ..m.end(tag) });
        },
        _ => {
            assert(m2.step(e, rule_width) =~= RenderModel { theme: t, ..m.step(e, rule_width) });
        },
    }
}

/// With color off, the colors a theme holds play no part: every theme
/// without color renders a document as the plain theme does.
pub proof fn law_plain_rendering_ignores_palette(
    theme: ThemeModel,
    events: Seq<MdEvent>,
    widths: Seq<usize>,
)
    requires
        !theme.color,
    ensures
        rendered(theme, events, widths) == rendered(plain_theme(), events, widths),
{
    lemma_run_ignores_palette(theme, events, widths);
}

proof fn lemma_run_ignores_palette(theme: ThemeModel, events: Seq<MdEvent>, widths: Seq<usize>)
    requires
        !theme.color,
    ensures
        run(initial(plain_theme()), events, widths) == (RenderModel {
            theme: plain_theme(),
            ..run(initial(theme), events, widths)
        }),
    decreases events.len(),
{
    if events.len() == 0 {
        assert(initial(plain_theme()) =~= RenderModel { theme: plain_theme(), ..initial(theme) });
    } else {
        lemma_run_ignores_palette(theme, events.drop_last(), widths.drop_last());
        let before = run(initial(theme), events.drop_last(), widths.drop_last());
        lemma_run_keeps_theme(initial(theme), events.drop_last(), widths.drop_last());
        lemma_step_ignores_palette(before, plain_theme(), events.last(), widths.last());
    }
}


/// `s` holds no line break.
pub open spec fn no_break(s: Seq<char>) -> bool {
    forall|i: int| 0 <= i < s.len() ==> s[i] != '\n'
}

proof fn lemma_no_break_concat(a: Seq<char>, b: Seq<char>)
    requires
        no_break(a),
        no_break(b),
    ensures
        no_break(a + b),
{
    assert forall|i: int| 0 <= i < (a + b).len() implies (a + b)[i] != '\n' by {
        if i < a.len() {
            assert((a + b)[i] == a[i]);
        } else {
            assert((a + b)[i] == b[i - a.len()]);
        }
    }
}

/// Text without line breaks is written as it is, inside block quotes too.
proof fn lemma_after_newlines_no_break(s: Seq<char>, prefix: Seq<char>)
    requires
        no_break(s),
    ensures
        after_newlines(s, prefix) == s,
    decreases s.len(),
{
    if s.len() > 0 {
        assert(no_break(s.drop_last()));
        lemma_after_newlines_no_break(s.drop_last(), prefix);
        assert(s.last() == s[s.len() - 1]);
        assert(s.drop_last() + seq![s.last()] =~= s);
        assert(after_newlines(s, prefix) =~= s.drop_last() + seq![s.last()]);
    }
}

proof fn lemma_sequences_no_break(t: ThemeModel)
    requires
        t.palette_ok(),
    ensures
        no_break(attribute_sequence(ThemeAttribute::Bold)),
        no_break(attribute_sequence(ThemeAttribute::Italic)),
        no_break(attribute_sequence(ThemeAttribute::Underlined)),
        no_break(t.reset()),
        no_break(t.cyan),
        no_break(t.blue),
        no_break(t.dark_grey),
{
    let e = escape_char();
    assert(attribute_sequence(ThemeAttribute::Bold) =~= seq![e, '[', '1', 'm']);
    assert(attribute_sequence(ThemeAttribute::Italic) =~= seq![e, '[', '3', 'm']);
    assert(attribute_sequence(ThemeAttribute::Underlined) =~= seq![e, '[', '4', 'm']);
    assert(reset_color_sequence() + attribute_sequence(ThemeAttribute::Reset) =~= seq![
        e,
        '[',
        '0',
        'm',
        e,
        '[',
        '0',
        'm',
    ]);
    assert(bare_sequence() =~= seq![e, '[', 'm']);
    assert(foreground_sequence(ThemeColor::Cyan) =~= seq![e, '[', '3', '8', ';', '5', ';', '1', '4', 'm']);
    assert(foreground_sequence(ThemeColor::Blue) =~= seq![e, '[', '3', '8', ';', '5', ';', '1', '2', 'm']);
    assert(foreground_sequence(ThemeColor::DarkGrey) =~= seq![e, '[', '3', '8', ';', '5', ';', '8', 'm']);
    assert(no_break(Seq::<char>::empty()));
}

/// With color on and a valid palette, no flag's style holds a line break.
proof fn lemma_flag_style_no_break(t: ThemeModel, f: FormatFlag)
    requires
        t.palette_ok(),
    ensures
        no_break(flag_style(t, f)),
{
    lemma_sequences_no_break(t);
    let bold = attribute_sequence(ThemeAttribute::Bold);
    let italic = attribute_sequence(ThemeAttribute::Italic);
    let under = attribute_sequence(ThemeAttribute::Underlined);
    assert(no_break(Seq::<char>::empty()));
    lemma_no_break_concat(t.cyan, bold);
    lemma_no_break_concat(t.cyan + bold, under);
    lemma_no_break_concat(t.blue, bold);
    lemma_no_break_concat(t.dark_grey, italic);
}

/// The styles of open flags are written outermost first: those of no
/// flags are nothing, and those of `f` followed by `rest` are `f`'s style
/// followed by the styles of `rest`.
pub proof fn law_flag_styles_outermost_first(t: ThemeModel, f: FormatFlag, rest: Seq<FormatFlag>)
    ensures
        flag_styles(t, Seq::empty()) == Seq::<char>::empty(),
        flag_styles(t, seq![f] + rest) == flag_style(t, f) + flag_styles(t, rest),
    decreases rest.len(),
{
    if rest.len() == 0 {
        assert(seq![f] + rest =~= seq![f]);
        assert(seq![f].drop_last() =~= Seq::<FormatFlag>::empty());
        assert(seq![f].last() == f);
        assert(flag_styles(t, seq![f]) == flag_styles(t, Seq::<FormatFlag>::empty()) + flag_style(
            t,
            f,
        ));
        assert(flag_styles(t, rest) == Seq::<char>::empty());
        assert(flag_style(t, f) + Seq::<char>::empty() =~= flag_style(t, f));
        assert(Seq::<char>::empty() + flag_style(t, f) =~= flag_style(t, f));
    } else {
        law_flag_styles_outermost_first(t, f, rest.drop_last());
        assert((seq![f] + rest).drop_last() =~= seq![f] + rest.drop_last());
        assert((seq![f] + rest).last() == rest.last());
        assert(flag_style(t, f) + flag_styles(t, rest.drop_last()) + flag_style(t, rest.last())
            =~= flag_style(t, f) + (flag_styles(t, rest.drop_last()) + flag_style(t, rest.last())));
    }
}

/// With color on, the style each flag turns on again is its own: bold
/// `ESC[1m`, italic `ESC[3m`, a block quote its dark grey then italic.
pub proof fn law_flag_style_with_color(t: ThemeModel)
    requires
        t.color,
    ensures
        flag_style(t, FormatFlag::Bold) == attribute_sequence(ThemeAttribute::Bold),
        flag_style(t, FormatFlag::Italic) == attribute_sequence(ThemeAttribute::Italic),
        flag_style(t, FormatFlag::BlockQuote) == t.dark_grey + attribute_sequence(
            ThemeAttribute::Italic,
        ),
        attribute_sequence(ThemeAttribute::Bold).len() > 0,
{
}

/// With color on, ending bold or italic outside a table writes the reset
/// and then turns every style still open on again, outermost first.
pub proof fn law_open_styles_reapplied(m: RenderModel, tag: MdTagEnd)
    requires
        m.theme.color,
        !m.in_table(),
        tag == MdTagEnd::Strong || tag == MdTagEnd::Emphasis,
    ensures
        m.end(tag).flags == without(
            m.flags,
            if tag == MdTagEnd::Strong {
                FlagKind::Bold
            } else {
                FlagKind::Italic
            },
        ),
        m.end(tag).output == m.output + after_newlines(
            m.theme.reset() + flag_styles(m.theme, m.end(tag).flags),
            quote_prefix(m.quote_depth),
        ),
{
}

/// With color on, when an inner style ends while one outer flag stays
/// open (bold, a heading, a block quote, a link), outside a table, the
/// output gains exactly the reset followed by the outer flag's style, so
/// the text after it is styled again: after `**bold *it*`, ` more` is
/// bold again.
pub proof fn law_outer_style_back_on(m: RenderModel, outer: FormatFlag, inner: FormatFlag)
    requires
        m.theme.color,
        m.theme.palette_ok(),
        !m.in_table(),
        inner == FormatFlag::Bold || inner == FormatFlag::Italic,
        outer.kind() != inner.kind(),
        m.flags == seq![outer, inner],
    ensures
        m.end(
            if inner == FormatFlag::Bold {
                MdTagEnd::Strong
            } else {
                MdTagEnd::Emphasis
            },
        ).output == m.output + m.theme.reset() + flag_style(m.theme, outer),
        outer == FormatFlag::Bold ==> m.end(MdTagEnd::Emphasis).output == m.output + m.theme.reset()
            + attribute_sequence(ThemeAttribute::Bold),
{
    let t = m.theme;
    let tag = if inner == FormatFlag::Bold {
        MdTagEnd::Strong
    } else {
        MdTagEnd::Emphasis
    };
    let k = inner.kind();
    assert(seq![outer, inner].drop_last() =~= seq![outer]);
    assert(seq![outer].drop_last() =~= Seq::<FormatFlag>::empty());
    assert(without(Seq::<FormatFlag>::empty(), k) == Seq::<FormatFlag>::empty());
    assert(without(seq![outer], k) =~= seq![outer]);
    assert(without(m.flags, k) =~= seq![outer]);
    law_flag_styles_outermost_first(t, outer, Seq::empty());
    assert(seq![outer] + Seq::<FormatFlag>::empty() =~= seq![outer]);
    assert(flag_styles(t, seq![outer]) =~= flag_style(t, outer));
    law_open_styles_reapplied(m, tag);
    lemma_sequences_no_break(t);
    lemma_flag_style_no_break(t, outer);
    lemma_no_break_concat(t.reset(), flag_style(t, outer));
    lemma_after_newlines_no_break(t.reset() + flag_style(t, outer), quote_prefix(m.quote_depth));
    assert(m.output + (t.reset() + flag_style(t, outer)) =~= m.output + t.reset() + flag_style(
        t,
        outer,
    ));
}

/// Ending a body row appends it after the rows collected so far: the
/// earlier rows stay first, in their order, and the new row comes last;
/// the header stays.
pub proof fn law_body_row_goes_last(m: RenderModel, t: TableModel)
    requires
        m.table == Some(t),
        !t.in_header,
    ensures
        m.end(MdTagEnd::TableRow).table matches Some(t2) && {
            &&& t2.rows.len() == t.rows.len() + 1
            &&& t2.rows.subrange(0, t.rows.len() as int) == t.rows
            &&& t2.rows[t.rows.len() as int] == t.current_row
            &&& t2.header == t.header
            &&& t2.current_row.len() == 0
        },
{
    let t2 = m.end(MdTagEnd::TableRow).table.unwrap();
    assert(t2.rows.subrange(0, t.rows.len() as int) =~= t.rows);
}

/// The rows of a table whose body rows `r1` and `r2` end one after the
/// other are `r1` then `r2`, after the rows collected before.
pub proof fn law_body_rows_in_document_order(
    m: RenderModel,
    t: TableModel,
    r1: Seq<Seq<char>>,
    r2: Seq<Seq<char>>,
)
    requires
        m.table == Some(t),
        !t.in_header,
        t.current_row == r1,
    ensures
        ({
            let m1 = m.end(MdTagEnd::TableRow);
            let m2 = RenderModel {
                table: Some(TableModel { current_row: r2, ..m1.table.unwrap() }),
                ..m1
            };
            m2.end(MdTagEnd::TableRow).table.unwrap().rows == t.rows + seq![r1, r2]
        }),
{
    let m1 = m.end(MdTagEnd::TableRow);
    let m2 = RenderModel { table: Some(TableModel { current_row: r2, ..m1.table.unwrap() }), ..m1 };
    assert(m2.end(MdTagEnd::TableRow).table.unwrap().rows =~= t.rows + seq![r1, r2]);
}

proof fn lemma_double_spaces(k: nat)
    ensures
        repeat(seq![' ', ' '], k) == repeat(seq![' '], 2 * k),
    decreases k,
{
    if k > 0 {
        lemma_double_spaces((k - 1) as nat);
        let a = repeat(seq![' '], (2 * k - 2) as nat);
        assert(repeat(seq![' '], (2 * k - 1) as nat) == a + seq![' ']);
        assert(repeat(seq![' '], 2 * k) == a + seq![' '] + seq![' ']);
        assert(a + seq![' '] + seq![' '] =~= a + seq![' ', ' ']);
    }
}

/// An item of a list nested `d` deep starts with `2 * (d - 1)` spaces,
/// then its marker: `• ` in a bulleted list, its number and `. ` in a
/// numbered one.
pub proof fn law_nested_item_indent(m: RenderModel)
    requires
        m.lists.len() >= 1,
    ensures
        ({
            let d = m.lists.len();
            let spaces = repeat(seq![' '], (2 * (d - 1)) as nat);
            let marker = match m.lists.last() {
                Some(n) => decimal(n as nat) + seq!['.', ' '],
                None => seq!['•', ' '],
            };
            m.start(MdTag::Item).output == m.output + after_newlines(
                spaces + marker,
                quote_prefix(m.quote_depth),
            )
        }),
{
    let d = m.lists.len();
    let k = (d - 1) as nat;
    lemma_double_spaces(k);
    assert(crate::model::item_indent(d) == repeat(seq![' ', ' '], k));
    assert((2 * (d - 1)) as nat == 2 * k);
    let spaces = repeat(seq![' '], (2 * (d - 1)) as nat);
    assert(crate::model::item_indent(d) == spaces);
    match m.lists.last() {
        Some(n) => {
            assert(spaces + decimal(n as nat) + seq!['.', ' '] =~= spaces + (decimal(n as nat)
                + seq!['.', ' ']));
        },
        None => {},
    }
}

/// Heading levels are numbered in order, `H1` through `H6`, from 1 to 6,
/// each level its own number: a heading of level `k` gets `k` `#` marks.
pub proof fn law_heading_levels_in_order()
    ensures
        1 <= spec_heading_level(MdHeadingLevel::H1),
        spec_heading_level(MdHeadingLevel::H1) < spec_heading_level(MdHeadingLevel::H2),
        spec_heading_level(MdHeadingLevel::H2) < spec_heading_level(MdHeadingLevel::H3),
        spec_heading_level(MdHeadingLevel::H3) < spec_heading_level(MdHeadingLevel::H4),
        spec_heading_level(MdHeadingLevel::H4) < spec_heading_level(MdHeadingLevel::H5),
        spec_heading_level(MdHeadingLevel::H5) < spec_heading_level(MdHeadingLevel::H6),
        spec_heading_level(MdHeadingLevel::H6) <= 6,
{
}

/// A heading writes its style, then as many `#` marks as its level, then a
/// space.
pub proof fn law_heading_marks(m: RenderModel, level: MdHeadingLevel)
    ensures
        ({
            let k = spec_heading_level(level);
            let marks = repeat(seq!['#'], k as nat);
            &&& marks.len() == k
            &&& forall|i: int| 0 <= i < marks.len() ==> marks[i] == '#'
            &&& m.start(MdTag::Heading(level)).output == m.output + after_newlines(
                m.theme.heading_style(k) + marks + seq![' '],
                quote_prefix(m.quote_depth),
            )
        }),
{
    let k = spec_heading_level(level);
    lemma_repeat_hashes(k as nat);
}

proof fn lemma_repeat_hashes(n: nat)
    ensures
        repeat(seq!['#'], n).len() == n,
        forall|i: int| 0 <= i < n ==> repeat(seq!['#'], n)[i] == '#',
    decreases n,
{
    if n > 0 {
        lemma_repeat_hashes((n - 1) as nat);
        let r = repeat(seq!['#'], (n - 1) as nat);
        assert forall|i: int| 0 <= i < n implies repeat(seq!['#'], n)[i] == '#' by {
            assert(repeat(seq!['#'], n) == r + seq!['#']);
            if i < n - 1 {
                assert((r + seq!['#'])[i] == r[i]);
            }
        }
    }
}

} // verus!
