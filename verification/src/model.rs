//! The rendering model: what each event does to the renderer's state.
//!
//! `RenderModel::step` states, event by event, what the renderer keeps and
//! what it writes; `run` folds it over a document. The executable renderer
//! in `renderer` is proved to follow it.

use vstd::prelude::*;
use crate::events::{MdEvent, MdTag, MdTagEnd, heading_level};
use crate::table::{TableModel, cells_escape_free, rows_escape_free};
use crate::text::{
    after_newlines, decimal, escape_free, lemma_after_newlines_escape_free,
    lemma_indented_escape_free, lemma_concat_escape_free, lemma_decimal_escape_free,
    lemma_repeat_escape_free, repeat,
};
use crate::theme::ThemeModel;

verus! {

/// A style that is open while its element is: it is re-applied after an
/// inner style ends.
#[derive(Debug)]
pub enum FormatFlag {
    Bold,
    Italic,
    Heading(u32),
    BlockQuote,
    /// An open link, with its destination.
    Link(String),
}

/// The kind of a `FormatFlag`, without its payload.
#[derive(Clone, Copy, PartialEq, Eq, Structural, Debug)]
pub enum FlagKind {
    Bold,
    Italic,
    Heading,
    BlockQuote,
    Link,
}

impl FormatFlag {
    pub open spec fn spec_kind(&self) -> FlagKind {
        match self {
            FormatFlag::Bold => FlagKind::Bold,
            FormatFlag::Italic => FlagKind::Italic,
            FormatFlag::Heading(_) => FlagKind::Heading,
            FormatFlag::BlockQuote => FlagKind::BlockQuote,
            FormatFlag::Link(_) => FlagKind::Link,
        }
    }

    #[verifier::when_used_as_spec(spec_kind)]
    pub fn kind(&self) -> (res: FlagKind)
        ensures
            res == self.spec_kind(),
    {
        match self {
            FormatFlag::Bold => FlagKind::Bold,
            FormatFlag::Italic => FlagKind::Italic,
            FormatFlag::Heading(_) => FlagKind::Heading,
            FormatFlag::BlockQuote => FlagKind::BlockQuote,
            FormatFlag::Link(_) => FlagKind::Link,
        }
    }
}

/// `flags` without the flags of kind `k`, the others in their order.
pub open spec fn without(flags: Seq<FormatFlag>, k: FlagKind) -> Seq<FormatFlag>
    decreases flags.len(),
{
    if flags.len() == 0 {
        flags
    } else {
        let rest = without(flags.drop_last(), k);
        if flags.last().kind() == k {
            rest
        } else {
            rest.push(flags.last())
        }
    }
}

/// The destination of the innermost open link.
pub open spec fn last_link(flags: Seq<FormatFlag>) -> Option<Seq<char>>
    decreases flags.len(),
{
    if flags.len() == 0 {
        None
    } else {
        match flags.last() {
            FormatFlag::Link(url) => Some(url@),
            _ => last_link(flags.drop_last()),
        }
    }
}

/// The style a flag re-applies; links have none.
pub open spec fn flag_style(theme: ThemeModel, f: FormatFlag) -> Seq<char> {
    match f {
        FormatFlag::Bold => theme.bold_style(),
        FormatFlag::Italic => theme.italic_style(),
        FormatFlag::Heading(n) => theme.heading_style(n),
        FormatFlag::BlockQuote => theme.blockquote_style(),
        FormatFlag::Link(_) => Seq::empty(),
    }
}

/// The styles of `flags`, outermost first.
pub open spec fn flag_styles(theme: ThemeModel, flags: Seq<FormatFlag>) -> Seq<char>
    decreases flags.len(),
{
    if flags.len() == 0 {
        Seq::empty()
    } else {
        flag_styles(theme, flags.drop_last()) + flag_style(theme, flags.last())
    }
}

/// The number after `n` in a numbered list, wrapping as `u64` arithmetic
/// does.
pub open spec fn next_number(n: u64) -> u64 {
    if n == u64::MAX {
        0
    } else {
        (n + 1) as u64
    }
}

/// The indentation of an item in a list nested `depth` deep.
pub open spec fn item_indent(depth: nat) -> Seq<char> {
    repeat(seq![' ', ' '], if depth > 0 { (depth - 1) as nat } else { 0 })
}

/// One more open quote; the count stops at the largest `usize`.
pub open spec fn deeper(depth: nat) -> nat {
    if depth < usize::MAX {
        depth + 1
    } else {
        depth
    }
}

/// One quote fewer; never below none.
pub open spec fn shallower(depth: nat) -> nat {
    if depth > 0 {
        (depth - 1) as nat
    } else {
        0
    }
}

/// The renderer's state as the contracts see it.
#[verifier::ext_equal]
pub struct RenderModel {
    pub theme: ThemeModel,
    /// The open styles, outermost first.
    pub flags: Seq<FormatFlag>,
    /// The table under collection, if any.
    pub table: Option<TableModel>,
    /// The open lists, outermost first; `Some(n)` for a numbered list whose
    /// next item is numbered `n`.
    pub lists: Seq<Option<u64>>,
    /// The text of the table cell under collection, if any.
    pub text_buf: Option<Seq<char>>,
    /// The text of the code block under collection, if any.
    pub code_buf: Option<Seq<char>>,
    pub code_lang: Seq<char>,
    /// How many block quotes are open.
    pub quote_depth: nat,
    /// The text written so far.
    pub output: Seq<char>,
}

/// What starts each line inside `depth` nested block quotes.
pub open spec fn quote_prefix(depth: nat) -> Seq<char> {
    repeat(seq!['>', ' '], depth)
}

/// The state before the first event: nothing open, nothing written.
pub open spec fn initial(theme: ThemeModel) -> RenderModel {
    RenderModel {
        theme,
        flags: Seq::empty(),
        table: None,
        lists: Seq::empty(),
        text_buf: None,
        code_buf: None,
        code_lang: Seq::empty(),
        quote_depth: 0,
        output: Seq::empty(),
    }
}

impl RenderModel {
    /// Writes `s` into the table cell under collection, or else to the
    /// output.
    pub open spec fn emit(self, s: Seq<char>) -> RenderModel {
        match self.text_buf {
            Some(b) => RenderModel { text_buf: Some(b + s), ..self },
            None => self.emit_raw(s),
        }
    }

    /// Writes `s` to the output; inside block quotes, every line break is
    /// followed by the quote prefix, so each line of a quote starts with
    /// `> ` once per open quote.
    pub open spec fn emit_raw(self, s: Seq<char>) -> RenderModel {
        RenderModel {
            output: self.output + after_newlines(s, quote_prefix(self.quote_depth)),
            ..self
        }
    }

    pub open spec fn in_table(self) -> bool {
        self.table is Some
    }

    /// With color on: resets, then turns the open styles on again.
    pub open spec fn reapply(self) -> RenderModel {
        if self.theme.color {
            self.emit_raw(self.theme.reset() + flag_styles(self.theme, self.flags))
        } else {
            self
        }
    }

    pub open spec fn push_flag(self, f: FormatFlag) -> RenderModel {
        RenderModel { flags: self.flags.push(f), ..self }
    }

    pub open spec fn drop_flags(self, k: FlagKind) -> RenderModel {
        RenderModel { flags: without(self.flags, k), ..self }
    }

    /// A list item: its marker, indented two spaces per enclosing list.
    /// Numbered lists count on.
    pub open spec fn start_item(self) -> RenderModel {
        let depth = self.lists.len();
        let indent = item_indent(depth);
        if depth == 0 {
            self
        } else {
            match self.lists.last() {
                Some(n) => RenderModel {
                    lists: self.lists.update(depth - 1, Some(next_number(n))),
                    ..self
                }.emit_raw(indent + decimal(n as nat) + seq!['.', ' ']),
                None => self.emit_raw(indent + seq!['•', ' ']),
            }
        }
    }

    /// What the start of an element does. A block quote writes `> ` and
    /// opens one more quote level: from then on every line break written
    /// is followed by `> ` once per open quote.
    pub open spec fn start(self, tag: MdTag) -> RenderModel {
        match tag {
            MdTag::Heading(level) => {
                let n = heading_level(level);
                self.push_flag(FormatFlag::Heading(n)).emit_raw(
                    self.theme.heading_style(n) + repeat(seq!['#'], n as nat) + seq![' '],
                )
            },
            MdTag::Strong => {
                let m = self.push_flag(FormatFlag::Bold);
                if self.in_table() {
                    m
                } else {
                    m.emit(self.theme.bold_style())
                }
            },
            MdTag::Emphasis => {
                let m = self.push_flag(FormatFlag::Italic);
                if self.in_table() {
                    m
                } else {
                    m.emit(self.theme.italic_style())
                }
            },
            MdTag::BlockQuote => {
                let m = self.push_flag(FormatFlag::BlockQuote).emit_raw(
                    self.theme.blockquote_style() + seq!['>', ' '],
                );
                RenderModel { quote_depth: deeper(m.quote_depth), ..m }
            },
            MdTag::CodeBlock(lang) => RenderModel {
                code_lang: match lang {
                    Some(l) => l@,
                    None => Seq::empty(),
                },
                code_buf: Some(Seq::empty()),
                ..self
            },
            MdTag::List(first) => RenderModel { lists: self.lists.push(first), ..self },
            MdTag::Item => self.start_item(),
            MdTag::Table(alignments) => RenderModel {
                table: Some(
                    TableModel {
                        alignments: alignments@,
                        header: Seq::empty(),
                        rows: Seq::empty(),
                        current_row: Seq::empty(),
                        in_header: true,
                    },
                ),
                ..self
            },
            MdTag::TableHead => match self.table {
                Some(t) => RenderModel { table: Some(TableModel { in_header: true, ..t }), ..self },
                None => self,
            },
            MdTag::TableRow => match self.table {
                Some(t) => RenderModel {
                    table: Some(TableModel { current_row: Seq::empty(), ..t }),
                    ..self
                },
                None => self,
            },
            MdTag::TableCell => RenderModel { text_buf: Some(Seq::empty()), ..self },
            MdTag::Link(url) => self.push_flag(FormatFlag::Link(url)),
            MdTag::Paragraph | MdTag::Other => self,
        }
    }

    /// The end of a link: its destination in parentheses, then the open
    /// styles again.
    pub open spec fn end_link(self) -> RenderModel {
        let m = self.drop_flags(FlagKind::Link);
        match last_link(self.flags) {
            Some(url) => m.emit(
                seq![' '] + self.theme.link_url_style() + seq!['('] + url + seq![')']
                    + self.theme.reset(),
            ).reapply(),
            None => m,
        }
    }

    /// The end of a table cell: its text joins the current row.
    pub open spec fn end_cell(self) -> RenderModel {
        let cell = match self.text_buf {
            Some(b) => b,
            None => Seq::empty(),
        };
        let m = RenderModel { text_buf: None, ..self };
        match m.table {
            Some(t) => RenderModel {
                table: Some(TableModel { current_row: t.current_row.push(cell), ..t }),
                ..m
            },
            None => m,
        }
    }

    /// What the end of an element does.
    pub open spec fn end(self, tag: MdTagEnd) -> RenderModel {
        match tag {
            MdTagEnd::Heading => self.drop_flags(FlagKind::Heading).emit_raw(
                self.theme.reset() + seq!['\n'],
            ),
            MdTagEnd::Paragraph => self.emit_raw(seq!['\n', '\n']),
            MdTagEnd::Strong => {
                let m = self.drop_flags(FlagKind::Bold);
                if self.in_table() {
                    m
                } else {
                    m.reapply()
                }
            },
            MdTagEnd::Emphasis => {
                let m = self.drop_flags(FlagKind::Italic);
                if self.in_table() {
                    m
                } else {
                    m.reapply()
                }
            },
            MdTagEnd::BlockQuote => {
                let m = self.drop_flags(FlagKind::BlockQuote);
                RenderModel { quote_depth: shallower(m.quote_depth), ..m }.emit_raw(
                    self.theme.reset() + seq!['\n'],
                )
            },
            MdTagEnd::CodeBlock => match self.code_buf {
                Some(code) => RenderModel { code_buf: None, ..self }.emit_raw(
                    self.theme.code_block(code) + seq!['\n'],
                ),
                None => self,
            },
            MdTagEnd::List => {
                let m = RenderModel {
                    lists: if self.lists.len() > 0 {
                        self.lists.drop_last()
                    } else {
                        self.lists
                    },
                    ..self
                };
                if m.lists.len() == 0 {
                    m.emit_raw(seq!['\n'])
                } else {
                    m
                }
            },
            MdTagEnd::Item => self.emit_raw(seq!['\n']),
            MdTagEnd::TableCell => self.end_cell(),
            MdTagEnd::TableHead => match self.table {
                Some(t) => RenderModel {
                    table: Some(
                        TableModel { header: t.current_row, current_row: Seq::empty(), in_header: false, ..t },
                    ),
                    ..self
                },
                None => self,
            },
            MdTagEnd::TableRow => match self.table {
                Some(t) => if t.in_header {
                    self
                } else {
                    RenderModel {
                        table: Some(
                            TableModel { rows: t.rows.push(t.current_row), current_row: Seq::empty(), ..t },
                        ),
                        ..self
                    }
                },
                None => self,
            },
            MdTagEnd::Table => match self.table {
                Some(t) => RenderModel { table: None, ..self }.emit_raw(t.text() + seq!['\n']),
                None => self,
            },
            MdTagEnd::Link => self.end_link(),
            MdTagEnd::Other => self,
        }
    }

    /// What text does: it joins the code block under collection, or else
    /// is written.
    pub open spec fn put_text(self, text: Seq<char>) -> RenderModel {
        match self.code_buf {
            Some(b) => RenderModel { code_buf: Some(b + text), ..self },
            None => self.emit(text),
        }
    }

    /// What inline code does: written as it is inside a table, styled
    /// elsewhere.
    pub open spec fn put_code(self, text: Seq<char>) -> RenderModel {
        if self.in_table() {
            self.emit(text)
        } else {
            self.emit(self.theme.inline_code(text))
        }
    }

    /// What one event does; a horizontal rule is `rule_width` characters
    /// wide.
    pub open spec fn step(self, event: MdEvent, rule_width: usize) -> RenderModel {
        match event {
            MdEvent::Start(tag) => self.start(tag),
            MdEvent::End(tag) => self.end(tag),
            MdEvent::Text(text) => self.put_text(text@),
            MdEvent::Code(text) => self.put_code(text@),
            MdEvent::SoftBreak => if self.text_buf is None && self.code_buf is None {
                self.emit(seq![' '])
            } else {
                self
            },
            MdEvent::HardBreak => if self.text_buf is None && self.code_buf is None {
                self.emit(seq!['\n'])
            } else {
                self
            },
            MdEvent::Rule => self.emit_raw(self.theme.rule_line(rule_width as nat) + seq!['\n']),
            MdEvent::Html(_) | MdEvent::InlineHtml(_) | MdEvent::Other => self,
        }
    }
}

/// The state after the events of `events`, the `i`-th of them with the rule
/// width `widths[i]`.
pub open spec fn run(m: RenderModel, events: Seq<MdEvent>, widths: Seq<usize>) -> RenderModel
    decreases events.len(),
{
    if events.len() == 0 {
        m
    } else {
        run(m, events.drop_last(), widths.drop_last()).step(events.last(), widths.last())
    }
}

/// `n` rule widths, all `w`.
pub open spec fn same_widths(n: nat, w: usize) -> Seq<usize> {
    Seq::new(n, |i: int| w)
}

/// What a document renders to, with the given theme and rule widths.
pub open spec fn rendered(theme: ThemeModel, events: Seq<MdEvent>, widths: Seq<usize>) -> Seq<
    char,
> {
    run(initial(theme), events, widths).output
}

/// The table under collection in `m`, if its cells hold no escape
/// character, draws without one.
pub open spec fn table_draws_plain(m: RenderModel) -> bool {
    match m.table {
        Some(t) => t.escape_free() ==> escape_free(t.text()),
        None => true,
    }
}

/// In the run of `events` with `theme`, each table that an event finishes
/// draws without an escape character where its cells hold none.
pub open spec fn tables_draw_plain(theme: ThemeModel, events: Seq<MdEvent>, widths: Seq<usize>) -> bool {
    forall|k: int|
        0 <= k < events.len() && #[trigger] events[k] == MdEvent::End(MdTagEnd::Table)
            ==> table_draws_plain(run(initial(theme), events.take(k), widths.take(k)))
}

/// One more event keeps `tables_draw_plain`, where the table it may finish
/// draws plain.
pub proof fn lemma_tables_draw_plain_push(
    theme: ThemeModel,
    events: Seq<MdEvent>,
    widths: Seq<usize>,
    e: MdEvent,
    w: usize,
)
    requires
        widths.len() == events.len(),
        tables_draw_plain(theme, events, widths),
        e == MdEvent::End(MdTagEnd::Table) ==> table_draws_plain(run(initial(theme), events, widths)),
    ensures
        tables_draw_plain(theme, events.push(e), widths.push(w)),
{
    let evs = events.push(e);
    let ws = widths.push(w);
    assert forall|k: int|
        0 <= k < evs.len() && #[trigger] evs[k] == MdEvent::End(MdTagEnd::Table) implies table_draws_plain(
        run(initial(theme), evs.take(k), ws.take(k)),
    ) by {
        if k < events.len() {
            assert(evs.take(k) =~= events.take(k));
            assert(ws.take(k) =~= widths.take(k));
            assert(events[k] == evs[k]);
        } else {
            assert(evs.take(k) =~= events);
            assert(ws.take(k) =~= widths);
        }
    }
}

/// Every open link's destination is free of escape characters.
pub open spec fn flags_escape_free(flags: Seq<FormatFlag>) -> bool {
    forall|i: int|
        0 <= i < flags.len() ==> (#[trigger] flags[i] matches FormatFlag::Link(url) ==> escape_free(
            url@,
        ))
}

/// No text of an event that the renderer writes holds an escape character.
pub open spec fn event_escape_free(e: MdEvent) -> bool {
    match e {
        MdEvent::Text(t) => escape_free(t@),
        MdEvent::Code(t) => escape_free(t@),
        MdEvent::Start(MdTag::Link(url)) => escape_free(url@),
        _ => true,
    }
}

/// No event of `events` holds an escape character that the renderer writes.
pub open spec fn events_escape_free(events: Seq<MdEvent>) -> bool {
    forall|i: int| 0 <= i < events.len() ==> event_escape_free(#[trigger] events[i])
}

impl RenderModel {
    /// Nothing written or collected holds an escape character.
    pub open spec fn escape_free(self) -> bool {
        &&& escape_free(self.output)
        &&& self.text_buf matches Some(b) ==> escape_free(b)
        &&& self.code_buf matches Some(b) ==> escape_free(b)
        &&& self.table matches Some(t) ==> t.escape_free()
        &&& flags_escape_free(self.flags)
    }
}

/// Without its last flag, a flag list keeps its link destinations
/// escape-free.
proof fn lemma_drop_last_flags_escape_free(flags: Seq<FormatFlag>)
    requires
        flags.len() > 0,
        flags_escape_free(flags),
    ensures
        flags_escape_free(flags.drop_last()),
{
    assert forall|i: int| 0 <= i < flags.drop_last().len() implies (#[trigger] flags.drop_last()[i] matches FormatFlag::Link(url) ==> escape_free(url@)) by {
        assert(flags.drop_last()[i] == flags[i]);
    }
}

/// Dropping flags keeps link destinations escape-free.
proof fn lemma_without_escape_free(flags: Seq<FormatFlag>, k: FlagKind)
    requires
        flags_escape_free(flags),
    ensures
        flags_escape_free(without(flags, k)),
    decreases flags.len(),
{
    if flags.len() > 0 {
        lemma_drop_last_flags_escape_free(flags);
        lemma_without_escape_free(flags.drop_last(), k);
        let rest = without(flags.drop_last(), k);
        assert(flags.last() == flags[flags.len() - 1]);
        assert forall|i: int| 0 <= i < rest.push(flags.last()).len() implies (#[trigger] rest.push(flags.last())[i] matches FormatFlag::Link(url) ==> escape_free(url@)) by {
            if i < rest.len() {
                assert(rest.push(flags.last())[i] == rest[i]);
            }
        }
    }
}

/// The innermost link's destination is escape-free when all are.
pub proof fn lemma_last_link_escape_free(flags: Seq<FormatFlag>)
    requires
        flags_escape_free(flags),
    ensures
        last_link(flags) matches Some(url) ==> escape_free(url),
    decreases flags.len(),
{
    if flags.len() > 0 {
        assert(flags.last() == flags[flags.len() - 1]);
        lemma_drop_last_flags_escape_free(flags);
        lemma_last_link_escape_free(flags.drop_last());
    }
}

/// Pushing a flag with an escape-free destination keeps destinations
/// escape-free.
proof fn lemma_push_flag_escape_free(flags: Seq<FormatFlag>, f: FormatFlag)
    requires
        flags_escape_free(flags),
        f matches FormatFlag::Link(url) ==> escape_free(url@),
    ensures
        flags_escape_free(flags.push(f)),
{
    assert forall|i: int| 0 <= i < flags.push(f).len() implies (#[trigger] flags.push(f)[i] matches FormatFlag::Link(url) ==> escape_free(url@)) by {
        if i < flags.len() {
            assert(flags.push(f)[i] == flags[i]);
        }
    }
}

/// With color off, no step writes or collects an escape character unless
/// its event holds one, or the table it finishes draws one.
pub proof fn lemma_step_escape_free(m: RenderModel, e: MdEvent, rule_width: usize)
    requires
        !m.theme.color,
        m.escape_free(),
        event_escape_free(e),
        e == MdEvent::End(MdTagEnd::Table) && m.table is Some ==> escape_free(m.table.unwrap().text()),
    ensures
        m.step(e, rule_width).escape_free(),
{
    broadcast use lemma_concat_escape_free, lemma_after_newlines_escape_free;

    let t = m.theme;
    assert(escape_free(seq!['>', ' ']));
    lemma_repeat_escape_free(seq!['>', ' '], m.quote_depth);
    lemma_repeat_escape_free(seq!['>', ' '], shallower(m.quote_depth));
    assert(t.reset() =~= Seq::<char>::empty());
    assert(t.bold_style() =~= Seq::<char>::empty());
    assert(t.italic_style() =~= Seq::<char>::empty());
    assert(t.blockquote_style() =~= Seq::<char>::empty());
    assert(t.link_url_style() =~= Seq::<char>::empty());
    assert(escape_free(Seq::<char>::empty()));
    assert(escape_free(seq!['\n']));
    assert(escape_free(seq!['\n', '\n']));
    assert(escape_free(seq![' ']));
    assert(escape_free(seq!['>', ' ']));
    assert(escape_free(seq!['(']));
    assert(escape_free(seq![')']));
    assert(escape_free(seq!['.', ' ']));
    assert(escape_free(seq!['•', ' ']));
    match e {
        MdEvent::Start(tag) => {
            match tag {
                MdTag::Heading(level) => {
                    let n = heading_level(level);
                    assert(t.heading_style(n) =~= Seq::<char>::empty());
                    assert(escape_free(seq!['#']));
                    lemma_repeat_escape_free(seq!['#'], n as nat);
                    lemma_push_flag_escape_free(m.flags, FormatFlag::Heading(n));
                },
                MdTag::Strong => {
                    lemma_push_flag_escape_free(m.flags, FormatFlag::Bold);
                },
                MdTag::Emphasis => {
                    lemma_push_flag_escape_free(m.flags, FormatFlag::Italic);
                },
                MdTag::BlockQuote => {
                    lemma_push_flag_escape_free(m.flags, FormatFlag::BlockQuote);
                },
                MdTag::Link(url) => {
                    lemma_push_flag_escape_free(m.flags, FormatFlag::Link(url));
                },
                MdTag::Item => {
                    let depth = m.lists.len();
                    assert(escape_free(seq![' ', ' ']));
                    lemma_repeat_escape_free(seq![' ', ' '], if depth > 0 { (depth - 1) as nat } else { 0 });
                    if depth > 0 {
                        match m.lists.last() {
                            Some(n) => {
                                lemma_decimal_escape_free(n as nat);
                            },
                            None => {},
                        }
                    }
                },
                MdTag::Table(_) => {
                    let tm = m.start(tag).table.unwrap();
                    assert(tm.escape_free());
                },
                MdTag::TableHead | MdTag::TableRow => {
                    match m.table {
                        Some(tm) => {
                            assert(m.start(tag).table.unwrap().escape_free());
                        },
                        None => {},
                    }
                },
                _ => {},
            }
        },
        MdEvent::End(tag) => {
            match tag {
                MdTagEnd::Heading => {
                    lemma_without_escape_free(m.flags, FlagKind::Heading);
                },
                MdTagEnd::Strong => {
                    lemma_without_escape_free(m.flags, FlagKind::Bold);
                },
                MdTagEnd::Emphasis => {
                    lemma_without_escape_free(m.flags, FlagKind::Italic);
                },
                MdTagEnd::BlockQuote => {
                    lemma_without_escape_free(m.flags, FlagKind::BlockQuote);
                },
                MdTagEnd::CodeBlock => {
                    match m.code_buf {
                        Some(code) => {
                            lemma_indented_escape_free(code);
                        },
                        None => {},
                    }
                },
                MdTagEnd::Link => {
                    lemma_without_escape_free(m.flags, FlagKind::Link);
                    lemma_last_link_escape_free(m.flags);
                },
                MdTagEnd::TableCell => {
                    match m.table {
                        Some(tm) => {
                            let cell = match m.text_buf {
                                Some(b) => b,
                                None => Seq::empty(),
                            };
                            let row = tm.current_row.push(cell);
                            assert(cells_escape_free(row)) by {
                                assert forall|i: int| 0 <= i < row.len() implies escape_free(#[trigger] row[i]) by {
                                    if i < tm.current_row.len() {
                                        assert(row[i] == tm.current_row[i]);
                                    }
                                }
                            }
                        },
                        None => {},
                    }
                },
                MdTagEnd::TableHead => {
                    match m.table {
                        Some(tm) => {
                            assert(cells_escape_free(Seq::<Seq<char>>::empty()));
                        },
                        None => {},
                    }
                },
                MdTagEnd::TableRow => {
                    match m.table {
                        Some(tm) => {
                            let rows = tm.rows.push(tm.current_row);
                            assert(rows_escape_free(rows)) by {
                                assert forall|i: int| 0 <= i < rows.len() implies cells_escape_free(#[trigger] rows[i]) by {
                                    if i < tm.rows.len() {
                                        assert(rows[i] == tm.rows[i]);
                                    }
                                }
                            }
                            assert(cells_escape_free(Seq::<Seq<char>>::empty()));
                        },
                        None => {},
                    }
                },
                _ => {},
            }
        },
        MdEvent::Rule => {
            assert(escape_free(crate::theme::rule_char()));
            lemma_repeat_escape_free(crate::theme::rule_char(), rule_width as nat);
        },
        _ => {},
    }
}

} // verus!
