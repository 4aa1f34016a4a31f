//! The renderer: a state machine over Markdown events that writes terminal
//! text, proved to follow `RenderModel::step`.

use vstd::prelude::*;
use vstd::string::StringExecFns;
use crate::events::{
    MdEvent, MdTag, MdTagEnd, PARSE_OPTIONS, heading_level, markdown_events, parse_markdown,
};
use crate::laws::{law_plain_rendering_ignores_palette, plain_theme};
use crate::model::{
    FlagKind, FormatFlag, RenderModel, event_escape_free, events_escape_free, flag_style,
    flag_styles, initial, last_link, lemma_step_escape_free, next_number, rendered, run,
    item_indent, lemma_tables_draw_plain_push, quote_prefix, same_widths, table_draws_plain,
    tables_draw_plain, without,
};
use crate::table::{TableModel, TableState, render_table};
use crate::text::{
    append_after_newlines, decimal, decimal_string, repeat, escape_free, lemma_after_newlines_concat,
    lemma_after_newlines_no_prefix, repeat_string,
};
use crate::theme::{Theme, ThemeModel};

verus! {

/// crossterm's `terminal::size`, keeping the number of columns; `None`
/// where crossterm reports an error. The size is the terminal's at the time
/// of the call, so nothing is stated of it.
#[verifier::external_body]
fn terminal_columns() -> Option<u16> {
    crossterm::terminal::size().ok().map(|(columns, _)| columns)
}

/// Renders Markdown events into terminal text.
pub struct Renderer {
    theme: Theme,
    format_stack: Vec<FormatFlag>,
    table: Option<TableState>,
    list_stack: Vec<Option<u64>>,
    text_buf: Option<String>,
    code_block_buf: Option<String>,
    code_block_lang: String,
    quote_depth: usize,
    output: String,
}

pub open spec fn string_option_view(o: Option<String>) -> Option<Seq<char>> {
    match o {
        Some(s) => Some(s@),
        None => None,
    }
}

pub open spec fn table_option_view(o: Option<TableState>) -> Option<TableModel> {
    match o {
        Some(t) => Some(t@),
        None => None,
    }
}

impl View for Renderer {
    type V = RenderModel;

    closed spec fn view(&self) -> RenderModel {
        RenderModel {
            theme: self.theme@,
            flags: self.format_stack@,
            table: table_option_view(self.table),
            lists: self.list_stack@,
            text_buf: string_option_view(self.text_buf),
            code_buf: string_option_view(self.code_block_buf),
            code_lang: self.code_block_lang@,
            quote_depth: self.quote_depth as nat,
            output: self.output@,
        }
    }
}

/// The style `flag` re-applies.
fn flag_style_string(theme: &Theme, flag: &FormatFlag) -> (res: String)
    ensures
        res@ == flag_style(theme@, *flag),
{
    match flag {
        FormatFlag::Bold => theme.push_bold(),
        FormatFlag::Italic => theme.push_italic(),
        FormatFlag::Heading(n) => theme.begin_heading(*n),
        FormatFlag::BlockQuote => theme.push_blockquote(),
        FormatFlag::Link(_) => String::new(),
    }
}

impl Renderer {
    /// A renderer with nothing open and nothing written.
    pub fn new(color: bool) -> (res: Renderer)
        ensures
            res@ == initial(res@.theme),
            res@.theme.color == color,
            res@.theme.palette_ok(),
    {
        Renderer::with_theme(Theme::new(color))
    }

    /// A renderer with the given theme, nothing open and nothing written.
    pub fn with_theme(theme: Theme) -> (res: Renderer)
        ensures
            res@ == initial(theme@),
            res@.theme.palette_ok(),
    {
        theme.palette_holds();
        let res = Renderer {
            theme,
            format_stack: Vec::new(),
            table: None,
            list_stack: Vec::new(),
            text_buf: None,
            code_block_buf: None,
            code_block_lang: String::new(),
            quote_depth: 0,
            output: String::new(),
        };
        assert(res@ =~= initial(theme@));
        res
    }

    /// The text written so far.
    pub fn output(&self) -> (res: &String)
        ensures
            res@ == self@.output,
    {
        &self.output
    }

    fn emit(&mut self, s: &str)
        ensures
            final(self)@ == old(self)@.emit(s@),
    {
        match self.text_buf.take() {
            Some(mut buf) => {
                buf.append(s);
                self.text_buf = Some(buf);
            },
            None => {
                self.emit_raw(s);
            },
        }
        assert(self@ =~= old(self)@.emit(s@));
    }

    fn emit_raw(&mut self, s: &str)
        ensures
            final(self)@ == old(self)@.emit_raw(s@),
    {
        if self.quote_depth == 0 {
            self.output.append(s);
            proof {
                lemma_after_newlines_no_prefix(s@);
                assert(quote_prefix(0) =~= Seq::<char>::empty());
            }
        } else {
            let prefix = repeat_string("> ", self.quote_depth);
            proof {
                reveal_strlit("> ");
                assert("> "@ =~= seq!['>', ' ']);
            }
            append_after_newlines(&mut self.output, s, prefix.as_str());
        }
        assert(self@ =~= old(self)@.emit_raw(s@));
    }

    /// Writes `a` then `b` to the output, as one piece.
    fn emit_raw2(&mut self, a: &str, b: &str)
        ensures
            final(self)@ == old(self)@.emit_raw(a@ + b@),
    {
        self.emit_raw(a);
        self.emit_raw(b);
        proof {
            lemma_after_newlines_concat(a@, b@, quote_prefix(old(self)@.quote_depth));
        }
        assert(self@ =~= old(self)@.emit_raw(a@ + b@));
    }

    fn in_table(&self) -> (res: bool)
        ensures
            res == self@.in_table(),
    {
        self.table.is_some()
    }

    fn reapply_formats(&mut self)
        ensures
            final(self)@ == old(self)@.reapply(),
    {
        if !self.theme.is_color() {
            return;
        }
        let mut styles = self.theme.full_reset();
        let n = self.format_stack.len();
        let mut i: usize = 0;
        while i < n
            invariant
                i <= n,
                n == self.format_stack@.len(),
                self == old(self),
                styles@ == self.theme@.reset() + flag_styles(
                    self.theme@,
                    self.format_stack@.subrange(0, i as int),
                ),
            decreases n - i,
        {
            let s = flag_style_string(&self.theme, &self.format_stack[i]);
            styles.append(s.as_str());
            assert(self.format_stack@.subrange(0, i + 1).drop_last() =~= self.format_stack@.subrange(
                0,
                i as int,
            ));
            i = i + 1;
        }
        assert(self.format_stack@.subrange(0, n as int) =~= self.format_stack@);
        self.emit_raw(styles.as_str());
    }

    /// Drops the open styles of kind `k`, keeping the others in order.
    fn remove_flags(&mut self, k: FlagKind)
        ensures
            final(self)@ == old(self)@.drop_flags(k),
    {
        let ghost orig = self.format_stack@;
        let ghost mut done: int = 0;
        let mut i: usize = 0;
        while i < self.format_stack.len()
            invariant
                0 <= done <= orig.len(),
                self.format_stack@ == without(orig.subrange(0, done), k) + orig.subrange(
                    done,
                    orig.len() as int,
                ),
                i == without(orig.subrange(0, done), k).len(),
                orig == old(self)@.flags,
                self.theme == old(self).theme,
                self.table == old(self).table,
                self.list_stack == old(self).list_stack,
                self.text_buf == old(self).text_buf,
                self.code_block_buf == old(self).code_block_buf,
                self.code_block_lang == old(self).code_block_lang,
                self.quote_depth == old(self).quote_depth,
                self.output == old(self).output,
            decreases self.format_stack.len() - i,
        {
            let ghost prefix = without(orig.subrange(0, done), k);
            assert(self.format_stack@[i as int] == orig[done]);
            assert(orig.subrange(0, done + 1).drop_last() =~= orig.subrange(0, done));
            if self.format_stack[i].kind() == k {
                self.format_stack.remove(i);
                assert(self.format_stack@ =~= prefix + orig.subrange(done + 1, orig.len() as int));
            } else {
                assert(self.format_stack@ =~= prefix.push(orig[done]) + orig.subrange(
                    done + 1,
                    orig.len() as int,
                ));
                i = i + 1;
            }
            proof {
                done = done + 1;
            }
        }
        assert(orig.subrange(0, done) =~= orig);
        assert(self.format_stack@ =~= without(orig, k));
        assert(self@ =~= old(self)@.drop_flags(k));
    }

    /// The destination of the innermost open link.
    fn last_link_url(&self) -> (res: Option<String>)
        ensures
            string_option_view(res) == last_link(self@.flags),
    {
        let mut i = self.format_stack.len();
        assert(self.format_stack@.subrange(0, i as int) =~= self.format_stack@);
        while i > 0
            invariant
                i <= self.format_stack@.len(),
                last_link(self.format_stack@) == last_link(
                    self.format_stack@.subrange(0, i as int),
                ),
            decreases i,
        {
            assert(self.format_stack@.subrange(0, i as int).drop_last() =~= self.format_stack@.subrange(
                0,
                i - 1,
            ));
            match &self.format_stack[i - 1] {
                FormatFlag::Link(url) => {
                    return Some(url.clone());
                },
                _ => {},
            }
            i = i - 1;
        }
        None
    }

    /// A list item's marker, written raw; numbered lists count on.
    fn start_item(&mut self)
        ensures
            final(self)@ == old(self)@.start_item(),
    {
        let depth = self.list_depth();
        let indent = repeat_string("  ", if depth > 0 { depth - 1 } else { 0 });
        proof {
            reveal_strlit("  ");
            reveal_strlit(". ");
            reveal_strlit("• ");
            assert("  "@ =~= seq![' ', ' ']);
        }
        let mut prefix = String::new();
        if depth > 0 {
            match self.list_stack[depth - 1] {
                Some(n) => {
                    let next = if n == u64::MAX { 0 } else { n + 1 };
                    self.list_stack.set(depth - 1, Some(next));
                    prefix = indent;
                    prefix.append(decimal_string(n).as_str());
                    prefix.append(". ");
                    assert(prefix@ =~= item_indent(depth as nat) + decimal(n as nat) + seq!['.', ' ']);
                },
                None => {
                    prefix = indent;
                    prefix.append("• ");
                    assert(prefix@ =~= item_indent(depth as nat) + seq!['•', ' ']);
                },
            }
        }
        let ghost mid = self@;
        self.emit_raw(prefix.as_str());
        proof {
            if depth == 0 {
                assert(self@ =~= old(self)@.start_item());
            } else {
                match old(self)@.lists.last() {
                    Some(n) => {
                        assert(mid =~= RenderModel {
                            lists: old(self)@.lists.update(depth - 1, Some(next_number(n))),
                            ..old(self)@
                        });
                    },
                    None => {
                        assert(mid =~= old(self)@);
                    },
                }
                assert(self@ =~= old(self)@.start_item());
            }
        }
    }

    /// What the start of an element does.
    pub fn on_start(&mut self, tag: MdTag)
        ensures
            final(self)@ == old(self)@.start(tag),
    {
        proof {
            reveal_strlit("> ");
            reveal_strlit("#");
            reveal_strlit(" ");
        }
        match tag {
            MdTag::Heading(level) => {
                let n = heading_level(level);
                self.format_stack.push(FormatFlag::Heading(n));
                let mut s = self.theme.begin_heading(n);
                let hashes = repeat_string("#", n as usize);
                s.append(hashes.as_str());
                s.append(" ");
                assert("#"@ =~= seq!['#']);
                assert(s@ =~= old(self)@.theme.heading_style(n) + repeat(seq!['#'], n as nat) + seq![
                    ' ',
                ]);
                self.emit_raw(s.as_str());
            },
            MdTag::Paragraph => {},
            MdTag::Strong => {
                self.format_stack.push(FormatFlag::Bold);
                if !self.in_table() {
                    let s = self.theme.push_bold();
                    self.emit(s.as_str());
                }
            },
            MdTag::Emphasis => {
                self.format_stack.push(FormatFlag::Italic);
                if !self.in_table() {
                    let s = self.theme.push_italic();
                    self.emit(s.as_str());
                }
            },
            MdTag::BlockQuote => {
                self.format_stack.push(FormatFlag::BlockQuote);
                let s = self.theme.push_blockquote();
                assert("> "@ =~= seq!['>', ' ']);
                self.emit_raw2(s.as_str(), "> ");
                if self.quote_depth < usize::MAX {
                    self.quote_depth = self.quote_depth + 1;
                }
            },
            MdTag::CodeBlock(lang) => {
                self.code_block_lang = match lang {
                    Some(l) => l,
                    None => String::new(),
                };
                self.code_block_buf = Some(String::new());
            },
            MdTag::List(first) => {
                self.list_stack.push(first);
            },
            MdTag::Item => {
                self.start_item();
            },
            MdTag::Table(alignments) => {
                self.table = Some(
                    TableState {
                        alignments,
                        header: Vec::new(),
                        rows: Vec::new(),
                        current_row: Vec::new(),
                        in_header: true,
                    },
                );
            },
            MdTag::TableHead => {
                match self.table.take() {
                    Some(mut state) => {
                        state.in_header = true;
                        self.table = Some(state);
                    },
                    None => {},
                }
            },
            MdTag::TableRow => {
                match self.table.take() {
                    Some(mut state) => {
                        state.current_row = Vec::new();
                        self.table = Some(state);
                    },
                    None => {},
                }
            },
            MdTag::TableCell => {
                self.text_buf = Some(String::new());
            },
            MdTag::Link(url) => {
                self.format_stack.push(FormatFlag::Link(url));
            },
            MdTag::Other => {},
        }
        assert(self@ =~= old(self)@.start(tag));
    }

    /// The end of a table cell: its text joins the current row.
    fn end_cell(&mut self)
        ensures
            final(self)@ == old(self)@.end_cell(),
    {
        let cell = match self.text_buf.take() {
            Some(text) => text,
            None => String::new(),
        };
        match self.table.take() {
            Some(mut state) => {
                let ghost before = state@;
                state.current_row.push(cell);
                assert(state@.current_row =~= before.current_row.push(cell@));
                self.table = Some(state);
            },
            None => {},
        }
        assert(self@ =~= old(self)@.end_cell());
    }

    /// The end of a link: its destination, then the open styles again.
    fn end_link(&mut self)
        ensures
            final(self)@ == old(self)@.end_link(),
    {
        let url = self.last_link_url();
        self.remove_flags(FlagKind::Link);
        match url {
            Some(url) => {
                let style = self.theme.push_link_url();
                let reset = self.theme.full_reset();
                let mut s = String::from_str(" ");
                s.append(style.as_str());
                s.append("(");
                s.append(url.as_str());
                s.append(")");
                s.append(reset.as_str());
                proof {
                    reveal_strlit(" ");
                    reveal_strlit("(");
                    reveal_strlit(")");
                }
                assert(s@ =~= seq![' '] + old(self)@.theme.link_url_style() + seq!['('] + url@
                    + seq![')'] + old(self)@.theme.reset());
                self.emit(s.as_str());
                self.reapply_formats();
            },
            None => {},
        }
    }

    /// What the end of a table element does to the table under collection.
    fn end_table_part(&mut self, tag: MdTagEnd)
        requires
            tag == MdTagEnd::TableHead || tag == MdTagEnd::TableRow,
        ensures
            final(self)@ == old(self)@.end(tag),
    {
        match self.table.take() {
            Some(mut state) => {
                if tag == MdTagEnd::TableHead {
                    let mut row = Vec::new();
                    std::mem::swap(&mut row, &mut state.current_row);
                    state.header = row;
                    state.in_header = false;
                } else if !state.in_header {
                    let ghost before = state@;
                    let mut row = Vec::new();
                    std::mem::swap(&mut row, &mut state.current_row);
                    state.rows.push(row);
                    assert(state@.rows =~= before.rows.push(before.current_row));
                }
                self.table = Some(state);
            },
            None => {},
        }
        assert(self@ =~= old(self)@.end(tag));
    }

    /// What the end of an element does.
    pub fn on_end(&mut self, tag: MdTagEnd)
        ensures
            final(self)@ == old(self)@.end(tag),
            tag == MdTagEnd::Table ==> table_draws_plain(old(self)@),
    {
        proof {
            reveal_strlit("\n");
            reveal_strlit("\n\n");
        }
        match tag {
            MdTagEnd::Heading => {
                self.remove_flags(FlagKind::Heading);
                let mut s = self.theme.full_reset();
                s.append("\n");
                assert(s@ =~= old(self)@.theme.reset() + seq!['\n']);
                self.emit_raw(s.as_str());
            },
            MdTagEnd::Paragraph => {
                assert("\n\n"@ =~= seq!['\n', '\n']);
                self.emit_raw("\n\n");
            },
            MdTagEnd::Strong => {
                self.remove_flags(FlagKind::Bold);
                if !self.in_table() {
                    self.reapply_formats();
                }
            },
            MdTagEnd::Emphasis => {
                self.remove_flags(FlagKind::Italic);
                if !self.in_table() {
                    self.reapply_formats();
                }
            },
            MdTagEnd::BlockQuote => {
                self.remove_flags(FlagKind::BlockQuote);
                if self.quote_depth > 0 {
                    self.quote_depth = self.quote_depth - 1;
                }
                let mut s = self.theme.full_reset();
                s.append("\n");
                assert(s@ =~= old(self)@.theme.reset() + seq!['\n']);
                self.emit_raw(s.as_str());
            },
            MdTagEnd::CodeBlock => {
                let lang = self.code_block_lang.clone();
                match self.code_block_buf.take() {
                    Some(code) => {
                        let formatted = self.theme.format_code_block(lang.as_str(), code.as_str());
                        assert("\n"@ =~= seq!['\n']);
                        self.emit_raw2(formatted.as_str(), "\n");
                    },
                    None => {},
                }
            },
            MdTagEnd::List => {
                self.list_stack.pop();
                if self.list_stack.len() == 0 {
                    assert("\n"@ =~= seq!['\n']);
                    self.emit_raw("\n");
                }
            },
            MdTagEnd::Item => {
                assert("\n"@ =~= seq!['\n']);
                self.emit_raw("\n");
            },
            MdTagEnd::TableCell => {
                self.end_cell();
            },
            MdTagEnd::TableHead | MdTagEnd::TableRow => {
                self.end_table_part(tag);
            },
            MdTagEnd::Table => {
                match self.table.take() {
                    Some(state) => {
                        let rendered = render_table(state);
                        assert("\n"@ =~= seq!['\n']);
                        self.emit_raw2(rendered.as_str(), "\n");
                    },
                    None => {},
                }
            },
            MdTagEnd::Link => {
                self.end_link();
            },
            MdTagEnd::Other => {},
        }
        assert(self@ =~= old(self)@.end(tag));
    }

    /// Text: into the code block under collection, or else written.
    pub fn on_text(&mut self, text: &str)
        ensures
            final(self)@ == old(self)@.put_text(text@),
    {
        match self.code_block_buf.take() {
            Some(mut buf) => {
                buf.append(text);
                self.code_block_buf = Some(buf);
                assert(self@ =~= RenderModel {
                    code_buf: Some(old(self)@.code_buf.unwrap() + text@),
                    ..old(self)@
                });
            },
            None => {
                self.emit(text);
            },
        }
    }

    /// Inline code: styled, except inside a table, where styles would break
    /// the column widths.
    pub fn on_inline_code(&mut self, text: &str)
        ensures
            final(self)@ == old(self)@.put_code(text@),
    {
        if self.in_table() {
            self.emit(text);
        } else {
            let formatted = self.theme.format_inline_code(text);
            self.emit(formatted.as_str());
        }
    }

    /// What one event does; a horizontal rule is `rule_width` wide. With
    /// color off, nothing written or collected gets an escape character
    /// unless the event brings one.
    pub fn handle(&mut self, event: MdEvent, rule_width: usize)
        ensures
            final(self)@ == old(self)@.step(event, rule_width),
            !old(self)@.theme.color && old(self)@.escape_free() && event_escape_free(event)
                ==> final(self)@.escape_free(),
            event == MdEvent::End(MdTagEnd::Table) ==> table_draws_plain(old(self)@),
    {
        let ghost e = event;
        proof {
            reveal_strlit(" ");
            reveal_strlit("\n");
        }
        match event {
            MdEvent::Start(tag) => self.on_start(tag),
            MdEvent::End(tag) => self.on_end(tag),
            MdEvent::Text(text) => self.on_text(text.as_str()),
            MdEvent::Code(text) => self.on_inline_code(text.as_str()),
            MdEvent::SoftBreak => {
                if self.text_buf.is_none() && self.code_block_buf.is_none() {
                    assert(" "@ =~= seq![' ']);
                    self.emit(" ");
                }
            },
            MdEvent::HardBreak => {
                if self.text_buf.is_none() && self.code_block_buf.is_none() {
                    assert("\n"@ =~= seq!['\n']);
                    self.emit("\n");
                }
            },
            MdEvent::Rule => {
                let mut rule = self.theme.format_rule(rule_width);
                rule.append("\n");
                assert(rule@ =~= old(self)@.theme.rule_line(rule_width as nat) + seq!['\n']);
                self.emit_raw(rule.as_str());
            },
            MdEvent::Html(_) | MdEvent::InlineHtml(_) | MdEvent::Other => {},
        }
        proof {
            if !old(self)@.theme.color && old(self)@.escape_free() && event_escape_free(e) {
                if e == MdEvent::End(MdTagEnd::Table) && old(self)@.table is Some {
                    assert(old(self)@.table.unwrap().escape_free());
                    assert(escape_free(old(self)@.table.unwrap().text()));
                }
                lemma_step_escape_free(old(self)@, e, rule_width);
            }
        }
    }

    /// Renders `events` with `theme`, every horizontal rule `rule_width`
    /// characters wide.
    pub fn render_events(theme: Theme, events: Vec<MdEvent>, rule_width: usize) -> (res: String)
        ensures
            res@ == rendered(theme@, events@, same_widths(events@.len(), rule_width)),
            !theme@.color ==> res@ == rendered(
                plain_theme(),
                events@,
                same_widths(events@.len(), rule_width),
            ),
            !theme@.color && events_escape_free(events@) ==> escape_free(res@),
            tables_draw_plain(theme@, events@, same_widths(events@.len(), rule_width)),
            theme@.palette_ok(),
    {
        theme.palette_holds();
        let ghost t = theme@;
        let ghost evs = events@;
        let mut renderer = Renderer::with_theme(theme);
        let mut rest = reversed(events);
        let ghost mut done: int = 0;
        while rest.len() > 0
            invariant
                0 <= done <= evs.len(),
                rest@ == evs.subrange(done, evs.len() as int).reverse(),
                renderer@ == run(
                    initial(t),
                    evs.subrange(0, done),
                    same_widths(done as nat, rule_width),
                ),
                renderer@.theme == t,
                !t.color && events_escape_free(evs) ==> renderer@.escape_free(),
                tables_draw_plain(t, evs.subrange(0, done), same_widths(done as nat, rule_width)),
            decreases rest.len(),
        {
            let event = rest.pop().unwrap();
            assert(event == evs[done]);
            assert(evs.subrange(0, done + 1).drop_last() =~= evs.subrange(0, done));
            assert(evs.subrange(0, done + 1) =~= evs.subrange(0, done).push(event));
            assert(same_widths((done + 1) as nat, rule_width).drop_last() =~= same_widths(done as nat, rule_width));
            assert(same_widths((done + 1) as nat, rule_width) =~= same_widths(done as nat, rule_width).push(rule_width));
            assert(rest@ =~= evs.subrange(done + 1, evs.len() as int).reverse());
            renderer.handle(event, rule_width);
            proof {
                lemma_tables_draw_plain_push(
                    t,
                    evs.subrange(0, done),
                    same_widths(done as nat, rule_width),
                    event,
                    rule_width,
                );
                done = done + 1;
            }
        }
        assert(evs.subrange(0, done) =~= evs);
        proof {
            if !t.color && events_escape_free(evs) {
                assert(escape_free(renderer@.output));
            }
            if !t.color {
                law_plain_rendering_ignores_palette(t, evs, same_widths(evs.len(), rule_width));
            }
        }
        renderer.output
    }

    /// Renders a Markdown document as `render` does, every horizontal rule
    /// `rule_width` characters wide.
    pub fn render_with_width(content: &str, color: bool, rule_width: usize) -> (res: String)
        ensures
            exists|t: ThemeModel|
                {
                    &&& t.color == color
                    &&& t.palette_ok()
                    &&& res@ == #[trigger] rendered(
                        t,
                        markdown_events(content@, PARSE_OPTIONS),
                        same_widths(markdown_events(content@, PARSE_OPTIONS).len(), rule_width),
                    )
                    &&& tables_draw_plain(
                        t,
                        markdown_events(content@, PARSE_OPTIONS),
                        same_widths(markdown_events(content@, PARSE_OPTIONS).len(), rule_width),
                    )
                },
            !color ==> res@ == rendered(
                plain_theme(),
                markdown_events(content@, PARSE_OPTIONS),
                same_widths(markdown_events(content@, PARSE_OPTIONS).len(), rule_width),
            ),
            !color && events_escape_free(markdown_events(content@, PARSE_OPTIONS)) ==> escape_free(
                res@,
            ),
    {
        let theme = Theme::new(color);
        let ghost t = theme@;
        let events = parse_markdown(content, PARSE_OPTIONS);
        let ghost evs = events@;
        let res = Renderer::render_events(theme, events, rule_width);
        assert(res@ == rendered(t, evs, same_widths(evs.len(), rule_width)));
        res
    }

    /// Renders a Markdown document: parsed with pulldown-cmark (tables and
    /// strike-through on), every horizontal rule as wide as the terminal is
    /// when the rule comes.
    pub fn render(content: &str, color: bool) -> (res: String)
        ensures
            exists|t: ThemeModel, widths: Seq<usize>|
                {
                    &&& t.color == color
                    &&& t.palette_ok()
                    &&& widths.len() == markdown_events(content@, PARSE_OPTIONS).len()
                    &&& rule_widths_reported(markdown_events(content@, PARSE_OPTIONS), widths)
                    &&& res@ == rendered(t, markdown_events(content@, PARSE_OPTIONS), widths)
                    &&& tables_draw_plain(t, markdown_events(content@, PARSE_OPTIONS), widths)
                },
            !color ==> exists|widths: Seq<usize>|
                {
                    &&& widths.len() == markdown_events(content@, PARSE_OPTIONS).len()
                    &&& rule_widths_reported(markdown_events(content@, PARSE_OPTIONS), widths)
                    &&& res@ == rendered(plain_theme(), markdown_events(content@, PARSE_OPTIONS), widths)
                },
            !color && events_escape_free(markdown_events(content@, PARSE_OPTIONS)) ==> escape_free(
                res@,
            ),
    {
        let mut renderer = Renderer::new(color);
        let ghost t = renderer@.theme;
        let events = parse_markdown(content, PARSE_OPTIONS);
        let ghost evs = events@;
        let mut rest = reversed(events);
        let ghost mut done: int = 0;
        let ghost mut widths: Seq<usize> = Seq::empty();
        while rest.len() > 0
            invariant
                0 <= done <= evs.len(),
                widths.len() == done,
                rule_widths_reported(evs.subrange(0, done), widths),
                rest@ == evs.subrange(done, evs.len() as int).reverse(),
                renderer@ == run(initial(t), evs.subrange(0, done), widths),
                renderer@.theme == t,
                t.color == color,
                !color && events_escape_free(evs) ==> renderer@.escape_free(),
                tables_draw_plain(t, evs.subrange(0, done), widths),
            decreases rest.len(),
        {
            let event = rest.pop().unwrap();
            assert(event == evs[done]);
            assert(evs.subrange(0, done + 1).drop_last() =~= evs.subrange(0, done));
            assert(rest@ =~= evs.subrange(done + 1, evs.len() as int).reverse());
            let width = match event {
                MdEvent::Rule => Self::terminal_width(),
                _ => 0,
            };
            assert(widths.push(width).drop_last() =~= widths);
            renderer.handle(event, width);
            proof {
                assert(evs.subrange(0, done + 1) =~= evs.subrange(0, done).push(event));
                lemma_tables_draw_plain_push(t, evs.subrange(0, done), widths, event, width);
                let evs2 = evs.subrange(0, done + 1);
                assert forall|k: int| 0 <= k < evs2.len() && #[trigger] evs2[k] is Rule implies reported_width(
                    widths.push(width)[k],
                ) by {
                    if k < done {
                        assert(evs2[k] == evs.subrange(0, done)[k]);
                    }
                }
                widths = widths.push(width);
                done = done + 1;
            }
        }
        assert(evs.subrange(0, done) =~= evs);
        assert(renderer@.output == rendered(t, evs, widths));
        proof {
            if !color {
                law_plain_rendering_ignores_palette(t, evs, widths);
            }
        }
        renderer.output
    }

    fn list_depth(&self) -> (res: usize)
        ensures
            res == self@.lists.len(),
    {
        self.list_stack.len()
    }

    /// The terminal's width, 72 columns where crossterm cannot tell: the
    /// width for whatever `terminal_columns` reported.
    fn terminal_width() -> (res: usize)
        ensures
            reported_width(res),
    {
        let reported = terminal_columns();
        let res = width_for(reported);
        assert(res == width_from_columns(reported));
        res
    }
}

/// The rule width for the terminal size report `reported`: its number of
/// columns, or 72 where there is none.
pub fn width_for(reported: Option<u16>) -> (res: usize)
    ensures
        res == width_from_columns(reported),
{
    match reported {
        Some(columns) => columns as usize,
        None => 72,
    }
}

/// `w` is the rule width for some terminal size report.
pub open spec fn reported_width(w: usize) -> bool {
    exists|reported: Option<u16>| w == width_from_columns(reported)
}

/// Every horizontal rule of `events` has the width for some terminal size
/// report.
pub open spec fn rule_widths_reported(events: Seq<MdEvent>, widths: Seq<usize>) -> bool {
    forall|i: int|
        0 <= i < events.len() && #[trigger] events[i] is Rule ==> reported_width(widths[i])
}

/// The rule width for a terminal size report: the reported number of
/// columns, or 72 where there is none.
pub open spec fn width_from_columns(reported: Option<u16>) -> usize {
    match reported {
        Some(columns) => columns as usize,
        None => 72,
    }
}

/// `v` in reverse order.
fn reversed(v: Vec<MdEvent>) -> (res: Vec<MdEvent>)
    ensures
        res@ == v@.reverse(),
{
    let ghost orig = v@;
    let mut v = v;
    let mut res: Vec<MdEvent> = Vec::new();
    while v.len() > 0
        invariant
            v@.len() <= orig.len(),
            v@ == orig.subrange(0, v@.len() as int),
            res@ == orig.subrange(v@.len() as int, orig.len() as int).reverse(),
        decreases v.len(),
    {
        let ghost n = v@.len();
        let e = v.pop().unwrap();
        assert(e == orig[n - 1]);
        assert(v@ =~= orig.subrange(0, n - 1));
        res.push(e);
        assert(res@ =~= orig.subrange(n - 1, orig.len() as int).reverse());
    }
    res
}

/// Renders a Markdown document for the terminal, styled when `color` is on.
pub fn render(content: &str, color: bool) -> (res: String)
    ensures
        exists|t: ThemeModel, widths: Seq<usize>|
            {
                &&& t.color == color
                &&& t.palette_ok()
                &&& widths.len() == markdown_events(content@, PARSE_OPTIONS).len()
                &&& rule_widths_reported(markdown_events(content@, PARSE_OPTIONS), widths)
                &&& res@ == rendered(t, markdown_events(content@, PARSE_OPTIONS), widths)
                &&& tables_draw_plain(t, markdown_events(content@, PARSE_OPTIONS), widths)
            },
        !color ==> exists|widths: Seq<usize>|
            {
                &&& widths.len() == markdown_events(content@, PARSE_OPTIONS).len()
                &&& rule_widths_reported(markdown_events(content@, PARSE_OPTIONS), widths)
                &&& res@ == rendered(plain_theme(), markdown_events(content@, PARSE_OPTIONS), widths)
            },
        !color && events_escape_free(markdown_events(content@, PARSE_OPTIONS)) ==> escape_free(
            res@,
        ),
{
    Renderer::render(content, color)
}

} // verus!
