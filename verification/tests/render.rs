use mdcat::cli::{color_enabled, document_prefix, ColorMode};
use mdcat::events::{heading_level, MdHeadingLevel, MdEvent, MdTag, MdTagEnd};
use mdcat::events::MdAlignment;
use mdcat::renderer::{render, Renderer};
use mdcat::table::{render_table, TableState};
use mdcat::text::{decimal_string, repeat_string};
use mdcat::theme::Theme;

fn plain(markdown: &str) -> String {
    Renderer::render_with_width(markdown, false, 10)
}

fn is_color_code(s: &str, index: &str) -> bool {
    s == format!("\x1b[38;5;{}m", index) || s == "\x1b[m"
}

#[test]
fn decimal_and_repeat() {
    assert_eq!(decimal_string(0), "0");
    assert_eq!(decimal_string(7), "7");
    assert_eq!(decimal_string(1203), "1203");
    assert_eq!(decimal_string(u64::MAX), "18446744073709551615");
    assert_eq!(repeat_string("ab", 3), "ababab");
    assert_eq!(repeat_string("─", 0), "");
}

#[test]
fn theme_without_color_is_empty() {
    let theme = Theme::new(false);
    assert!(!theme.is_color());
    assert_eq!(theme.begin_heading(1), "");
    assert_eq!(theme.begin_heading(4), "");
    assert_eq!(theme.push_bold(), "");
    assert_eq!(theme.push_italic(), "");
    assert_eq!(theme.push_blockquote(), "");
    assert_eq!(theme.push_link_url(), "");
    assert_eq!(theme.full_reset(), "");
    assert_eq!(theme.ansi("\x1b[1m".to_string()), "");
    assert_eq!(theme.format_inline_code("x = 1"), "x = 1");
    assert_eq!(theme.format_code_block("rust", "fn main() {}\n"), "    fn main() {}\n");
    assert_eq!(theme.format_code_block("rust", "x\n\ny\n"), "    x\n\n    y\n");
    assert_eq!(theme.format_rule(4), "────");
}

#[test]
fn theme_with_color_writes_ansi_sequences() {
    let theme = Theme::new(true);
    assert!(theme.is_color());
    assert_eq!(theme.push_bold(), "\x1b[1m");
    assert_eq!(theme.push_italic(), "\x1b[3m");
    assert_eq!(theme.full_reset(), "\x1b[0m\x1b[0m");
    assert_eq!(theme.ansi("abc".to_string()), "abc");

    let h1 = theme.begin_heading(1);
    let fg = h1.strip_suffix("\x1b[1m\x1b[4m").expect("heading 1 is bold and underlined");
    assert!(is_color_code(fg, "14"));
    let h2 = theme.begin_heading(2);
    assert!(is_color_code(h2.strip_suffix("\x1b[1m").unwrap(), "14"));
    let h3 = theme.begin_heading(3);
    assert!(is_color_code(h3.strip_suffix("\x1b[1m").unwrap(), "12"));
    let quote = theme.push_blockquote();
    assert!(is_color_code(quote.strip_suffix("\x1b[3m").unwrap(), "8"));
    let link = theme.push_link_url();
    assert!(is_color_code(link.strip_suffix("\x1b[4m").unwrap(), "12"));

    let code = theme.format_inline_code("x");
    let code_fg = code.strip_suffix("x\x1b[0m\x1b[0m").unwrap();
    assert!(is_color_code(code_fg, "10"));
    let rule = theme.format_rule(2);
    assert!(is_color_code(rule.strip_suffix("──\x1b[0m\x1b[0m").unwrap(), "8"));
    let block = theme.format_code_block("", "a\n");
    assert!(is_color_code(block.strip_suffix("    a\n\x1b[0m\x1b[0m").unwrap(), "10"));
}

#[test]
fn parsed_document_reaches_the_renderer() {
    assert_eq!(
        plain("# Hi\n\nSome `code` and [a link](http://x.y).\n"),
        "# Hi\nSome code and a link (http://x.y).\n\n"
    );
    assert_eq!(plain("    code\n"), "    code\n\n");
    assert_eq!(plain("<div>\nhtml\n</div>\n\nafter\n"), "after\n\n");
}

#[test]
fn heading_and_paragraph_without_color() {
    assert_eq!(plain("# Title\n\nHello *world*\n"), "# Title\nHello world\n\n");
    assert_eq!(plain("### Three\n"), "### Three\n");
}

#[test]
fn strong_and_breaks_without_color() {
    assert_eq!(plain("a **b** c\nd\n"), "a b c d\n\n");
    assert_eq!(plain("a  \nb\n"), "a\nb\n\n");
}

#[test]
fn bullet_list_without_color() {
    assert_eq!(plain("- a\n- b\n"), "• a\n• b\n\n");
}

#[test]
fn numbered_list_counts_from_its_start() {
    assert_eq!(plain("3. x\n4. y\n5. z\n"), "3. x\n4. y\n5. z\n\n");
}

#[test]
fn code_block_is_indented() {
    assert_eq!(
        plain("```rust\nfn x() {}\n  let *a* = 1;\n```\n"),
        "    fn x() {}\n      let *a* = 1;\n\n"
    );
}

#[test]
fn block_quote_without_color() {
    assert_eq!(plain("> q\n"), "> q\n> \n> \n");
    assert_eq!(plain("> a\n>\n> b"), "> a\n> \n> b\n> \n> \n");
    assert_eq!(plain("> > x\n"), "> > x\n> > \n> > \n> \n");
    assert_eq!(plain("> ```\n> c\n> ```\n"), ">     c\n> \n> \n");
}

#[test]
fn link_shows_its_destination() {
    assert_eq!(plain("[a](http://x.y)\n"), "a (http://x.y)\n\n");
}

#[test]
fn inline_code_without_color() {
    assert_eq!(plain("run `ls -l` now\n"), "run ls -l now\n\n");
}

#[test]
fn rule_has_the_given_width() {
    let events = vec![MdEvent::Rule];
    assert_eq!(Renderer::render_events(Theme::new(false), events, 5), "─────\n");
    assert_eq!(plain("a\n\n---\n"), "a\n\n──────────\n");
}

#[test]
fn table_is_drawn_with_rounded_borders() {
    let out = plain("| a | b |\n|---|:-:|\n| 1 | 2 |\n");
    assert_eq!(out, "╭───┬───╮\n│ a │ b │\n├───┼───┤\n│ 1 │ 2 │\n╰───┴───╯\n");
}

#[test]
fn table_columns_follow_their_alignment() {
    let out = plain("| hhhh | kkkk | llll |\n|---:|:---:|:---|\n| v | w | x |\n");
    assert_eq!(
        out,
        "╭──────┬──────┬──────╮\n\
         │ hhhh │ kkkk │ llll │\n\
         ├──────┼──────┼──────┤\n\
         │    v │   w  │ x    │\n\
         ╰──────┴──────┴──────╯\n"
    );
}

#[test]
fn render_table_aligns_a_right_column() {
    let state = TableState {
        alignments: vec![MdAlignment::Right],
        header: vec!["hhhh".to_string()],
        rows: vec![vec!["v".to_string()]],
        current_row: vec![],
        in_header: false,
    };
    let out = render_table(state);
    assert_eq!(out, "╭──────╮\n│ hhhh │\n├──────┤\n│    v │\n╰──────╯");
}

#[test]
fn handle_does_what_the_handlers_do() {
    let mut by_event = Renderer::new(false);
    let mut by_handler = Renderer::new(false);
    let events = vec![
        MdEvent::Start(MdTag::Paragraph),
        MdEvent::Text("a ".to_string()),
        MdEvent::Code("b".to_string()),
        MdEvent::End(MdTagEnd::Paragraph),
    ];
    for e in events {
        by_event.handle(e, 10);
    }
    by_handler.on_start(MdTag::Paragraph);
    by_handler.on_text("a ");
    by_handler.on_inline_code("b");
    by_handler.on_end(MdTagEnd::Paragraph);
    assert_eq!(by_event.output(), by_handler.output());
    assert_eq!(by_event.output(), "a b\n\n");
}

#[test]
fn styles_stay_out_of_table_cells() {
    let out = Renderer::render_with_width("| **a** | `b` |\n|---|---|\n| x | y |\n", true, 10);
    assert_eq!(out, "╭───┬───╮\n│ a │ b │\n├───┼───┤\n│ x │ y │\n╰───┴───╯\n");
}

#[test]
fn events_built_by_hand() {
    let events = vec![
        MdEvent::Start(MdTag::List(Some(9))),
        MdEvent::Start(MdTag::Item),
        MdEvent::Text("nine".to_string()),
        MdEvent::End(MdTagEnd::Item),
        MdEvent::Start(MdTag::Item),
        MdEvent::Text("ten".to_string()),
        MdEvent::End(MdTagEnd::Item),
        MdEvent::End(MdTagEnd::List),
        MdEvent::Html("<br>".to_string()),
        MdEvent::Other,
    ];
    assert_eq!(Renderer::render_events(Theme::new(false), events, 3), "9. nine\n10. ten\n\n");
}

#[test]
fn numbering_wraps_at_the_largest_number() {
    let events = vec![
        MdEvent::Start(MdTag::List(Some(u64::MAX))),
        MdEvent::Start(MdTag::Item),
        MdEvent::End(MdTagEnd::Item),
        MdEvent::Start(MdTag::Item),
        MdEvent::End(MdTagEnd::Item),
        MdEvent::End(MdTagEnd::List),
    ];
    assert_eq!(
        Renderer::render_events(Theme::new(false), events, 3),
        "18446744073709551615. \n0. \n\n"
    );
}

#[test]
fn heading_with_color_is_styled_and_reset() {
    let theme = Theme::new(true);
    let start = theme.begin_heading(2);
    let out = Renderer::render_events(theme, vec![
        MdEvent::Start(MdTag::Heading(MdHeadingLevel::H2)),
        MdEvent::Text("Hi".to_string()),
        MdEvent::End(MdTagEnd::Heading),
    ], 3);
    assert_eq!(out, format!("{}## Hi\x1b[0m\x1b[0m\n", start));
    assert!(out.contains('\x1b'));
}

#[test]
fn bold_with_color_is_reapplied_after() {
    let out = Renderer::render_with_width("a **b** c\n", true, 3);
    assert_eq!(out, "a \x1b[1mb\x1b[0m\x1b[0m c\n\n");
}

#[test]
fn render_without_color_has_no_escapes() {
    let out = render("# T\n\n*i* **b** `c` [l](u)\n\n> q\n\n- x\n\n| h |\n|---|\n| v |\n", false);
    assert!(!out.contains('\x1b'));
    assert!(out.starts_with("# T\n"));
}

#[test]
fn render_with_color_has_escapes() {
    let out = Renderer::render("# T\n", true);
    assert!(out.contains('\x1b'));
}

#[test]
fn renderer_starts_empty() {
    let r = Renderer::new(false);
    assert_eq!(r.output(), "");
    let mut r = Renderer::new(false);
    r.handle(MdEvent::Text("x".to_string()), 0);
    r.handle(MdEvent::SoftBreak, 0);
    assert_eq!(r.output(), "x ");
}

#[test]
fn color_decision() {
    assert!(color_enabled(ColorMode::Always, true, true, false));
    assert!(!color_enabled(ColorMode::Never, false, false, true));
    assert!(color_enabled(ColorMode::Auto, false, false, true));
    assert!(!color_enabled(ColorMode::Auto, true, false, true));
    assert!(!color_enabled(ColorMode::Auto, false, true, true));
    assert!(!color_enabled(ColorMode::Auto, false, false, false));
}

#[test]
fn documents_are_separated_by_a_line() {
    assert_eq!(document_prefix(0), "");
    let sep = document_prefix(1);
    assert_eq!(sep, format!("\n{}\n\n", "─".repeat(72)));
    assert_eq!(document_prefix(5), sep);
}

#[test]
fn heading_levels_are_numbered() {
    assert_eq!(heading_level(MdHeadingLevel::H1), 1);
    assert_eq!(heading_level(MdHeadingLevel::H4), 4);
    assert_eq!(heading_level(MdHeadingLevel::H6), 6);
    assert_eq!(Renderer::render_with_width("###### six\n", false, 1), "###### six\n");
}

#[test]
fn output_only_grows() {
    let mut r = Renderer::new(false);
    let events = vec![
        MdEvent::Start(MdTag::Paragraph),
        MdEvent::Text("one".to_string()),
        MdEvent::HardBreak,
        MdEvent::Text("two".to_string()),
        MdEvent::End(MdTagEnd::Paragraph),
    ];
    let mut before = String::new();
    for e in events {
        r.handle(e, 4);
        assert!(r.output().starts_with(before.as_str()));
        before = r.output().clone();
    }
    assert_eq!(before, "one\ntwo\n\n");
}

#[test]
fn plain_rendering_is_the_same_for_every_plain_theme() {
    let doc = "# A\n\n> *b* `c`\n\n1. d\n";
    let first = Renderer::render_with_width(doc, false, 6);
    let second = Renderer::render_events(
        Theme::new(false),
        vec![MdEvent::Start(MdTag::Heading(MdHeadingLevel::H1)), MdEvent::Text("A".to_string()), MdEvent::End(MdTagEnd::Heading)],
        6,
    );
    assert!(first.starts_with(second.as_str()));
    assert_eq!(first, "# A\n> b c\n> \n> \n1. d\n\n");
}

#[test]
fn rule_width_follows_the_report() {
    assert_eq!(mdcat::renderer::width_for(Some(100)), 100);
    assert_eq!(mdcat::renderer::width_for(Some(0)), 0);
    assert_eq!(mdcat::renderer::width_for(None), 72);
}

#[test]
fn turning_color_on_later_styles_fully() {
    let mut theme = Theme::new(false);
    assert_eq!(theme.begin_heading(1), "");
    theme.color = true;
    let h1 = theme.begin_heading(1);
    assert!(is_color_code(h1.strip_suffix("\x1b[1m\x1b[4m").unwrap(), "14"));
}

fn strip_csi(s: &str) -> String {
    let mut out = String::new();
    let mut chars = s.chars().peekable();
    while let Some(c) = chars.next() {
        if c == '\x1b' && chars.peek() == Some(&'[') {
            chars.next();
            for d in chars.by_ref() {
                if !('0'..='?').contains(&d) {
                    break;
                }
            }
        } else {
            out.push(c);
        }
    }
    out
}

#[test]
fn color_only_adds_escape_codes() {
    let doc = "# Title\n\nSome **bold** and *it* with `code` and [a](http://x).\n\n\
               > quoted **b**\n>\n> more\n\n- one\n- two\n\n```\nfn x() {}\n```\n\n---\n\n\
               | h | k |\n|---|---|\n| `1` | **2** |\n";
    let colored = Renderer::render_with_width(doc, true, 8);
    let plain_out = Renderer::render_with_width(doc, false, 8);
    assert!(colored.contains('\x1b'));
    assert_eq!(strip_csi(&colored), plain_out);
}
