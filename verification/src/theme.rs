//! ANSI styles of the rendered elements.
//!
//! The escape sequences themselves come from crossterm; this module decides
//! which of them each element gets, and that nothing is styled when color is
//! off.

use vstd::prelude::*;
use vstd::string::StringExecFns;
use crossterm::Command;
use crossterm::style::{Attribute, Color, ResetColor, SetAttribute, SetForegroundColor};
use crate::text::{escape_char, indent_lines, indented, repeat, repeat_string};

verus! {

/// The foreground colors the theme uses.
#[derive(Clone, Copy, PartialEq, Eq, Structural)]
pub enum ThemeColor {
    Cyan,
    Blue,
    DarkGrey,
    Green,
}

/// The text attributes the theme uses.
#[derive(Clone, Copy, PartialEq, Eq, Structural)]
pub enum ThemeAttribute {
    Reset,
    Bold,
    Italic,
    Underlined,
}

/// `ESC [ body m`: an ANSI "select graphic rendition" sequence.
pub open spec fn sgr(body: Seq<char>) -> Seq<char> {
    seq![escape_char(), '['] + body + seq!['m']
}

/// The 256-color palette index crossterm writes for each color.
pub open spec fn color_index(c: ThemeColor) -> Seq<char> {
    match c {
        ThemeColor::Cyan => seq!['1', '4'],
        ThemeColor::Blue => seq!['1', '2'],
        ThemeColor::DarkGrey => seq!['8'],
        ThemeColor::Green => seq!['1', '0'],
    }
}

/// The sequence that sets the foreground to `c`.
pub open spec fn foreground_sequence(c: ThemeColor) -> Seq<char> {
    sgr(seq!['3', '8', ';', '5', ';'] + color_index(c))
}

/// The sequence crossterm writes for a color while the environment variable
/// `NO_COLOR` is set: the color is left out.
pub open spec fn bare_sequence() -> Seq<char> {
    sgr(Seq::empty())
}

/// The sequence that turns on `a`.
pub open spec fn attribute_sequence(a: ThemeAttribute) -> Seq<char> {
    sgr(
        match a {
            ThemeAttribute::Reset => seq!['0'],
            ThemeAttribute::Bold => seq!['1'],
            ThemeAttribute::Italic => seq!['3'],
            ThemeAttribute::Underlined => seq!['4'],
        },
    )
}

/// The sequence that resets the foreground and background colors.
pub open spec fn reset_color_sequence() -> Seq<char> {
    sgr(seq!['0'])
}

/// The character a horizontal rule is drawn with.
pub open spec fn rule_char() -> Seq<char> {
    seq!['─']
}

/// A color code as crossterm may have written it for `c`.
pub open spec fn is_color_code(s: Seq<char>, c: ThemeColor) -> bool {
    s == foreground_sequence(c) || s == bare_sequence()
}

/// The theme as the contracts see it: whether color is on, and the
/// foreground sequences it holds for its four colors.
#[verifier::ext_equal]
pub struct ThemeModel {
    pub color: bool,
    pub cyan: Seq<char>,
    pub blue: Seq<char>,
    pub dark_grey: Seq<char>,
    pub green: Seq<char>,
}

impl ThemeModel {
    /// Each held color code is one crossterm writes for that color.
    pub open spec fn palette_ok(self) -> bool {
        &&& is_color_code(self.cyan, ThemeColor::Cyan)
        &&& is_color_code(self.blue, ThemeColor::Blue)
        &&& is_color_code(self.dark_grey, ThemeColor::DarkGrey)
        &&& is_color_code(self.green, ThemeColor::Green)
    }

    /// `s` when color is on, nothing otherwise.
    pub open spec fn on(self, s: Seq<char>) -> Seq<char> {
        if self.color {
            s
        } else {
            Seq::empty()
        }
    }

    /// What starts a heading of the given level.
    pub open spec fn heading_style(self, level: u32) -> Seq<char> {
        let bold = attribute_sequence(ThemeAttribute::Bold);
        self.on(
            if level == 1 {
                self.cyan + bold + attribute_sequence(ThemeAttribute::Underlined)
            } else if level == 2 {
                self.cyan + bold
            } else {
                self.blue + bold
            },
        )
    }

    pub open spec fn bold_style(self) -> Seq<char> {
        self.on(attribute_sequence(ThemeAttribute::Bold))
    }

    pub open spec fn italic_style(self) -> Seq<char> {
        self.on(attribute_sequence(ThemeAttribute::Italic))
    }

    pub open spec fn blockquote_style(self) -> Seq<char> {
        self.on(self.dark_grey + attribute_sequence(ThemeAttribute::Italic))
    }

    pub open spec fn link_url_style(self) -> Seq<char> {
        self.on(self.blue + attribute_sequence(ThemeAttribute::Underlined))
    }

    /// What ends every style: colors and attributes back to the default.
    pub open spec fn reset(self) -> Seq<char> {
        self.on(reset_color_sequence() + attribute_sequence(ThemeAttribute::Reset))
    }

    /// `body` in the color `start`, followed by a reset; `body` alone
    /// without color.
    pub open spec fn colored(self, start: Seq<char>, body: Seq<char>) -> Seq<char> {
        if self.color {
            start + body + self.reset()
        } else {
            body
        }
    }

    pub open spec fn inline_code(self, text: Seq<char>) -> Seq<char> {
        self.colored(self.green, text)
    }

    pub open spec fn rule_line(self, width: nat) -> Seq<char> {
        self.colored(self.dark_grey, repeat(rule_char(), width))
    }

    /// A code block: its lines that are not empty indented by four spaces,
    /// green when color is on.
    pub open spec fn code_block(self, code: Seq<char>) -> Seq<char> {
        self.colored(self.green, indented(code))
    }
}

/// crossterm's `SetForegroundColor` command, as the text of its ANSI form
/// (written with `Command::write_ansi`). crossterm writes
/// `ESC[38;5;<index>m`, or `ESC[m` when its once-read environment variable
/// `NO_COLOR` is non-empty; the contract allows exactly these two.
#[verifier::external_body]
fn foreground_code(c: ThemeColor) -> (res: String)
    ensures
        is_color_code(res@, c),
{
    let color = match c {
        ThemeColor::Cyan => Color::Cyan,
        ThemeColor::Blue => Color::Blue,
        ThemeColor::DarkGrey => Color::DarkGrey,
        ThemeColor::Green => Color::Green,
    };
    let mut s = String::new();
    let _ = SetForegroundColor(color).write_ansi(&mut s);
    s
}

/// crossterm's `SetAttribute` command, as the text of its ANSI form:
/// `ESC[<sgr>m` with the attribute's fixed SGR number.
#[verifier::external_body]
fn attribute_code(a: ThemeAttribute) -> (res: String)
    ensures
        res@ == attribute_sequence(a),
{
    let attribute = match a {
        ThemeAttribute::Reset => Attribute::Reset,
        ThemeAttribute::Bold => Attribute::Bold,
        ThemeAttribute::Italic => Attribute::Italic,
        ThemeAttribute::Underlined => Attribute::Underlined,
    };
    let mut s = String::new();
    let _ = SetAttribute(attribute).write_ansi(&mut s);
    s
}

/// crossterm's `ResetColor` command, as the text of its ANSI form `ESC[0m`.
#[verifier::external_body]
fn reset_color_code() -> (res: String)
    ensures
        res@ == reset_color_sequence(),
{
    let mut s = String::new();
    let _ = ResetColor.write_ansi(&mut s);
    s
}

/// Styles for the rendered elements; all of them are empty when `color` is
/// off.
pub struct Theme {
    pub color: bool,
    palette: Palette,
}

/// The foreground sequences of a theme's four colors: always the ones
/// crossterm writes for them.
struct Palette {
    cyan: String,
    blue: String,
    dark_grey: String,
    green: String,
}

impl Palette {
    #[verifier::type_invariant]
    spec fn holds_crossterm_codes(self) -> bool {
        &&& is_color_code(self.cyan@, ThemeColor::Cyan)
        &&& is_color_code(self.blue@, ThemeColor::Blue)
        &&& is_color_code(self.dark_grey@, ThemeColor::DarkGrey)
        &&& is_color_code(self.green@, ThemeColor::Green)
    }
}

impl View for Theme {
    type V = ThemeModel;

    closed spec fn view(&self) -> ThemeModel {
        ThemeModel {
            color: self.color,
            cyan: self.palette.cyan@,
            blue: self.palette.blue@,
            dark_grey: self.palette.dark_grey@,
            green: self.palette.green@,
        }
    }
}

/// `a` followed by `b`.
fn concat2(a: &String, b: &String) -> (res: String)
    ensures
        res@ == a@ + b@,
{
    let mut s = a.clone();
    s.append(b.as_str());
    s
}

/// `a`, `b` and `c` one after the other.
fn concat3(a: &String, b: &str, c: &String) -> (res: String)
    ensures
        res@ == a@ + b@ + c@,
{
    let mut s = a.clone();
    s.append(b);
    s.append(c.as_str());
    s
}

impl Theme {
    /// A theme with color on or off. Either way it holds the foreground
    /// sequences crossterm writes for its four colors, so that turning
    /// `color` on later styles as a theme made with color does.
    pub fn new(color: bool) -> (res: Theme)
        ensures
            res@.color == color,
            res@.palette_ok(),
    {
        let palette = Palette {
            cyan: foreground_code(ThemeColor::Cyan),
            blue: foreground_code(ThemeColor::Blue),
            dark_grey: foreground_code(ThemeColor::DarkGrey),
            green: foreground_code(ThemeColor::Green),
        };
        Theme { color, palette }
    }

    /// Whether color is on. Whatever it is, the theme holds crossterm's
    /// sequences for its colors.
    pub fn is_color(&self) -> (res: bool)
        ensures
            res == self@.color,
            self@.palette_ok(),
    {
        self.palette_holds();
        self.color
    }

    /// Every theme holds the sequences crossterm writes for its colors.
    pub(crate) fn palette_holds(&self)
        ensures
            self@.palette_ok(),
    {
        proof {
            use_type_invariant(&self.palette);
        }
    }

    /// `s` when color is on, the empty string otherwise.
    pub fn ansi(&self, s: String) -> (res: String)
        ensures
            res@ == self@.on(s@),
    {
        if self.color {
            s
        } else {
            String::new()
        }
    }

    /// The style that starts a heading: cyan, bold and underlined for level
    /// 1, cyan and bold for level 2, blue and bold below.
    pub fn begin_heading(&self, level: u32) -> (res: String)
        ensures
            res@ == self@.heading_style(level),
    {
        if !self.color {
            return String::new();
        }
        let bold = attribute_code(ThemeAttribute::Bold);
        if level == 1 {
            let underlined = attribute_code(ThemeAttribute::Underlined);
            concat3(&self.palette.cyan, bold.as_str(), &underlined)
        } else if level == 2 {
            concat2(&self.palette.cyan, &bold)
        } else {
            concat2(&self.palette.blue, &bold)
        }
    }

    pub fn push_bold(&self) -> (res: String)
        ensures
            res@ == self@.bold_style(),
    {
        self.ansi(attribute_code(ThemeAttribute::Bold))
    }

    pub fn push_italic(&self) -> (res: String)
        ensures
            res@ == self@.italic_style(),
    {
        self.ansi(attribute_code(ThemeAttribute::Italic))
    }

    pub fn push_blockquote(&self) -> (res: String)
        ensures
            res@ == self@.blockquote_style(),
    {
        if !self.color {
            return String::new();
        }
        concat2(&self.palette.dark_grey, &attribute_code(ThemeAttribute::Italic))
    }

    pub fn push_link_url(&self) -> (res: String)
        ensures
            res@ == self@.link_url_style(),
    {
        if !self.color {
            return String::new();
        }
        concat2(&self.palette.blue, &attribute_code(ThemeAttribute::Underlined))
    }

    pub fn full_reset(&self) -> (res: String)
        ensures
            res@ == self@.reset(),
    {
        if !self.color {
            return String::new();
        }
        concat2(&reset_color_code(), &attribute_code(ThemeAttribute::Reset))
    }

    pub fn format_inline_code(&self, text: &str) -> (res: String)
        ensures
            res@ == self@.inline_code(text@),
    {
        if !self.color {
            return String::from_str(text);
        }
        concat3(&self.palette.green, text, &self.full_reset())
    }

    /// A horizontal rule `width` characters long.
    pub fn format_rule(&self, width: usize) -> (res: String)
        ensures
            res@ == self@.rule_line(width as nat),
    {
        let line = repeat_string("─", width);
        proof {
            reveal_strlit("─");
            assert("─"@ =~= rule_char());
        }
        if !self.color {
            return line;
        }
        concat3(&self.palette.dark_grey, line.as_str(), &self.full_reset())
    }

    /// A code block, indented by four spaces on every line that is not
    /// empty; the language does not change its style.
    pub fn format_code_block(&self, _lang: &str, code: &str) -> (res: String)
        ensures
            res@ == self@.code_block(code@),
    {
        let block = indent_lines(code);
        if !self.color {
            return block;
        }
        concat3(&self.palette.green, block.as_str(), &self.full_reset())
    }
}

} // verus!
