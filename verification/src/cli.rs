//! The command line's decisions: whether to color, and what separates the
//! documents of several files.

use vstd::prelude::*;
use vstd::string::StringExecFns;
use crate::text::{repeat, repeat_string};

verus! {

/// When to use color.
#[derive(Clone, Copy, PartialEq, Eq, Structural, Debug)]
pub enum ColorMode {
    Always,
    /// Color when standard output is a terminal, unless `--no-color` is
    /// given or `NO_COLOR` is set.
    Auto,
    Never,
}

/// Whether the output is colored.
pub open spec fn spec_color_enabled(
    mode: ColorMode,
    no_color_flag: bool,
    no_color_env: bool,
    stdout_is_terminal: bool,
) -> bool {
    match mode {
        ColorMode::Always => true,
        ColorMode::Never => false,
        ColorMode::Auto => !no_color_flag && !no_color_env && stdout_is_terminal,
    }
}

/// Whether the output is colored: `--color=always` and `--color=never`
/// decide alone; otherwise color is on only when standard output is a
/// terminal, `--no-color` is not given and the environment variable
/// `NO_COLOR` is not set.
pub fn color_enabled(
    mode: ColorMode,
    no_color_flag: bool,
    no_color_env: bool,
    stdout_is_terminal: bool,
) -> (res: bool)
    ensures
        res == spec_color_enabled(mode, no_color_flag, no_color_env, stdout_is_terminal),
        mode == ColorMode::Never ==> !res,
        mode == ColorMode::Always ==> res,
        mode == ColorMode::Auto && (no_color_flag || no_color_env || !stdout_is_terminal) ==> !res,
{
    match mode {
        ColorMode::Always => true,
        ColorMode::Never => false,
        ColorMode::Auto => !no_color_flag && !no_color_env && stdout_is_terminal,
    }
}

/// The width of the line between two documents.
pub const SEPARATOR_WIDTH: usize = 72;

/// A blank line, a line of 72 `─`, and another blank line.
pub open spec fn separator() -> Seq<char> {
    seq!['\n'] + repeat(seq!['─'], 72) + seq!['\n', '\n']
}

/// What goes before the document of the `index`-th file (counting from 0):
/// nothing before the first, the separator before every other.
pub open spec fn spec_document_prefix(index: usize) -> Seq<char> {
    if index == 0 {
        Seq::empty()
    } else {
        separator()
    }
}

pub fn document_prefix(index: usize) -> (res: String)
    ensures
        res@ == spec_document_prefix(index),
{
    if index == 0 {
        return String::new();
    }
    let mut s = String::from_str("\n");
    let line = repeat_string("─", SEPARATOR_WIDTH);
    s.append(line.as_str());
    s.append("\n\n");
    proof {
        reveal_strlit("\n");
        reveal_strlit("─");
        reveal_strlit("\n\n");
        assert("─"@ =~= seq!['─']);
    }
    assert(s@ =~= separator());
    s
}

} // verus!
