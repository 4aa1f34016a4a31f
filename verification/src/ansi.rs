//! Removing ANSI control sequences, and what survives it.

use vstd::prelude::*;
use crate::text::{
    after_newlines, escape_char, escape_free, lemma_after_newlines_concat,
    lemma_after_newlines_escape_free,
};
use crate::theme::{
    ThemeAttribute, ThemeColor, ThemeModel, attribute_sequence, bare_sequence, color_index,
    is_color_code, reset_color_sequence, sgr,
};

verus! {

/// A parameter character of a control sequence (`0` to `?`).
pub open spec fn csi_parameter(c: char) -> bool {
    '0' <= c && c <= '?'
}

/// `s` read from `state` on: 0 outside a control sequence, 1 just after
/// an escape character, 2 among the parameters after `ESC [`. Control
/// sequences `ESC [ parameters final` are left out.
pub open spec fn strip_from(s: Seq<char>, state: nat) -> Seq<char>
    decreases s.len(),
{
    if s.len() == 0 {
        Seq::empty()
    } else {
        let c = s[0];
        let rest = s.drop_first();
        if state == 0 {
            if c == escape_char() {
                strip_from(rest, 1)
            } else {
                seq![c] + strip_from(rest, 0)
            }
        } else if state == 1 {
            if c == '[' {
                strip_from(rest, 2)
            } else if c == escape_char() {
                seq![escape_char()] + strip_from(rest, 1)
            } else {
                seq![escape_char(), c] + strip_from(rest, 0)
            }
        } else if csi_parameter(c) {
            strip_from(rest, 2)
        } else {
            strip_from(rest, 0)
        }
    }
}

/// `s` without its ANSI control sequences (`ESC [`, parameters, a final
/// character).
pub open spec fn strip_csi(s: Seq<char>) -> Seq<char> {
    strip_from(s, 0)
}

/// Removing control sequences from `a` followed by anything is removing
/// them from `a` and from what follows, one after the other.
pub open spec fn csi_closed(a: Seq<char>) -> bool {
    forall|b: Seq<char>| #[trigger] strip_csi(a + b) == strip_csi(a) + strip_csi(b)
}

/// `c` is `p` with complete control sequences put in: removing them gives
/// `p`, also after writing a prefix after each line break, and nothing
/// dangles into what follows.
pub open spec fn adds_codes(c: Seq<char>, p: Seq<char>) -> bool {
    &&& strip_csi(c) == p
    &&& csi_closed(c)
    &&& forall|prefix: Seq<char>|
        escape_free(prefix) ==> {
            &&& strip_csi(#[trigger] after_newlines(c, prefix)) == after_newlines(p, prefix)
            &&& csi_closed(after_newlines(c, prefix))
        }
}

/// All characters of `body` are control-sequence parameters.
pub open spec fn all_parameters(body: Seq<char>) -> bool {
    forall|i: int| 0 <= i < body.len() ==> csi_parameter(#[trigger] body[i])
}

proof fn lemma_strip_text(a: Seq<char>, b: Seq<char>)
    requires
        escape_free(a),
    ensures
        strip_csi(a + b) == a + strip_csi(b),
    decreases a.len(),
{
    if a.len() > 0 {
        assert((a + b)[0] == a[0]);
        assert((a + b).drop_first() =~= a.drop_first() + b);
        assert(escape_free(a.drop_first())) by {
            assert forall|i: int| 0 <= i < a.drop_first().len() implies a.drop_first()[i]
                != escape_char() by {
                assert(a.drop_first()[i] == a[i + 1]);
            }
        }
        lemma_strip_text(a.drop_first(), b);
        assert(seq![a[0]] + (a.drop_first() + strip_csi(b)) =~= a + strip_csi(b));
    } else {
        assert(a + b =~= b);
    }
}

proof fn lemma_strip_parameters(body: Seq<char>, b: Seq<char>)
    requires
        all_parameters(body),
    ensures
        strip_from(body + b, 2) == strip_from(b, 2),
    decreases body.len(),
{
    if body.len() > 0 {
        assert((body + b)[0] == body[0]);
        assert((body + b).drop_first() =~= body.drop_first() + b);
        assert(all_parameters(body.drop_first())) by {
            assert forall|i: int| 0 <= i < body.drop_first().len() implies csi_parameter(
                #[trigger] body.drop_first()[i],
            ) by {
                assert(body.drop_first()[i] == body[i + 1]);
            }
        }
        lemma_strip_parameters(body.drop_first(), b);
    } else {
        assert(body + b =~= b);
    }
}

proof fn lemma_strip_sgr(body: Seq<char>, b: Seq<char>)
    requires
        all_parameters(body),
    ensures
        strip_csi(sgr(body) + b) == strip_csi(b),
{
    let s = sgr(body) + b;
    assert(s[0] == escape_char());
    assert(s.drop_first()[0] == '[');
    assert(s.drop_first().drop_first() =~= body + (seq!['m'] + b));
    lemma_strip_parameters(body, seq!['m'] + b);
    assert((seq!['m'] + b)[0] == 'm');
    assert(!csi_parameter('m'));
    assert((seq!['m'] + b).drop_first() =~= b);
    assert(strip_from(seq!['m'] + b, 2) == strip_from(b, 0));
    assert(strip_from(s.drop_first().drop_first(), 2) == strip_from(b, 0));
    assert(strip_from(s.drop_first(), 1) == strip_from(s.drop_first().drop_first(), 2));
    assert(strip_from(s, 0) == strip_from(s.drop_first(), 1));
}

proof fn lemma_text_closed(a: Seq<char>)
    requires
        escape_free(a),
    ensures
        csi_closed(a),
        strip_csi(a) == a,
{
    lemma_strip_text(a, Seq::empty());
    assert(a + Seq::<char>::empty() =~= a);
    assert(strip_csi(Seq::<char>::empty()) =~= Seq::<char>::empty());
    assert forall|b: Seq<char>| #[trigger] strip_csi(a + b) == strip_csi(a) + strip_csi(b) by {
        lemma_strip_text(a, b);
    }
}

proof fn lemma_sgr_closed(body: Seq<char>)
    requires
        all_parameters(body),
    ensures
        csi_closed(sgr(body)),
        strip_csi(sgr(body)) == Seq::<char>::empty(),
{
    lemma_strip_sgr(body, Seq::empty());
    assert(sgr(body) + Seq::<char>::empty() =~= sgr(body));
    assert forall|b: Seq<char>| #[trigger] strip_csi(sgr(body) + b) == strip_csi(sgr(body))
        + strip_csi(b) by {
        lemma_strip_sgr(body, b);
        assert(Seq::<char>::empty() + strip_csi(b) =~= strip_csi(b));
    }
}

proof fn lemma_closed_concat(a: Seq<char>, b: Seq<char>)
    requires
        csi_closed(a),
        csi_closed(b),
    ensures
        csi_closed(a + b),
{
    assert forall|c: Seq<char>| #[trigger] strip_csi((a + b) + c) == strip_csi(a + b) + strip_csi(
        c,
    ) by {
        assert((a + b) + c =~= a + (b + c));
        assert(strip_csi(a + (b + c)) == strip_csi(a) + strip_csi(b + c));
        assert(strip_csi(b + c) == strip_csi(b) + strip_csi(c));
        assert(strip_csi(a + b) == strip_csi(a) + strip_csi(b));
        assert(strip_csi(a) + (strip_csi(b) + strip_csi(c)) =~= (strip_csi(a) + strip_csi(b))
            + strip_csi(c));
    }
}

proof fn lemma_after_newlines_keeps(s: Seq<char>, prefix: Seq<char>)
    requires
        !s.contains('\n'),
    ensures
        after_newlines(s, prefix) == s,
    decreases s.len(),
{
    if s.len() > 0 {
        assert(!s.drop_last().contains('\n')) by {
            if s.drop_last().contains('\n') {
                let i = choose|i: int| 0 <= i < s.drop_last().len() && s.drop_last()[i] == '\n';
                assert(s[i] == '\n');
            }
        }
        lemma_after_newlines_keeps(s.drop_last(), prefix);
        assert(s.last() == s[s.len() - 1]);
        assert(s.drop_last() + seq![s.last()] =~= s);
    }
}

/// Escape-free text is kept as it is.
pub proof fn lemma_adds_codes_text(t: Seq<char>)
    requires
        escape_free(t),
    ensures
        adds_codes(t, t),
{
    lemma_text_closed(t);
    assert forall|prefix: Seq<char>| escape_free(prefix) implies {
        &&& strip_csi(#[trigger] after_newlines(t, prefix)) == after_newlines(t, prefix)
        &&& csi_closed(after_newlines(t, prefix))
    } by {
        lemma_after_newlines_escape_free(t, prefix);
        lemma_text_closed(after_newlines(t, prefix));
    }
}

/// A select-graphic-rendition sequence is removed whole.
pub proof fn lemma_adds_codes_sgr(body: Seq<char>)
    requires
        all_parameters(body),
    ensures
        adds_codes(sgr(body), Seq::empty()),
{
    lemma_sgr_closed(body);
    assert(!sgr(body).contains('\n')) by {
        if sgr(body).contains('\n') {
            let i = choose|i: int| 0 <= i < sgr(body).len() && sgr(body)[i] == '\n';
            if i >= 2 && i < sgr(body).len() - 1 {
                assert(sgr(body)[i] == body[i - 2]);
            }
        }
    }
    assert forall|prefix: Seq<char>| escape_free(prefix) implies {
        &&& strip_csi(#[trigger] after_newlines(sgr(body), prefix)) == after_newlines(
            Seq::<char>::empty(),
            prefix,
        )
        &&& csi_closed(after_newlines(sgr(body), prefix))
    } by {
        lemma_after_newlines_keeps(sgr(body), prefix);
        assert(after_newlines(Seq::<char>::empty(), prefix) =~= Seq::<char>::empty());
    }
}

/// Putting codes into two pieces puts them into the whole.
pub proof fn lemma_adds_codes_concat(a: Seq<char>, ap: Seq<char>, b: Seq<char>, bp: Seq<char>)
    requires
        adds_codes(a, ap),
        adds_codes(b, bp),
    ensures
        adds_codes(a + b, ap + bp),
{
    lemma_closed_concat(a, b);
    assert(strip_csi(a + b) == strip_csi(a) + strip_csi(b));
    assert forall|prefix: Seq<char>| escape_free(prefix) implies {
        &&& strip_csi(#[trigger] after_newlines(a + b, prefix)) == after_newlines(ap + bp, prefix)
        &&& csi_closed(after_newlines(a + b, prefix))
    } by {
        lemma_after_newlines_concat(a, b, prefix);
        lemma_after_newlines_concat(ap, bp, prefix);
        let x = after_newlines(a, prefix);
        let y = after_newlines(b, prefix);
        assert(strip_csi(x) == after_newlines(ap, prefix));
        assert(strip_csi(y) == after_newlines(bp, prefix));
        assert(strip_csi(x + y) == strip_csi(x) + strip_csi(y));
        lemma_closed_concat(x, y);
    }
}

proof fn lemma_adds_codes_empty()
    ensures
        adds_codes(Seq::<char>::empty(), Seq::<char>::empty()),
{
    assert(escape_free(Seq::<char>::empty()));
    lemma_adds_codes_text(Seq::<char>::empty());
}

/// Putting codes into three pieces puts them into the whole.
pub proof fn lemma_adds_codes_concat3(
    a: Seq<char>,
    ap: Seq<char>,
    b: Seq<char>,
    bp: Seq<char>,
    c: Seq<char>,
    cp: Seq<char>,
)
    requires
        adds_codes(a, ap),
        adds_codes(b, bp),
        adds_codes(c, cp),
    ensures
        adds_codes(a + b + c, ap + bp + cp),
{
    lemma_adds_codes_concat(a, ap, b, bp);
    lemma_adds_codes_concat(a + b, ap + bp, c, cp);
}

/// A sequence of codes only disappears whole.
pub proof fn lemma_codes_only2(a: Seq<char>, b: Seq<char>)
    requires
        adds_codes(a, Seq::empty()),
        adds_codes(b, Seq::empty()),
    ensures
        adds_codes(a + b, Seq::empty()),
{
    lemma_adds_codes_concat(a, Seq::empty(), b, Seq::empty());
    assert(Seq::<char>::empty() + Seq::<char>::empty() =~= Seq::<char>::empty());
}

/// Every color code crossterm writes disappears whole.
pub proof fn lemma_color_code_adds(s: Seq<char>, c: ThemeColor)
    requires
        is_color_code(s, c),
    ensures
        adds_codes(s, Seq::empty()),
{
    if s == bare_sequence() {
        assert(all_parameters(Seq::<char>::empty()));
        lemma_adds_codes_sgr(Seq::empty());
    } else {
        let body = seq!['3', '8', ';', '5', ';'] + color_index(c);
        assert(all_parameters(body)) by {
            assert forall|i: int| 0 <= i < body.len() implies csi_parameter(#[trigger] body[i]) by {
                if i >= 5 {
                    assert(body[i] == color_index(c)[i - 5]);
                }
            }
        }
        lemma_adds_codes_sgr(body);
    }
}

/// Every attribute sequence disappears whole.
pub proof fn lemma_attribute_adds(a: ThemeAttribute)
    ensures
        adds_codes(attribute_sequence(a), Seq::empty()),
        adds_codes(reset_color_sequence(), Seq::empty()),
{
    let body = match a {
        ThemeAttribute::Reset => seq!['0'],
        ThemeAttribute::Bold => seq!['1'],
        ThemeAttribute::Italic => seq!['3'],
        ThemeAttribute::Underlined => seq!['4'],
    };
    assert(all_parameters(body));
    lemma_adds_codes_sgr(body);
    assert(all_parameters(seq!['0']));
    lemma_adds_codes_sgr(seq!['0']);
}

/// With color on, each style of a theme whose colors are crossterm's
/// disappears whole.
pub proof fn lemma_styles_add_codes(t: ThemeModel)
    requires
        t.color,
        t.palette_ok(),
    ensures
        forall|n: u32| adds_codes(#[trigger] t.heading_style(n), Seq::empty()),
        adds_codes(t.bold_style(), Seq::empty()),
        adds_codes(t.italic_style(), Seq::empty()),
        adds_codes(t.blockquote_style(), Seq::empty()),
        adds_codes(t.link_url_style(), Seq::empty()),
        adds_codes(t.reset(), Seq::empty()),
        adds_codes(t.green, Seq::empty()),
        adds_codes(t.dark_grey, Seq::empty()),
{
    lemma_color_code_adds(t.cyan, ThemeColor::Cyan);
    lemma_color_code_adds(t.blue, ThemeColor::Blue);
    lemma_color_code_adds(t.dark_grey, ThemeColor::DarkGrey);
    lemma_color_code_adds(t.green, ThemeColor::Green);
    lemma_attribute_adds(ThemeAttribute::Bold);
    lemma_attribute_adds(ThemeAttribute::Italic);
    lemma_attribute_adds(ThemeAttribute::Underlined);
    lemma_attribute_adds(ThemeAttribute::Reset);
    let bold = attribute_sequence(ThemeAttribute::Bold);
    let underlined = attribute_sequence(ThemeAttribute::Underlined);
    lemma_codes_only2(t.cyan, bold);
    lemma_codes_only2(t.cyan + bold, underlined);
    lemma_codes_only2(t.blue, bold);
    assert forall|n: u32| adds_codes(#[trigger] t.heading_style(n), Seq::empty()) by {}
    lemma_codes_only2(t.dark_grey, attribute_sequence(ThemeAttribute::Italic));
    lemma_codes_only2(t.blue, underlined);
    lemma_codes_only2(reset_color_sequence(), attribute_sequence(ThemeAttribute::Reset));
}

/// With color on, colored text loses exactly its codes.
pub proof fn lemma_colored_adds_codes(t: ThemeModel, start: Seq<char>, body: Seq<char>, plain: Seq<char>)
    requires
        t.color,
        t.palette_ok(),
        adds_codes(start, Seq::empty()),
        adds_codes(body, plain),
    ensures
        adds_codes(t.colored(start, body), plain),
{
    lemma_styles_add_codes(t);
    lemma_adds_codes_concat3(start, Seq::empty(), body, plain, t.reset(), Seq::empty());
    assert(Seq::<char>::empty() + plain + Seq::<char>::empty() =~= plain);
}

} // verus!
