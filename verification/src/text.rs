//! Character-sequence helpers: repetition and decimal notation.

use vstd::prelude::*;
use vstd::string::StringExecFns;

verus! {

/// The escape character that starts every ANSI control sequence.
pub open spec fn escape_char() -> char {
    '\x1b'
}

/// `s` holds no ANSI escape character.
pub open spec fn escape_free(s: Seq<char>) -> bool {
    !s.contains(escape_char())
}

/// `s` written `n` times, one after the other.
pub open spec fn repeat(s: Seq<char>, n: nat) -> Seq<char>
    decreases n,
{
    if n == 0 {
        Seq::empty()
    } else {
        repeat(s, (n - 1) as nat) + s
    }
}

/// The character of a decimal digit `d < 10`.
pub open spec fn digit_char(d: nat) -> char {
    if d == 0 { '0' }
    else if d == 1 { '1' }
    else if d == 2 { '2' }
    else if d == 3 { '3' }
    else if d == 4 { '4' }
    else if d == 5 { '5' }
    else if d == 6 { '6' }
    else if d == 7 { '7' }
    else if d == 8 { '8' }
    else { '9' }
}

/// The decimal notation of `n`, without leading zeros.
pub open spec fn decimal(n: nat) -> Seq<char>
    decreases n,
{
    if n < 10 {
        seq![digit_char(n)]
    } else {
        decimal(n / 10) + seq![digit_char(n % 10)]
    }
}

/// `p` ends where a line starts: it is empty or ends with a line break.
pub open spec fn at_line_start(p: Seq<char>) -> bool {
    p.len() == 0 || p.last() == '\n'
}

/// The indentation of a code block's lines.
pub open spec fn code_indent() -> Seq<char> {
    seq![' ', ' ', ' ', ' ']
}

/// `s` with every line that is not empty indented by `code_indent`.
pub open spec fn indented(s: Seq<char>) -> Seq<char>
    decreases s.len(),
{
    if s.len() == 0 {
        Seq::empty()
    } else {
        let p = s.drop_last();
        let c = s.last();
        indented(p) + (if at_line_start(p) && c != '\n' {
            code_indent()
        } else {
            Seq::empty()
        }) + seq![c]
    }
}

/// `s` with `prefix` written after each of its line breaks.
pub open spec fn after_newlines(s: Seq<char>, prefix: Seq<char>) -> Seq<char>
    decreases s.len(),
{
    if s.len() == 0 {
        Seq::empty()
    } else {
        let c = s.last();
        after_newlines(s.drop_last(), prefix) + seq![c] + (if c == '\n' {
            prefix
        } else {
            Seq::empty()
        })
    }
}

/// std's `String::push`: `c` is appended.
#[verifier::external_body]
pub(crate) fn push_char(s: &mut String, c: char)
    ensures
        final(s)@ == old(s)@.push(c),
{
    s.push(c);
}

/// `code` with every line that is not empty indented by four spaces.
pub fn indent_lines(code: &str) -> (res: String)
    ensures
        res@ == indented(code@),
{
    broadcast use vstd::string::group_string_axioms;

    let mut res = String::new();
    let mut line_start = true;
    let ghost mut seen: Seq<char> = Seq::empty();
    proof {
        reveal_strlit("    ");
        assert("    "@ =~= code_indent());
    }
    for c in it: code.chars()
        invariant
            it.seq() == code@,
            seen == code@.take(it.index()),
            line_start == at_line_start(seen),
            res@ == indented(seen),
    {
        proof {
            reveal_strlit("    ");
        }
        let indent = line_start && c != '\n';
        if indent {
            res.append("    ");
        }
        push_char(&mut res, c);
        line_start = c == '\n';
        proof {
            let next = seen.push(c);
            assert(next.drop_last() =~= seen);
            assert(next.last() == c);
            assert(indented(next) == indented(seen) + (if indent {
                code_indent()
            } else {
                Seq::empty()
            }) + seq![c]);
            assert("    "@ =~= code_indent());
            assert(res@ =~= indented(next));
            assert(code@.take(it.index() + 1) =~= next);
            seen = next;
        }
    }
    assert(seen =~= code@);
    res
}

/// Appends `s` to `out`, with `prefix` written after each line break of
/// `s`.
pub fn append_after_newlines(out: &mut String, s: &str, prefix: &str)
    ensures
        final(out)@ == old(out)@ + after_newlines(s@, prefix@),
{
    broadcast use vstd::string::group_string_axioms;

    let ghost mut seen: Seq<char> = Seq::empty();
    for c in it: s.chars()
        invariant
            it.seq() == s@,
            seen == s@.take(it.index()),
            out@ == old(out)@ + after_newlines(seen, prefix@),
    {
        push_char(out, c);
        if c == '\n' {
            out.append(prefix);
        }
        proof {
            let next = seen.push(c);
            assert(next.drop_last() =~= seen);
            assert(s@.take(it.index() + 1) =~= next);
            seen = next;
        }
    }
    assert(seen =~= s@);
}

/// A concatenation holds no escape character exactly when neither part
/// does.
pub broadcast proof fn lemma_concat_escape_free(a: Seq<char>, b: Seq<char>)
    ensures
        #[trigger] escape_free(a + b) == (escape_free(a) && escape_free(b)),
{
    if escape_free(a) && escape_free(b) {
        assert forall|i: int| 0 <= i < (a + b).len() implies (a + b)[i] != escape_char() by {
            if i < a.len() {
                assert((a + b)[i] == a[i]);
            } else {
                assert((a + b)[i] == b[i - a.len()]);
            }
        }
    }
    if escape_free(a + b) {
        assert forall|i: int| 0 <= i < a.len() implies a[i] != escape_char() by {
            assert((a + b)[i] == a[i]);
        }
        assert forall|i: int| 0 <= i < b.len() implies b[i] != escape_char() by {
            assert((a + b)[i + a.len()] == b[i]);
        }
    }
}

/// Writing a prefix after line breaks keeps escape-freedom.
pub broadcast proof fn lemma_after_newlines_escape_free(s: Seq<char>, prefix: Seq<char>)
    requires
        escape_free(s),
        escape_free(prefix),
    ensures
        #[trigger] escape_free(after_newlines(s, prefix)),
    decreases s.len(),
{
    broadcast use lemma_concat_escape_free;

    if s.len() > 0 {
        assert(escape_free(s.drop_last())) by {
            assert forall|i: int| 0 <= i < s.drop_last().len() implies s.drop_last()[i]
                != escape_char() by {
                assert(s.drop_last()[i] == s[i]);
            }
        }
        lemma_after_newlines_escape_free(s.drop_last(), prefix);
        assert(escape_free(seq![s.last()])) by {
            assert(seq![s.last()][0] == s[s.len() - 1]);
        }
        assert(escape_free(Seq::<char>::empty()));
    }
}

/// Writing a prefix after line breaks keeps the first character when it is
/// not a line break.
pub proof fn lemma_after_newlines_first(s: Seq<char>, prefix: Seq<char>)
    requires
        s.len() > 0,
    ensures
        after_newlines(s, prefix).len() > 0,
        s[0] != '\n' ==> after_newlines(s, prefix)[0] == s[0],
    decreases s.len(),
{
    if s.len() > 1 {
        lemma_after_newlines_first(s.drop_last(), prefix);
        assert(s.drop_last()[0] == s[0]);
    } else {
        assert(after_newlines(s.drop_last(), prefix) =~= Seq::<char>::empty());
    }
}

/// With no prefix, nothing is written after line breaks.
pub proof fn lemma_after_newlines_no_prefix(s: Seq<char>)
    ensures
        after_newlines(s, Seq::empty()) == s,
    decreases s.len(),
{
    if s.len() > 0 {
        lemma_after_newlines_no_prefix(s.drop_last());
        assert(s.drop_last() + seq![s.last()] =~= s);
        assert(after_newlines(s, Seq::empty()) =~= s.drop_last() + seq![s.last()]);
    }
}

/// Writing prefixes after line breaks goes piece by piece.
pub proof fn lemma_after_newlines_concat(a: Seq<char>, b: Seq<char>, prefix: Seq<char>)
    ensures
        after_newlines(a + b, prefix) == after_newlines(a, prefix) + after_newlines(b, prefix),
    decreases b.len(),
{
    if b.len() == 0 {
        assert(a + b =~= a);
        assert(after_newlines(a, prefix) + after_newlines(b, prefix) =~= after_newlines(a, prefix));
    } else {
        lemma_after_newlines_concat(a, b.drop_last(), prefix);
        assert((a + b).drop_last() =~= a + b.drop_last());
        assert((a + b).last() == b.last());
        let c = b.last();
        let tail = seq![c] + (if c == '\n' {
            prefix
        } else {
            Seq::empty()
        });
        assert(after_newlines(a + b, prefix) =~= after_newlines(a + b.drop_last(), prefix) + tail);
        assert(after_newlines(b, prefix) =~= after_newlines(b.drop_last(), prefix) + tail);
        assert(after_newlines(a + b, prefix) =~= after_newlines(a, prefix) + after_newlines(
            b,
            prefix,
        ));
    }
}

/// Indenting keeps escape-freedom.
pub proof fn lemma_indented_escape_free(s: Seq<char>)
    requires
        escape_free(s),
    ensures
        escape_free(indented(s)),
    decreases s.len(),
{
    broadcast use lemma_concat_escape_free;

    if s.len() > 0 {
        assert(escape_free(s.drop_last())) by {
            assert forall|i: int| 0 <= i < s.drop_last().len() implies s.drop_last()[i]
                != escape_char() by {
                assert(s.drop_last()[i] == s[i]);
            }
        }
        lemma_indented_escape_free(s.drop_last());
        assert(escape_free(seq![s.last()])) by {
            assert(seq![s.last()][0] == s[s.len() - 1]);
        }
        assert(escape_free(Seq::<char>::empty()));
        assert(escape_free(code_indent()));
    }
}

/// Repetition keeps escape-freedom.
pub proof fn lemma_repeat_escape_free(s: Seq<char>, n: nat)
    requires
        escape_free(s),
    ensures
        escape_free(repeat(s, n)),
    decreases n,
{
    if n > 0 {
        lemma_repeat_escape_free(s, (n - 1) as nat);
        let r = repeat(s, (n - 1) as nat);
        assert forall|i: int| 0 <= i < (r + s).len() implies (r + s)[i] != escape_char() by {
            if i < r.len() {
                assert((r + s)[i] == r[i]);
            } else {
                assert((r + s)[i] == s[i - r.len()]);
            }
        }
    }
}

/// Decimal notation holds digits only.
pub proof fn lemma_decimal_escape_free(n: nat)
    ensures
        escape_free(decimal(n)),
    decreases n,
{
    if n >= 10 {
        lemma_decimal_escape_free(n / 10);
        let a = decimal(n / 10);
        let b = seq![digit_char(n % 10)];
        assert forall|i: int| 0 <= i < (a + b).len() implies (a + b)[i] != escape_char() by {
            if i < a.len() {
                assert((a + b)[i] == a[i]);
            } else {
                assert((a + b)[i] == b[i - a.len()]);
            }
        }
    }
}

/// The one-character string of the digit `d`.
fn digit_string(d: u64) -> (res: String)
    requires
        d < 10,
    ensures
        res@ == seq![digit_char(d as nat)],
{
    let s = if d == 0 { "0" } else if d == 1 { "1" } else if d == 2 { "2" } else if d == 3 {
        "3"
    } else if d == 4 { "4" } else if d == 5 { "5" } else if d == 6 { "6" } else if d == 7 {
        "7"
    } else if d == 8 { "8" } else { "9" };
    proof {
        reveal_strlit("0");
        reveal_strlit("1");
        reveal_strlit("2");
        reveal_strlit("3");
        reveal_strlit("4");
        reveal_strlit("5");
        reveal_strlit("6");
        reveal_strlit("7");
        reveal_strlit("8");
        reveal_strlit("9");
    }
    let res = String::from_str(s);
    assert(res@ =~= seq![digit_char(d as nat)]);
    res
}

/// The decimal notation of `n`.
pub fn decimal_string(n: u64) -> (res: String)
    ensures
        res@ == decimal(n as nat),
    decreases n,
{
    if n < 10 {
        digit_string(n)
    } else {
        let mut s = decimal_string(n / 10);
        let d = digit_string(n % 10);
        s.append(d.as_str());
        s
    }
}

/// `s` written `n` times.
pub fn repeat_string(s: &str, n: usize) -> (res: String)
    ensures
        res@ == repeat(s@, n as nat),
{
    let mut res = String::new();
    let mut i: usize = 0;
    while i < n
        invariant
            i <= n,
            res@ == repeat(s@, i as nat),
        decreases n - i,
    {
        res.append(s);
        i = i + 1;
    }
    res
}

} // verus!
