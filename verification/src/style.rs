//! Terminal styling for the command-line output: ANSI SGR colour codes and
//! a titled, word-wrapped box drawn with box-drawing characters. Colour is
//! off whenever the output is not a terminal or `NO_COLOR` is set, so the
//! output stays greppable.

use crate::text::{
    chars_of, copy_range, is_ws, lemma_word_len, lemma_word_len_bound, push_char, push_chars, split_words, string_of,
    string_views, views, word_len, words,
};
use vstd::prelude::*;

verus! {

/// The SGR code for green: no issue.
pub const GREEN: &'static str = "32";

/// The SGR code for yellow: informational only.
pub const YELLOW: &'static str = "33";

/// The SGR code for red: worth a look.
pub const RED: &'static str = "31";

/// The width of a panel, borders included, in characters, not counting
/// its two-space indent.
pub const PANEL_WIDTH: usize = 74;

/// Whether output is coloured.
#[derive(Clone, Copy)]
pub struct Style {
    color: bool,
}

/// `text` wrapped in the SGR code `code` when `color` is on, unchanged
/// otherwise.
pub open spec fn painted(color: bool, code: Seq<char>, text: Seq<char>) -> Seq<char> {
    if color {
        "\x1b["@ + code + "m"@ + text + "\x1b[0m"@
    } else {
        text
    }
}

/// `n` copies of `c`.
pub open spec fn repeated(c: char, n: nat) -> Seq<char> {
    Seq::new(n, |i: int| c)
}

/// `a - b`, or 0 when `b` is larger.
pub open spec fn saturating(a: int, b: int) -> nat {
    if a > b {
        (a - b) as nat
    } else {
        0
    }
}

/// One step of a greedy word wrap: the word `w` joins the line being
/// filled, after one space, while that line stays within `width`;
/// otherwise the line is finished and the word starts the next one.
pub open spec fn wrap_step(state: (Seq<Seq<char>>, Seq<char>), w: Seq<char>, width: int) -> (
    Seq<Seq<char>>,
    Seq<char>,
) {
    let (out, line) = state;
    if line.len() > 0 && line.len() + 1 + w.len() > width {
        (out.push(line), w)
    } else if line.len() > 0 {
        (out, line + seq![' '] + w)
    } else {
        (out, w)
    }
}

/// The finished lines, and the line being filled, after wrapping the words
/// `ws`.
pub open spec fn wrap_fold(ws: Seq<Seq<char>>, width: int) -> (Seq<Seq<char>>, Seq<char>)
    decreases ws.len(),
{
    if ws.len() == 0 {
        (Seq::empty(), Seq::empty())
    } else {
        wrap_step(wrap_fold(ws.drop_last(), width), ws.last(), width)
    }
}

/// The words of `text` wrapped greedily into lines of at most `width`
/// characters (a single word longer than that gets a line of its own); a
/// text without words gives one empty line.
pub open spec fn spec_wrap(text: Seq<char>, width: int) -> Seq<Seq<char>> {
    let (out, line) = wrap_fold(words(text), width);
    let lines = if line.len() > 0 {
        out.push(line)
    } else {
        out
    };
    if lines.len() == 0 {
        seq![Seq::empty()]
    } else {
        lines
    }
}

/// Pieces of text joined by single spaces.
pub open spec fn join_spaces(ws: Seq<Seq<char>>) -> Seq<char>
    decreases ws.len(),
{
    if ws.len() == 0 {
        Seq::empty()
    } else if ws.len() == 1 {
        ws[0]
    } else {
        join_spaces(ws.drop_last()) + seq![' '] + ws.last()
    }
}

/// The top border of a panel: the title set into a line of dashes.
pub open spec fn panel_top(color: bool, title: Seq<char>, accent: Seq<char>) -> Seq<char> {
    let top = "┌─ "@ + title + " "@;
    "  "@ + painted(
        color,
        accent,
        top + repeated('─', saturating(PANEL_WIDTH as int, (top.len() + 1) as int)) + "┐"@,
    )
}

/// One row of a panel holding `text`, padded so that the row is exactly as
/// wide as the borders (a single word wider than the panel overflows it).
pub open spec fn panel_row(color: bool, accent: Seq<char>, text: Seq<char>) -> Seq<char> {
    "  "@ + painted(color, accent, "│"@) + " "@ + text + repeated(
        ' ',
        saturating(PANEL_WIDTH - 4, text.len() as int),
    ) + " "@ + painted(color, accent, "│"@)
}

/// The bottom border of a panel.
pub open spec fn panel_bottom(color: bool, accent: Seq<char>) -> Seq<char> {
    "  "@ + painted(color, accent, "└"@ + repeated('─', (PANEL_WIDTH - 2) as nat) + "┘"@)
}

/// The rows of a panel for the body lines `body`, each wrapped to the
/// panel's inner width.
pub open spec fn body_rows(color: bool, accent: Seq<char>, body: Seq<Seq<char>>) -> Seq<Seq<char>>
    decreases body.len(),
{
    if body.len() == 0 {
        Seq::empty()
    } else {
        let wrapped = spec_wrap(body.last(), PANEL_WIDTH - 4);
        body_rows(color, accent, body.drop_last()) + Seq::new(
            wrapped.len(),
            |i: int| panel_row(color, accent, wrapped[i]),
        )
    }
}

/// The lines of a panel: the top border, the wrapped body rows, the bottom
/// border.
pub open spec fn spec_panel(color: bool, title: Seq<char>, body: Seq<Seq<char>>, accent: Seq<char>) -> Seq<
    Seq<char>,
> {
    seq![panel_top(color, title, accent)] + body_rows(color, accent, body) + seq![
        panel_bottom(color, accent),
    ]
}

proof fn lemma_words_nonempty(s: Seq<char>)
    ensures
        forall|i: int| 0 <= i < words(s).len() ==> #[trigger] words(s)[i].len() > 0,
    decreases s.len(),
{
    if s.len() == 0 {
    } else if is_ws(s[0]) {
        lemma_words_nonempty(s.drop_first());
        assert(words(s) == words(s.drop_first()));
    } else {
        let n = word_len(s);
        lemma_word_len_bound(s);
        lemma_words_nonempty(s.skip(n as int));
        assert(words(s) == seq![s.take(n as int)] + words(s.skip(n as int)));
        assert forall|i: int| 0 <= i < words(s).len() implies #[trigger] words(s)[i].len() > 0 by {
            if i == 0 {
                assert(words(s)[0] == s.take(n as int));
            } else {
                assert(words(s)[i] == words(s.skip(n as int))[i - 1]);
            }
        }
    }
}

proof fn lemma_word_len_props(s: Seq<char>)
    ensures
        word_len(s) <= s.len(),
        forall|j: int| 0 <= j < word_len(s) ==> !is_ws(#[trigger] s[j]),
        word_len(s) < s.len() ==> is_ws(s[word_len(s) as int]),
    decreases s.len(),
{
    if s.len() > 0 && !is_ws(s[0]) {
        lemma_word_len_props(s.drop_first());
        assert forall|j: int| 0 <= j < word_len(s) implies !is_ws(#[trigger] s[j]) by {
            if j > 0 {
                assert(s[j] == s.drop_first()[j - 1]);
            }
        }
        if word_len(s) < s.len() {
            assert(s[word_len(s) as int] == s.drop_first()[word_len(s) - 1]);
        }
    }
}

proof fn lemma_words_no_ws(s: Seq<char>)
    ensures
        forall|i: int, j: int|
            0 <= i < words(s).len() && 0 <= j < words(s)[i].len() ==> !is_ws(#[trigger] words(s)[i][j]),
    decreases s.len(),
{
    if s.len() == 0 {
    } else if is_ws(s[0]) {
        lemma_words_no_ws(s.drop_first());
        assert(words(s) == words(s.drop_first()));
    } else {
        let n = word_len(s);
        lemma_word_len_props(s);
        lemma_words_no_ws(s.skip(n as int));
        assert(words(s) == seq![s.take(n as int)] + words(s.skip(n as int)));
        assert forall|i: int, j: int|
            0 <= i < words(s).len() && 0 <= j < words(s)[i].len() implies !is_ws(#[trigger] words(s)[i][j]) by {
            if i == 0 {
                assert(words(s)[0] == s.take(n as int));
                assert(words(s)[0][j] == s[j]);
            } else {
                assert(words(s)[i] == words(s.skip(n as int))[i - 1]);
            }
        }
    }
}

/// The first word of `l` keeps its length when a space and more text are
/// appended.
proof fn lemma_word_len_append(l: Seq<char>, w: Seq<char>)
    ensures
        word_len(l + seq![' '] + w) == word_len(l),
{
    lemma_word_len_props(l);
    let s = l + seq![' '] + w;
    let k = word_len(l) as int;
    assert forall|j: int| 0 <= j < k implies !is_ws(#[trigger] s[j]) by {
        assert(s[j] == l[j]);
    }
    assert(is_ws(s[k])) by {
        if k < l.len() {
            assert(s[k] == l[k]);
        } else {
            assert(s[k] == ' ');
        }
    }
    lemma_word_len(s, k);
}

/// The line that follows finished line `j` of a wrap state.
pub open spec fn next_line(out: Seq<Seq<char>>, line: Seq<char>, j: int) -> Seq<char> {
    if j + 1 < out.len() {
        out[j + 1]
    } else {
        line
    }
}

proof fn lemma_wrap_breaks(ws: Seq<Seq<char>>, width: int)
    requires
        forall|i: int| 0 <= i < ws.len() ==> #[trigger] ws[i].len() > 0,
        forall|i: int, j: int| 0 <= i < ws.len() && 0 <= j < ws[i].len() ==> !is_ws(#[trigger] ws[i][j]),
    ensures
        forall|j: int|
            0 <= j < wrap_fold(ws, width).0.len() ==> (#[trigger] wrap_fold(ws, width).0[j]).len() + 1
                + word_len(next_line(wrap_fold(ws, width).0, wrap_fold(ws, width).1, j)) > width,
    decreases ws.len(),
{
    if ws.len() > 0 {
        let prev = ws.drop_last();
        assert forall|i: int, j: int| 0 <= i < prev.len() && 0 <= j < prev[i].len() implies !is_ws(
            #[trigger] prev[i][j],
        ) by {
            assert(prev[i] == ws[i]);
        }
        assert forall|i: int| 0 <= i < prev.len() implies #[trigger] prev[i].len() > 0 by {
            assert(prev[i] == ws[i]);
        }
        lemma_wrap_breaks(prev, width);
        lemma_wrap_fold(prev, width);
        let (out, line) = wrap_fold(prev, width);
        let w = ws.last();
        assert(forall|j: int| 0 <= j < w.len() ==> !is_ws(#[trigger] w[j])) by {
            assert forall|j: int| 0 <= j < w.len() implies !is_ws(#[trigger] w[j]) by {
                assert(w[j] == ws[ws.len() - 1][j]);
            }
        }
        lemma_word_len(w, w.len() as int);
        assert(wrap_fold(ws, width) == wrap_step((out, line), w, width));
        if line.len() > 0 && line.len() + 1 + w.len() > width {
            let o2 = out.push(line);
            assert forall|j: int| 0 <= j < o2.len() implies (#[trigger] o2[j]).len() + 1 + word_len(
                next_line(o2, w, j),
            ) > width by {
                if j < out.len() {
                    assert(o2[j] == out[j]);
                    assert(next_line(o2, w, j) == next_line(out, line, j));
                }
            }
        } else if line.len() > 0 {
            let l2 = line + seq![' '] + w;
            lemma_word_len_append(line, w);
            assert forall|j: int| 0 <= j < out.len() implies (#[trigger] out[j]).len() + 1 + word_len(
                next_line(out, l2, j),
            ) > width by {
                if j + 1 >= out.len() {
                    assert(next_line(out, l2, j) == l2);
                    assert(next_line(out, line, j) == line);
                }
            }
        } else {
        }
    }
}

/// Wrapping is greedy: a line is ended only when the first word of the
/// next line would not have fitted on it after a space.
pub proof fn wrap_breaks_only_when_needed(text: Seq<char>, width: int)
    ensures
        forall|i: int|
            0 <= i < spec_wrap(text, width).len() - 1 ==> (#[trigger] spec_wrap(text, width)[i]).len() + 1
                + word_len(spec_wrap(text, width)[i + 1]) > width,
{
    lemma_words_nonempty(text);
    lemma_words_no_ws(text);
    lemma_wrap_fold(words(text), width);
    lemma_wrap_breaks(words(text), width);
    let (out, line) = wrap_fold(words(text), width);
    let lines = spec_wrap(text, width);
    if line.len() > 0 {
        assert(lines == out.push(line));
        assert forall|i: int| 0 <= i < lines.len() - 1 implies (#[trigger] lines[i]).len() + 1 + word_len(
            lines[i + 1],
        ) > width by {
            assert(lines[i] == out[i]);
            assert(lines[i + 1] == next_line(out, line, i));
        }
    }
}

proof fn lemma_join_push(s: Seq<Seq<char>>, x: Seq<char>)
    ensures
        s.len() == 0 ==> join_spaces(s.push(x)) == x,
        s.len() > 0 ==> join_spaces(s.push(x)) == join_spaces(s) + seq![' '] + x,
{
    assert(s.push(x).drop_last() =~= s);
}

/// What a fold over non-empty words keeps: the pending line is empty only
/// before the first word; every finished line and the pending one fits or
/// is a single word; and the lines joined by spaces are the words joined by
/// spaces.
proof fn lemma_wrap_fold(ws: Seq<Seq<char>>, width: int)
    requires
        forall|i: int| 0 <= i < ws.len() ==> #[trigger] ws[i].len() > 0,
    ensures
        (wrap_fold(ws, width).1.len() == 0) == (ws.len() == 0),
        ws.len() == 0 ==> wrap_fold(ws, width).0.len() == 0,
        join_spaces(
            if wrap_fold(ws, width).1.len() > 0 {
                wrap_fold(ws, width).0.push(wrap_fold(ws, width).1)
            } else {
                wrap_fold(ws, width).0
            },
        ) == join_spaces(ws),
        forall|i: int|
            0 <= i < wrap_fold(ws, width).0.len() ==> (#[trigger] wrap_fold(ws, width).0[i]).len()
                <= width || ws.contains(wrap_fold(ws, width).0[i]),
        ws.len() > 0 ==> wrap_fold(ws, width).1.len() <= width || ws.contains(wrap_fold(ws, width).1),
    decreases ws.len(),
{
    if ws.len() > 0 {
        let prev = ws.drop_last();
        lemma_wrap_fold(prev, width);
        let (out, line) = wrap_fold(prev, width);
        let w = ws.last();
        assert(ws.contains(w)) by {
            assert(ws[ws.len() - 1] == w);
        }
        assert forall|x: Seq<char>| prev.contains(x) implies ws.contains(x) by {
            let k = choose|k: int| 0 <= k < prev.len() && prev[k] == x;
            assert(ws[k] == x);
        }
        assert(wrap_fold(ws, width) == wrap_step((out, line), w, width));
        if line.len() > 0 && line.len() + 1 + w.len() > width {
            assert(wrap_fold(ws, width) == (out.push(line), w));
            lemma_join_push(out, line);
            lemma_join_push(out.push(line), w);
            lemma_join_push(prev, w);
            assert forall|i: int| 0 <= i < out.push(line).len() implies (#[trigger] out.push(line)[i]).len()
                <= width || ws.contains(out.push(line)[i]) by {
                if i < out.len() {
                    assert(out.push(line)[i] == out[i]);
                }
            }
        } else if line.len() > 0 {
            assert(wrap_fold(ws, width) == (out, line + seq![' '] + w));
            assert((line + seq![' '] + w).len() <= width);
            lemma_join_push(out, line);
            lemma_join_push(out, line + seq![' '] + w);
            lemma_join_push(prev, w);
            if out.len() > 0 {
                assert(join_spaces(out) + seq![' '] + (line + seq![' '] + w) =~= join_spaces(out) + seq![' ']
                    + line + seq![' '] + w);
            }
        } else {
            assert(wrap_fold(ws, width) == (out, w));
            lemma_join_push(out, w);
            assert(ws =~= seq![w]);
        }
    }
}

/// Wrapping only moves line breaks: the lines of a wrapped text, joined by
/// single spaces, are the text's words joined by single spaces.
pub proof fn wrap_keeps_words(text: Seq<char>, width: int)
    ensures
        join_spaces(spec_wrap(text, width)) == join_spaces(words(text)),
{
    lemma_words_nonempty(text);
    lemma_wrap_fold(words(text), width);
    let (out, line) = wrap_fold(words(text), width);
    if line.len() == 0 {
        assert(join_spaces(seq![Seq::<char>::empty()]) == Seq::<char>::empty());
    }
}

/// Every wrapped line fits the width, unless it is a single word of the
/// text that is longer than the width on its own.
pub proof fn wrap_lines_fit(text: Seq<char>, width: int)
    requires
        width >= 0,
    ensures
        forall|i: int|
            0 <= i < spec_wrap(text, width).len() ==> (#[trigger] spec_wrap(text, width)[i]).len() <= width
                || words(text).contains(spec_wrap(text, width)[i]),
{
    lemma_words_nonempty(text);
    lemma_wrap_fold(words(text), width);
    let (out, line) = wrap_fold(words(text), width);
    if line.len() > 0 {
        assert forall|i: int| 0 <= i < out.push(line).len() implies (#[trigger] out.push(line)[i]).len()
            <= width || words(text).contains(out.push(line)[i]) by {
            if i < out.len() {
                assert(out.push(line)[i] == out[i]);
            }
        }
    }
}

/// Appends one space and then the word `w` to `line`.
fn append_word(line: &mut Vec<char>, w: &Vec<char>)
    ensures
        final(line)@ == old(line)@ + seq![' '] + w@,
{
    line.push(' ');
    let ghost base = line@;
    let mut j: usize = 0;
    while j < w.len()
        invariant
            j <= w@.len(),
            line@ == base + w@.take(j as int),
        decreases w@.len() - j,
    {
        line.push(w[j]);
        assert(base + w@.take(j + 1) =~= (base + w@.take(j as int)).push(w@[j as int]));
        j = j + 1;
    }
    assert(w@.take(w@.len() as int) =~= w@);
}

/// The words of `text` wrapped greedily into lines of at most `width`
/// characters; a word longer than `width` gets a line of its own, and a
/// text without words gives one empty line.
pub fn wrap(text: &str, width: usize) -> (r: Vec<String>)
    ensures
        string_views(r@) == spec_wrap(text@, width as int),
{
    let ws = split_words(&chars_of(text));
    let mut out: Vec<String> = Vec::new();
    let mut line: Vec<char> = Vec::new();
    let mut k: usize = 0;
    while k < ws.len()
        invariant
            k <= ws@.len(),
            views(ws@) == words(text@),
            string_views(out@) == wrap_fold(views(ws@).take(k as int), width as int).0,
            line@ == wrap_fold(views(ws@).take(k as int), width as int).1,
        decreases ws@.len() - k,
    {
        let w = &ws[k];
        let ghost prefix = views(ws@).take(k as int);
        proof {
            assert(views(ws@).take(k + 1).drop_last() =~= prefix);
            assert(views(ws@).take(k + 1).last() == w@);
        }
        proof {
            assert(wrap_fold(views(ws@).take(k + 1), width as int) == wrap_step(
                wrap_fold(prefix, width as int),
                w@,
                width as int,
            ));
        }
        if line.len() > 0 && (w.len() > width || line.len() >= width - w.len()) {
            let ghost o = string_views(out@);
            out.push(string_of(&line));
            proof {
                assert(string_views(out@) =~= o.push(line@));
            }
            line = copy_range(w, 0, w.len());
            assert(w@.subrange(0, w@.len() as int) =~= w@);
        } else if line.len() > 0 {
            append_word(&mut line, w);
        } else {
            line = copy_range(w, 0, w.len());
            assert(w@.subrange(0, w@.len() as int) =~= w@);
        }
        k = k + 1;
    }
    assert(views(ws@).take(ws@.len() as int) =~= views(ws@));
    if line.len() > 0 {
        let ghost o = string_views(out@);
        out.push(string_of(&line));
        assert(string_views(out@) =~= o.push(line@));
    }
    if out.len() == 0 {
        out.push(String::new());
        assert(string_views(out@) =~= seq![Seq::<char>::empty()]);
    }
    out
}

impl Style {
    /// Whether this style colours its output.
    pub closed spec fn uses_color(self) -> bool {
        self.color
    }

    /// The style for output that goes to a terminal when `is_terminal`,
    /// with `NO_COLOR` set when `no_color`: colour only for a terminal
    /// without `NO_COLOR`.
    pub fn for_output(no_color: bool, is_terminal: bool) -> (r: Style)
        ensures
            r.uses_color() == (!no_color && is_terminal),
    {
        Style { color: !no_color && is_terminal }
    }

    /// `text` wrapped in the SGR code `code` when colour is on.
    fn paint(&self, code: &str, text: &str) -> (r: String)
        ensures
            r@ == painted(self.uses_color(), code@, text@),
    {
        if self.color {
            let mut s = String::new();
            push_chars(&mut s, &chars_of("\x1b["));
            push_chars(&mut s, &chars_of(code));
            push_char(&mut s, 'm');
            push_chars(&mut s, &chars_of(text));
            push_chars(&mut s, &chars_of("\x1b[0m"));
            proof {
                reveal_strlit("m");
            }
            s
        } else {
            string_of(&chars_of(text))
        }
    }

    /// `text` in green.
    pub fn green(&self, text: &str) -> (r: String)
        ensures
            r@ == painted(self.uses_color(), "32"@, text@),
    {
        self.paint("32", text)
    }

    /// `text` in red.
    pub fn red(&self, text: &str) -> (r: String)
        ensures
            r@ == painted(self.uses_color(), "31"@, text@),
    {
        self.paint("31", text)
    }

    /// `text` dimmed.
    pub fn dim(&self, text: &str) -> (r: String)
        ensures
            r@ == painted(self.uses_color(), "2"@, text@),
    {
        self.paint("2", text)
    }

    /// `text` in the colour of the raw SGR code `code` ("32" green, "33"
    /// yellow, "31" red, ...), for a colour picked at run time.
    pub fn accent(&self, code: &str, text: &str) -> (r: String)
        ensures
            r@ == painted(self.uses_color(), code@, text@),
    {
        self.paint(code, text)
    }
}

proof fn lemma_body_rows_width(accent: Seq<char>, body: Seq<Seq<char>>)
    requires
        forall|i: int, j: int|
            0 <= i < body.len() && 0 <= j < words(body[i]).len() ==> (#[trigger] words(body[i])[j]).len()
                <= PANEL_WIDTH - 4,
    ensures
        forall|k: int|
            0 <= k < body_rows(false, accent, body).len() ==> (#[trigger] body_rows(false, accent, body)[k]).len()
                == PANEL_WIDTH + 2,
    decreases body.len(),
{
    if body.len() > 0 {
        let prev = body.drop_last();
        assert forall|i: int, j: int|
            0 <= i < prev.len() && 0 <= j < words(prev[i]).len() implies (#[trigger] words(prev[i])[j]).len()
                <= PANEL_WIDTH - 4 by {
            assert(prev[i] == body[i]);
        }
        lemma_body_rows_width(accent, prev);
        let text = body.last();
        let w = spec_wrap(text, PANEL_WIDTH - 4);
        wrap_lines_fit(text, PANEL_WIDTH - 4);
        assert forall|t: int| 0 <= t < w.len() implies (#[trigger] w[t]).len() <= PANEL_WIDTH - 4 by {
            if !(w[t].len() <= PANEL_WIDTH - 4) {
                assert(words(text).contains(w[t]));
                let j = choose|j: int| 0 <= j < words(text).len() && words(text)[j] == w[t];
                assert(words(body[body.len() - 1])[j] == w[t]);
            }
        }
        let rows = body_rows(false, accent, body);
        let before = body_rows(false, accent, prev);
        reveal_strlit("  ");
        reveal_strlit("│");
        reveal_strlit(" ");
        assert forall|k: int| 0 <= k < rows.len() implies (#[trigger] rows[k]).len() == PANEL_WIDTH + 2 by {
            if k < before.len() {
                assert(rows[k] == before[k]);
            } else {
                assert(rows[k] == panel_row(false, accent, w[k - before.len()]));
                assert(w[k - before.len()].len() <= PANEL_WIDTH - 4);
            }
        }
    }
}

/// Without colour, the top border, every row and the bottom border of a
/// panel are equally wide (the panel's width plus the two-space indent),
/// whenever the title fits in the top border and no word of the body is
/// wider than the panel's inside.
pub proof fn panel_lines_agree_on_width(title: Seq<char>, body: Seq<Seq<char>>, accent: Seq<char>)
    requires
        title.len() + 5 <= PANEL_WIDTH,
        forall|i: int, j: int|
            0 <= i < body.len() && 0 <= j < words(body[i]).len() ==> (#[trigger] words(body[i])[j]).len()
                <= PANEL_WIDTH - 4,
    ensures
        forall|k: int|
            0 <= k < spec_panel(false, title, body, accent).len() ==> (#[trigger] spec_panel(
                false,
                title,
                body,
                accent,
            )[k]).len() == PANEL_WIDTH + 2,
{
    lemma_body_rows_width(accent, body);
    reveal_strlit("  ");
    reveal_strlit("┌─ ");
    reveal_strlit(" ");
    reveal_strlit("┐");
    reveal_strlit("└");
    reveal_strlit("┘");
    let lines = spec_panel(false, title, body, accent);
    let rows = body_rows(false, accent, body);
    assert forall|k: int| 0 <= k < lines.len() implies (#[trigger] lines[k]).len() == PANEL_WIDTH + 2 by {
        if k == 0 {
            assert(lines[0] == panel_top(false, title, accent));
        } else if k <= rows.len() {
            assert(lines[k] == rows[k - 1]);
        } else {
            assert(lines[k] == panel_bottom(false, accent));
        }
    }
}

/// Appends `n` copies of `c` to `s`.
fn push_repeated(s: &mut Vec<char>, c: char, n: usize)
    ensures
        final(s)@ == old(s)@ + repeated(c, n as nat),
{
    let ghost base = s@;
    let mut j: usize = 0;
    while j < n
        invariant
            j <= n,
            s@ == base + repeated(c, j as nat),
        decreases n - j,
    {
        s.push(c);
        assert(base + repeated(c, (j + 1) as nat) =~= (base + repeated(c, j as nat)).push(c));
        j = j + 1;
    }
}

/// Appends the characters of `text` to `s`.
fn push_str_chars(s: &mut Vec<char>, text: &str)
    ensures
        final(s)@ == old(s)@ + text@,
{
    let cs = chars_of(text);
    let ghost base = s@;
    let mut j: usize = 0;
    while j < cs.len()
        invariant
            j <= cs@.len(),
            cs@ == text@,
            s@ == base + cs@.take(j as int),
        decreases cs@.len() - j,
    {
        s.push(cs[j]);
        assert(base + cs@.take(j + 1) =~= (base + cs@.take(j as int)).push(cs@[j as int]));
        j = j + 1;
    }
    assert(cs@.take(cs@.len() as int) =~= cs@);
}

/// The top border line of a panel.
fn top_line(style: &Style, title: &str, accent: &str) -> (r: String)
    ensures
        r@ == panel_top(style.uses_color(), title@, accent@),
{
    let mut top: Vec<char> = Vec::new();
    push_str_chars(&mut top, "┌─ ");
    push_str_chars(&mut top, title);
    push_str_chars(&mut top, " ");
    let dashes = PANEL_WIDTH.saturating_sub(top.len().saturating_add(1));
    push_repeated(&mut top, '─', dashes);
    push_str_chars(&mut top, "┐");
    let border = style.accent(accent, string_of(&top).as_str());
    let mut out: Vec<char> = Vec::new();
    push_str_chars(&mut out, "  ");
    push_str_chars(&mut out, border.as_str());
    string_of(&out)
}

/// One body row of a panel, holding `text`.
fn row_line(style: &Style, text: &str, accent: &str) -> (r: String)
    ensures
        r@ == panel_row(style.uses_color(), accent@, text@),
{
    let bar = style.accent(accent, "│");
    let width = chars_of(text).len();
    let pad = (PANEL_WIDTH - 4).saturating_sub(width);
    let mut out: Vec<char> = Vec::new();
    push_str_chars(&mut out, "  ");
    push_str_chars(&mut out, bar.as_str());
    push_str_chars(&mut out, " ");
    push_str_chars(&mut out, text);
    push_repeated(&mut out, ' ', pad);
    push_str_chars(&mut out, " ");
    push_str_chars(&mut out, bar.as_str());
    string_of(&out)
}

/// The bottom border line of a panel.
fn bottom_line(style: &Style, accent: &str) -> (r: String)
    ensures
        r@ == panel_bottom(style.uses_color(), accent@),
{
    let mut bottom: Vec<char> = Vec::new();
    push_str_chars(&mut bottom, "└");
    push_repeated(&mut bottom, '─', PANEL_WIDTH - 2);
    push_str_chars(&mut bottom, "┘");
    let border = style.accent(accent, string_of(&bottom).as_str());
    let mut out: Vec<char> = Vec::new();
    push_str_chars(&mut out, "  ");
    push_str_chars(&mut out, border.as_str());
    string_of(&out)
}

/// The lines of a titled, colour-accented box around `body`, each body
/// line word-wrapped to fit: `accent` colours the border and hints the
/// severity (green for no issue, yellow for informational, red for worth a
/// look). Each line starts with a two-space indent.
pub fn panel_lines(style: &Style, title: &str, body: &Vec<String>, accent: &str) -> (r: Vec<String>)
    ensures
        string_views(r@) == spec_panel(style.uses_color(), title@, string_views(body@), accent@),
{
    let ghost color = style.uses_color();
    let mut lines: Vec<String> = Vec::new();
    lines.push(top_line(style, title, accent));
    let ghost top = panel_top(color, title@, accent@);
    let mut i: usize = 0;
    while i < body.len()
        invariant
            i <= body@.len(),
            color == style.uses_color(),
            top == panel_top(color, title@, accent@),
            string_views(lines@) == seq![top] + body_rows(color, accent@, string_views(body@).take(i as int)),
        decreases body@.len() - i,
    {
        let wrapped = wrap(body[i].as_str(), PANEL_WIDTH - 4);
        let ghost before = string_views(lines@);
        let ghost wv = string_views(wrapped@);
        proof {
            let b = string_views(body@).take(i + 1);
            assert(b.drop_last() =~= string_views(body@).take(i as int));
            assert(b.last() == body@[i as int]@);
        }
        let mut j: usize = 0;
        while j < wrapped.len()
            invariant
                j <= wrapped@.len(),
                color == style.uses_color(),
                wv == string_views(wrapped@),
                string_views(lines@) == before + Seq::new(j as nat, |t: int| panel_row(color, accent@, wv[t])),
            decreases wrapped@.len() - j,
        {
            let ghost prev = string_views(lines@);
            lines.push(row_line(style, wrapped[j].as_str(), accent));
            proof {
                assert(string_views(lines@) =~= prev.push(panel_row(color, accent@, wv[j as int])));
                assert(before + Seq::new((j + 1) as nat, |t: int| panel_row(color, accent@, wv[t])) =~= (before
                    + Seq::new(j as nat, |t: int| panel_row(color, accent@, wv[t]))).push(
                    panel_row(color, accent@, wv[j as int]),
                ));
            }
            j = j + 1;
        }
        proof {
            let b = string_views(body@).take(i + 1);
            assert(seq![top] + body_rows(color, accent@, b) =~= before + Seq::new(
                wv.len(),
                |t: int| panel_row(color, accent@, wv[t]),
            ));
        }
        i = i + 1;
    }
    let ghost before = string_views(lines@);
    lines.push(bottom_line(style, accent));
    proof {
        assert(string_views(body@).take(body@.len() as int) =~= string_views(body@));
        assert(string_views(lines@) =~= before.push(panel_bottom(color, accent@)));
    }
    lines
}

} // verus!
