//! Properties of lexing, highlighting and line reformatting.
use vstd::prelude::*;

use super::parser::{
    at_line_start, fixed, followed_by, highlighted, lemma_run_end_bounds, lemma_skip_end_bounds,
    lemma_token_here, lex, lex_from, lex_step, operator_position, run_end, skip_end, skipped_at,
    starts_uppercase, tok, token_here, token_paint, token_segments, CharClass, Kind, TokSpec,
};
use super::parser::{in_class, string_end};
use super::{brace_end, find_from, lemma_find_from, reformatted_line, source_builder_marker};
use crate::text::{char_is_alphanumeric, is_ascii_digit};
use crate::paint::{
    ansi_open, ansi_reset, ansi_wrap, concat, contains_seq, lemma_concat_parts_lack,
    lemma_reopen_plain, law_strip_rendered, painted, segment_texts, strip_ansi, Hue, Paint,
};

verus! {

/// The texts of a sequence of tokens.
pub open spec fn token_texts(ts: Seq<TokSpec>) -> Seq<Seq<char>> {
    ts.map_values(|t: TokSpec| t.text)
}

/// The concatenation of one text is that text.
pub proof fn lemma_concat_single(x: Seq<char>)
    ensures
        concat(seq![x]) == x,
        concat(Seq::<Seq<char>>::empty()) == Seq::<char>::empty(),
{
    assert(seq![x].drop_last() =~= Seq::<Seq<char>>::empty());
    assert(concat(Seq::<Seq<char>>::empty()) =~= Seq::<char>::empty());
    assert(concat(seq![x]) =~= x);
}

/// Concatenating a text before others prepends it.
pub proof fn lemma_concat_prepend(x: Seq<char>, ys: Seq<Seq<char>>)
    ensures
        concat(seq![x] + ys) == x + concat(ys),
    decreases ys.len(),
{
    lemma_concat_single(x);
    if ys.len() == 0 {
        assert(seq![x] + ys =~= seq![x]);
        assert(x + concat(ys) =~= x);
    } else {
        lemma_concat_prepend(x, ys.drop_last());
        let zs = seq![x] + ys;
        assert(zs.drop_last() =~= seq![x] + ys.drop_last());
        assert(zs.last() == ys.last());
        assert(concat(zs) == concat(zs.drop_last()) + zs.last());
        assert(x + concat(ys) =~= x + concat(ys.drop_last()) + ys.last());
    }
}

proof fn lemma_lex_from_len(s: Seq<char>, p: int)
    requires
        0 <= p <= s.len(),
    ensures
        lex_from(s, p).len() <= s.len() - p,
    decreases s.len() - p,
{
    match lex_step(s, p) {
        Some((t, e)) => {
            if p < e <= s.len() {
                lemma_lex_from_len(s, e);
            }
        },
        None => {},
    }
}

/// Lexing terminates with at most one token per character of the input.
pub proof fn law_at_most_one_token_per_char(s: Seq<char>)
    ensures
        lex(s).len() <= s.len(),
{
    lemma_lex_from_len(s, 0);
}

proof fn lemma_rebuild_from(s: Seq<char>, p: int)
    requires
        0 <= p <= s.len(),
    ensures
        concat(token_texts(lex_from(s, p))) == s.skip(p),
    decreases s.len() - p,
{
    if p == s.len() {
        assert(lex_from(s, p) =~= Seq::<TokSpec>::empty());
        assert(token_texts(lex_from(s, p)) =~= Seq::<Seq<char>>::empty());
        assert(s.skip(p) =~= Seq::<char>::empty());
    } else {
        let (t, e) = if skipped_at(s, p) {
            lemma_skip_end_bounds(s, p);
            (tok(Kind::Other, s.subrange(p, skip_end(s, p))), skip_end(s, p))
        } else {
            lemma_token_here(s, p);
            token_here(s, p)
        };
        assert(lex_step(s, p) == Some((t, e)));
        lemma_rebuild_from(s, e);
        assert(lex_from(s, p) == seq![t] + lex_from(s, e));
        assert(token_texts(lex_from(s, p)) =~= seq![t.text] + token_texts(lex_from(s, e)));
        lemma_concat_prepend(t.text, token_texts(lex_from(s, e)));
        assert(s.skip(p) =~= s.subrange(p, e) + s.skip(e));
    }
}

/// Lexing loses nothing: the tokens' texts, one after another, give back
/// the plan, characters that start no token of their own included.
pub proof fn law_tokens_rebuild_plan(s: Seq<char>)
    ensures
        concat(token_texts(lex(s))) == s,
{
    lemma_rebuild_from(s, 0);
    assert(s.skip(0) =~= s);
}

/// `=(a, b)` is the function `=` applied to arguments, not a comment: an `=`
/// followed by `(` is an `Equals` token, even at the start of a line.
pub proof fn law_equals_before_paren_is_function(s: Seq<char>, p: int)
    requires
        0 <= p,
        p + 1 < s.len(),
        s[p] == '=',
        s[p + 1] == '(',
    ensures
        !skipped_at(s, p),
        token_here(s, p) == (fixed(Kind::Equals), p + 1),
{
}

/// The end of the line that position `p` is on.
pub open spec fn line_end(s: Seq<char>, p: int) -> int {
    run_end(s, p, CharClass::NotNewline)
}

/// A line that starts with `= ` or with `=` and a letter, such as
/// `= Calcite Plan =`, is one comment token reaching to the end of the line.
pub proof fn law_heading_line_is_comment(s: Seq<char>, p: int)
    requires
        at_line_start(s, p),
        0 <= p,
        p + 1 < s.len(),
        s[p] == '=',
        s[p + 1] == ' ' || ('a' <= s[p + 1] && s[p + 1] <= 'z') || ('A' <= s[p + 1] && s[p + 1]
            <= 'Z'),
    ensures
        !skipped_at(s, p),
        token_here(s, p) == (tok(Kind::Comment, s.subrange(p, line_end(s, p))), line_end(s, p)),
        line_end(s, p) == s.len() || s[line_end(s, p)] == '\n',
        forall|j: int| p <= j < line_end(s, p) ==> s[j] != '\n',
{
    lemma_run_end_bounds(s, p, CharClass::NotNewline);
}

/// A line that starts with `=` followed by a symbol other than `(`, such as
/// `=== Logical ===`, is one comment token reaching to the end of the line.
pub proof fn law_banner_line_is_comment(s: Seq<char>, p: int)
    requires
        at_line_start(s, p),
        0 <= p,
        p + 1 < s.len(),
        s[p] == '=',
        s[p + 1] == '=' || s[p + 1] == '-' || s[p + 1] == '*' || s[p + 1] == '#',
    ensures
        !skipped_at(s, p),
        token_here(s, p) == (tok(Kind::Comment, s.subrange(p, line_end(s, p))), line_end(s, p)),
{
}

/// An `=` inside a line is an `Equals` token.
pub proof fn law_inner_equals(s: Seq<char>, p: int)
    requires
        0 < p < s.len(),
        s[p] == '=',
        s[p - 1] != '\n',
    ensures
        !skipped_at(s, p),
        token_here(s, p) == (fixed(Kind::Equals), p + 1),
{
}

/// An identifier followed by `=` is painted as an attribute.
pub proof fn law_attribute_role(ts: Seq<TokSpec>, p: int)
    requires
        0 <= p < ts.len(),
        ts[p].kind == Kind::Identifier,
        followed_by(ts, p, Kind::Equals),
    ensures
        token_paint(ts, p) == Paint::Color(Hue::Magenta),
{
}

/// A capitalized identifier that opens a line, after any indentation, and is
/// followed by `(` is painted as a Calcite operator.
pub proof fn law_operator_role(ts: Seq<TokSpec>, p: int)
    requires
        0 <= p < ts.len(),
        ts[p].kind == Kind::Identifier,
        followed_by(ts, p, Kind::OpenParen),
        operator_position(ts, p),
        starts_uppercase(ts[p].text),
    ensures
        token_paint(ts, p) == Paint::BoldBrightCyan,
{
}

/// An identifier followed by `(` in the middle of a line, right after a
/// token that is neither whitespace nor a newline, is painted as a function.
pub proof fn law_function_role(ts: Seq<TokSpec>, p: int)
    requires
        0 < p < ts.len(),
        ts[p].kind == Kind::Identifier,
        followed_by(ts, p, Kind::OpenParen),
        ts[p - 1].kind != Kind::Whitespace,
        ts[p - 1].kind != Kind::Newline,
        ts[p - 1].kind != Kind::Other,
    ensures
        token_paint(ts, p) == Paint::Color(Hue::Cyan),
{
}

/// The `=` of `=(a, b)` is painted as a function.
pub proof fn law_equals_function_role(ts: Seq<TokSpec>, p: int)
    requires
        0 <= p < ts.len(),
        ts[p].kind == Kind::Equals,
        followed_by(ts, p, Kind::OpenParen),
    ensures
        token_paint(ts, p) == Paint::Color(Hue::Cyan),
{
}

proof fn lemma_concat_split(pieces: Seq<Seq<char>>, k: int)
    requires
        0 <= k <= pieces.len(),
    ensures
        concat(pieces) == concat(pieces.take(k)) + concat(pieces.skip(k)),
    decreases pieces.len() - k,
{
    if k == pieces.len() {
        assert(pieces.take(k) =~= pieces);
        assert(pieces.skip(k) =~= Seq::<Seq<char>>::empty());
        assert(concat(pieces.take(k)) + concat(pieces.skip(k)) =~= concat(pieces));
    } else {
        lemma_concat_split(pieces, k + 1);
        let a = pieces.take(k + 1);
        assert(a.drop_last() =~= pieces.take(k));
        assert(a.last() == pieces[k]);
        assert(pieces.skip(k) =~= seq![pieces[k]] + pieces.skip(k + 1));
        lemma_concat_prepend(pieces[k], pieces.skip(k + 1));
        assert(concat(pieces) =~= concat(pieces.take(k)) + concat(pieces.skip(k)));
    }
}

proof fn lemma_contains_in_middle(a: Seq<char>, b: Seq<char>, c: Seq<char>, t: Seq<char>, i: int)
    requires
        0 <= i,
        i + t.len() <= b.len(),
        b.subrange(i, i + t.len()) == t,
    ensures
        contains_seq(a + b + c, t),
{
    let h = a + b + c;
    let j = a.len() + i;
    assert(h.subrange(j, j + t.len()) =~= t);
}

/// Highlighting shows the text of every token: a token whose text holds no
/// reset sequence appears, unchanged, in the highlighted output.
pub proof fn law_highlight_shows_every_token(ts: Seq<TokSpec>, out: Seq<char>, i: int)
    requires
        highlighted(ts, 0, out),
        0 <= i < ts.len(),
        !contains_seq(ts[i].text, ansi_reset()),
    ensures
        contains_seq(out, ts[i].text),
{
    let segs = token_segments(ts, 0);
    let pieces = choose|pieces: Seq<Seq<char>>|
        {
            &&& pieces.len() == segs.len()
            &&& forall|j: int|
                0 <= j < segs.len() ==> painted(segs[j].0, segs[j].1, #[trigger] pieces[j])
            &&& out == concat(pieces)
        };
    assert(segs[i] == (token_paint(ts, i), ts[i].text));
    assert(painted(segs[i].0, segs[i].1, pieces[i]));
    let t = ts[i].text;
    let piece = pieces[i];
    lemma_concat_split(pieces, i);
    lemma_concat_split(pieces.skip(i), 1);
    assert(pieces.skip(i).take(1) =~= seq![piece]);
    lemma_concat_single(piece);
    assert(concat(pieces) =~= concat(pieces.take(i)) + piece + concat(pieces.skip(i).skip(1)));
    if piece == t {
        assert(piece.subrange(0, t.len() as int) =~= t);
        lemma_contains_in_middle(concat(pieces.take(i)), piece, concat(pieces.skip(i).skip(1)), t, 0);
    } else {
        let p = token_paint(ts, i);
        assert(piece == ansi_wrap(p, t));
        lemma_reopen_plain(t, ansi_open(p));
        let o = ansi_open(p).len() as int;
        assert(piece.subrange(o, o + t.len()) =~= t);
        lemma_contains_in_middle(concat(pieces.take(i)), piece, concat(pieces.skip(i).skip(1)), t, o);
    }
}

/// Highlighting only adds escape sequences: removing them from the
/// highlighted plan gives back the plan, when the plan holds no `ESC`.
pub proof fn law_highlight_strips_to_plan(s: Seq<char>, out: Seq<char>)
    requires
        !s.contains('\x1b'),
        highlighted(lex(s), 0, out),
    ensures
        strip_ansi(out) == s,
{
    let ts = lex(s);
    let segs = token_segments(ts, 0);
    law_tokens_rebuild_plan(s);
    assert(segment_texts(segs) =~= token_texts(ts));
    lemma_concat_parts_lack(token_texts(ts), '\x1b');
    assert forall|i: int| 0 <= i < segs.len() implies !(#[trigger] segs[i]).1.contains('\x1b') by {
        assert(segs[i].1 == token_texts(ts)[i]);
    }
    law_strip_rendered(segs, out);
}

/// A physical plan line without `sourceBuilder=` is kept as it is.
pub proof fn law_line_without_marker_is_kept(line: Seq<char>)
    requires
        find_from(line, source_builder_marker(), 0) is None,
    ensures
        reformatted_line(line) == line,
{
}

/// Reformatting rewrites only what follows `sourceBuilder=`: the line up to
/// and including the marker is kept.
pub proof fn law_line_prefix_is_kept(line: Seq<char>, k: int)
    requires
        find_from(line, source_builder_marker(), 0) == Some(k),
    ensures
        reformatted_line(line).len() >= k + 14,
        reformatted_line(line).take(k + 14) == line.take(k + 14),
{
    lemma_find_from(line, source_builder_marker(), 0);
}

/// A run of `cls` characters from `i` ends at the first character outside the class.
proof fn lemma_run_end_exact(s: Seq<char>, i: int, j: int, cls: CharClass)
    requires
        0 <= i <= j <= s.len(),
        forall|k: int| i <= k < j ==> in_class(cls, #[trigger] s[k]),
        j == s.len() || !in_class(cls, s[j]),
    ensures
        run_end(s, i, cls) == j,
    decreases j - i,
{
    if i < j {
        lemma_run_end_exact(s, i + 1, j, cls);
    }
}

/// The words `null`, `true` and `false`, standing as a whole word (not
/// followed by a letter, digit, `_` or `-`), are each one `Keyword` token,
/// and a keyword token is painted bright blue wherever it stands.
pub proof fn law_keyword_words(s: Seq<char>, p: int, w: Seq<char>, ts: Seq<TokSpec>, i: int)
    requires
        w == seq!['n', 'u', 'l', 'l'] || w == seq!['t', 'r', 'u', 'e'] || w == seq![
            'f',
            'a',
            'l',
            's',
            'e',
        ],
        0 <= p,
        p + w.len() <= s.len(),
        s.subrange(p, p + w.len() as int) == w,
        p + w.len() == s.len() || !(char_is_alphanumeric(s[p + w.len()]) || s[p + w.len()] == '_'
            || s[p + w.len()] == '-'),
    ensures
        lex_step(s, p) == Some((TokSpec { kind: Kind::Keyword, text: w }, p + w.len())),
        0 <= i < ts.len() && ts[i].kind == Kind::Keyword ==> token_paint(ts, i) == Paint::Color(
            Hue::BrightBlue,
        ),
{
    let e = p + w.len();
    assert forall|k: int| p < k < e implies in_class(CharClass::WordChar, #[trigger] s[k]) by {
        assert(s[k] == s.subrange(p, e)[k - p]);
    }
    assert(s[p] == w[0]);
    lemma_run_end_exact(s, p + 1, e, CharClass::WordChar);
    assert(!skipped_at(s, p));
}

/// Where a quoted string whose body starts at `j` ends, when no backslash
/// comes before the closing quote at `k`: just past that quote.
proof fn lemma_string_end_exact(s: Seq<char>, j: int, k: int, q: char)
    requires
        0 <= j <= k < s.len(),
        forall|i: int| j <= i < k ==> #[trigger] s[i] != q && s[i] != '\\',
        s[k] == q,
    ensures
        string_end(s, j, q) == k + 1,
    decreases k - j,
{
    if j < k {
        lemma_string_end_exact(s, j + 1, k, q);
    }
}

/// A string literal ends at the first occurrence of the quote that opened
/// it, for `"` as for `'`: a quote, a body free of that quote and of
/// backslashes, and the quote again make one `Str` token, and lexing goes on
/// after it.
pub proof fn law_string_literal(s: Seq<char>, p: int, q: char, w: Seq<char>)
    requires
        q == '"' || q == '\'',
        0 <= p,
        p + w.len() + 2 <= s.len(),
        s.subrange(p, p + w.len() + 2) == seq![q] + w + seq![q],
        forall|i: int| 0 <= i < w.len() ==> #[trigger] w[i] != q && w[i] != '\\',
    ensures
        lex_step(s, p) == Some(
            (TokSpec { kind: Kind::Str, text: seq![q] + w + seq![q] }, p + w.len() + 2),
        ),
{
    let t = seq![q] + w + seq![q];
    let k = p + w.len() + 1;
    assert(s[p] == t[0]);
    assert(s[k] == t[w.len() + 1 as int]);
    assert forall|i: int| p + 1 <= i < k implies #[trigger] s[i] != q && s[i] != '\\' by {
        assert(s[i] == t[i - p]);
        assert(t[i - p] == w[i - p - 1]);
    }
    lemma_string_end_exact(s, p + 1, k, q);
    assert(!skipped_at(s, p));
    assert(s.subrange(p, k + 1) == t);
}

/// The number of `{` minus the number of `}` among the first `n` characters of `r`.
pub open spec fn brace_balance(r: Seq<char>, n: int) -> int
    decreases n,
{
    if n <= 0 {
        0
    } else {
        brace_balance(r, n - 1) + if r[n - 1] == '{' {
            1
        } else if r[n - 1] == '}' {
            -1
        } else {
            0
        }
    }
}

proof fn lemma_brace_end_from(r: Seq<char>, i: int)
    requires
        0 <= i <= r.len(),
    ensures
        ({
            let e = brace_end(r, i, brace_balance(r, i));
            &&& e > 0 ==> i < e <= r.len() && r[e - 1] == '}' && brace_balance(r, e) == 0
            &&& forall|j: int|
                i < j <= r.len() && (e == 0 || j < e) && r[j - 1] == '}' ==> #[trigger] brace_balance(
                    r,
                    j,
                ) != 0
        }),
    decreases r.len() - i,
{
    if i < r.len() {
        lemma_brace_end_from(r, i + 1);
    }
}

/// The JSON taken after `sourceBuilder=` is the balanced brace group: the
/// scan ends just after the first `}` at which the `{` and `}` seen so far
/// balance, and when it finds none, no `}` balances them.
pub proof fn law_brace_group(r: Seq<char>)
    ensures
        ({
            let e = brace_end(r, 0, 0);
            &&& e > 0 ==> 0 < e <= r.len() && r[e - 1] == '}' && brace_balance(r, e) == 0
            &&& forall|j: int|
                0 < j <= r.len() && (e == 0 || j < e) && r[j - 1] == '}' ==> #[trigger] brace_balance(
                    r,
                    j,
                ) != 0
        }),
{
    lemma_brace_end_from(r, 0);
}

/// A backslash inside a string literal escapes the next character, even the
/// closing quote: `q \\ q w q` with `w` free of `q` and backslashes is one
/// `Str` token.
pub proof fn law_escaped_quote(s: Seq<char>, p: int, q: char, w: Seq<char>)
    requires
        q == '"' || q == '\'',
        0 <= p,
        p + w.len() + 4 <= s.len(),
        s.subrange(p, p + w.len() + 4) == seq![q, '\\', q] + w + seq![q],
        forall|i: int| 0 <= i < w.len() ==> #[trigger] w[i] != q && w[i] != '\\',
    ensures
        lex_step(s, p) == Some(
            (TokSpec { kind: Kind::Str, text: seq![q, '\\', q] + w + seq![q] }, p + w.len() + 4),
        ),
{
    let t = seq![q, '\\', q] + w + seq![q];
    let k = p + w.len() + 3;
    assert(s[p] == t[0]);
    assert(s[p + 1] == t[1]);
    assert(s[k] == t[w.len() + 3 as int]);
    assert forall|i: int| p + 3 <= i < k implies #[trigger] s[i] != q && s[i] != '\\' by {
        assert(s[i] == t[i - p]);
        assert(t[i - p] == w[i - p - 3]);
    }
    lemma_string_end_exact(s, p + 3, k, q);
    assert(!skipped_at(s, p));
    assert(s.subrange(p, k + 1) == t);
}

/// A `$` and the letters, digits, `_` and `$` after it make one `Variable` token.
pub proof fn law_variable_token(s: Seq<char>, p: int, e: int)
    requires
        0 <= p < e <= s.len(),
        s[p] == '$',
        forall|k: int| p < k < e ==> char_is_alphanumeric(#[trigger] s[k]) || s[k] == '_' || s[k] == '$',
        e == s.len() || !(char_is_alphanumeric(s[e]) || s[e] == '_' || s[e] == '$'),
    ensures
        lex_step(s, p) == Some((TokSpec { kind: Kind::Variable, text: s.subrange(p, e) }, e)),
        forall|ts: Seq<TokSpec>, i: int|
            0 <= i < ts.len() && ts[i].kind == Kind::Variable ==> #[trigger] token_paint(ts, i)
                == Paint::Color(Hue::Yellow),
{
    lemma_run_end_exact(s, p, e, CharClass::VarChar);
    assert(!skipped_at(s, p));
}

/// A digit and the digits, `.`, `e`, `E`, `-` and `+` after it make one
/// `Number` token.
pub proof fn law_number_token(s: Seq<char>, p: int, e: int)
    requires
        0 <= p < e <= s.len(),
        is_ascii_digit(s[p]),
        forall|k: int|
            p < k < e ==> is_ascii_digit(#[trigger] s[k]) || s[k] == '.' || s[k] == 'e' || s[k]
                == 'E' || s[k] == '-' || s[k] == '+',
        e == s.len() || !(is_ascii_digit(s[e]) || s[e] == '.' || s[e] == 'e' || s[e] == 'E' || s[e]
            == '-' || s[e] == '+'),
    ensures
        lex_step(s, p) == Some((TokSpec { kind: Kind::Number, text: s.subrange(p, e) }, e)),
        forall|ts: Seq<TokSpec>, i: int|
            0 <= i < ts.len() && ts[i].kind == Kind::Number ==> #[trigger] token_paint(ts, i)
                == Paint::Color(Hue::Blue),
{
    lemma_run_end_exact(s, p, e, CharClass::NumChar);
    assert(!skipped_at(s, p));
}

} // verus!
