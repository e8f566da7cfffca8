//! Formatting of the `calcite` section of an explain response.
use vstd::prelude::*;

pub mod laws;
pub mod parser;

use crate::json::{
    document_model, document_value, json_field, json_parse, json_pretty, json_text, parse_json,
    pretty_json, JsonValue,
};
use crate::text::{
    char_is_whitespace, char_width, chars_of, is_whitespace, push_char, push_chars, push_str,
    string_from_range, utf8_width,
};
use parser::{highlighted, lex, token_segments, CalciteHighlighter};
use crate::paint::{segment_views, Paint};

verus! {

broadcast use vstd::string::group_string_axioms;

/// The marker in front of the JSON of a physical plan's search request.
pub open spec fn source_builder_marker() -> Seq<char> {
    seq!['s', 'o', 'u', 'r', 'c', 'e', 'B', 'u', 'i', 'l', 'd', 'e', 'r', '=']
}

/// Whether `needle` occurs in `s` at `i`.
pub open spec fn occurs_at(s: Seq<char>, needle: Seq<char>, i: int) -> bool {
    0 <= i && i + needle.len() <= s.len() && s.subrange(i, i + needle.len()) == needle
}

/// The first position at or after `i` where `needle` occurs in `s`.
pub open spec fn find_from(s: Seq<char>, needle: Seq<char>, i: int) -> Option<int>
    decreases s.len() - i,
{
    if i < 0 || i + needle.len() > s.len() {
        None
    } else if occurs_at(s, needle, i) {
        Some(i)
    } else if needle.len() == 0 {
        None
    } else {
        find_from(s, needle, i + 1)
    }
}

/// A position that the search for `needle` from `i` finds is an occurrence at or after `i`.
pub proof fn lemma_find_from(s: Seq<char>, needle: Seq<char>, i: int)
    ensures
        find_from(s, needle, i) matches Some(k) ==> i <= k && occurs_at(s, needle, k),
    decreases s.len() - i,
{
    if !(i < 0 || i + needle.len() > s.len()) && !occurs_at(s, needle, i) && needle.len() != 0 {
        lemma_find_from(s, needle, i + 1);
    }
}

/// Scanning `r` from `i` with `depth` open braces: the number of characters
/// up to and including the brace that brings the depth back to zero, or 0
/// when there is none.
pub open spec fn brace_end(r: Seq<char>, i: int, depth: int) -> int
    decreases r.len() - i,
{
    if i < 0 || i >= r.len() {
        0
    } else if r[i] == '{' {
        brace_end(r, i + 1, depth + 1)
    } else if r[i] == '}' {
        if depth - 1 == 0 {
            i + 1
        } else {
            brace_end(r, i + 1, depth - 1)
        }
    } else {
        brace_end(r, i + 1, depth)
    }
}

/// Whether scanning `r` from `i` with `depth` open braces, up to the brace
/// that brings the depth back to zero, keeps the depth within `i32`.
pub open spec fn brace_scan_ok(r: Seq<char>, i: int, depth: int) -> bool
    decreases r.len() - i,
{
    if i < 0 || i >= r.len() {
        true
    } else if r[i] == '{' {
        depth + 1 <= i32::MAX && brace_scan_ok(r, i + 1, depth + 1)
    } else if r[i] == '}' {
        depth - 1 >= i32::MIN && (depth - 1 == 0 || brace_scan_ok(r, i + 1, depth - 1))
    } else {
        brace_scan_ok(r, i + 1, depth)
    }
}

/// The end of the run of whitespace characters of `s` that starts at `i`.
pub open spec fn whitespace_end(s: Seq<char>, i: int) -> int
    decreases s.len() - i,
{
    if 0 <= i < s.len() && char_is_whitespace(s[i]) {
        whitespace_end(s, i + 1)
    } else {
        i
    }
}

/// The number of bytes of `s[i..j]` in UTF-8.
pub open spec fn utf8_len(s: Seq<char>, i: int, j: int) -> int
    decreases j - i,
{
    if j <= i {
        0
    } else {
        utf8_len(s, i, j - 1) + utf8_width(s[j - 1])
    }
}

/// The position of the first newline of `s` at or after `i`.
pub open spec fn newline_from(s: Seq<char>, i: int) -> Option<int>
    decreases s.len() - i,
{
    if i < 0 || i >= s.len() {
        None
    } else if s[i] == '\n' {
        Some(i)
    } else {
        newline_from(s, i + 1)
    }
}

/// A line without the carriage return that ends it.
pub open spec fn strip_cr(l: Seq<char>) -> Seq<char> {
    if l.len() > 0 && l.last() == '\r' {
        l.drop_last()
    } else {
        l
    }
}

/// The lines of `s` from position `i` on, as `str::lines` yields them: split
/// after each newline, a carriage return before the newline removed, and no
/// empty line after a final newline.
pub open spec fn lines_from(s: Seq<char>, i: int) -> Seq<Seq<char>>
    decreases s.len() - i,
{
    if i < 0 || i >= s.len() {
        Seq::empty()
    } else {
        match newline_from(s, i) {
            Some(j) => if i <= j < s.len() {
                seq![strip_cr(s.subrange(i, j))] + lines_from(s, j + 1)
            } else {
                Seq::empty()
            },
            None => seq![s.subrange(i, s.len() as int)],
        }
    }
}

/// The lines of `s`.
pub open spec fn lines_of(s: Seq<char>) -> Seq<Seq<char>> {
    lines_from(s, 0)
}

/// The lines `ls` joined by newlines, each line after the first preceded by `indent`.
pub open spec fn join_indented(ls: Seq<Seq<char>>, indent: Seq<char>) -> Seq<char>
    decreases ls.len(),
{
    if ls.len() == 0 {
        Seq::empty()
    } else if ls.len() == 1 {
        ls[0]
    } else {
        join_indented(ls.drop_last(), indent) + seq!['\n'] + indent + ls.last()
    }
}

/// `s` without the leading repetitions of `"| "`.
pub open spec fn trim_bars(s: Seq<char>) -> Seq<char>
    decreases s.len(),
{
    if s.len() >= 2 && s[0] == '|' && s[1] == ' ' {
        trim_bars(s.skip(2))
    } else {
        s
    }
}

/// `n` spaces.
pub open spec fn spaces(n: int) -> Seq<char> {
    Seq::new(n as nat, |i: int| ' ')
}

/// Pretty JSON text, every line after the first indented by `indent` spaces.
pub open spec fn indent_json(pretty: Seq<char>, indent: int) -> Seq<char> {
    trim_bars(join_indented(lines_of(pretty), spaces(indent)))
}

/// Where in `line` the JSON after the `sourceBuilder=` marker is, as
/// (position after the marker, characters scanned to the closing brace).
pub open spec fn marker_json(line: Seq<char>) -> Option<(int, int)> {
    match find_from(line, source_builder_marker(), 0) {
        Some(k) => {
            let js = k + source_builder_marker().len();
            let e = brace_end(line.skip(js), 0, 0);
            if e > 0 {
                Some((js, e))
            } else {
                None
            }
        },
        None => None,
    }
}

/// What a physical plan line becomes: the JSON after `sourceBuilder=`, up to
/// its matching closing brace, when it parses, pretty-printed and indented
/// by as many spaces as the line's leading whitespace has bytes; otherwise
/// the line as it is.
pub open spec fn reformatted_line(line: Seq<char>) -> Seq<char> {
    match marker_json(line) {
        Some((js, e)) => {
            let rest = line.skip(js);
            match json_parse(rest.take(e)) {
                Some(v) => match json_pretty(v) {
                    Some(p) => line.take(js) + indent_json(
                        p,
                        utf8_len(line, 0, whitespace_end(line, 0)),
                    ) + rest.skip(e),
                    None => line,
                },
                None => line,
            }
        },
        None => line,
    }
}

/// Whether a physical plan line can be reformatted without a fault: the
/// brace count after `sourceBuilder=` stays within `i32`.
pub open spec fn line_ok(line: Seq<char>) -> bool {
    match find_from(line, source_builder_marker(), 0) {
        Some(k) => brace_scan_ok(line.skip(k + source_builder_marker().len()), 0, 0),
        None => true,
    }
}

/// The logical and physical plans of an explain response, when it has both as strings.
pub open spec fn calcite_plans(error_json: JsonValue) -> Option<(Seq<char>, Seq<char>)> {
    match json_field(error_json, "calcite"@) {
        Some(calcite) => match (
            json_field(calcite, "logical"@),
            json_field(calcite, "physical"@),
        ) {
            (Some(l), Some(p)) => match (json_text(l), json_text(p)) {
                (Some(logical), Some(physical)) => Some((logical, physical)),
                _ => None,
            },
            _ => None,
        },
        None => None,
    }
}

/// Whether every line of the physical plan can be reformatted without a fault.
pub open spec fn plan_lines_ok(error_json: JsonValue) -> bool {
    match calcite_plans(error_json) {
        Some((_, physical)) => forall|i: int|
            0 <= i < lines_of(physical).len() ==> line_ok(#[trigger] lines_of(physical)[i]),
        None => true,
    }
}

/// The plain report: a header, the logical plan, and the physical plan with
/// each line reformatted.
pub open spec fn explain_report(logical: Seq<char>, physical: Seq<char>) -> Seq<char> {
    "= Calcite Plan =\n"@ + "== Logical ==\n"@ + logical + "\n\n"@ + "== Physical ==\n"@
        + join_indented(lines_of(physical).map_values(|l: Seq<char>| reformatted_line(l)), Seq::empty())
}

/// Formats the `calcite` section of an explain response as a highlighted
/// report; `None` when the response has no logical and physical plan strings.
pub fn format_calcite_explain(error_json: &JsonValue) -> (r: Option<String>)
    requires
        plan_lines_ok(*error_json),
    ensures
        match calcite_plans(*error_json) {
            Some((logical, physical)) => r is Some && highlighted(
                lex(explain_report(logical, physical)),
                0,
                r->0@,
            ),
            None => r is None,
        },
{
    let calcite = error_json.get("calcite")?;
    let logical = calcite.get("logical")?.as_str()?;
    let physical = calcite.get("physical")?.as_str()?;

    proof {
        assert(calcite_plans(*error_json) == Some((logical@, physical@)));
        lemma_plan_lines_ok(*error_json, logical@, physical@);
    }
    let report = build_report(logical, physical);
    Some(highlight_calcite_plan(report.as_str()))
}

/// Under `plan_lines_ok`, every line of the physical plan can be reformatted.
pub proof fn lemma_plan_lines_ok(error_json: JsonValue, logical: Seq<char>, physical: Seq<char>)
    requires
        plan_lines_ok(error_json),
        calcite_plans(error_json) == Some((logical, physical)),
    ensures
        forall|j: int| 0 <= j < lines_of(physical).len() ==> line_ok(#[trigger] lines_of(physical)[j]),
{
    let (_, pl) = calcite_plans(error_json).unwrap();
    assert(pl == physical);
}

/// The plain report for a logical and a physical plan.
pub fn build_report(logical: &str, physical: &str) -> (r: String)
    requires
        forall|j: int|
            0 <= j < lines_of(physical@).len() ==> line_ok(#[trigger] lines_of(physical@)[j]),
    ensures
        r@ == explain_report(logical@, physical@),
{
    let mut report = String::new();
    push_str(&mut report, "= Calcite Plan =\n");
    push_str(&mut report, "== Logical ==\n");
    push_str(&mut report, logical);
    push_str(&mut report, "\n\n");
    push_str(&mut report, "== Physical ==\n");

    // Process physical plan lines for sourceBuilder JSON
    let lines = split_lines(physical);
    let ghost ls = lines_of(physical@);
    let ghost processed = ls.map_values(|l: Seq<char>| reformatted_line(l));
    let ghost head = report@;
    let mut i: usize = 0;
    while i < lines.len()
        invariant
            lines@.len() == ls.len(),
            forall|j: int| 0 <= j < ls.len() ==> #[trigger] lines@[j]@ == ls[j],
            forall|j: int| 0 <= j < ls.len() ==> line_ok(#[trigger] ls[j]),
            processed == ls.map_values(|l: Seq<char>| reformatted_line(l)),
            i <= ls.len(),
            report@ == head + join_indented(processed.take(i as int), Seq::empty()),
        decreases ls.len() - i,
    {
        let line = process_physical_calcite_line(lines[i].as_str());
        let ghost before = report@;
        if i > 0 {
            push_char(&mut report, '\n');
        }
        push_str(&mut report, line.as_str());
        proof {
            let t = processed.take(i + 1);
            assert(t.drop_last() =~= processed.take(i as int));
            assert(t.last() == reformatted_line(ls[i as int]));
            if i > 0 {
                assert(report@ =~= head + (join_indented(t.drop_last(), Seq::empty()) + seq!['\n']
                    + Seq::<char>::empty() + t.last()));
            } else {
                assert(report@ =~= head + t[0]);
            }
        }
        i = i + 1;
    }
    proof {
        assert(processed.take(i as int) =~= processed);
        assert(report@ =~= explain_report(logical@, physical@));
    }
    report
}


/// The lines of `s`, as `str::lines` yields them.
pub fn split_lines(s: &str) -> (r: Vec<String>)
    ensures
        r@.len() == lines_of(s@).len(),
        forall|j: int| 0 <= j < r@.len() ==> #[trigger] r@[j]@ == lines_of(s@)[j],
{
    let cs = chars_of(s);
    let ghost t = cs@;
    let mut r: Vec<String> = Vec::new();
    let ghost mut done: Seq<Seq<char>> = Seq::empty();
    let mut i: usize = 0;
    while i < cs.len()
        invariant
            cs@ == t,
            t == s@,
            i <= t.len(),
            r@.len() == done.len(),
            forall|j: int| 0 <= j < r@.len() ==> #[trigger] r@[j]@ == done[j],
            done + lines_from(t, i as int) == lines_of(t),
        decreases t.len() - i,
    {
        let mut j = i;
        while j < cs.len() && cs[j] != '\n'
            invariant
                cs@ == t,
                i <= j <= t.len(),
                newline_from(t, i as int) == newline_from(t, j as int),
            decreases t.len() - j,
        {
            j = j + 1;
        }
        let ghost before = done;
        if j < cs.len() {
            // a line ended by a newline, without a carriage return before it
            let end = if j > i && cs[j - 1] == '\r' {
                j - 1
            } else {
                j
            };
            let line = string_from_range(cs.as_slice(), i, end);
            proof {
                assert(newline_from(t, i as int) == Some(j as int));
                let l = t.subrange(i as int, j as int);
                if j > i && t[j - 1] == '\r' {
                    assert(l.drop_last() =~= t.subrange(i as int, j - 1));
                }
                assert(line@ == strip_cr(l));
                done = done.push(line@);
                assert(lines_from(t, i as int) == seq![strip_cr(l)] + lines_from(t, j + 1));
                assert(before + lines_from(t, i as int) =~= done + lines_from(t, j + 1));
            }
            r.push(line);
            i = j + 1;
        } else {
            let line = string_from_range(cs.as_slice(), i, j);
            proof {
                assert(newline_from(t, i as int) is None);
                done = done.push(line@);
                assert(lines_from(t, i as int) == seq![t.subrange(i as int, t.len() as int)]);
                assert(lines_from(t, j as int) =~= Seq::<Seq<char>>::empty());
                assert(before + lines_from(t, i as int) =~= done + lines_from(t, j as int));
            }
            r.push(line);
            i = j;
        }
        proof {
            assert forall|k: int| 0 <= k < r@.len() implies #[trigger] r@[k]@ == done[k] by {
                if k < before.len() {
                }
            }
        }
    }
    proof {
        assert(lines_from(t, i as int) =~= Seq::<Seq<char>>::empty());
        assert(done =~= lines_of(t));
    }
    r
}

/// Pretty-prints the JSON after `sourceBuilder=` in a physical plan line,
/// indenting it like the line; any other line is kept as it is.
pub fn process_physical_calcite_line(line: &str) -> (r: String)
    requires
        line_ok(line@),
    ensures
        r@ == reformatted_line(line@),
{
    let cs = chars_of(line);
    let ghost s = cs@;
    let marker = chars_of("sourceBuilder=");
    proof {
        reveal_strlit("sourceBuilder=");
        assert(marker@ =~= source_builder_marker());
    }
    let n = cs.len();
    let m_len = marker.len();
    // Find the marker
    let found = find_chars(&cs, &marker);
    if found.is_none() {
        return line.to_string();
    }
    let start_idx = found.unwrap();
    let json_start = start_idx + m_len;
    let ghost rest = s.skip(json_start as int);
    // Find the matching closing brace
    proof {
        lemma_find_from(s, source_builder_marker(), 0);
    }
    let m = closing_brace(&cs, json_start);
    if m == 0 {
        return line.to_string();
    }
    let json_str = string_from_range(cs.as_slice(), json_start, json_start + m);
    assert(json_str@ =~= rest.take(m as int));
    // Try to parse and pretty-print the JSON
    let parsed = match parse_json(json_str.as_str()) {
        Some(v) => v,
        None => return line.to_string(),
    };
    let pretty = match pretty_json(&parsed) {
        Some(p) => p,
        None => return line.to_string(),
    };
    // Leading whitespace of the original line, in bytes
    let mut w: usize = 0;
    let mut leading_space: u128 = 0;
    while w < n && is_whitespace(cs[w])
        invariant
            cs@ == s,
            n == s.len(),
            w <= n,
            leading_space == utf8_len(s, 0, w as int),
            leading_space <= 4 * w,
            whitespace_end(s, 0) == whitespace_end(s, w as int),
        decreases n - w,
    {
        leading_space = leading_space + char_width(cs[w]) as u128;
        w = w + 1;
    }
    let indented_json = indent_pretty(pretty.as_str(), leading_space);
    let mut out = string_from_range(cs.as_slice(), 0, json_start);
    push_str(&mut out, indented_json.as_str());
    let tail = string_from_range(cs.as_slice(), json_start + m, n);
    push_str(&mut out, tail.as_str());
    proof {
        assert(out@.take(0) == Seq::<char>::empty());
        assert(s.subrange(0, json_start as int) =~= s.take(json_start as int));
        assert(s.subrange(json_start + m, n as int) =~= rest.skip(m as int));
    }
    out
}

/// Pretty JSON with every line after the first indented by `indent` spaces,
/// and without leading `"| "`.
pub fn indent_pretty(pretty: &str, indent: u128) -> (r: String)
    ensures
        r@ == indent_json(pretty@, indent as int),
{
    let lines = split_lines(pretty);
    let ghost ls = lines_of(pretty@);
    let mut pad = String::new();
    let mut q: u128 = 0;
    while q < indent
        invariant
            q <= indent,
            pad@ == spaces(q as int),
        decreases indent - q,
    {
        push_char(&mut pad, ' ');
        q = q + 1;
        assert(pad@ =~= spaces(q as int));
    }
    let mut joined: Vec<char> = Vec::new();
    let mut i: usize = 0;
    while i < lines.len()
        invariant
            lines@.len() == ls.len(),
            forall|j: int| 0 <= j < ls.len() ==> #[trigger] lines@[j]@ == ls[j],
            pad@ == spaces(indent as int),
            i <= ls.len(),
            joined@ == join_indented(ls.take(i as int), spaces(indent as int)),
        decreases ls.len() - i,
    {
        let ghost before = joined@;
        if i > 0 {
            joined.push('\n');
            let pc = chars_of(pad.as_str());
            append_chars(&mut joined, &pc);
        }
        let lc = chars_of(lines[i].as_str());
        append_chars(&mut joined, &lc);
        proof {
            let t = ls.take(i + 1);
            assert(t.drop_last() =~= ls.take(i as int));
            if i > 0 {
                assert(joined@ =~= join_indented(t.drop_last(), spaces(indent as int)) + seq!['\n']
                    + spaces(indent as int) + t.last());
            } else {
                assert(joined@ =~= t[0]);
            }
        }
        i = i + 1;
    }
    assert(ls.take(i as int) =~= ls);
    // Remove leading "| "
    let mut b: usize = 0;
    let ghost js = joined@;
    proof {
        assert(js.skip(0) =~= js);
    }
    while b < joined.len() && joined.len() - b >= 2 && joined[b] == '|' && joined[b + 1] == ' '
        invariant
            joined@ == js,
            b <= js.len(),
            trim_bars(js) == trim_bars(js.skip(b as int)),
        decreases js.len() - b,
    {
        assert(js.skip(b as int).skip(2) =~= js.skip(b + 2));
        b = b + 2;
    }
    let r = string_from_range(joined.as_slice(), b, joined.len());
    proof {
        assert(joined@.subrange(b as int, joined@.len() as int) =~= js.skip(b as int));
    }
    r
}

/// Appends `t` to `v`.
fn append_chars(v: &mut Vec<char>, t: &Vec<char>)
    ensures
        final(v)@ == old(v)@ + t@,
{
    let mut i: usize = 0;
    let ghost start = v@;
    while i < t.len()
        invariant
            i <= t@.len(),
            v@ == start + t@.take(i as int),
        decreases t@.len() - i,
    {
        v.push(t[i]);
        i = i + 1;
        assert(t@.take(i as int) =~= t@.take(i - 1).push(t@[i - 1]));
    }
    assert(t@.take(i as int) =~= t@);
}

/// The first position where `needle` occurs in `s`.
fn find_chars(s: &Vec<char>, needle: &Vec<char>) -> (r: Option<usize>)
    requires
        needle@.len() > 0,
    ensures
        match r {
            Some(k) => find_from(s@, needle@, 0) == Some(k as int) && k + needle@.len() <= s@.len(),
            None => find_from(s@, needle@, 0) is None,
        },
{
    let n = s.len();
    let m = needle.len();
    let mut k: usize = 0;
    while k <= n && n - k >= m
        invariant
            n == s@.len(),
            m == needle@.len() > 0,
            k <= n + 1,
            find_from(s@, needle@, 0) == find_from(s@, needle@, k as int),
        decreases n + 1 - k,
    {
        let mut q: usize = 0;
        while q < m && s[k + q] == needle[q]
            invariant
                n == s@.len(),
                m == needle@.len(),
                k + m <= n,
                q <= m,
                s@.subrange(k as int, k + q) == needle@.take(q as int),
            decreases m - q,
        {
            assert(s@.subrange(k as int, k + q + 1) =~= s@.subrange(k as int, k + q).push(s@[k + q]));
            assert(needle@.take(q + 1) =~= needle@.take(q as int).push(needle@[q as int]));
            q = q + 1;
        }
        if q == m {
            assert(needle@.take(q as int) =~= needle@);
            assert(occurs_at(s@, needle@, k as int));
            return Some(k);
        }
        proof {
            assert(s@.subrange(k as int, k + m)[q as int] != needle@[q as int]);
        }
        k = k + 1;
    }
    None
}

/// Scanning `s` from `start`: the number of characters up to and including
/// the brace that closes the first one, or 0.
fn closing_brace(s: &Vec<char>, start: usize) -> (r: usize)
    requires
        start <= s@.len(),
        brace_scan_ok(s@.skip(start as int), 0, 0),
    ensures
        r == brace_end(s@.skip(start as int), 0, 0),
        r <= s@.len() - start,
{
    let n = s.len();
    let ghost rest = s@.skip(start as int);
    let mut stack: i32 = 0;
    let mut i: usize = 0;
    while start + i < n
        invariant
            n == s@.len(),
            start <= n,
            rest == s@.skip(start as int),
            i <= rest.len(),
            brace_scan_ok(rest, i as int, stack as int),
            brace_end(rest, 0, 0) == brace_end(rest, i as int, stack as int),
        decreases n - start - i,
    {
        let ch = s[start + i];
        assert(ch == rest[i as int]);
        if ch == '{' {
            stack = stack + 1;
        } else if ch == '}' {
            stack = stack - 1;
            if stack == 0 {
                return i + 1;
            }
        }
        i = i + 1;
    }
    0
}

/// Whether scanning `s` from `start` up to the brace that closes the first
/// one keeps the brace count within `i32`.
fn brace_scan_fits(s: &Vec<char>, start: usize) -> (r: bool)
    requires
        start <= s@.len(),
    ensures
        r == brace_scan_ok(s@.skip(start as int), 0, 0),
{
    let n = s.len();
    let ghost rest = s@.skip(start as int);
    let mut depth: i64 = 0;
    let mut i: usize = 0;
    while start + i < n
        invariant
            n == s@.len(),
            start <= n,
            rest == s@.skip(start as int),
            i <= rest.len(),
            i32::MIN <= depth <= i32::MAX,
            brace_scan_ok(rest, 0, 0) == brace_scan_ok(rest, i as int, depth as int),
        decreases n - start - i,
    {
        let ch = s[start + i];
        assert(ch == rest[i as int]);
        if ch == '{' {
            if depth + 1 > 2147483647 {
                return false;
            }
            depth = depth + 1;
        } else if ch == '}' {
            if depth - 1 < -2147483648 {
                return false;
            }
            depth = depth - 1;
            if depth == 0 {
                return true;
            }
        }
        i = i + 1;
    }
    true
}

/// Whether a physical plan line can be reformatted without a fault.
pub fn physical_line_ok(line: &str) -> (r: bool)
    ensures
        r == line_ok(line@),
{
    let cs = chars_of(line);
    let marker = chars_of("sourceBuilder=");
    proof {
        reveal_strlit("sourceBuilder=");
        assert(marker@ =~= source_builder_marker());
    }
    let found = find_chars(&cs, &marker);
    match found {
        None => true,
        Some(k) => {
            let ml = marker.len();
            let cl = cs.len();
            assert(k + ml <= cl);
            brace_scan_fits(&cs, k + ml)
        },
    }
}

/// Whether every line of the physical plan of an explain response can be
/// reformatted without a fault.
pub fn plan_input_ok(error_json: &JsonValue) -> (r: bool)
    ensures
        r == plan_lines_ok(*error_json),
{
    let calcite = match error_json.get("calcite") {
        Some(c) => c,
        None => return true,
    };
    let logical = match calcite.get("logical") {
        Some(l) => l,
        None => return true,
    };
    let physical = match calcite.get("physical") {
        Some(p) => p,
        None => return true,
    };
    let logical_text = match logical.as_str() {
        Some(l) => l,
        None => return true,
    };
    let physical = match physical.as_str() {
        Some(p) => p,
        None => return true,
    };
    let lines = split_lines(physical);
    let ghost ls = lines_of(physical@);
    assert(calcite_plans(*error_json) == Some((logical_text@, physical@)));
    let mut i: usize = 0;
    while i < lines.len()
        invariant
            calcite_plans(*error_json) == Some((logical_text@, physical@)),
            ls == lines_of(physical@),
            lines@.len() == ls.len(),
            forall|j: int| 0 <= j < ls.len() ==> #[trigger] lines@[j]@ == ls[j],
            i <= ls.len(),
            forall|j: int| 0 <= j < i ==> line_ok(#[trigger] ls[j]),
        decreases ls.len() - i,
    {
        if !physical_line_ok(lines[i].as_str()) {
            proof {
                let (_, pl) = calcite_plans(*error_json).unwrap();
                assert(pl == physical@);
                assert(!line_ok(lines_of(pl)[i as int]));
            }
            return false;
        }
        i = i + 1;
    }
    true
}

/// The paint of each token of a Calcite plan, by its role, with its text.
pub fn explain_segments(text: &str) -> (v: Vec<(Paint, String)>)
    ensures
        segment_views(v@) == token_segments(lex(text@), 0),
{
    let mut highlighter = CalciteHighlighter::new(text);
    highlighter.segments()
}

/// Highlights a Calcite plan: each token in the paint of its role.
pub fn highlight_calcite_plan(text: &str) -> (r: String)
    ensures
        highlighted(lex(text@), 0, r@),
{
    let mut highlighter = CalciteHighlighter::new(text);
    highlighter.highlight()
}

/// What an explain response comes to.
pub enum ExplainOutcome {
    /// The response text is no JSON document.
    NotJson,
    /// The document has no `calcite` section with logical and physical plan strings.
    NoPlans,
    /// Some physical plan line nests its `sourceBuilder=` braces beyond the `i32` count.
    BraceOverflow,
    /// The highlighted report.
    Report(String),
}

/// Parses an explain response and formats its `calcite` section as a
/// highlighted report.
pub fn format_explain_response(text: &str) -> (r: ExplainOutcome)
    ensures
        match json_parse(text@) {
            None => r is NotJson,
            Some(doc) => {
                let j = document_model(doc);
                if !plan_lines_ok(j) {
                    r is BraceOverflow
                } else {
                    match calcite_plans(j) {
                        None => r is NoPlans,
                        Some((logical, physical)) => r matches ExplainOutcome::Report(s)
                            && highlighted(lex(explain_report(logical, physical)), 0, s@),
                    }
                }
            },
        },
{
    let doc = match parse_json(text) {
        Some(d) => d,
        None => return ExplainOutcome::NotJson,
    };
    let j = document_value(&doc);
    if !plan_input_ok(&j) {
        return ExplainOutcome::BraceOverflow;
    }
    match format_calcite_explain(&j) {
        Some(report) => ExplainOutcome::Report(report),
        None => ExplainOutcome::NoPlans,
    }
}

} // verus!
