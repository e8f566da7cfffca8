//! Highlighting of Calcite plans by a grammar of regular expressions: at
//! every position the longest match wins, and among matches of that length
//! the rule of highest priority.
use vstd::prelude::*;

use crate::explain::laws::lemma_concat_prepend;
use crate::paint::concat;
use crate::explain::{
    build_report, calcite_plans, explain_report, lemma_plan_lines_ok, occurs_at, plan_lines_ok,
};
use crate::json::JsonValue;
use crate::paint::{
    lemma_concat_parts_lack, law_strip_rendered, render, rendered, segment_texts, segment_views,
    strip_ansi, Hue, Paint,
};
use crate::text::{chars_of, push_str, string_from_range};

pub use crate::explain::process_physical_calcite_line;

verus! {

broadcast use vstd::string::group_string_axioms;

/// The character ranges of the Unicode class that `regex_syntax` parses
/// `pattern` into, or `None` when it is no Unicode class.
pub uninterp spec fn unicode_class(pattern: Seq<char>) -> Option<Seq<(char, char)>>;

/// `regex_syntax::parse` on a class pattern such as `\w`: the ranges of the
/// Unicode class it denotes, converted to pairs of characters; `None` when
/// the pattern does not parse or is not a Unicode class.
#[verifier::external_body]
fn parse_unicode_class(pattern: &str) -> (r: Option<Vec<(char, char)>>)
    ensures
        match r {
            Some(v) => unicode_class(pattern@) == Some(v@),
            None => unicode_class(pattern@) is None,
        },
{
    match regex_syntax::parse(pattern).ok()?.kind() {
        regex_syntax::hir::HirKind::Class(regex_syntax::hir::Class::Unicode(c)) => Some(
            c.ranges().iter().map(|r| (r.start(), r.end())).collect(),
        ),
        _ => None,
    }
}

/// Whether `c` lies in one of the ranges `rs`.
pub open spec fn in_ranges(rs: Seq<(char, char)>, c: char) -> bool {
    exists|i: int| 0 <= i < rs.len() && (#[trigger] rs[i]).0 <= c && c <= rs[i].1
}

/// The classes `\w`, `\d` and `\s` of the grammar.
pub struct Classes {
    pub word: Seq<(char, char)>,
    pub digit: Seq<(char, char)>,
    pub space: Seq<(char, char)>,
}

/// The ranges of a class, or none where there is no class.
pub open spec fn ranges_or_empty(r: Option<Seq<(char, char)>>) -> Seq<(char, char)> {
    match r {
        Some(v) => v,
        None => Seq::empty(),
    }
}

/// The Unicode classes `\w`, `\d` and `\s`, as the regular expressions of
/// the grammar mean them.
pub open spec fn perl_classes() -> Classes {
    Classes {
        word: ranges_or_empty(unicode_class("\\w"@)),
        digit: ranges_or_empty(unicode_class("\\d"@)),
        space: ranges_or_empty(unicode_class("\\s"@)),
    }
}

/// The runs of characters that rules of the grammar consume.
#[derive(PartialEq, Eq, Structural, Clone, Copy, Debug)]
pub enum Run {
    /// `\w`
    Word,
    /// `[\d\w]`
    WordOrDigit,
    /// `[\w\.#\d]`
    AttrTail,
    /// `\d`
    Digit,
    /// `[\w\-]`
    TextChar,
    /// `[ \t]`
    Blank,
    /// `.`: any character but a newline
    NotNewline,
}

/// Whether `c` is a character of run `r`.
pub open spec fn in_run(k: Classes, r: Run, c: char) -> bool {
    match r {
        Run::Word => in_ranges(k.word, c),
        Run::WordOrDigit => in_ranges(k.digit, c) || in_ranges(k.word, c),
        Run::AttrTail => in_ranges(k.word, c) || c == '.' || c == '#' || in_ranges(k.digit, c),
        Run::Digit => in_ranges(k.digit, c),
        Run::TextChar => in_ranges(k.word, c) || c == '-',
        Run::Blank => c == ' ' || c == '\t',
        Run::NotNewline => c != '\n',
    }
}

/// The end of the longest run of `r` characters of `s` from `i`.
pub open spec fn run_to(k: Classes, s: Seq<char>, i: int, r: Run) -> int
    decreases s.len() - i,
{
    if 0 <= i < s.len() && in_run(k, r, s[i]) {
        run_to(k, s, i + 1, r)
    } else {
        i
    }
}

/// The first `"` of `s` at or after `i`.
pub open spec fn quote_from(s: Seq<char>, i: int) -> Option<int>
    decreases s.len() - i,
{
    if i < 0 || i >= s.len() {
        None
    } else if s[i] == '"' {
        Some(i)
    } else {
        quote_from(s, i + 1)
    }
}

/// The rules of the grammar, by falling priority; `Unknown` stands for a
/// character that no rule matches.
#[derive(PartialEq, Eq, Structural, Clone, Copy, Debug)]
pub enum Rule {
    /// `=.*?`, priority 10
    Comment,
    /// `null|true|false`, priority 8
    Keyword,
    /// `[A-Z][a-z]\w+`, priority 7
    Function,
    /// `\$[\d\w]+`, priority 7
    Variable,
    /// `"[^"]*"`, priority 7
    Str,
    /// `@?[a-zA-Z_][\w\.#\d]*=`, priority 6
    Attribute,
    /// `\d+`, priority 5
    Number,
    /// `[\w\-]+`, priority 3
    Text,
    /// `[ \t]+`, priority 2
    Whitespace,
    /// `[^\w\s]`, priority 2
    Punctuation,
    /// `\n`, priority 1
    Newline,
    Unknown,
}

/// The length of the longest match of `rule` at `p` (at least one character), if any.
pub open spec fn match_len(k: Classes, s: Seq<char>, p: int, rule: Rule) -> Option<int> {
    if p < 0 || p >= s.len() {
        None
    } else {
        let c = s[p];
        match rule {
            Rule::Comment => if c == '=' {
                Some(run_to(k, s, p, Run::NotNewline) - p)
            } else {
                None
            },
            Rule::Keyword => if occurs_at(s, seq!['n', 'u', 'l', 'l'], p) || occurs_at(
                s,
                seq!['t', 'r', 'u', 'e'],
                p,
            ) {
                Some(4)
            } else if occurs_at(s, seq!['f', 'a', 'l', 's', 'e'], p) {
                Some(5)
            } else {
                None
            },
            Rule::Function => if p + 2 < s.len() && 'A' <= c && c <= 'Z' && 'a' <= s[p + 1] && s[p
                + 1] <= 'z' && in_ranges(k.word, s[p + 2]) {
                Some(run_to(k, s, p + 2, Run::Word) - p)
            } else {
                None
            },
            Rule::Variable => if c == '$' && p + 1 < s.len() && in_run(k, Run::WordOrDigit, s[p + 1]) {
                Some(run_to(k, s, p + 1, Run::WordOrDigit) - p)
            } else {
                None
            },
            Rule::Str => if c == '"' {
                match quote_from(s, p + 1) {
                    Some(q) => Some(q + 1 - p),
                    None => None,
                }
            } else {
                None
            },
            Rule::Attribute => {
                let a = if c == '@' {
                    p + 1
                } else {
                    p
                };
                if a < s.len() && (('a' <= s[a] && s[a] <= 'z') || ('A' <= s[a] && s[a] <= 'Z')
                    || s[a] == '_') {
                    let e = run_to(k, s, a + 1, Run::AttrTail);
                    if e < s.len() && s[e] == '=' {
                        Some(e + 1 - p)
                    } else {
                        None
                    }
                } else {
                    None
                }
            },
            Rule::Number => if in_ranges(k.digit, c) {
                Some(run_to(k, s, p, Run::Digit) - p)
            } else {
                None
            },
            Rule::Text => if in_run(k, Run::TextChar, c) {
                Some(run_to(k, s, p, Run::TextChar) - p)
            } else {
                None
            },
            Rule::Whitespace => if c == ' ' || c == '\t' {
                Some(run_to(k, s, p, Run::Blank) - p)
            } else {
                None
            },
            Rule::Punctuation => if !in_ranges(k.word, c) && !in_ranges(k.space, c) {
                Some(1)
            } else {
                None
            },
            Rule::Newline => if c == '\n' {
                Some(1)
            } else {
                None
            },
            Rule::Unknown => None,
        }
    }
}

/// `best` or the match of `rule`, whichever is longer; on a tie the earlier
/// (higher priority) one stays.
pub open spec fn prefer(best: (Rule, int), k: Classes, s: Seq<char>, p: int, rule: Rule) -> (Rule, int) {
    match match_len(k, s, p, rule) {
        Some(l) => if l > best.1 {
            (rule, l)
        } else {
            best
        },
        None => best,
    }
}

/// The rule that wins at `p`, and the length of its match; a character no
/// rule matches is a token of its own.
pub open spec fn winner(k: Classes, s: Seq<char>, p: int) -> (Rule, int) {
    let b = (Rule::Unknown, 0int);
    let b = prefer(b, k, s, p, Rule::Comment);
    let b = prefer(b, k, s, p, Rule::Keyword);
    let b = prefer(b, k, s, p, Rule::Function);
    let b = prefer(b, k, s, p, Rule::Variable);
    let b = prefer(b, k, s, p, Rule::Str);
    let b = prefer(b, k, s, p, Rule::Attribute);
    let b = prefer(b, k, s, p, Rule::Number);
    let b = prefer(b, k, s, p, Rule::Text);
    let b = prefer(b, k, s, p, Rule::Whitespace);
    let b = prefer(b, k, s, p, Rule::Punctuation);
    let b = prefer(b, k, s, p, Rule::Newline);
    if b.1 == 0 {
        (Rule::Unknown, 1)
    } else {
        b
    }
}

/// The tokens of `s` from `p` on, each with its rule and text.
pub open spec fn grammar_tokens(k: Classes, s: Seq<char>, p: int) -> Seq<(Rule, Seq<char>)>
    decreases s.len() - p,
{
    if p < 0 || p >= s.len() {
        Seq::empty()
    } else {
        let (rule, l) = winner(k, s, p);
        if 0 < l && p + l <= s.len() {
            seq![(rule, s.subrange(p, p + l))] + grammar_tokens(k, s, p + l)
        } else {
            Seq::empty()
        }
    }
}

/// How a token of `rule` is painted.
pub open spec fn rule_paint(rule: Rule) -> Paint {
    match rule {
        Rule::Comment => Paint::Color(Hue::BrightBlack),
        Rule::Function => Paint::Color(Hue::Cyan),
        Rule::Variable => Paint::Color(Hue::Yellow),
        Rule::Str => Paint::Color(Hue::Green),
        Rule::Number => Paint::Color(Hue::Blue),
        Rule::Attribute => Paint::Color(Hue::Magenta),
        Rule::Keyword => Paint::Color(Hue::BrightBlue),
        _ => Paint::Plain,
    }
}

/// The segments of grammar tokens: each token's text in the paint of its rule.
pub open spec fn grammar_segments(ts: Seq<(Rule, Seq<char>)>) -> Seq<(Paint, Seq<char>)> {
    ts.map_values(|t: (Rule, Seq<char>)| (rule_paint(t.0), t.1))
}

/// Whether `out` is the highlighting of the tokens `ts`: each rendered in
/// the paint of its rule, one after another.
pub open spec fn grammar_highlighted(ts: Seq<(Rule, Seq<char>)>, out: Seq<char>) -> bool {
    rendered(grammar_segments(ts), out)
}

/// A run from `i` ends within the input.
pub proof fn lemma_run_to(k: Classes, s: Seq<char>, i: int, r: Run)
    requires
        0 <= i <= s.len(),
    ensures
        i <= run_to(k, s, i, r) <= s.len(),
    decreases s.len() - i,
{
    if i < s.len() && in_run(k, r, s[i]) {
        lemma_run_to(k, s, i + 1, r);
    }
}

/// The quote search ends within the input, at a `"` when it finds one.
pub proof fn lemma_quote_from(s: Seq<char>, i: int)
    requires
        0 <= i,
    ensures
        quote_from(s, i) matches Some(q) ==> i <= q < s.len() && s[q] == '"',
        quote_from(s, i) is None ==> forall|j: int| i <= j < s.len() ==> s[j] != '"',
    decreases s.len() - i,
{
    if i < s.len() && s[i] != '"' {
        lemma_quote_from(s, i + 1);
    }
}

/// Every match lies within the input and takes at least one character.
pub proof fn lemma_match_len(k: Classes, s: Seq<char>, p: int, rule: Rule)
    requires
        0 <= p < s.len(),
    ensures
        match_len(k, s, p, rule) matches Some(l) ==> 0 < l && p + l <= s.len(),
{
    lemma_run_to(k, s, p, Run::NotNewline);
    lemma_run_to(k, s, p, Run::Digit);
    lemma_run_to(k, s, p, Run::TextChar);
    lemma_run_to(k, s, p, Run::Blank);
    lemma_run_to(k, s, p + 1, Run::WordOrDigit);
    lemma_quote_from(s, p + 1);
    if p + 2 <= s.len() {
        lemma_run_to(k, s, p + 2, Run::Word);
    }
    if p + 1 < s.len() {
        lemma_run_to(k, s, p + 2, Run::AttrTail);
    }
    lemma_run_to(k, s, p + 1, Run::AttrTail);
    if rule == Rule::Comment && s[p] == '=' {
        assert(in_run(k, Run::NotNewline, s[p]));
    }
    if rule == Rule::Number && in_ranges(k.digit, s[p]) {
        lemma_run_to(k, s, p + 1, Run::Digit);
    }
    if rule == Rule::Text && in_run(k, Run::TextChar, s[p]) {
        lemma_run_to(k, s, p + 1, Run::TextChar);
    }
    if rule == Rule::Whitespace && (s[p] == ' ' || s[p] == '\t') {
        lemma_run_to(k, s, p + 1, Run::Blank);
    }
    if rule == Rule::Comment && s[p] == '=' {
        lemma_run_to(k, s, p + 1, Run::NotNewline);
    }
}

/// The winning match lies within the input and takes at least one character.
pub proof fn lemma_winner(k: Classes, s: Seq<char>, p: int)
    requires
        0 <= p < s.len(),
    ensures
        0 < winner(k, s, p).1,
        p + winner(k, s, p).1 <= s.len(),
{
    lemma_match_len(k, s, p, Rule::Comment);
    lemma_match_len(k, s, p, Rule::Keyword);
    lemma_match_len(k, s, p, Rule::Function);
    lemma_match_len(k, s, p, Rule::Variable);
    lemma_match_len(k, s, p, Rule::Str);
    lemma_match_len(k, s, p, Rule::Attribute);
    lemma_match_len(k, s, p, Rule::Number);
    lemma_match_len(k, s, p, Rule::Text);
    lemma_match_len(k, s, p, Rule::Whitespace);
    lemma_match_len(k, s, p, Rule::Punctuation);
    lemma_match_len(k, s, p, Rule::Newline);
}

/// The table of the classes `\w`, `\d` and `\s`.
pub struct ClassTable {
    word: Vec<(char, char)>,
    digit: Vec<(char, char)>,
    space: Vec<(char, char)>,
}

impl ClassTable {
    /// The classes the table holds.
    pub closed spec fn classes(&self) -> Classes {
        Classes { word: self.word@, digit: self.digit@, space: self.space@ }
    }

    /// The Unicode classes `\w`, `\d` and `\s`.
    pub fn load() -> (t: Self)
        ensures
            t.classes() == perl_classes(),
    {
        let word = match parse_unicode_class("\\w") {
            Some(v) => v,
            None => Vec::new(),
        };
        let digit = match parse_unicode_class("\\d") {
            Some(v) => v,
            None => Vec::new(),
        };
        let space = match parse_unicode_class("\\s") {
            Some(v) => v,
            None => Vec::new(),
        };
        let t = ClassTable { word, digit, space };
        assert(t.classes().word =~= perl_classes().word);
        assert(t.classes().digit =~= perl_classes().digit);
        assert(t.classes().space =~= perl_classes().space);
        t
    }
}

/// Whether `c` lies in one of the ranges `rs`.
fn ranges_contain(rs: &Vec<(char, char)>, c: char) -> (r: bool)
    ensures
        r == in_ranges(rs@, c),
{
    let mut i: usize = 0;
    while i < rs.len()
        invariant
            i <= rs@.len(),
            forall|j: int| 0 <= j < i ==> !((#[trigger] rs@[j]).0 <= c && c <= rs@[j].1),
        decreases rs@.len() - i,
    {
        let (lo, hi) = rs[i];
        if lo <= c && c <= hi {
            assert(rs@[i as int].0 <= c && c <= rs@[i as int].1);
            return true;
        }
        i = i + 1;
    }
    false
}

fn run_holds(t: &ClassTable, r: Run, c: char) -> (b: bool)
    ensures
        b == in_run(t.classes(), r, c),
{
    match r {
        Run::Word => ranges_contain(&t.word, c),
        Run::WordOrDigit => ranges_contain(&t.digit, c) || ranges_contain(&t.word, c),
        Run::AttrTail => ranges_contain(&t.word, c) || c == '.' || c == '#' || ranges_contain(
            &t.digit,
            c,
        ),
        Run::Digit => ranges_contain(&t.digit, c),
        Run::TextChar => ranges_contain(&t.word, c) || c == '-',
        Run::Blank => c == ' ' || c == '\t',
        Run::NotNewline => c != '\n',
    }
}

/// The end of the longest run of `r` characters of `s` from `i`.
fn run_end_at(t: &ClassTable, s: &Vec<char>, i: usize, r: Run) -> (e: usize)
    requires
        i <= s@.len(),
    ensures
        e == run_to(t.classes(), s@, i as int, r),
{
    let mut j = i;
    while j < s.len() && run_holds(t, r, s[j])
        invariant
            i <= j <= s@.len(),
            run_to(t.classes(), s@, i as int, r) == run_to(t.classes(), s@, j as int, r),
        decreases s@.len() - j,
    {
        j = j + 1;
    }
    j
}

/// Whether the characters `w` occur in `s` at `p`.
fn occurs(s: &Vec<char>, p: usize, w: &Vec<char>) -> (b: bool)
    requires
        p <= s@.len(),
    ensures
        b == occurs_at(s@, w@, p as int),
{
    let n = s.len();
    if w.len() > n - p {
        return false;
    }
    let mut q: usize = 0;
    while q < w.len()
        invariant
            n == s@.len(),
            p + w@.len() <= n,
            q <= w@.len(),
            s@.subrange(p as int, p + q) == w@.take(q as int),
        decreases w@.len() - q,
    {
        if s[p + q] != w[q] {
            assert(s@.subrange(p as int, p + w@.len())[q as int] != w@[q as int]);
            return false;
        }
        assert(s@.subrange(p as int, p + q + 1) =~= s@.subrange(p as int, p + q).push(s@[p + q]));
        assert(w@.take(q + 1) =~= w@.take(q as int).push(w@[q as int]));
        q = q + 1;
    }
    assert(w@.take(q as int) =~= w@);
    true
}

/// The length of the longest match of `rule` at `p`, if any.
fn rule_match(t: &ClassTable, s: &Vec<char>, p: usize, rule: Rule) -> (r: Option<usize>)
    requires
        p < s@.len(),
    ensures
        match r {
            Some(l) => match_len(t.classes(), s@, p as int, rule) == Some(l as int),
            None => match_len(t.classes(), s@, p as int, rule) is None,
        },
{
    proof {
        lemma_match_len(t.classes(), s@, p as int, rule);
    }
    let n = s.len();
    let c = s[p];
    match rule {
        Rule::Comment => if c == '=' {
            Some(run_end_at(t, s, p, Run::NotNewline) - p)
        } else {
            None
        },
        Rule::Keyword => {
            let null = vec!['n', 'u', 'l', 'l'];
            let tru = vec!['t', 'r', 'u', 'e'];
            let fal = vec!['f', 'a', 'l', 's', 'e'];
            assert(null@ =~= seq!['n', 'u', 'l', 'l']);
            assert(tru@ =~= seq!['t', 'r', 'u', 'e']);
            assert(fal@ =~= seq!['f', 'a', 'l', 's', 'e']);
            if occurs(s, p, &null) || occurs(s, p, &tru) {
                Some(4)
            } else if occurs(s, p, &fal) {
                Some(5)
            } else {
                None
            }
        },
        Rule::Function => if n - p > 2 && 'A' <= c && c <= 'Z' && 'a' <= s[p + 1] && s[p + 1]
            <= 'z' && ranges_contain(&t.word, s[p + 2]) {
            proof {
                lemma_run_to(t.classes(), s@, p + 2, Run::Word);
            }
            Some(run_end_at(t, s, p + 2, Run::Word) - p)
        } else {
            None
        },
        Rule::Variable => if c == '$' && p + 1 < n && run_holds(t, Run::WordOrDigit, s[p + 1]) {
            proof {
                lemma_run_to(t.classes(), s@, p + 1, Run::WordOrDigit);
            }
            Some(run_end_at(t, s, p + 1, Run::WordOrDigit) - p)
        } else {
            None
        },
        Rule::Str => if c == '"' {
            let mut q = p + 1;
            while q < n && s[q] != '"'
                invariant
                    p < q <= n == s@.len(),
                    quote_from(s@, p + 1) == quote_from(s@, q as int),
                decreases n - q,
            {
                q = q + 1;
            }
            if q < n {
                Some(q + 1 - p)
            } else {
                None
            }
        } else {
            None
        },
        Rule::Attribute => {
            let a = if c == '@' {
                p + 1
            } else {
                p
            };
            if a < n && (('a' <= s[a] && s[a] <= 'z') || ('A' <= s[a] && s[a] <= 'Z') || s[a]
                == '_') {
                proof {
                    lemma_run_to(t.classes(), s@, a + 1, Run::AttrTail);
                }
                let e = run_end_at(t, s, a + 1, Run::AttrTail);
                if e < n && s[e] == '=' {
                    Some(e + 1 - p)
                } else {
                    None
                }
            } else {
                None
            }
        },
        Rule::Number => if ranges_contain(&t.digit, c) {
            Some(run_end_at(t, s, p, Run::Digit) - p)
        } else {
            None
        },
        Rule::Text => if run_holds(t, Run::TextChar, c) {
            Some(run_end_at(t, s, p, Run::TextChar) - p)
        } else {
            None
        },
        Rule::Whitespace => if c == ' ' || c == '\t' {
            Some(run_end_at(t, s, p, Run::Blank) - p)
        } else {
            None
        },
        Rule::Punctuation => if !ranges_contain(&t.word, c) && !ranges_contain(&t.space, c) {
            Some(1)
        } else {
            None
        },
        Rule::Newline => if c == '\n' {
            Some(1)
        } else {
            None
        },
        Rule::Unknown => None,
    }
}

/// `best` or the match of `rule`, whichever is longer.
fn prefer_rule(best: (Rule, usize), t: &ClassTable, s: &Vec<char>, p: usize, rule: Rule) -> (r: (
    Rule,
    usize,
))
    requires
        p < s@.len(),
    ensures
        (r.0, r.1 as int) == prefer((best.0, best.1 as int), t.classes(), s@, p as int, rule),
{
    match rule_match(t, s, p, rule) {
        Some(l) => if l > best.1 {
            (rule, l)
        } else {
            best
        },
        None => best,
    }
}

/// The rule that wins at `p`, and the length of its match.
fn winning_rule(t: &ClassTable, s: &Vec<char>, p: usize) -> (r: (Rule, usize))
    requires
        p < s@.len(),
    ensures
        (r.0, r.1 as int) == winner(t.classes(), s@, p as int),
{
    let b = (Rule::Unknown, 0usize);
    let b = prefer_rule(b, t, s, p, Rule::Comment);
    let b = prefer_rule(b, t, s, p, Rule::Keyword);
    let b = prefer_rule(b, t, s, p, Rule::Function);
    let b = prefer_rule(b, t, s, p, Rule::Variable);
    let b = prefer_rule(b, t, s, p, Rule::Str);
    let b = prefer_rule(b, t, s, p, Rule::Attribute);
    let b = prefer_rule(b, t, s, p, Rule::Number);
    let b = prefer_rule(b, t, s, p, Rule::Text);
    let b = prefer_rule(b, t, s, p, Rule::Whitespace);
    let b = prefer_rule(b, t, s, p, Rule::Punctuation);
    let b = prefer_rule(b, t, s, p, Rule::Newline);
    if b.1 == 0 {
        (Rule::Unknown, 1)
    } else {
        b
    }
}

/// The tokens of a Calcite plan by the grammar's rules, each with the paint
/// of its rule.
pub fn plan_segments(text: &str) -> (v: Vec<(Paint, String)>)
    ensures
        segment_views(v@) == grammar_segments(grammar_tokens(perl_classes(), text@, 0)),
{
    let table = ClassTable::load();
    let s = chars_of(text);
    let ghost k = table.classes();
    let ghost ts = grammar_tokens(k, s@, 0);
    let mut segs: Vec<(Paint, String)> = Vec::new();
    let ghost mut done: Seq<(Rule, Seq<char>)> = Seq::empty();
    let mut p: usize = 0;
    while p < s.len()
        invariant
            table.classes() == k,
            p <= s@.len(),
            done + grammar_tokens(k, s@, p as int) == ts,
            segment_views(segs@) == grammar_segments(done),
        decreases s@.len() - p,
    {
        let (rule, l) = winning_rule(&table, &s, p);
        proof {
            lemma_winner(k, s@, p as int);
        }
        let piece_text = string_from_range(s.as_slice(), p, p + l);
        let paint = match rule {
            Rule::Comment => Paint::Color(Hue::BrightBlack),
            Rule::Function => Paint::Color(Hue::Cyan),
            Rule::Variable => Paint::Color(Hue::Yellow),
            Rule::Str => Paint::Color(Hue::Green),
            Rule::Number => Paint::Color(Hue::Blue),
            Rule::Attribute => Paint::Color(Hue::Magenta),
            Rule::Keyword => Paint::Color(Hue::BrightBlue),
            _ => Paint::Plain,
        };
        let ghost old_done = done;
        let ghost before = segs@;
        let ghost tok = (rule, s@.subrange(p as int, p + l));
        proof {
            assert(grammar_tokens(k, s@, p as int) == seq![tok] + grammar_tokens(k, s@, p + l));
            done = done.push(tok);
            assert(done + grammar_tokens(k, s@, p + l) =~= old_done + grammar_tokens(k, s@, p as int));
        }
        segs.push((paint, piece_text));
        proof {
            assert(segment_views(before).len() == before.len());
            assert(grammar_segments(old_done).len() == old_done.len());
            assert(before.len() == old_done.len());
            assert(paint == rule_paint(rule));
            assert forall|i: int| 0 <= i < segs@.len() implies segment_views(segs@)[i]
                == grammar_segments(done)[i] by {
                if i < before.len() {
                    assert(segs@[i] == before[i]);
                    assert(done[i] == old_done[i]);
                    assert(segment_views(before)[i] == grammar_segments(old_done)[i]);
                }
            }
            assert(segment_views(segs@) =~= grammar_segments(done));
        }
        p = p + l;
    }
    proof {
        assert(grammar_tokens(k, s@, p as int) =~= Seq::<(Rule, Seq<char>)>::empty());
        assert(done =~= ts);
    }
    segs
}

/// Highlights a Calcite plan by the grammar's rules: each token in the paint
/// of its rule.
pub fn highlight_calcite_plan(text: &str) -> (r: String)
    ensures
        grammar_highlighted(grammar_tokens(perl_classes(), text@, 0), r@),
{
    let segs = plan_segments(text);
    render(&segs)
}

/// Formats the `calcite` section of an explain response as a report
/// highlighted by the grammar; `None` when the response has no logical and
/// physical plan strings.
pub fn format_calcite_explain(error_json: &JsonValue) -> (r: Option<String>)
    requires
        plan_lines_ok(*error_json),
    ensures
        match calcite_plans(*error_json) {
            Some((logical, physical)) => r is Some && grammar_highlighted(
                grammar_tokens(perl_classes(), explain_report(logical, physical), 0),
                r->0@,
            ),
            None => r is None,
        },
{
    let calcite = error_json.get("calcite")?;
    let logical = calcite.get("logical")?.as_str()?;
    let physical = calcite.get("physical")?.as_str()?;
    proof {
        assert(calcite_plans(*error_json) == Some((logical@, physical@)));
        lemma_plan_lines_ok(*error_json, logical@, physical@);
    }
    let report = build_report(logical, physical);
    Some(highlight_calcite_plan(report.as_str()))
}

/// The texts of grammar tokens.
pub open spec fn grammar_texts(ts: Seq<(Rule, Seq<char>)>) -> Seq<Seq<char>> {
    ts.map_values(|t: (Rule, Seq<char>)| t.1)
}

proof fn lemma_grammar_lossless_from(k: Classes, s: Seq<char>, p: int)
    requires
        0 <= p <= s.len(),
    ensures
        concat(grammar_texts(grammar_tokens(k, s, p))) == s.skip(p),
    decreases s.len() - p,
{
    if p == s.len() {
        assert(grammar_texts(grammar_tokens(k, s, p)) =~= Seq::<Seq<char>>::empty());
        assert(s.skip(p) =~= Seq::<char>::empty());
    } else {
        lemma_winner(k, s, p);
        let (rule, l) = winner(k, s, p);
        lemma_grammar_lossless_from(k, s, p + l);
        let t = (rule, s.subrange(p, p + l));
        assert(grammar_tokens(k, s, p) == seq![t] + grammar_tokens(k, s, p + l));
        assert(grammar_texts(grammar_tokens(k, s, p)) =~= seq![t.1] + grammar_texts(
            grammar_tokens(k, s, p + l),
        ));
        lemma_concat_prepend(t.1, grammar_texts(grammar_tokens(k, s, p + l)));
        assert(s.skip(p) =~= s.subrange(p, p + l) + s.skip(p + l));
    }
}

/// The grammar tokenizes every plan without loss: the tokens' texts, one
/// after another, give back the plan, whatever the character classes.
pub proof fn law_grammar_lossless(k: Classes, s: Seq<char>)
    ensures
        concat(grammar_texts(grammar_tokens(k, s, 0))) == s,
{
    lemma_grammar_lossless_from(k, s, 0);
    assert(s.skip(0) =~= s);
}

/// Highlighting by the grammar only adds escape sequences: removing them
/// gives back the plan, when the plan holds no `ESC`.
pub proof fn law_grammar_highlight_strips_to_plan(k: Classes, s: Seq<char>, out: Seq<char>)
    requires
        !s.contains('\x1b'),
        grammar_highlighted(grammar_tokens(k, s, 0), out),
    ensures
        strip_ansi(out) == s,
{
    let ts = grammar_tokens(k, s, 0);
    let segs = grammar_segments(ts);
    law_grammar_lossless(k, s);
    assert(segment_texts(segs) =~= grammar_texts(ts));
    lemma_concat_parts_lack(grammar_texts(ts), '\x1b');
    assert forall|i: int| 0 <= i < segs.len() implies !(#[trigger] segs[i]).1.contains('\x1b') by {
        assert(segs[i].1 == grammar_texts(ts)[i]);
    }
    law_strip_rendered(segs, out);
}

/// The keyword rule `null|true|false` matches exactly these words: where
/// the text starts with one of them it takes that word's length, and
/// nowhere else does it match; a keyword token is painted bright blue.
pub proof fn law_keyword_rule(k: Classes, s: Seq<char>, p: int)
    requires
        0 <= p < s.len(),
    ensures
        p + 4 <= s.len() && (s.subrange(p, p + 4) == seq!['n', 'u', 'l', 'l'] || s.subrange(p, p + 4)
            == seq!['t', 'r', 'u', 'e']) ==> match_len(k, s, p, Rule::Keyword) == Some(4int),
        p + 5 <= s.len() && s.subrange(p, p + 5) == seq!['f', 'a', 'l', 's', 'e'] ==> match_len(
            k,
            s,
            p,
            Rule::Keyword,
        ) == Some(5int),
        match_len(k, s, p, Rule::Keyword) is Some ==> (p + 4 <= s.len() && (s.subrange(p, p + 4)
            == seq!['n', 'u', 'l', 'l'] || s.subrange(p, p + 4) == seq!['t', 'r', 'u', 'e'])) || (p
            + 5 <= s.len() && s.subrange(p, p + 5) == seq!['f', 'a', 'l', 's', 'e']),
        rule_paint(Rule::Keyword) == Paint::Color(Hue::BrightBlue),
{
    if p + 5 <= s.len() && s.subrange(p, p + 5) == seq!['f', 'a', 'l', 's', 'e'] {
        assert(s.subrange(p, p + 4)[0] == 'f');
    }
}

/// Longest match: no rule matches more characters at a position than the
/// winning rule takes there.
pub proof fn law_longest_match_wins(k: Classes, s: Seq<char>, p: int, rule: Rule)
    requires
        0 <= p < s.len(),
        match_len(k, s, p, rule) is Some,
    ensures
        match_len(k, s, p, rule)->0 <= winner(k, s, p).1,
        winner(k, s, p).0 != Rule::Unknown,
{
    lemma_match_len(k, s, p, rule);
}

/// Whether `rule` matches at `p` fewer than `l` characters, or not at all.
pub open spec fn shorter_than(k: Classes, s: Seq<char>, p: int, rule: Rule, l: int) -> bool {
    match match_len(k, s, p, rule) {
        Some(m) => m < l,
        None => true,
    }
}

/// Priority breaks ties: where a keyword such as `null` and a text run match
/// the same characters and no other rule matches as many, the keyword wins.
pub proof fn law_keyword_beats_text(k: Classes, s: Seq<char>, p: int)
    requires
        0 <= p < s.len(),
        match_len(k, s, p, Rule::Keyword) is Some,
        match_len(k, s, p, Rule::Text) == match_len(k, s, p, Rule::Keyword),
        ({
            let l = match_len(k, s, p, Rule::Keyword)->0;
            &&& shorter_than(k, s, p, Rule::Comment, l)
            &&& shorter_than(k, s, p, Rule::Function, l)
            &&& shorter_than(k, s, p, Rule::Variable, l)
            &&& shorter_than(k, s, p, Rule::Str, l)
            &&& shorter_than(k, s, p, Rule::Attribute, l)
            &&& shorter_than(k, s, p, Rule::Number, l)
            &&& shorter_than(k, s, p, Rule::Whitespace, l)
            &&& shorter_than(k, s, p, Rule::Punctuation, l)
            &&& shorter_than(k, s, p, Rule::Newline, l)
        }),
    ensures
        winner(k, s, p).0 == Rule::Keyword,
{
}

} // verus!
