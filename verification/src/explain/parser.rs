//! Lexer and context-aware highlighter for Calcite plans.
use vstd::prelude::*;

use crate::paint::{render, rendered, segment_views, Hue, Paint};
use crate::text::{
    char_is_alphabetic, char_is_alphanumeric, char_is_uppercase, char_width, is_alphabetic,
    is_alphanumeric, is_ascii_digit, is_uppercase, string_from_range, utf8_width,
};

verus! {

broadcast use vstd::string::group_string_axioms;

/// The kind of a token; together with its text it makes up a token's view.
#[derive(PartialEq, Eq, Structural, Clone, Copy, Debug)]
pub enum Kind {
    OpenParen,
    CloseParen,
    OpenBracket,
    CloseBracket,
    OpenBrace,
    CloseBrace,
    Comma,
    Equals,
    Arrow,
    Colon,
    Dot,
    Hash,
    Identifier,
    Variable,
    Str,
    Number,
    Keyword,
    Comment,
    Whitespace,
    Newline,
    Other,
}

/// A token as the specification sees it: its kind and the text it stands for.
pub struct TokSpec {
    pub kind: Kind,
    pub text: Seq<char>,
}

/// The text of a token kind that has no payload.
pub open spec fn fixed_text(k: Kind) -> Seq<char> {
    match k {
        Kind::OpenParen => seq!['('],
        Kind::CloseParen => seq![')'],
        Kind::OpenBracket => seq!['['],
        Kind::CloseBracket => seq![']'],
        Kind::OpenBrace => seq!['{'],
        Kind::CloseBrace => seq!['}'],
        Kind::Comma => seq![','],
        Kind::Equals => seq!['='],
        Kind::Arrow => seq!['-', '>'],
        Kind::Colon => seq![':'],
        Kind::Dot => seq!['.'],
        Kind::Hash => seq!['#'],
        Kind::Newline => seq!['\n'],
        _ => Seq::empty(),
    }
}

/// A token with its semantic meaning based on context.
#[derive(Debug, Clone, PartialEq)]
pub enum Token {
    // Structural
    OpenParen,
    CloseParen,
    OpenBracket,
    CloseBracket,
    OpenBrace,
    CloseBrace,
    Comma,
    Equals,
    Arrow,
    Colon,
    Dot,
    Hash,
    // Content
    Identifier(String),
    Variable(String),
    String(String),
    Number(String),
    Keyword(String),
    // Special
    Comment(String),
    Whitespace(String),
    Newline,
    /// A run of characters that start no other token, kept as they are.
    Other(String),
}

impl View for Token {
    type V = TokSpec;

    open spec fn view(&self) -> TokSpec {
        match self {
            Token::OpenParen => TokSpec { kind: Kind::OpenParen, text: fixed_text(Kind::OpenParen) },
            Token::CloseParen => TokSpec { kind: Kind::CloseParen, text: fixed_text(Kind::CloseParen) },
            Token::OpenBracket => TokSpec { kind: Kind::OpenBracket, text: fixed_text(Kind::OpenBracket) },
            Token::CloseBracket => TokSpec { kind: Kind::CloseBracket, text: fixed_text(Kind::CloseBracket) },
            Token::OpenBrace => TokSpec { kind: Kind::OpenBrace, text: fixed_text(Kind::OpenBrace) },
            Token::CloseBrace => TokSpec { kind: Kind::CloseBrace, text: fixed_text(Kind::CloseBrace) },
            Token::Comma => TokSpec { kind: Kind::Comma, text: fixed_text(Kind::Comma) },
            Token::Equals => TokSpec { kind: Kind::Equals, text: fixed_text(Kind::Equals) },
            Token::Arrow => TokSpec { kind: Kind::Arrow, text: fixed_text(Kind::Arrow) },
            Token::Colon => TokSpec { kind: Kind::Colon, text: fixed_text(Kind::Colon) },
            Token::Dot => TokSpec { kind: Kind::Dot, text: fixed_text(Kind::Dot) },
            Token::Hash => TokSpec { kind: Kind::Hash, text: fixed_text(Kind::Hash) },
            Token::Identifier(s) => TokSpec { kind: Kind::Identifier, text: s@ },
            Token::Variable(s) => TokSpec { kind: Kind::Variable, text: s@ },
            Token::String(s) => TokSpec { kind: Kind::Str, text: s@ },
            Token::Number(s) => TokSpec { kind: Kind::Number, text: s@ },
            Token::Keyword(s) => TokSpec { kind: Kind::Keyword, text: s@ },
            Token::Comment(s) => TokSpec { kind: Kind::Comment, text: s@ },
            Token::Whitespace(s) => TokSpec { kind: Kind::Whitespace, text: s@ },
            Token::Newline => TokSpec { kind: Kind::Newline, text: fixed_text(Kind::Newline) },
            Token::Other(s) => TokSpec { kind: Kind::Other, text: s@ },
        }
    }
}

/// The views of a sequence of tokens.
pub open spec fn views(ts: Seq<Token>) -> Seq<TokSpec> {
    ts.map_values(|t: Token| t@)
}

/// The classes of characters that the lexer consumes in runs.
#[derive(PartialEq, Eq, Structural, Clone, Copy, Debug)]
pub enum CharClass {
    /// Spaces and tabs.
    Blank,
    /// Anything but a newline.
    NotNewline,
    /// Characters of a `$` variable.
    VarChar,
    /// Characters of an `@` attribute.
    AttrChar,
    /// Characters of a numeric literal.
    NumChar,
    /// Characters of a word.
    WordChar,
}

/// Whether `c` belongs to class `cls`.
pub open spec fn in_class(cls: CharClass, c: char) -> bool {
    match cls {
        CharClass::Blank => c == ' ' || c == '\t',
        CharClass::NotNewline => c != '\n',
        CharClass::VarChar => char_is_alphanumeric(c) || c == '_' || c == '$',
        CharClass::AttrChar => c == '@' || char_is_alphanumeric(c) || c == '_' || c == '.' || c == '#',
        CharClass::NumChar => is_ascii_digit(c) || c == '.' || c == 'e' || c == 'E' || c == '-' || c
            == '+',
        CharClass::WordChar => char_is_alphanumeric(c) || c == '_' || c == '-',
    }
}

/// The end of the longest run of `cls` characters of `s` that starts at `p`.
pub open spec fn run_end(s: Seq<char>, p: int, cls: CharClass) -> int
    decreases s.len() - p,
{
    if 0 <= p < s.len() && in_class(cls, s[p]) {
        run_end(s, p + 1, cls)
    } else {
        p
    }
}

/// Where a quoted string whose body starts at `j` ends (just past its closing
/// quote `q`, or at the end of the input); a backslash escapes the next character.
pub open spec fn string_end(s: Seq<char>, j: int, q: char) -> int
    decreases s.len() - j,
{
    if j < 0 || j >= s.len() {
        s.len() as int
    } else if s[j] == q {
        j + 1
    } else if s[j] == '\\' {
        if j + 1 >= s.len() {
            s.len() as int
        } else {
            string_end(s, j + 2, q)
        }
    } else {
        string_end(s, j + 1, q)
    }
}

/// Whether position `p` starts a line.
pub open spec fn at_line_start(s: Seq<char>, p: int) -> bool {
    p == 0 || (0 < p <= s.len() && s[p - 1] == '\n')
}

/// Whether the `=` at `p` opens a comment line such as `=== Logical ===` or
/// `= Calcite Plan =`, as opposed to the function `=(a, b)`.
pub open spec fn opens_comment(s: Seq<char>, p: int) -> bool {
    &&& at_line_start(s, p)
    &&& p + 1 < s.len()
    &&& {
        let c = s[p + 1];
        ||| (c != '(' && c != ' ' && !char_is_alphanumeric(c))
        ||| (c == ' ' || char_is_alphabetic(c))
    }
}

/// Whether `w` is one of the keywords `null`, `true`, `false`.
pub open spec fn is_keyword(w: Seq<char>) -> bool {
    w == seq!['n', 'u', 'l', 'l'] || w == seq!['t', 'r', 'u', 'e'] || w == seq![
        'f',
        'a',
        'l',
        's',
        'e',
    ]
}

/// A single-character structural token kind, if `c` is one.
pub open spec fn single_kind(c: char) -> Option<Kind> {
    if c == '\n' {
        Some(Kind::Newline)
    } else if c == '(' {
        Some(Kind::OpenParen)
    } else if c == ')' {
        Some(Kind::CloseParen)
    } else if c == '[' {
        Some(Kind::OpenBracket)
    } else if c == ']' {
        Some(Kind::CloseBracket)
    } else if c == '{' {
        Some(Kind::OpenBrace)
    } else if c == '}' {
        Some(Kind::CloseBrace)
    } else if c == ',' {
        Some(Kind::Comma)
    } else if c == ':' {
        Some(Kind::Colon)
    } else if c == '.' {
        Some(Kind::Dot)
    } else if c == '#' {
        Some(Kind::Hash)
    } else {
        None
    }
}

/// A token of `kind` with text `text`.
pub open spec fn tok(kind: Kind, text: Seq<char>) -> TokSpec {
    TokSpec { kind, text }
}

/// A token of `kind` with its fixed text.
pub open spec fn fixed(kind: Kind) -> TokSpec {
    TokSpec { kind, text: fixed_text(kind) }
}

/// Whether no token of its own starts with the character at `p`: such
/// characters are gathered into `Other` tokens.
pub open spec fn skipped_at(s: Seq<char>, p: int) -> bool {
    let c = s[p];
    &&& !in_class(CharClass::Blank, c)
    &&& single_kind(c) is None
    &&& c != '='
    &&& !(c == '-' && p + 1 < s.len() && s[p + 1] == '>')
    &&& c != '"' && c != '\''
    &&& c != '$' && c != '@'
    &&& !is_ascii_digit(c)
    &&& !(char_is_alphabetic(c) || c == '_')
}

/// The token of its own that starts at `p`, and where it ends.
pub open spec fn token_here(s: Seq<char>, p: int) -> (TokSpec, int)
    recommends
        0 <= p < s.len(),
        !skipped_at(s, p),
{
    let c = s[p];
    if in_class(CharClass::Blank, c) {
        let e = run_end(s, p, CharClass::Blank);
        (tok(Kind::Whitespace, s.subrange(p, e)), e)
    } else if single_kind(c) is Some {
        (fixed(single_kind(c)->0), p + 1)
    } else if c == '=' {
        if opens_comment(s, p) {
            let e = run_end(s, p, CharClass::NotNewline);
            (tok(Kind::Comment, s.subrange(p, e)), e)
        } else {
            (fixed(Kind::Equals), p + 1)
        }
    } else if c == '-' && p + 1 < s.len() && s[p + 1] == '>' {
        (fixed(Kind::Arrow), p + 2)
    } else if c == '"' || c == '\'' {
        let e = string_end(s, p + 1, c);
        (tok(Kind::Str, s.subrange(p, e)), e)
    } else if c == '$' {
        let e = run_end(s, p, CharClass::VarChar);
        (tok(Kind::Variable, s.subrange(p, e)), e)
    } else if c == '@' {
        let e = run_end(s, p, CharClass::AttrChar);
        (tok(Kind::Identifier, s.subrange(p, e)), e)
    } else if is_ascii_digit(c) {
        let e = run_end(s, p, CharClass::NumChar);
        (tok(Kind::Number, s.subrange(p, e)), e)
    } else {
        // the first character is a letter or `_`, hence a word character
        let e = run_end(s, p + 1, CharClass::WordChar);
        let w = s.subrange(p, e);
        if is_keyword(w) {
            (tok(Kind::Keyword, w), e)
        } else {
            (tok(Kind::Identifier, w), e)
        }
    }
}

/// The first position at or after `p` where a token of its own starts.
pub open spec fn skip_end(s: Seq<char>, p: int) -> int
    decreases s.len() - p,
{
    if 0 <= p < s.len() && skipped_at(s, p) {
        skip_end(s, p + 1)
    } else {
        p
    }
}

/// One lexing step from position `p`: the next token and the position after
/// it, or `None` at the end of the input. A run of characters that start no
/// other token is one `Other` token.
pub open spec fn lex_step(s: Seq<char>, p: int) -> Option<(TokSpec, int)> {
    if 0 <= p < s.len() {
        if skipped_at(s, p) {
            let q = skip_end(s, p);
            Some((tok(Kind::Other, s.subrange(p, q)), q))
        } else {
            Some(token_here(s, p))
        }
    } else {
        None
    }
}

/// All tokens of `s` from position `p` on.
pub open spec fn lex_from(s: Seq<char>, p: int) -> Seq<TokSpec>
    decreases s.len() - p,
{
    match lex_step(s, p) {
        Some((t, e)) => if p < e <= s.len() {
            seq![t] + lex_from(s, e)
        } else {
            Seq::empty()
        },
        None => Seq::empty(),
    }
}

/// All tokens of `s`.
pub open spec fn lex(s: Seq<char>) -> Seq<TokSpec> {
    lex_from(s, 0)
}

/// Where the `n` bytes of UTF-8 that start at character `p` end, as a
/// character position (at most the end of the input); `None` when they end
/// inside a character.
pub open spec fn byte_span_end(s: Seq<char>, p: int, n: int) -> Option<int>
    decreases s.len() - p,
{
    if p < 0 || p >= s.len() || n <= 0 {
        Some(p)
    } else if utf8_width(s[p]) > n {
        None
    } else {
        byte_span_end(s, p + 1, n - utf8_width(s[p]))
    }
}

/// A run ends within the input, and holds only characters of its class.
pub proof fn lemma_run_end_bounds(s: Seq<char>, p: int, cls: CharClass)
    requires
        0 <= p <= s.len(),
    ensures
        p <= run_end(s, p, cls) <= s.len(),
        forall|j: int| p <= j < run_end(s, p, cls) ==> in_class(cls, #[trigger] s[j]),
        run_end(s, p, cls) < s.len() ==> !in_class(cls, s[run_end(s, p, cls)]),
    decreases s.len() - p,
{
    if p < s.len() && in_class(cls, s[p]) {
        lemma_run_end_bounds(s, p + 1, cls);
    }
}

/// A string literal ends within the input.
pub proof fn lemma_string_end_bounds(s: Seq<char>, j: int, q: char)
    requires
        0 <= j <= s.len(),
    ensures
        j <= string_end(s, j, q) <= s.len(),
    decreases s.len() - j,
{
    if j < s.len() && s[j] != q {
        if s[j] == '\\' {
            if j + 1 < s.len() {
                lemma_string_end_bounds(s, j + 2, q);
            }
        } else {
            lemma_string_end_bounds(s, j + 1, q);
        }
    }
}

/// A run of characters that start no token of their own ends within the
/// input, after `p` when it is not empty.
pub proof fn lemma_skip_end_bounds(s: Seq<char>, p: int)
    requires
        0 <= p <= s.len(),
    ensures
        p <= skip_end(s, p) <= s.len(),
        p < s.len() && skipped_at(s, p) ==> p < skip_end(s, p),
        skip_end(s, p) < s.len() ==> !skipped_at(s, skip_end(s, p)),
        forall|j: int| p <= j < skip_end(s, p) ==> skipped_at(s, j),
    decreases s.len() - p,
{
    if p < s.len() && skipped_at(s, p) {
        lemma_skip_end_bounds(s, p + 1);
    }
}

/// A token that starts at `p` ends after it, within the input, and its text
/// is exactly the input between the two.
pub proof fn lemma_token_here(s: Seq<char>, p: int)
    requires
        0 <= p < s.len(),
        !skipped_at(s, p),
    ensures
        p < token_here(s, p).1 <= s.len(),
        token_here(s, p).0.text == s.subrange(p, token_here(s, p).1),
{
    let c = s[p];
    lemma_run_end_bounds(s, p, CharClass::Blank);
    lemma_run_end_bounds(s, p, CharClass::NotNewline);
    lemma_run_end_bounds(s, p, CharClass::VarChar);
    lemma_run_end_bounds(s, p, CharClass::AttrChar);
    lemma_run_end_bounds(s, p, CharClass::NumChar);
    lemma_run_end_bounds(s, p + 1, CharClass::WordChar);
    lemma_string_end_bounds(s, p + 1, c);
    if in_class(CharClass::Blank, c) {
    } else if single_kind(c) is Some {
        assert(s.subrange(p, p + 1) =~= seq![c]);
    } else if c == '=' {
        assert(s.subrange(p, p + 1) =~= seq![c]);
    } else if c == '-' && p + 1 < s.len() && s[p + 1] == '>' {
        assert(s.subrange(p, p + 2) =~= seq![c, '>']);
    } else if c == '"' || c == '\'' {
    } else if c == '$' {
    } else if c == '@' {
    } else if is_ascii_digit(c) {
    } else {
    }
}

/// The lexer over the characters of a plan.
pub struct Lexer {
    input: Vec<char>,
    pos: usize,
}

impl Lexer {
    #[verifier::type_invariant]
    spec fn inv(self) -> bool {
        self.pos <= self.input@.len()
    }

    /// The characters being lexed.
    pub closed spec fn source(self) -> Seq<char> {
        self.input@
    }

    /// The current position, in characters.
    pub closed spec fn position(self) -> int {
        self.pos as int
    }

    /// A lexer at the start of `input`.
    pub fn new(input: &str) -> (l: Self)
        ensures
            l.source() == input@,
            l.position() == 0,
    {
        Lexer { input: crate::text::chars_of(input), pos: 0 }
    }

    fn peek_char(&self) -> (r: Option<char>)
        ensures
            self.pos < self.input@.len() ==> r == Some(self.input@[self.pos as int]),
            self.pos >= self.input@.len() ==> r is None,
    {
        if self.pos < self.input.len() {
            Some(self.input[self.pos])
        } else {
            None
        }
    }

    fn advance(&mut self) -> (r: Option<char>)
        ensures
            final(self).input == old(self).input,
            old(self).pos < old(self).input@.len() ==> r == Some(old(self).input@[old(self).pos as int])
                && final(self).pos == old(self).pos + 1,
            old(self).pos >= old(self).input@.len() ==> r is None && final(self).pos == old(self).pos,
    {
        proof {
            use_type_invariant(&*self);
        }
        if self.pos < self.input.len() {
            let ch = self.input[self.pos];
            self.pos = self.pos + 1;
            Some(ch)
        } else {
            None
        }
    }

    /// The characters of the next `n` bytes of UTF-8, or fewer at the end of
    /// the input; those bytes must not end inside a character.
    fn peek_str(&self, n: usize) -> (r: String)
        requires
            byte_span_end(self.input@, self.pos as int, n as int) is Some,
        ensures
            r@ == self.input@.subrange(
                self.pos as int,
                byte_span_end(self.input@, self.pos as int, n as int)->0,
            ),
    {
        proof {
            use_type_invariant(self);
        }
        let ghost s = self.input@;
        let mut e = self.pos;
        let mut left = n;
        while e < self.input.len() && left > 0
            invariant
                self.pos <= e <= s.len(),
                s == self.input@,
                byte_span_end(s, self.pos as int, n as int) == byte_span_end(
                    s,
                    e as int,
                    left as int,
                ),
                byte_span_end(s, self.pos as int, n as int) is Some,
            decreases s.len() - e,
        {
            let w = char_width(self.input[e]);
            proof {
                assert(w <= left);
            }
            left = left - w;
            e = e + 1;
        }
        string_from_range(self.input.as_slice(), self.pos, e)
    }

    /// Whether character `c` belongs to class `cls`.
    fn class_holds(cls: CharClass, c: char) -> (r: bool)
        ensures
            r == in_class(cls, c),
    {
        match cls {
            CharClass::Blank => c == ' ' || c == '\t',
            CharClass::NotNewline => c != '\n',
            CharClass::VarChar => is_alphanumeric(c) || c == '_' || c == '$',
            CharClass::AttrChar => c == '@' || is_alphanumeric(c) || c == '_' || c == '.' || c
                == '#',
            CharClass::NumChar => ('0' <= c && c <= '9') || c == '.' || c == 'e' || c == 'E' || c
                == '-' || c == '+',
            CharClass::WordChar => is_alphanumeric(c) || c == '_' || c == '-',
        }
    }

    /// Consumes the longest run of `cls` characters and returns it.
    fn consume_while(&mut self, cls: CharClass) -> (r: String)
        ensures
            final(self).input == old(self).input,
            final(self).pos == run_end(old(self).input@, old(self).pos as int, cls),
            r@ == old(self).input@.subrange(old(self).pos as int, final(self).pos as int),
            old(self).pos < old(self).input@.len() && in_class(cls, old(self).input@[old(self).pos as int])
                ==> final(self).pos > old(self).pos,
    {
        proof {
            use_type_invariant(&*self);
        }
        let start = self.pos;
        proof {
            if start < self.input@.len() {
                lemma_run_end_bounds(self.input@, start + 1, cls);
            }
        }
        loop
            invariant
                self.input == old(self).input,
                start == old(self).pos,
                start <= self.pos <= self.input@.len(),
                run_end(self.input@, start as int, cls) == run_end(
                    self.input@,
                    self.pos as int,
                    cls,
                ),
            ensures
                self.input == old(self).input,
                start <= self.pos <= self.input@.len(),
                self.pos == run_end(self.input@, start as int, cls),
            decreases self.input@.len() - self.pos,
        {
            proof {
                use_type_invariant(&*self);
            }
            match self.peek_char() {
                Some(ch) => {
                    if !Self::class_holds(cls, ch) {
                        break ;
                    }
                    self.advance();
                },
                None => break ,
            }
        }
        string_from_range(self.input.as_slice(), start, self.pos)
    }

    fn skip_whitespace(&mut self) -> (r: Option<String>)
        ensures
            final(self).input == old(self).input,
            ({
                let s = old(self).input@;
                let p = old(self).pos as int;
                if p < s.len() && in_class(CharClass::Blank, s[p]) {
                    final(self).pos == run_end(s, p, CharClass::Blank) && r is Some && r->0@
                        == s.subrange(p, final(self).pos as int)
                } else {
                    final(self).pos == p && r is None
                }
            }),
    {
        if let Some(ch) = self.peek_char() {
            if ch == ' ' || ch == '\t' {
                return Some(self.consume_while(CharClass::Blank));
            }
        }
        None
    }

    /// Whether `w` is one of the keywords `null`, `true`, `false`.
    fn is_keyword_word(w: &String) -> (r: bool)
        ensures
            r == is_keyword(w@),
    {
        let null = "null".to_string();
        let t = "true".to_string();
        let f = "false".to_string();
        proof {
            reveal_strlit("null");
            reveal_strlit("true");
            reveal_strlit("false");
            assert("null"@ =~= seq!['n', 'u', 'l', 'l']);
            assert("true"@ =~= seq!['t', 'r', 'u', 'e']);
            assert("false"@ =~= seq!['f', 'a', 'l', 's', 'e']);
        }
        *w == null || *w == t || *w == f
    }

    fn next_token(&mut self) -> (r: Option<Token>)
        ensures
            final(self).input@ == old(self).input@,
            match lex_step(old(self).input@, old(self).pos as int) {
                Some((t, e)) => r is Some && r->0@ == t && final(self).pos == e && old(self).pos
                    < e <= old(self).input@.len(),
                None => r is None && final(self).pos == old(self).input@.len(),
            },
    {
        proof {
            use_type_invariant(&*self);
        }
        let ghost s = self.input@;
        let ghost p = self.pos as int;
        // Check if we're at end of input
        if self.pos >= self.input.len() {
            return None;
        }
        proof {
            lemma_run_end_bounds(s, p, CharClass::Blank);
            lemma_run_end_bounds(s, p, CharClass::NotNewline);
            lemma_run_end_bounds(s, p, CharClass::VarChar);
            lemma_run_end_bounds(s, p, CharClass::AttrChar);
            lemma_run_end_bounds(s, p, CharClass::NumChar);
            lemma_run_end_bounds(s, p, CharClass::WordChar);
        }
        // Handle whitespace
        if let Some(ws) = self.skip_whitespace() {
            return Some(Token::Whitespace(ws));
        }
        let ch = self.input[self.pos];
        if ch == '\n' {
            self.advance();
            return Some(Token::Newline);
        }
        if ch == '(' {
            self.advance();
            return Some(Token::OpenParen);
        }
        if ch == ')' {
            self.advance();
            return Some(Token::CloseParen);
        }
        if ch == '[' {
            self.advance();
            return Some(Token::OpenBracket);
        }
        if ch == ']' {
            self.advance();
            return Some(Token::CloseBracket);
        }
        if ch == '{' {
            self.advance();
            return Some(Token::OpenBrace);
        }
        if ch == '}' {
            self.advance();
            return Some(Token::CloseBrace);
        }
        if ch == ',' {
            self.advance();
            return Some(Token::Comma);
        }
        if ch == '=' {
            // A comment line looks like "=== Logical ===" or "= Calcite Plan =";
            // a function looks like "=(a, b)".
            let is_line_start = self.pos == 0 || self.input[self.pos - 1] == '\n';
            if is_line_start && self.pos + 1 < self.input.len() {
                let next_ch = self.input[self.pos + 1];
                if next_ch != '(' && next_ch != ' ' && !is_alphanumeric(next_ch) {
                    let comment = self.consume_while(CharClass::NotNewline);
                    return Some(Token::Comment(comment));
                } else if next_ch == ' ' || is_alphabetic(next_ch) {
                    let comment = self.consume_while(CharClass::NotNewline);
                    return Some(Token::Comment(comment));
                }
            }
            self.advance();
            return Some(Token::Equals);
        }
        if ch == ':' {
            self.advance();
            return Some(Token::Colon);
        }
        if ch == '.' {
            self.advance();
            return Some(Token::Dot);
        }
        if ch == '#' {
            self.advance();
            return Some(Token::Hash);
        }
        // The two bytes from a `-` end inside the next character when that
        // character takes more than one byte: then this is no arrow.
        if ch == '-' && !(self.pos + 1 < self.input.len() && char_width(self.input[self.pos + 1])
            >= 2) {
            let arrow = "->".to_string();
            proof {
                reveal_strlit("->");
                assert("->"@ =~= seq!['-', '>']);
            }
            proof {
                assert(utf8_width(s[p]) == 1);
                if p + 1 < s.len() {
                    assert(byte_span_end(s, p + 2, 0) == Some(p + 2));
                }
                assert(byte_span_end(s, p, 2) == byte_span_end(s, p + 1, 1));
            }
            let next_two = self.peek_str(2);
            if next_two == arrow {
                proof {
                    assert(next_two@.len() == 2);
                    assert(next_two@[1] == '>');
                }
                self.pos = self.pos + 2;
                return Some(Token::Arrow);
            }
            proof {
                if p + 1 < s.len() && s[p + 1] == '>' {
                    assert(next_two@ =~= seq!['-', '>']);
                }
            }
        }
        if ch == '"' || ch == '\'' {
            // String literal, quotes included
            let start = self.pos;
            let quote = self.input[self.pos];
            self.advance();
            proof {
                lemma_string_end_bounds(s, p + 1, quote);
            }
            loop
                invariant_except_break
                    string_end(s, p + 1, quote) == string_end(s, self.pos as int, quote),
                invariant
                    self.input@ == s,
                    start == p,
                    p < self.pos <= s.len(),
                ensures
                    self.input@ == s,
                    p < self.pos <= s.len(),
                    self.pos == string_end(s, p + 1, quote),
                decreases s.len() - self.pos,
            {
                if self.pos >= self.input.len() {
                    break ;
                }
                let c = self.input[self.pos];
                if c == quote {
                    self.pos = self.pos + 1;
                    break ;
                }
                if c == '\\' {
                    self.advance();
                }
                self.advance();
            }
            let text = string_from_range(self.input.as_slice(), start, self.pos);
            return Some(Token::String(text));
        }
        if ch == '$' {
            // Variable such as $0, $t1, $foo; the run includes the $
            let var = self.consume_while(CharClass::VarChar);
            return Some(Token::Variable(var));
        }
        if ch == '@' {
            // Attribute such as @timestamp; the run includes the @
            let attr = self.consume_while(CharClass::AttrChar);
            return Some(Token::Identifier(attr));
        }
        if '0' <= ch && ch <= '9' {
            // Number, decimals and scientific notation included
            let num = self.consume_while(CharClass::NumChar);
            return Some(Token::Number(num));
        }
        if is_alphabetic(ch) || ch == '_' {
            // Identifier, operator, function, or keyword
            proof {
                assert(in_class(CharClass::WordChar, ch));
                lemma_run_end_bounds(s, p + 1, CharClass::WordChar);
                assert(run_end(s, p, CharClass::WordChar) == run_end(s, p + 1, CharClass::WordChar));
            }
            let word = self.consume_while(CharClass::WordChar);
            if Self::is_keyword_word(&word) {
                return Some(Token::Keyword(word));
            } else {
                return Some(Token::Identifier(word));
            }
        }
        // Characters that start no token of their own: one `Other` token for the run
        proof {
            assert(skipped_at(s, p));
            lemma_skip_end_bounds(s, p);
        }
        let start = self.pos;
        while self.pos < self.input.len() && self.skipped_here(self.pos)
            invariant
                self.input@ == s,
                start == p,
                p <= self.pos <= s.len(),
                skip_end(s, p) == skip_end(s, self.pos as int),
            decreases s.len() - self.pos,
        {
            self.pos = self.pos + 1;
        }
        let text = string_from_range(self.input.as_slice(), start, self.pos);
        Some(Token::Other(text))
    }

    /// Whether the character at `q` starts no token of its own.
    fn skipped_here(&self, q: usize) -> (r: bool)
        requires
            q < self.input@.len(),
        ensures
            r == skipped_at(self.input@, q as int),
    {
        let c = self.input[q];
        let n = self.input.len();
        let arrow = c == '-' && q + 1 < n && self.input[q + 1] == '>';
        !(c == ' ' || c == '\t') && !(c == '\n' || c == '(' || c == ')' || c == '[' || c == ']'
            || c == '{' || c == '}' || c == ',' || c == ':' || c == '.' || c == '#') && c != '='
            && !arrow && c != '"' && c != '\'' && c != '$' && c != '@' && !('0' <= c && c <= '9')
            && !(is_alphabetic(c) || c == '_')
    }

    /// The next token, advancing past it.
    pub fn next(&mut self) -> (r: Option<Token>)
        ensures
            final(self).source() == old(self).source(),
            match lex_step(old(self).source(), old(self).position()) {
                Some((t, e)) => r is Some && r->0@ == t && final(self).position() == e,
                None => r is None && final(self).position() == old(self).source().len(),
            },
    {
        self.next_token()
    }

    /// All remaining tokens.
    pub fn collect(self) -> (r: Vec<Token>)
        ensures
            views(r@) == lex_from(self.source(), self.position()),
    {
        let mut lexer = self;
        let mut tokens: Vec<Token> = Vec::new();
        let ghost s = lexer.input@;
        let ghost start = lexer.pos as int;
        loop
            invariant_except_break
                views(tokens@) + lex_from(s, lexer.pos as int) == lex_from(s, start),
            invariant
                lexer.input@ == s,
            ensures
                views(tokens@) == lex_from(s, start),
            decreases s.len() - lexer.pos,
        {
            let ghost before = tokens@;
            let ghost p = lexer.pos as int;
            match lexer.next_token() {
                Some(t) => {
                    tokens.push(t);
                    proof {
                        assert(views(tokens@) =~= views(before).push(t@));
                        assert(lex_from(s, p) == seq![t@] + lex_from(s, lexer.pos as int));
                        assert(views(tokens@) + lex_from(s, lexer.pos as int) =~= views(before)
                            + lex_from(s, p));
                    }
                },
                None => {
                    proof {
                        assert(lex_from(s, p) =~= Seq::<TokSpec>::empty());
                        assert(views(tokens@) =~= views(tokens@) + lex_from(s, p));
                    }
                    break ;
                },
            }
        }
        tokens
    }
}

/// The kind of the first token at or after `j` that is not an `Other` run,
/// if any: `Other` tokens do not change the role of their neighbours.
pub open spec fn next_kind(ts: Seq<TokSpec>, j: int) -> Option<Kind>
    decreases ts.len() - j,
{
    if j < 0 || j >= ts.len() {
        None
    } else if ts[j].kind == Kind::Other {
        next_kind(ts, j + 1)
    } else {
        Some(ts[j].kind)
    }
}

/// Whether, looking back from token `j` over whitespace (and `Other` runs),
/// the line starts: a newline comes first, or the start of the plan.
pub open spec fn line_opens_before(ts: Seq<TokSpec>, j: int) -> bool
    decreases j + 1,
{
    if j < 0 || j >= ts.len() {
        true
    } else if ts[j].kind == Kind::Whitespace || ts[j].kind == Kind::Other {
        line_opens_before(ts, j - 1)
    } else {
        ts[j].kind == Kind::Newline
    }
}

/// Whether token `p` stands where a Calcite operator starts: at the start of
/// a line, or after its indentation.
pub open spec fn operator_position(ts: Seq<TokSpec>, p: int) -> bool {
    line_opens_before(ts, p - 1)
}

/// Whether the next token after `p` has kind `k`.
pub open spec fn followed_by(ts: Seq<TokSpec>, p: int, k: Kind) -> bool {
    next_kind(ts, p + 1) == Some(k)
}

/// Whether `text` starts with an uppercase character.
pub open spec fn starts_uppercase(text: Seq<char>) -> bool {
    text.len() > 0 && char_is_uppercase(text[0])
}

/// How token `p` is painted, from its kind and its context.
pub open spec fn token_paint(ts: Seq<TokSpec>, p: int) -> Paint {
    let t = ts[p];
    match t.kind {
        Kind::Comment => Paint::Color(Hue::BrightBlack),
        Kind::Keyword => Paint::Color(Hue::BrightBlue),
        Kind::Variable => Paint::Color(Hue::Yellow),
        Kind::Str => Paint::Color(Hue::Green),
        Kind::Number => Paint::Color(Hue::Blue),
        Kind::Identifier => if followed_by(ts, p, Kind::Equals) {
            // attribute
            Paint::Color(Hue::Magenta)
        } else if followed_by(ts, p, Kind::OpenParen) {
            if operator_position(ts, p) && starts_uppercase(t.text) {
                // Calcite operator
                Paint::BoldBrightCyan
            } else {
                // function
                Paint::Color(Hue::Cyan)
            }
        } else {
            Paint::Plain
        },
        // the function `=`, as in `=(a, b)`
        Kind::Equals => if followed_by(ts, p, Kind::OpenParen) {
            Paint::Color(Hue::Cyan)
        } else {
            Paint::Plain
        },
        Kind::Colon | Kind::Whitespace | Kind::Newline | Kind::Other => Paint::Plain,
        _ => Paint::Color(Hue::BrightBlack),
    }
}

/// The segments of the tokens of `ts` from `from` on: each token's paint and text.
pub open spec fn token_segments(ts: Seq<TokSpec>, from: int) -> Seq<(Paint, Seq<char>)> {
    Seq::new((ts.len() - from) as nat, |i: int| (token_paint(ts, from + i), ts[from + i].text))
}

/// Whether `out` is the highlighting of the tokens of `ts` from `from` on:
/// each token rendered in its paint, one after another.
pub open spec fn highlighted(ts: Seq<TokSpec>, from: int, out: Seq<char>) -> bool {
    rendered(token_segments(ts, from), out)
}

impl Token {
    /// The text the token stands for.
    pub fn as_str(&self) -> (r: &str)
        ensures
            r@ == self@.text,
    {
        proof {
            reveal_strlit("(");
            reveal_strlit(")");
            reveal_strlit("[");
            reveal_strlit("]");
            reveal_strlit("{");
            reveal_strlit("}");
            reveal_strlit(",");
            reveal_strlit("=");
            reveal_strlit("->");
            reveal_strlit(":");
            reveal_strlit(".");
            reveal_strlit("#");
            reveal_strlit("\n");
        }
        match self {
            Token::OpenParen => "(",
            Token::CloseParen => ")",
            Token::OpenBracket => "[",
            Token::CloseBracket => "]",
            Token::OpenBrace => "{",
            Token::CloseBrace => "}",
            Token::Comma => ",",
            Token::Equals => "=",
            Token::Arrow => "->",
            Token::Colon => ":",
            Token::Dot => ".",
            Token::Hash => "#",
            Token::Identifier(s) | Token::Variable(s) | Token::String(s) | Token::Number(s)
            | Token::Keyword(s) | Token::Comment(s) | Token::Whitespace(s) | Token::Other(s) => s
                .as_str(),
            Token::Newline => "\n",
        }
    }
}

/// Context-aware highlighter that understands the structure of a plan.
pub struct CalciteHighlighter {
    tokens: Vec<Token>,
    pos: usize,
}

impl CalciteHighlighter {
    #[verifier::type_invariant]
    spec fn inv(self) -> bool {
        self.pos <= self.tokens@.len()
    }

    /// The tokens being highlighted.
    pub closed spec fn token_views(self) -> Seq<TokSpec> {
        views(self.tokens@)
    }

    /// The index of the next token to highlight.
    pub closed spec fn position(self) -> int {
        self.pos as int
    }

    /// A highlighter over the tokens of `input`, at the first token.
    pub fn new(input: &str) -> (h: Self)
        ensures
            h.token_views() == lex(input@),
            h.position() == 0,
    {
        let tokens = Lexer::new(input).collect();
        Self { tokens, pos: 0 }
    }

    fn advance(&mut self) -> (r: Option<&Token>)
        ensures
            final(self).tokens == old(self).tokens,
            old(self).pos < old(self).tokens@.len() ==> r == Some(&old(self).tokens@[old(self).pos as int])
                && final(self).pos == old(self).pos + 1,
            old(self).pos >= old(self).tokens@.len() ==> r is None && final(self).pos == old(self).pos,
    {
        if self.pos < self.tokens.len() {
            let i = self.pos;
            self.pos = self.pos + 1;
            Some(&self.tokens[i])
        } else {
            None
        }
    }

    /// Whether the current token stands at the start of a Calcite operator:
    /// at the start of a line, or after its indentation.
    fn is_operator_position(&self) -> (r: bool)
        requires
            self.pos <= self.tokens@.len(),
        ensures
            r == operator_position(views(self.tokens@), self.pos as int),
    {
        let ghost ts = views(self.tokens@);
        let mut i = self.pos;
        // Look back over whitespace for a newline or the start of the plan
        while i > 0
            invariant
                0 <= i <= self.pos <= self.tokens@.len(),
                ts == views(self.tokens@),
                line_opens_before(ts, self.pos - 1) == line_opens_before(ts, i - 1),
            decreases i,
        {
            let t = &self.tokens[i - 1];
            match t {
                Token::Whitespace(_) | Token::Other(_) => {},
                Token::Newline => return true,
                _ => return false,
            }
            i = i - 1;
        }
        true
    }

    /// Whether the next token after the current one, `Other` runs aside, has kind `k`.
    fn next_is(&self, k: Kind) -> (r: bool)
        ensures
            r == followed_by(views(self.tokens@), self.pos as int, k),
    {
        let ghost ts = views(self.tokens@);
        if self.pos >= self.tokens.len() {
            return false;
        }
        let mut j = self.pos + 1;
        while j < self.tokens.len()
            invariant
                self.pos < j <= self.tokens@.len(),
                ts == views(self.tokens@),
                next_kind(ts, self.pos + 1) == next_kind(ts, j as int),
            decreases self.tokens@.len() - j,
        {
            let kj = kind_of(&self.tokens[j]);
            if kj != Kind::Other {
                return kj == k;
            }
            j = j + 1;
        }
        false
    }

    /// Whether the current token is followed by `=`, which makes it an attribute.
    fn is_attribute(&self) -> (r: bool)
        ensures
            r == followed_by(views(self.tokens@), self.pos as int, Kind::Equals),
    {
        self.next_is(Kind::Equals)
    }

    /// Whether the current token is followed by `(`, which makes it a function or operator.
    fn is_function_or_operator(&self) -> (r: bool)
        ensures
            r == followed_by(views(self.tokens@), self.pos as int, Kind::OpenParen),
    {
        self.next_is(Kind::OpenParen)
    }

    /// The paint of each remaining token, by its kind and its context, with
    /// its text.
    pub fn segments(&mut self) -> (v: Vec<(Paint, String)>)
        ensures
            final(self).token_views() == old(self).token_views(),
            final(self).position() == old(self).token_views().len(),
            segment_views(v@) == token_segments(old(self).token_views(), old(self).position()),
    {
        let mut segs: Vec<(Paint, String)> = Vec::new();
        let ghost ts = views(self.tokens@);
        let ghost from = self.pos as int;
        proof {
            use_type_invariant(&*self);
        }
        while self.pos < self.tokens.len()
            invariant
                views(self.tokens@) == ts,
                from <= self.pos <= ts.len(),
                segs@.len() == self.pos - from,
                forall|i: int|
                    0 <= i < segs@.len() ==> (#[trigger] segs@[i]).0 == token_paint(ts, from + i)
                        && segs@[i].1@ == ts[from + i].text,
            decreases ts.len() - self.pos,
        {
            // Check context before borrowing the token
            let is_attr = self.is_attribute();
            let is_fn_or_op = self.is_function_or_operator();
            let is_op_pos = self.is_operator_position();
            proof {
                use_type_invariant(&*self);
            }
            let token = self.advance().unwrap();
            let p = match token {
                Token::Comment(_) => Paint::Color(Hue::BrightBlack),
                Token::Keyword(_) => Paint::Color(Hue::BrightBlue),
                Token::Variable(_) => Paint::Color(Hue::Yellow),
                Token::String(_) => Paint::Color(Hue::Green),
                Token::Number(_) => Paint::Color(Hue::Blue),
                Token::Identifier(s) => {
                    // Context-aware coloring
                    if is_attr {
                        Paint::Color(Hue::Magenta)
                    } else if is_fn_or_op {
                        let upper = match first_char(s.as_str()) {
                            Some(c) => is_uppercase(c),
                            None => false,
                        };
                        if is_op_pos && upper {
                            // Calcite operator (LogicalProject, EnumerableCalc, ...)
                            Paint::BoldBrightCyan
                        } else {
                            // Function name
                            Paint::Color(Hue::Cyan)
                        }
                    } else {
                        // Regular identifier
                        Paint::Plain
                    }
                },
                Token::Equals => {
                    // `=(a, b)` applies the function `=`
                    if is_fn_or_op {
                        Paint::Color(Hue::Cyan)
                    } else {
                        Paint::Plain
                    }
                },
                Token::OpenParen | Token::CloseParen | Token::OpenBracket | Token::CloseBracket
                | Token::OpenBrace | Token::CloseBrace | Token::Comma | Token::Dot | Token::Hash
                | Token::Arrow => Paint::Color(Hue::BrightBlack),
                Token::Colon | Token::Whitespace(_) | Token::Newline | Token::Other(_) => Paint::Plain,
            };
            let text = token.as_str().to_string();
            let ghost before = segs@;
            segs.push((p, text));
            proof {
                assert forall|i: int|
                    0 <= i < segs@.len() implies (#[trigger] segs@[i]).0 == token_paint(ts, from + i)
                    && segs@[i].1@ == ts[from + i].text by {
                    if i < before.len() {
                        assert(segs@[i] == before[i]);
                    }
                }
            }
        }
        proof {
            assert(segment_views(segs@) =~= token_segments(ts, from));
        }
        segs
    }

    /// Highlights the remaining tokens: each in the paint of its role.
    pub fn highlight(&mut self) -> (r: String)
        ensures
            final(self).token_views() == old(self).token_views(),
            final(self).position() == old(self).token_views().len(),
            highlighted(old(self).token_views(), old(self).position(), r@),
    {
        let segs = self.segments();
        render(&segs)
    }
}

/// The kind of a token.
fn kind_of(t: &Token) -> (k: Kind)
    ensures
        k == t@.kind,
{
    match t {
        Token::OpenParen => Kind::OpenParen,
        Token::CloseParen => Kind::CloseParen,
        Token::OpenBracket => Kind::OpenBracket,
        Token::CloseBracket => Kind::CloseBracket,
        Token::OpenBrace => Kind::OpenBrace,
        Token::CloseBrace => Kind::CloseBrace,
        Token::Comma => Kind::Comma,
        Token::Equals => Kind::Equals,
        Token::Arrow => Kind::Arrow,
        Token::Colon => Kind::Colon,
        Token::Dot => Kind::Dot,
        Token::Hash => Kind::Hash,
        Token::Identifier(_) => Kind::Identifier,
        Token::Variable(_) => Kind::Variable,
        Token::String(_) => Kind::Str,
        Token::Number(_) => Kind::Number,
        Token::Keyword(_) => Kind::Keyword,
        Token::Comment(_) => Kind::Comment,
        Token::Whitespace(_) => Kind::Whitespace,
        Token::Newline => Kind::Newline,
        Token::Other(_) => Kind::Other,
    }
}

/// The first character of a string, if any.
fn first_char(s: &str) -> (c: Option<char>)
    ensures
        s@.len() > 0 ==> c == Some(s@[0]),
        s@.len() == 0 ==> c is None,
{
    let cs = crate::text::chars_of(s);
    if cs.len() > 0 {
        Some(cs[0])
    } else {
        None
    }
}

} // verus!
