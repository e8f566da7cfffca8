use ppl::explain::explain_segments;
use ppl::paint::{paint, Hue, Paint};
use ppl::explain::parser::{CalciteHighlighter, Lexer, Token};
use ppl::explain::{format_calcite_explain, highlight_calcite_plan};
use ppl::json::JsonValue;

fn ident(s: &str) -> Token {
    Token::Identifier(s.to_string())
}

#[test]
fn lexer_tokens_of_a_plan_line() {
    let tokens = Lexer::new("LogicalProject(a=[$0], b='x':VARCHAR)").collect();
    assert_eq!(
        tokens,
        vec![
            ident("LogicalProject"),
            Token::OpenParen,
            ident("a"),
            Token::Equals,
            Token::OpenBracket,
            Token::Variable("$0".to_string()),
            Token::CloseBracket,
            Token::Comma,
            Token::Whitespace(" ".to_string()),
            ident("b"),
            Token::Equals,
            Token::String("'x'".to_string()),
            Token::Colon,
            ident("VARCHAR"),
            Token::CloseParen,
        ]
    );
}

#[test]
fn lexer_numbers_keywords_words() {
    let tokens = Lexer::new("1.5e+10 null nullable A->B").collect();
    // a word takes hyphens, so `A->B` is `A-`, a stray `>`, and `B`
    assert_eq!(
        tokens,
        vec![
            Token::Number("1.5e+10".to_string()),
            Token::Whitespace(" ".to_string()),
            Token::Keyword("null".to_string()),
            Token::Whitespace(" ".to_string()),
            ident("nullable"),
            Token::Whitespace(" ".to_string()),
            ident("A-"),
            Token::Other(">".to_string()),
            ident("B"),
        ]
    );
}

#[test]
fn lexer_keeps_stray_characters() {
    // `<`, a lone `-` and `\r` start no token of their own: each run of them
    // is one `Other` token
    let tokens = Lexer::new("a < - b<>(\r").collect();
    assert_eq!(
        tokens,
        vec![
            ident("a"),
            Token::Whitespace(" ".to_string()),
            Token::Other("<".to_string()),
            Token::Whitespace(" ".to_string()),
            Token::Other("-".to_string()),
            Token::Whitespace(" ".to_string()),
            ident("b"),
            Token::Other("<>".to_string()),
            Token::OpenParen,
            Token::Other("\r".to_string()),
        ]
    );
}

#[test]
fn lexer_arrow_and_escapes() {
    let tokens = Lexer::new("x ->'a\\'b'").collect();
    assert_eq!(
        tokens,
        vec![
            ident("x"),
            Token::Whitespace(" ".to_string()),
            Token::Arrow,
            Token::String("'a\\'b'".to_string()),
        ]
    );
}

#[test]
fn lexer_unterminated_string_runs_to_end() {
    let tokens = Lexer::new("\"abc").collect();
    assert_eq!(tokens, vec![Token::String("\"abc".to_string())]);
}

#[test]
fn lexer_heading_and_banner_comments() {
    let tokens = Lexer::new("= Calcite Plan =\n=== Logical ===\nx=1").collect();
    assert_eq!(
        tokens,
        vec![
            Token::Comment("= Calcite Plan =".to_string()),
            Token::Newline,
            Token::Comment("=== Logical ===".to_string()),
            Token::Newline,
            ident("x"),
            Token::Equals,
            Token::Number("1".to_string()),
        ]
    );
}

#[test]
fn lexer_equals_before_digit_is_not_comment() {
    let tokens = Lexer::new("=1").collect();
    assert_eq!(tokens, vec![Token::Equals, Token::Number("1".to_string())]);
}

#[test]
fn lexer_next_steps_one_token() {
    let mut lexer = Lexer::new("ab(");
    assert_eq!(lexer.next(), Some(ident("ab")));
    assert_eq!(lexer.next(), Some(Token::OpenParen));
    assert_eq!(lexer.next(), None);
}

#[test]
fn token_as_str_gives_text() {
    assert_eq!(Token::Arrow.as_str(), "->");
    assert_eq!(Token::Newline.as_str(), "\n");
    assert_eq!(ident("abc").as_str(), "abc");
}

#[test]
fn at_most_one_token_per_character() {
    let input = "@x=[$1], (a)";
    let tokens = Lexer::new(input).collect();
    assert!(tokens.len() <= input.chars().count());
}

#[test]
fn tokens_rebuild_plan() {
    let input = "LogicalProject(a=[$0], b='x':VARCHAR)\r\n  Scan(t=[[x, y]], c=[<($1, -2)])";
    let tokens = Lexer::new(input).collect();
    let rebuilt: String = tokens.iter().map(|t| t.as_str().to_string()).collect();
    assert_eq!(rebuilt, input);
}

#[test]
fn highlight_roles_with_colors() {
    colored::control::set_override(true);
    assert_eq!(
        highlight_calcite_plan("LogicalProject(a=$0, COUNT(x))"),
        "\x1b[1;96mLogicalProject\x1b[0m\x1b[90m(\x1b[0m\x1b[35ma\x1b[0m=\x1b[33m$0\x1b[0m\x1b[90m,\x1b[0m \x1b[36mCOUNT\x1b[0m\x1b[90m(\x1b[0mx\x1b[90m)\x1b[0m\x1b[90m)\x1b[0m"
    );
}

#[test]
fn highlight_operator_after_newline_and_indent() {
    colored::control::set_override(true);
    assert_eq!(
        highlight_calcite_plan("a\n  Scan(t)"),
        "a\n  \x1b[1;96mScan\x1b[0m\x1b[90m(\x1b[0mt\x1b[90m)\x1b[0m"
    );
    // indentation on the first line is a line start too
    assert_eq!(
        highlight_calcite_plan("  LogicalProject(x)"),
        "  \x1b[1;96mLogicalProject\x1b[0m\x1b[90m(\x1b[0mx\x1b[90m)\x1b[0m"
    );
    // in the middle of a line, a capitalized word before `(` is a function
    assert_eq!(
        highlight_calcite_plan("a Scan(t)"),
        "a \x1b[36mScan\x1b[0m\x1b[90m(\x1b[0mt\x1b[90m)\x1b[0m"
    );
}

#[test]
fn highlight_comment_keyword_string_number() {
    colored::control::set_override(true);
    assert_eq!(
        highlight_calcite_plan("= Plan =\nnull 'a' 7 x ->y"),
        "\x1b[90m= Plan =\x1b[0m\n\x1b[94mnull\x1b[0m \x1b[32m'a'\x1b[0m \x1b[34m7\x1b[0m x \x1b[90m->\x1b[0my"
    );
}

#[test]
fn highlight_without_colors_is_token_text() {
    colored::control::set_override(false);
    assert_eq!(highlight_calcite_plan("a < b"), "a < b");
    assert_eq!(highlight_calcite_plan("<>($0, -1)\r\n"), "<>($0, -1)\r\n");
    let mut h = CalciteHighlighter::new("f(x)");
    assert_eq!(h.highlight(), "f(x)");
    // a second call has nothing left
    assert_eq!(h.highlight(), "");
}

#[test]
fn highlight_shows_every_token() {
    colored::control::set_override(true);
    let out = highlight_calcite_plan("LogicalAggregate(group=[{0}], avg=[AVG($1)])");
    for part in ["LogicalAggregate", "group", "{", "0", "avg", "AVG", "$1"] {
        assert!(out.contains(part), "missing {}", part);
    }
}

fn explain_response(logical: &str, physical: &str) -> JsonValue {
    let calcite = JsonValue::Object(vec![
        ("logical".to_string(), JsonValue::String(logical.to_string())),
        ("physical".to_string(), JsonValue::String(physical.to_string())),
    ]);
    JsonValue::Object(vec![
        ("other".to_string(), JsonValue::Bool(true)),
        ("calcite".to_string(), calcite),
    ])
}

#[test]
fn format_calcite_explain_builds_report() {
    colored::control::set_override(false);
    let response = explain_response(
        "LogicalProject(a=[$0])",
        "EnumerableCalc(b=[$1])\n  Scan(sourceBuilder={\"size\":1})",
    );
    assert_eq!(
        format_calcite_explain(&response).unwrap(),
        "= Calcite Plan =\n== Logical ==\nLogicalProject(a=[$0])\n\n== Physical ==\nEnumerableCalc(b=[$1])\n  Scan(sourceBuilder={\n    \"size\": 1\n  })"
    );
}

#[test]
fn format_calcite_explain_needs_both_plans() {
    let missing = JsonValue::Object(vec![(
        "calcite".to_string(),
        JsonValue::Object(vec![("logical".to_string(), JsonValue::String("x".to_string()))]),
    )]);
    assert!(format_calcite_explain(&missing).is_none());
    let not_text = JsonValue::Object(vec![(
        "calcite".to_string(),
        JsonValue::Object(vec![
            ("logical".to_string(), JsonValue::Number("1".to_string())),
            ("physical".to_string(), JsonValue::String("x".to_string())),
        ]),
    )]);
    assert!(format_calcite_explain(&not_text).is_none());
    assert!(format_calcite_explain(&JsonValue::Array(vec![])).is_none());
}

#[test]
fn highlight_equals_function() {
    colored::control::set_override(true);
    let mut h = CalciteHighlighter::new("=(a, b)");
    assert_eq!(
        h.highlight(),
        "\x1b[36m=\x1b[0m\x1b[90m(\x1b[0ma\x1b[90m,\x1b[0m b\x1b[90m)\x1b[0m"
    );
    // an `=` before anything else stays plain
    assert_eq!(highlight_calcite_plan("x =1"), "x =\x1b[34m1\x1b[0m");
}

#[test]
fn stray_characters_do_not_change_roles() {
    colored::control::set_override(true);
    // `x` is still followed by `=`, past the stray `<`
    assert_eq!(highlight_calcite_plan("x<=1"), "\x1b[35mx\x1b[0m<=\x1b[34m1\x1b[0m");
    // `+` before an operator is no content of the line
    assert_eq!(
        highlight_calcite_plan("+Scan(t)"),
        "+\x1b[1;96mScan\x1b[0m\x1b[90m(\x1b[0mt\x1b[90m)\x1b[0m"
    );
}

#[test]
fn explain_segments_give_paint_and_text() {
    let segs = explain_segments("Scan(a=$1)");
    assert_eq!(
        segs,
        vec![
            (Paint::BoldBrightCyan, "Scan".to_string()),
            (Paint::Color(Hue::BrightBlack), "(".to_string()),
            (Paint::Color(Hue::Magenta), "a".to_string()),
            (Paint::Plain, "=".to_string()),
            (Paint::Color(Hue::Yellow), "$1".to_string()),
            (Paint::Color(Hue::BrightBlack), ")".to_string()),
        ]
    );
}

#[test]
fn paint_reopens_style_after_inner_reset() {
    colored::control::set_override(true);
    assert_eq!(
        paint("a\x1b[0mb", Paint::Color(Hue::Green)),
        "\x1b[32ma\x1b[0m\x1b[32mb\x1b[0m"
    );
    colored::control::set_override(false);
    assert_eq!(paint("a\x1b[0mb", Paint::Color(Hue::Green)), "a\x1b[0mb");
}

fn strip_escapes(s: &str) -> String {
    let mut out = String::new();
    let mut in_escape = false;
    for c in s.chars() {
        if in_escape {
            in_escape = c != 'm';
        } else if c == '\x1b' {
            in_escape = true;
        } else {
            out.push(c);
        }
    }
    out
}

#[test]
fn highlighting_only_adds_escape_sequences() {
    colored::control::set_override(true);
    let plan = "= Calcite Plan =\r\n  LogicalProject(x=[CASE(<($10, 30), 'u30':VARCHAR, -1)])\n    =($0, @a.b)";
    let out = highlight_calcite_plan(plan);
    assert_ne!(out, plan);
    assert_eq!(strip_escapes(&out), plan);
}
