use ppl::paint::{Hue, Paint};
use ppl::plan_grammar::plan_segments;
use ppl::json::JsonValue;
use ppl::plan_grammar::{format_calcite_explain, highlight_calcite_plan, process_physical_calcite_line};

#[test]
fn explain_test_source_builder_json_extraction() {
    let line = r#"  OpenSearchIndexScan(indexName=test, sourceBuilder={"from":0,"size":150}, done=false)"#;
    let processed = process_physical_calcite_line(line);
    assert!(processed.contains("\"from\": 0"));
    assert!(processed.contains("\"size\": 150"));
}

#[test]
fn explain_test_line_without_source_builder() {
    let line = "ProjectExec(fields=[a, b, c])";
    let processed = process_physical_calcite_line(line);
    assert_eq!(processed, line);
}

#[test]
fn grammar_plain_output_keeps_every_character() {
    colored::control::set_override(false);
    let plan = "LogicalProject(x=[CASE(<($10, 30), 'u30':VARCHAR)])\n\r  é ½ \"s\" null";
    assert_eq!(highlight_calcite_plan(plan), plan);
}

#[test]
fn grammar_keyword_beats_text() {
    colored::control::set_override(true);
    assert_eq!(highlight_calcite_plan("null"), "\x1b[94mnull\x1b[0m");
    // a longer text run wins over the keyword prefix
    assert_eq!(highlight_calcite_plan("nullable"), "nullable");
}

#[test]
fn grammar_rules_paint_their_tokens() {
    colored::control::set_override(true);
    assert_eq!(
        highlight_calcite_plan("Logical(a=$0, 12 \"s\")"),
        "\x1b[36mLogical\x1b[0m(\x1b[35ma=\x1b[0m\x1b[33m$0\x1b[0m, \x1b[34m12\x1b[0m \x1b[32m\"s\"\x1b[0m)"
    );
}

#[test]
fn grammar_comment_runs_to_end_of_line() {
    colored::control::set_override(true);
    // the longest match from `=` reaches the end of the line
    assert_eq!(
        highlight_calcite_plan("count()=[1]\nx"),
        "count()\x1b[90m=[1]\x1b[0m\nx"
    );
}

#[test]
fn grammar_format_calcite_explain_report() {
    colored::control::set_override(false);
    let calcite = JsonValue::Object(vec![
        ("logical".to_string(), JsonValue::String("LogicalProject(a=[$0])".to_string())),
        ("physical".to_string(), JsonValue::String("EnumerableCalc(b=[$1])".to_string())),
    ]);
    let response = JsonValue::Object(vec![("calcite".to_string(), calcite)]);
    assert_eq!(
        format_calcite_explain(&response).unwrap(),
        "= Calcite Plan =\n== Logical ==\nLogicalProject(a=[$0])\n\n== Physical ==\nEnumerableCalc(b=[$1])"
    );
    assert!(format_calcite_explain(&JsonValue::Null).is_none());
}

#[test]
fn grammar_segments_give_paint_and_text() {
    assert_eq!(
        plan_segments("Logical(a=$0)"),
        vec![
            (Paint::Color(Hue::Cyan), "Logical".to_string()),
            (Paint::Plain, "(".to_string()),
            (Paint::Color(Hue::Magenta), "a=".to_string()),
            (Paint::Color(Hue::Yellow), "$0".to_string()),
            (Paint::Plain, ")".to_string()),
        ]
    );
}
