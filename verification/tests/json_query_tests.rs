use ppl::explain::{
    format_explain_response, indent_pretty, physical_line_ok, plan_input_ok,
    process_physical_calcite_line, split_lines, ExplainOutcome,
};
use ppl::json::JsonValue;
use ppl::query::{
    batch_options, curl_command, format_jdbc_to_json, is_glob_pattern, prepare_query, query_url,
    split_basic_auth, PplResponse, SchemaColumn,
};

#[test]
fn json_get_and_as_str() {
    let v = JsonValue::Object(vec![
        ("a".to_string(), JsonValue::String("x".to_string())),
        ("b".to_string(), JsonValue::Null),
    ]);
    assert_eq!(v.get("a").and_then(|x| x.as_str()), Some("x"));
    assert!(v.get("b").unwrap().as_str().is_none());
    assert!(v.get("c").is_none());
    assert!(JsonValue::String("a".to_string()).get("a").is_none());
}

#[test]
fn source_builder_json_is_indented_like_the_line() {
    let line = "  X(sourceBuilder={\"a\":1,\"b\":[2]}, y=1)";
    assert_eq!(
        process_physical_calcite_line(line),
        "  X(sourceBuilder={\n    \"a\": 1,\n    \"b\": [\n      2\n    ]\n  }, y=1)"
    );
}

#[test]
fn source_builder_json_with_tab_indent() {
    // a tab is one byte of leading whitespace, so one space of indent
    let line = "\tX(sourceBuilder={\"a\":1})";
    assert_eq!(process_physical_calcite_line(line), "\tX(sourceBuilder={\n   \"a\": 1\n })");
}

#[test]
fn invalid_or_open_source_builder_is_kept() {
    let bad = "X(sourceBuilder={not json})";
    assert_eq!(process_physical_calcite_line(bad), bad);
    let open = "X(sourceBuilder={\"a\":1";
    assert_eq!(process_physical_calcite_line(open), open);
    let prefix_kept = "pre sourceBuilder={}x";
    assert!(process_physical_calcite_line(prefix_kept).starts_with("pre sourceBuilder="));
    assert_eq!(process_physical_calcite_line(prefix_kept), "pre sourceBuilder={}x");
}

#[test]
fn non_ascii_source_builder_json_is_pretty_printed() {
    let line = "X(sourceBuilder={\"a\":\"中中\"})";
    assert!(physical_line_ok(line));
    assert_eq!(
        process_physical_calcite_line(line),
        "X(sourceBuilder={\n  \"a\": \"中中\"\n})"
    );
    // leading whitespace counts in bytes: an ideographic space takes three
    let indented = "\u{3000}S(sourceBuilder={\"€\":1})";
    assert_eq!(
        process_physical_calcite_line(indented),
        "\u{3000}S(sourceBuilder={\n     \"€\": 1\n   })"
    );
    assert!(physical_line_ok("plain line"));
    let response = JsonValue::Object(vec![(
        "calcite".to_string(),
        JsonValue::Object(vec![
            ("logical".to_string(), JsonValue::String("x".to_string())),
            ("physical".to_string(), JsonValue::String(format!("ok\n{}", line))),
        ]),
    )]);
    assert!(plan_input_ok(&response));
    assert!(plan_input_ok(&JsonValue::Null));
}

#[test]
fn split_lines_like_str_lines() {
    assert_eq!(split_lines("a\r\nb\n\nc\r"), vec!["a", "b", "", "c\r"]);
    assert_eq!(split_lines("x\n"), vec!["x"]);
    assert!(split_lines("").is_empty());
}

#[test]
fn rows_become_objects() {
    let response = PplResponse {
        schema: vec![
            SchemaColumn { name: "a".to_string() },
            SchemaColumn { name: "b".to_string() },
            SchemaColumn { name: "a".to_string() },
        ],
        datarows: vec![
            vec![
                JsonValue::Number("1".to_string()),
                JsonValue::String("x".to_string()),
                JsonValue::Number("3".to_string()),
            ],
            vec![JsonValue::Null],
        ],
    };
    let rows = format_jdbc_to_json(response);
    assert_eq!(rows.len(), 2);
    match &rows[0] {
        JsonValue::Object(entries) => {
            assert_eq!(entries.len(), 2);
            assert_eq!(entries[0].0, "a");
            assert!(matches!(&entries[0].1, JsonValue::Number(n) if n == "3"));
            assert_eq!(entries[1].0, "b");
        }
        _ => panic!("not an object"),
    }
    match &rows[1] {
        JsonValue::Object(entries) => {
            assert_eq!(entries.len(), 1);
            assert!(matches!(entries[0].1, JsonValue::Null));
        }
        _ => panic!("not an object"),
    }
}

#[test]
fn urls_and_curl_commands() {
    assert_eq!(query_url(None, false), "http://localhost:9200/_plugins/_ppl");
    assert_eq!(query_url(Some("http://h:1/"), true), "http://h:1/_plugins/_ppl/_explain");
    assert_eq!(query_url(Some("http://h:1//"), false), "http://h:1//_plugins/_ppl");
    assert_eq!(
        curl_command("http://u", "{}", None),
        "curl -X POST 'http://u' -H 'Content-Type: application/json' -d '{}' --max-time 120"
    );
    assert_eq!(
        curl_command("http://u", "{}", Some("me:pw")),
        "curl -X POST 'http://u' -H 'Content-Type: application/json' -d '{}' --max-time 120 -u 'me:pw'"
    );
}

#[test]
fn basic_auth_splits_at_first_colon() {
    assert_eq!(split_basic_auth("user:pa:ss"), Some(("user".to_string(), "pa:ss".to_string())));
    assert_eq!(split_basic_auth(":"), Some((String::new(), String::new())));
    assert_eq!(split_basic_auth("nocolon"), None);
}

#[test]
fn glob_patterns_and_batch_options() {
    assert!(is_glob_pattern("*.ppl"));
    assert!(is_glob_pattern("q?.ppl"));
    assert!(is_glob_pattern("q[12].ppl"));
    assert!(!is_glob_pattern("query.ppl"));
    assert_eq!(batch_options(false, false, None), (true, Some(10)));
    assert_eq!(batch_options(false, true, Some(3)), (false, Some(3)));
    assert_eq!(batch_options(true, true, None), (true, Some(10)));
}

#[test]
fn queries_are_trimmed() {
    assert_eq!(prepare_query("  source=a | head 1 \n"), Some("source=a | head 1".to_string()));
    assert_eq!(prepare_query(" \t\n "), None);
    assert_eq!(prepare_query(""), None);
}

#[test]
fn explain_responses_come_to_outcomes() {
    assert!(matches!(format_explain_response("not json"), ExplainOutcome::NotJson));
    assert!(matches!(format_explain_response("{\"a\":1}"), ExplainOutcome::NoPlans));
    assert!(matches!(
        format_explain_response("{\"calcite\":{\"logical\":\"x\"}}"),
        ExplainOutcome::NoPlans
    ));
    colored::control::set_override(false);
    let text = "{\"calcite\":{\"logical\":\"Scan -é\",\"physical\":\"S(sourceBuilder={\\\"size\\\":1})\"}}";
    match format_explain_response(text) {
        ExplainOutcome::Report(r) => assert_eq!(
            r,
            "= Calcite Plan =\n== Logical ==\nScan -é\n\n== Physical ==\nS(sourceBuilder={\n  \"size\": 1\n})"
        ),
        _ => panic!("expected a report"),
    }
}

#[test]
fn pretty_json_is_indented_after_its_first_line() {
    assert_eq!(indent_pretty("{\n  \"a\": 1\n}", 3), "{\n     \"a\": 1\n   }");
    assert_eq!(indent_pretty("| | x", 0), "x");
}
