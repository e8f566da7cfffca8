use ppl::explain::{highlight_calcite_plan, process_physical_calcite_line};

#[test]
fn mod_test_source_builder_json_extraction() {
    let line = r#"  OpenSearchIndexScan(indexName=test, sourceBuilder={"from":0,"size":150}, done=false)"#;
    let processed = process_physical_calcite_line(line);
    assert!(processed.contains("\"from\": 0"));
    assert!(processed.contains("\"size\": 150"));
}

#[test]
fn mod_test_line_without_source_builder() {
    let line = "ProjectExec(fields=[a, b, c])";
    let processed = process_physical_calcite_line(line);
    assert_eq!(processed, line);
}

#[test]
fn test_complex_real_world_case() {
    // Complex patterns from integration tests
    let sample = r#"= Calcite Plan =
== Logical ==
LogicalSystemLimit(fetch=[10000], type=[QUERY_SIZE_LIMIT])
  LogicalProject(avg_age=[$1], age_range=[$0])
    LogicalAggregate(group=[{0}], avg_age=[AVG($1)])
      LogicalProject(age_range=[CASE(<($10, 30), 'u30':VARCHAR, SEARCH($10, Sarg[[30..40]]), 'u40':VARCHAR, 'u100':VARCHAR)], age=[$10])
        CalciteLogicalIndexScan(table=[[OpenSearch, test_bank]])
"#;

    let highlighted = highlight_calcite_plan(sample);

    // Verify key patterns are present
    assert!(highlighted.contains("LogicalSystemLimit"));
    assert!(highlighted.contains("CASE"));
    assert!(highlighted.contains("$10"));
    assert!(highlighted.contains("u30")); // String content
    assert!(highlighted.contains("VARCHAR"));

    // Should handle nested function calls
    assert!(highlighted.contains("AVG"));
    assert!(highlighted.contains("SEARCH"));
}

#[test]
fn test_highlighting_visual() {
    // For manual verification: run it to see colored output
    let sample = r#"= Calcite Plan =
== Logical ==
LogicalSystemLimit(fetch=[10000], type=[QUERY_SIZE_LIMIT])
  LogicalProject(count()=[$1], c1=[$1], gender=[$0], label='hello')
    LogicalAggregate(group=[{0}], count()=[COUNT()])
      LogicalProject(gender=[$4], name="world")
        CalciteLogicalIndexScan(table=[[OpenSearch, test_index]])

== Physical ==
EnumerableCalc(expr#0..1=[{inputs}], count()=[$t1], c1=[$t1], gender=[$t0])
  CalciteEnumerableIndexScan(table=[[OpenSearch, test_index]],
    PushDownContext=[[AGGREGATION->rel#:LogicalAggregate.NONE.[](input=RelSubset#,group={0},count()=COUNT()),
    LIMIT->10000],
    OpenSearchRequestBuilder(sourceBuilder={"from":0,"size":0}, requestedTotalSize=10000, pageSize=null, startFrom=0)])
"#;

    let highlighted = highlight_calcite_plan(sample);

    // Print to stdout for visual inspection
    println!("\n\n===== HIGHLIGHTED OUTPUT =====");
    println!("{}", highlighted);
    println!("===== END =====\n\n");

    // Basic sanity checks
    assert!(!highlighted.is_empty());
    assert!(highlighted.contains("LogicalSystemLimit"));
}
