use ppl::profile::{decimal_string, format_profile, ProfileNodeText, ProfileText};

fn node(name: &str, ms: &str, rows: usize, children: Vec<ProfileNodeText>) -> ProfileNodeText {
    ProfileNodeText {
        node: name.to_string(),
        time_ms: ms.to_string(),
        rows,
        children,
    }
}

#[test]
fn profile_layout_indents_plan_levels() {
    let profile = ProfileText {
        total_ms: "12.50".to_string(),
        analyze_ms: "1.00".to_string(),
        optimize_ms: "2.00".to_string(),
        execute_ms: "9.25".to_string(),
        format_ms: "0.25".to_string(),
        plan: node(
            "Project",
            "9.00",
            10,
            vec![node("Filter", "5.00", 120, vec![node("Scan", "3.10", 1000, vec![])])],
        ),
    };
    assert_eq!(
        format_profile(&profile, 0),
        "Total: 12.50ms\nPhases:\n  analyze:  1.00ms\n  optimize: 2.00ms\n  execute:  9.25ms\n  format:   0.25ms\nPlan:\n  Project [9.00ms, 10 rows]\n    Filter [5.00ms, 120 rows]\n      Scan [3.10ms, 1000 rows]\n"
    );
    assert!(format_profile(&profile, 2).starts_with("  Total: 12.50ms\n  Phases:\n"));
    assert!(format_profile(&profile, 2).ends_with("\n        Scan [3.10ms, 1000 rows]\n"));
}

#[test]
fn decimal_text_of_numbers() {
    assert_eq!(decimal_string(0), "0");
    assert_eq!(decimal_string(7), "7");
    assert_eq!(decimal_string(10), "10");
    assert_eq!(decimal_string(18446744073709551615), "18446744073709551615");
}
