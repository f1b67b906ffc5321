use cross_compile_checker::cross_build::{check_summary, CheckResult, CrossBuilder};
use cross_compile_checker::text::lines;

#[test]
fn test_cross_builder_new() {
    let _builder = CrossBuilder::new();
}

#[test]
fn test_check_result_fields() {
    let result = CheckResult {
        target: "x86_64-unknown-linux-gnu".into(),
        success: true,
        output: "Checking test v0.1.0".into(),
    };
    assert!(result.success);
    assert_eq!(result.target, "x86_64-unknown-linux-gnu");
}

#[test]
fn target_list_defaults_to_popular_targets() {
    let b = CrossBuilder::new();
    let popular = b.target_list(None);
    assert_eq!(popular.len(), 9);
    assert_eq!(popular[0], "x86_64-unknown-linux-gnu");
    assert_eq!(popular[8], "wasm32-unknown-unknown");
    let given = vec!["a".to_string(), "b".to_string()];
    assert_eq!(b.target_list(Some(&given)), given);
}

#[test]
fn combined_output() {
    let r = CheckResult::from_output("t", "out", "err", false);
    assert_eq!(r.output, "out\nerr");
    assert_eq!(r.target, "t");
    assert!(!r.success);
}

#[test]
fn lines_follow_str_lines() {
    for s in ["", "a", "a\n", "a\r\nb", "a\n\nb\r", "\n", "x\r\n\r\ny\n", "\r"] {
        let expected: Vec<String> = s.lines().map(|l| l.to_string()).collect();
        assert_eq!(lines(s), expected, "{:?}", s);
    }
}

#[test]
fn summary_of_runs() {
    let results = vec![
        CheckResult::from_output("ok", "fine", "", true),
        CheckResult::from_output("bad", "1\n2\n3", "4\n\n5\n6\n", false),
    ];
    assert_eq!(
        check_summary(&results),
        vec![
            "".to_string(),
            "Results: 1 passed, 1 failed out of 2 targets".to_string(),
            "".to_string(),
            "Failed targets:".to_string(),
            "  ❌ bad".to_string(),
            "     3".to_string(),
            "     4".to_string(),
            "     5".to_string(),
            "     6".to_string(),
        ]
    );
    let all_ok = vec![CheckResult::from_output("ok", "", "", true)];
    assert_eq!(
        check_summary(&all_ok),
        vec!["".to_string(), "Results: 1 passed, 0 failed out of 1 targets".to_string()]
    );
}
