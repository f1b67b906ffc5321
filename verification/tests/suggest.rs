use cross_compile_checker::compat::{CargoToml, RiskLevel};
use cross_compile_checker::suggest::{report_lines, Suggestion, Suggestor};

fn cargo(deps: &[&str]) -> CargoToml {
    CargoToml {
        dependencies: deps.iter().map(|s| s.to_string()).collect(),
        dev_dependencies: vec![],
        build_dependencies: vec![],
    }
}

#[test]
fn test_suggest_pure_rust() {
    let content = "[package]\nname = \"test\"\nversion = \"0.1.0\"\n[dependencies]\nserde = \"1\"\n";
    let suggestor = Suggestor::new();
    let suggestions = suggestor.suggest(content, &cargo(&["serde"]), 5);
    assert_eq!(suggestions.len(), 5);
    assert!(suggestions.iter().all(|s| s.risk == RiskLevel::Safe));
    let oses: std::collections::HashSet<&str> = suggestions.iter().map(|s| s.os.as_str()).collect();
    assert!(oses.len() >= 2, "Expected OS diversity, got {:?}", oses);
}

#[test]
fn test_suggest_filters_danger() {
    let content = "[package]\nname = \"test\"\nversion = \"0.1.0\"\n[dependencies]\nwinapi = \"0.3\"\nnix = \"0.27\"\n";
    let suggestor = Suggestor::new();
    let suggestions = suggestor.suggest(content, &cargo(&["winapi", "nix"]), 10);
    assert!(suggestions.iter().all(|s| s.risk != RiskLevel::Danger));
}

#[test]
fn test_suggestion_ordering() {
    let content = "[package]\nname = \"test\"\nversion = \"0.1.0\"\n[dependencies]\nserde = \"1\"\n";
    let suggestor = Suggestor::new();
    let suggestions = suggestor.suggest(content, &cargo(&["serde"]), 5);
    assert!(suggestions[0].popularity >= 80);
}

fn names(s: &[Suggestion]) -> Vec<&str> {
    s.iter().map(|s| s.target.as_str()).collect()
}

#[test]
fn pure_rust_suggestions_are_exact() {
    let suggestions = Suggestor::new().suggest("", &cargo(&["serde"]), 5);
    // ranked: linux-gnu 95, then 85s (aarch64 linux, aarch64 darwin), 80s (musl, x86 darwin, msvc) ...
    // at most two per OS in the first pass
    assert_eq!(
        names(&suggestions),
        vec![
            "x86_64-unknown-linux-gnu",
            "aarch64-unknown-linux-gnu",
            "aarch64-apple-darwin",
            "x86_64-apple-darwin",
            "x86_64-pc-windows-msvc",
        ]
    );
    assert_eq!(suggestions[0].reason, "Fully compatible");
}

#[test]
fn suggestions_fill_up_and_never_exceed_top() {
    let all = Suggestor::new().suggest("", &cargo(&["libc", "tokio"]), 100);
    // libc + tokio is Danger only on wasm32-unknown-unknown: 52 candidates
    assert_eq!(all.len(), 52);
    assert!(all.iter().all(|s| s.target != "wasm32-unknown-unknown"));
    let few = Suggestor::new().suggest("", &cargo(&["libc", "tokio"]), 3);
    assert_eq!(few.len(), 3);
    assert!(Suggestor::new().suggest("", &cargo(&[]), 0).is_empty());
    let w = all.iter().find(|s| s.target == "x86_64-pc-windows-msvc").unwrap();
    assert_eq!(w.risk, RiskLevel::Warning);
    assert_eq!(w.reason, "Minor: nix/libc have limited Windows support");
}

#[test]
fn report_lines_of_suggestions() {
    let suggestions = Suggestor::new().suggest("", &cargo(&[]), 2);
    let lines = report_lines(2, &suggestions);
    assert_eq!(
        lines,
        vec![
            "Suggested CI targets (top 2):".to_string(),
            "".to_string(),
            "  1. ✅ x86_64-unknown-linux-gnu (popularity: 95, os: linux, arch: x86_64)".to_string(),
            "     → Fully compatible".to_string(),
            "  2. ✅ aarch64-unknown-linux-gnu (popularity: 85, os: linux, arch: aarch64)".to_string(),
            "     → Fully compatible".to_string(),
            "".to_string(),
            "Suggested GitHub Actions matrix:".to_string(),
            "    target: [x86_64-unknown-linux-gnu, aarch64-unknown-linux-gnu]".to_string(),
        ]
    );
}
