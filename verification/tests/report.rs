use cross_compile_checker::compat::{CargoToml, RiskLevel};
use cross_compile_checker::cross_build::CheckResult;
use cross_compile_checker::report::{MatrixEntry, ReportError, ReportFormat, ReportGenerator};

#[test]
fn test_report_format_parsing() {
    assert_eq!(ReportFormat::from_str("table").unwrap(), ReportFormat::Table);
    assert_eq!(ReportFormat::from_str("json").unwrap(), ReportFormat::Json);
    assert_eq!(ReportFormat::from_str("markdown").unwrap(), ReportFormat::Markdown);
    assert!(ReportFormat::from_str("xml").is_err());
}

#[test]
fn test_render_markdown() {
    let matrix = vec![MatrixEntry {
        target: "x86_64-unknown-linux-gnu".into(),
        os: "linux".into(),
        arch: "x86_64".into(),
        compat_risk: RiskLevel::Safe,
        check_passed: None,
        notes: vec![],
    }];
    let md = ReportGenerator::render_markdown(&matrix);
    assert!(md.contains("x86_64-unknown-linux-gnu"));
    assert!(md.contains("✅"));
}

#[test]
fn test_render_table() {
    let matrix = vec![MatrixEntry {
        target: "test-target".into(),
        os: "test".into(),
        arch: "test".into(),
        compat_risk: RiskLevel::Danger,
        check_passed: Some(false),
        notes: vec!["broken".into()],
    }];
    let table = ReportGenerator::render_table(&matrix);
    assert!(table.contains("test-target"));
}

#[test]
fn format_names_are_case_insensitive() {
    assert_eq!(ReportFormat::from_str("TABLE").unwrap(), ReportFormat::Table);
    assert_eq!(ReportFormat::from_str("Json").unwrap(), ReportFormat::Json);
    assert_eq!(ReportFormat::from_str("MarkDown").unwrap(), ReportFormat::Markdown);
    match ReportFormat::from_str("Xml") {
        Err(e) => assert_eq!(e.message(), "Unknown format 'Xml'. Use: table, json, markdown"),
        Ok(_) => panic!("xml is no format"),
    }
    assert!(matches!(ReportFormat::from_lowercase("Table", "table"), Ok(ReportFormat::Table)));
    assert!(matches!(ReportFormat::from_lowercase("X", "x"), Err(ReportError::UnknownFormat(s)) if s == "X"));
}

#[test]
fn markdown_is_exact() {
    let matrix = vec![
        MatrixEntry {
            target: "a".into(),
            os: "b".into(),
            arch: "c".into(),
            compat_risk: RiskLevel::Warning,
            check_passed: Some(true),
            notes: vec!["n1".into(), "n2".into()],
        },
        MatrixEntry {
            target: "d".into(),
            os: "".into(),
            arch: "".into(),
            compat_risk: RiskLevel::Danger,
            check_passed: None,
            notes: vec![],
        },
    ];
    let md = ReportGenerator::render_markdown(&matrix);
    assert_eq!(
        md,
        "| Target | OS | Arch | Compat | Check | Notes |\n|--------|-----|------|--------|-------|-------|\n| a | b | c | ⚠️ | ✅ | n1; n2 |\n| d |  |  | ❌ | — |  |\n"
    );
}

#[test]
fn table_is_drawn_by_comfy_table() {
    let matrix = vec![MatrixEntry {
        target: "x".into(),
        os: "linux".into(),
        arch: "x86_64".into(),
        compat_risk: RiskLevel::Safe,
        check_passed: None,
        notes: vec!["a".into(), "b".into()],
    }];
    let mut table = comfy_table::Table::new();
    table.load_preset(comfy_table::presets::UTF8_FULL);
    table.set_header(vec!["Target", "OS", "Arch", "Compat", "Check", "Notes"]);
    table.add_row(vec![
        comfy_table::Cell::new("x"),
        comfy_table::Cell::new("linux"),
        comfy_table::Cell::new("x86_64"),
        comfy_table::Cell::new("✅").set_alignment(comfy_table::CellAlignment::Center),
        comfy_table::Cell::new("—").set_alignment(comfy_table::CellAlignment::Center),
        comfy_table::Cell::new("a; b"),
    ]);
    assert_eq!(ReportGenerator::render_table(&matrix), table.to_string());
    assert!(ReportGenerator::render_table(&matrix).contains("a; b"));
}

#[test]
fn risk_words_for_json() {
    assert_eq!(ReportGenerator::risk_word(RiskLevel::Safe), "safe");
    assert_eq!(ReportGenerator::risk_word(RiskLevel::Warning), "warning");
    assert_eq!(ReportGenerator::risk_word(RiskLevel::Danger), "danger");
}

fn cargo(deps: &[&str]) -> CargoToml {
    CargoToml {
        dependencies: deps.iter().map(|s| s.to_string()).collect(),
        dev_dependencies: vec![],
        build_dependencies: vec![],
    }
}

#[test]
fn generate_without_filter_has_every_target() {
    let gen = ReportGenerator::new();
    let matrix = gen.generate("", &cargo(&["libc"]), None, &[]);
    assert_eq!(matrix.len(), 53);
    assert!(matrix.iter().all(|e| e.check_passed.is_none()));
    let wasm = matrix.iter().find(|e| e.target == "wasm32-unknown-unknown").unwrap();
    assert_eq!(wasm.os, "unknown");
    assert_eq!(wasm.arch, "wasm32");
    assert_eq!(wasm.compat_risk, RiskLevel::Warning);
}

#[test]
fn generate_filters_and_attaches_checks() {
    let gen = ReportGenerator::new();
    let targets = vec!["x86_64-pc-windows-msvc".to_string(), "aarch64-apple-darwin".to_string(), "no-such".to_string()];
    let checks = vec![
        CheckResult { target: "aarch64-apple-darwin".into(), success: false, output: String::new() },
        CheckResult { target: "aarch64-apple-darwin".into(), success: true, output: String::new() },
        CheckResult { target: "x86_64-pc-windows-msvc".into(), success: true, output: String::new() },
    ];
    let matrix = gen.generate("", &cargo(&["nix"]), Some(&targets), &checks);
    let names: Vec<&str> = matrix.iter().map(|e| e.target.as_str()).collect();
    // database order, not the order of the list
    assert_eq!(names, vec!["aarch64-apple-darwin", "x86_64-pc-windows-msvc"]);
    assert_eq!(matrix[0].check_passed, Some(false));
    assert_eq!(matrix[1].check_passed, Some(true));
    assert_eq!(matrix[1].compat_risk, RiskLevel::Warning);
    assert_eq!(
        matrix[1].notes,
        vec![
            "nix — Unix-only — not available on Windows/WASM".to_string(),
            "nix/libc have limited Windows support".to_string()
        ]
    );
}

#[test]
fn test_render_json() {
    let matrix = vec![MatrixEntry {
        target: "aarch64-apple-darwin".into(),
        os: "macos".into(),
        arch: "aarch64".into(),
        compat_risk: RiskLevel::Warning,
        check_passed: Some(true),
        notes: vec!["test note".into()],
    }];
    let json = ReportGenerator::render_json(&matrix).unwrap();
    assert!(json.contains("aarch64-apple-darwin"));
    assert!(json.contains("warning"));
    assert!(json.contains("test note"));
}

#[test]
fn json_report_is_exact() {
    let matrix = vec![
        MatrixEntry {
            target: "aarch64-apple-darwin".into(),
            os: "macos".into(),
            arch: "aarch64".into(),
            compat_risk: RiskLevel::Warning,
            check_passed: Some(true),
            notes: vec!["test note".into()],
        },
        MatrixEntry {
            target: "wasm32-wasip1".into(),
            os: "wasi".into(),
            arch: "wasm32".into(),
            compat_risk: RiskLevel::Danger,
            check_passed: None,
            notes: vec![],
        },
    ];
    let json = ReportGenerator::render_json(&matrix).unwrap();
    let expected = "[\n  {\n    \"arch\": \"aarch64\",\n    \"check_passed\": true,\n    \"compatibility\": \"warning\",\n    \"notes\": [\n      \"test note\"\n    ],\n    \"os\": \"macos\",\n    \"target\": \"aarch64-apple-darwin\"\n  },\n  {\n    \"arch\": \"wasm32\",\n    \"check_passed\": null,\n    \"compatibility\": \"danger\",\n    \"notes\": [],\n    \"os\": \"wasi\",\n    \"target\": \"wasm32-wasip1\"\n  }\n]";
    assert_eq!(json, expected);
    assert_eq!(ReportGenerator::render_json(&[]).unwrap(), "[]");
}
