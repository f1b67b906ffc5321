use cross_compile_checker::compat::{report_json, report_lines, CargoToml, CompatResult, CompatibilityChecker, RiskLevel};

/// The dependency names of a manifest, read with the `toml` crate.
fn manifest(content: &str) -> CargoToml {
    let table: toml::Table = toml::from_str(content).unwrap();
    let keys = |name: &str| -> Vec<String> {
        table
            .get(name)
            .and_then(|v| v.as_table())
            .map(|t| t.keys().cloned().collect())
            .unwrap_or_default()
    };
    CargoToml {
        dependencies: keys("dependencies"),
        dev_dependencies: keys("dev-dependencies"),
        build_dependencies: keys("build-dependencies"),
    }
}

fn check(content: &str) -> Vec<CompatResult> {
    CompatibilityChecker::new().check(content, &manifest(content))
}

#[test]
fn test_check_pure_rust_project() {
    let content = r#"[package]
name = "test"
version = "0.1.0"
edition = "2021"

[dependencies]
serde = "1"
serde_json = "1"
"#;
    let results = check(content);
    assert!(!results.is_empty());
    let safe = results.iter().filter(|r| r.risk == RiskLevel::Safe).count();
    assert!(safe >= 10, "Expected many safe targets for pure Rust, got {}", safe);
}

#[test]
fn test_check_platform_specific_project() {
    let content = r#"[package]
name = "test"
version = "0.1.0"

[dependencies]
winapi = "0.3"
nix = "0.27"
"#;
    let results = check(content);
    let linux_results: Vec<_> = results.iter().filter(|r| r.target.contains("linux")).collect();
    assert!(linux_results.iter().any(|r| r.notes.iter().any(|n| n.contains("winapi"))));
}

#[test]
fn test_check_wasm_compatibility() {
    let content = "[package]\nname = \"test\"\nversion = \"0.1.0\"\n\n[dependencies]\nlibc = \"0.2\"\n";
    let results = check(content);
    let wasm = results.iter().find(|r| r.target == "wasm32-unknown-unknown").unwrap();
    assert!(wasm.risk == RiskLevel::Warning || wasm.risk == RiskLevel::Danger);
    assert!(wasm.notes.iter().any(|n| n.contains("libc")));
}

#[test]
fn test_risk_level_ordering() {
    assert!(RiskLevel::Safe != RiskLevel::Warning);
    assert!(RiskLevel::Warning != RiskLevel::Danger);
}

#[test]
fn one_result_per_target_in_database_order() {
    let results = check("[dependencies]\ntokio = \"1\"\n");
    let db = cross_compile_checker::target_db::TargetDb::new();
    assert_eq!(results.len(), db.all().len());
    for (r, t) in results.iter().zip(db.all()) {
        assert_eq!(r.target, t.triple);
    }
}

#[test]
fn safe_exactly_without_notes() {
    for content in [
        "[dependencies]\nserde = \"1\"\n",
        "[dependencies]\nlibc = \"0.2\"\nbyteorder = \"1\"\n",
        "[dependencies]\ntokio = \"1\"\nnum_cpus = \"1\"\ncocoa = \"0.25\"\n",
        "# uses std::os::unix\n[dependencies]\n",
    ] {
        for r in check(content) {
            assert_eq!(r.risk == RiskLevel::Safe, r.notes.is_empty(), "{}", r.target);
        }
    }
}

#[test]
fn no_dependencies_is_safe_everywhere() {
    for r in check("[package]\nname = \"x\"\n") {
        assert_eq!(r.risk, RiskLevel::Safe);
        assert!(r.notes.is_empty());
    }
}

#[test]
fn wasm_rules_score_exactly() {
    // libc: 3 on wasm, tokio: 2 on wasm32-unknown-unknown => 5 => Danger
    let results = check("[dependencies]\nlibc = \"0.2\"\ntokio = \"1\"\n");
    let wasm = results.iter().find(|r| r.target == "wasm32-unknown-unknown").unwrap();
    assert_eq!(wasm.risk, RiskLevel::Danger);
    assert_eq!(wasm.notes[0], "Uses libc — not available on wasm32-unknown-unknown");
    assert_eq!(wasm.notes[1], "tokio likely won't work on wasm32-unknown-unknown");
    // on wasip1 only the libc rule applies: 3 => Warning
    let wasi = results.iter().find(|r| r.target == "wasm32-wasip1").unwrap();
    assert_eq!(wasi.risk, RiskLevel::Warning);
    assert_eq!(wasi.notes, vec!["Uses libc — not available on wasm32-unknown-unknown".to_string()]);
    // on bare metal tokio needs std: 3 => Warning
    let thumb = results.iter().find(|r| r.target == "thumbv7em-none-eabihf").unwrap();
    assert_eq!(thumb.notes, vec!["tokio requires std — incompatible with bare-metal".to_string()]);
    assert_eq!(thumb.risk, RiskLevel::Warning);
    // on Windows libc scores 1 => Warning
    let win = results.iter().find(|r| r.target == "x86_64-pc-windows-msvc").unwrap();
    assert_eq!(win.notes, vec!["nix/libc have limited Windows support".to_string()]);
    assert_eq!(win.risk, RiskLevel::Warning);
}

#[test]
fn std_os_in_the_manifest_text_counts_on_wasm() {
    let results = check("# std::os\n[dependencies]\n");
    let wasm = results.iter().find(|r| r.target == "wasm32-wasip1").unwrap();
    assert_eq!(wasm.notes, vec!["Uses std::os — not available on wasm".to_string()]);
    assert_eq!(wasm.risk, RiskLevel::Warning);
}

#[test]
fn platform_crates_rules() {
    let results = check("[dependencies]\nwinapi = \"0.3\"\nnix = \"0.27\"\n");
    let linux = results.iter().find(|r| r.target == "x86_64-unknown-linux-gnu").unwrap();
    assert_eq!(linux.notes, vec!["winapi — Windows-only API bindings".to_string()]);
    assert_eq!(linux.risk, RiskLevel::Warning);
    // on Windows nix meets the platform rule (2) and the nix/libc rule (1)
    let win = results.iter().find(|r| r.target == "x86_64-pc-windows-msvc").unwrap();
    assert_eq!(
        win.notes,
        vec![
            "nix — Unix-only — not available on Windows/WASM".to_string(),
            "nix/libc have limited Windows support".to_string()
        ]
    );
    assert_eq!(win.risk, RiskLevel::Warning);
    // android with cocoa: platform rule (2) and Apple rule (3) => Danger
    let android = check("[dependencies]\ncocoa = \"0.25\"\n");
    let a = android.iter().find(|r| r.target == "aarch64-linux-android").unwrap();
    assert_eq!(a.risk, RiskLevel::Danger);
    assert_eq!(
        a.notes,
        vec!["cocoa — macOS-only Cocoa bindings".to_string(), "Apple frameworks not available on Android".to_string()]
    );
}

#[test]
fn big_endian_and_pointer_width_rules() {
    let results = check("[dependencies]\nbincode = \"1\"\nsysinfo = \"0.30\"\n");
    let ppc = results.iter().find(|r| r.target == "powerpc64-unknown-linux-gnu").unwrap();
    assert_eq!(ppc.notes, vec!["Endian-aware crate detected — verify big-endian behavior".to_string()]);
    assert_eq!(ppc.risk, RiskLevel::Warning);
    let arm = results.iter().find(|r| r.target == "armv7-unknown-linux-gnueabihf").unwrap();
    assert_eq!(arm.notes, vec!["sysinfo may have issues on 32-bit targets".to_string()]);
}

#[test]
fn dev_and_build_dependencies_count() {
    let results = check("[dev-dependencies]\nlibc = \"0.2\"\n[build-dependencies]\nhyper = \"1\"\n");
    let wasm = results.iter().find(|r| r.target == "wasm32-unknown-unknown").unwrap();
    assert_eq!(wasm.risk, RiskLevel::Danger);
    assert_eq!(wasm.notes.len(), 2);
}

#[test]
fn risk_labels() {
    assert_eq!(RiskLevel::Safe.to_string(), "✅ Safe");
    assert_eq!(RiskLevel::Warning.to_string(), "⚠️  Warning");
    assert_eq!(RiskLevel::Danger.to_string(), "❌ Danger");
}

#[test]
fn text_report_lines() {
    let results = check("[dependencies]\nlibc = \"0.2\"\n");
    let lines = report_lines("./Cargo.toml", &results);
    assert_eq!(lines[0], "Cross-compilation compatibility analysis for ./Cargo.toml");
    assert_eq!(lines[1], "");
    assert_eq!(lines[2], "  ✅ Safe x86_64-unknown-linux-gnu");
    let last = lines.last().unwrap();
    assert_eq!(last, "Summary: 44 safe, 9 warnings, 0 danger (out of 53 targets)");
    assert!(lines.iter().any(|l| l == "      → nix/libc have limited Windows support"));
}

#[test]
fn json_report_of_results() {
    let results = vec![
        CompatResult {
            target: "x86_64-pc-windows-msvc".into(),
            risk: RiskLevel::Warning,
            notes: vec!["nix/libc have limited Windows support".into()],
        },
        CompatResult { target: "x86_64-unknown-linux-gnu".into(), risk: RiskLevel::Safe, notes: vec![] },
    ];
    let json = report_json(&results);
    let expected = "[\n  {\n    \"notes\": [\n      \"nix/libc have limited Windows support\"\n    ],\n    \"risk\": \"⚠️  Warning\",\n    \"target\": \"x86_64-pc-windows-msvc\"\n  },\n  {\n    \"notes\": [],\n    \"risk\": \"✅ Safe\",\n    \"target\": \"x86_64-unknown-linux-gnu\"\n  }\n]";
    assert_eq!(json, expected);
}

#[test]
fn nix_alone_on_windows_is_a_warning() {
    let results = check("[dependencies]\nnix = \"0.27\"\n");
    let w = results.iter().find(|r| r.target == "x86_64-pc-windows-msvc").unwrap();
    assert!(w.notes.iter().any(|n| n.starts_with("nix — ")));
    assert!(w.notes.contains(&"nix/libc have limited Windows support".to_string()));
    assert_eq!(w.risk, RiskLevel::Warning);
    // a Unix target is one of nix's OSes
    let linux = results.iter().find(|r| r.target == "x86_64-unknown-linux-gnu").unwrap();
    assert_eq!(linux.risk, RiskLevel::Safe);
}

#[test]
fn networking_crates_on_wasm_count_once() {
    let results = check("[dependencies]\ntokio = \"1\"\nreqwest = \"0.11\"\n");
    let w = results.iter().find(|r| r.target == "wasm32-unknown-unknown").unwrap();
    assert_eq!(w.risk, RiskLevel::Warning);
    // one note per crate, in the order of the parsed dependency list
    assert_eq!(w.notes.len(), 2);
    assert!(w.notes.contains(&"tokio likely won't work on wasm32-unknown-unknown".to_string()));
    assert!(w.notes.contains(&"reqwest likely won't work on wasm32-unknown-unknown".to_string()));
}

#[test]
fn std_crates_on_thumbv6m_are_danger() {
    let results = check("[dependencies]\ntokio = \"1\"\nserde_json = \"1\"\n");
    let t = results.iter().find(|r| r.target == "thumbv6m-none-eabi").unwrap();
    assert_eq!(t.risk, RiskLevel::Danger);
    assert_eq!(t.notes.len(), 2);
    assert!(t.notes.contains(&"tokio requires std — incompatible with bare-metal".to_string()));
    assert!(t.notes.contains(&"serde_json requires std — incompatible with bare-metal".to_string()));
}
