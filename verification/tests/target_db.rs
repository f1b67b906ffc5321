use cross_compile_checker::target_db::{list_targets, Endianness, TargetDb};

#[test]
fn test_db_has_targets() {
    let db = TargetDb::new();
    assert!(!db.all().is_empty());
    assert!(db.all().len() >= 20);
}

#[test]
fn test_get_known_target() {
    let db = TargetDb::new();
    let t = db.get("x86_64-unknown-linux-gnu").unwrap();
    assert_eq!(t.os, "linux");
    assert_eq!(t.arch, "x86_64");
    assert_eq!(t.pointer_width, 64);
    assert_eq!(t.endianness, Endianness::Little);
}

#[test]
fn test_get_unknown_target() {
    let db = TargetDb::new();
    assert!(db.get("x86_64-unknown-beos").is_none());
}

#[test]
fn test_filter_by_os() {
    let db = TargetDb::new();
    let linux = db.filter(Some("linux"), None);
    assert!(linux.len() >= 5);
    assert!(linux.iter().all(|t| t.os.contains("linux")));
}

#[test]
fn test_filter_by_arch() {
    let db = TargetDb::new();
    let aarch64 = db.filter(None, Some("aarch64"));
    assert!(aarch64.len() >= 3);
    assert!(aarch64.iter().all(|t| t.arch.contains("aarch64")));
}

#[test]
fn test_filter_combined() {
    let db = TargetDb::new();
    let results = db.filter(Some("linux"), Some("x86_64"));
    assert!(results.iter().all(|t| t.os.contains("linux") && t.arch.contains("x86_64")));
}

#[test]
fn test_popular_targets() {
    let db = TargetDb::new();
    let popular = db.popular_targets();
    assert_eq!(popular.len(), 9);
    assert!(popular.iter().any(|t| t.triple == "x86_64-unknown-linux-gnu"));
}

#[test]
fn test_big_endian_targets() {
    let db = TargetDb::new();
    let big = db.all().iter().filter(|t| t.endianness == Endianness::Big).count();
    assert!(big >= 2, "Should have at least 2 big-endian targets");
}

#[test]
fn test_endianness_display() {
    assert_eq!(Endianness::Little.to_string(), "little");
    assert_eq!(Endianness::Big.to_string(), "big");
}

#[test]
fn db_holds_the_builtin_targets_in_order() {
    let db = TargetDb::new();
    assert_eq!(db.all().len(), 53);
    assert_eq!(db.all()[24].triple, "thumbv6m-none-eabi");
    assert_eq!(db.all()[52].triple, "wasm32-wasip2");
    assert_eq!(db.all()[0].triple, "x86_64-unknown-linux-gnu");
    assert_eq!(db.all()[23].triple, "s390x-unknown-linux-gnu");
    assert_eq!(db.all()[23].endianness, Endianness::Big);
    assert_eq!(db.all()[14].os, "unknown");
}

#[test]
fn filter_is_exactly_the_matching_targets() {
    let db = TargetDb::new();
    let got: Vec<&str> = db.filter(Some("linux"), Some("x86_64")).iter().map(|t| t.triple.as_str()).collect();
    let expected: Vec<&str> = db
        .all()
        .iter()
        .filter(|t| t.os.contains("linux") && t.arch.contains("x86_64"))
        .map(|t| t.triple.as_str())
        .collect();
    assert_eq!(got, expected);
    assert_eq!(got, vec!["x86_64-unknown-linux-gnu", "x86_64-unknown-linux-musl", "x86_64-unknown-linux-gnux32"]);
    assert_eq!(db.filter(None, None).len(), 53);
    assert!(db.filter(Some("beos"), None).is_empty());
    // an empty filter occurs in every field
    assert_eq!(db.filter(Some(""), Some("")).len(), 53);
}

#[test]
fn popular_targets_follow_the_fixed_order() {
    let db = TargetDb::new();
    let names: Vec<&str> = db.popular_targets().iter().map(|t| t.triple.as_str()).collect();
    assert_eq!(
        names,
        vec![
            "x86_64-unknown-linux-gnu",
            "aarch64-unknown-linux-gnu",
            "x86_64-apple-darwin",
            "aarch64-apple-darwin",
            "x86_64-pc-windows-msvc",
            "x86_64-unknown-linux-musl",
            "aarch64-unknown-linux-musl",
            "armv7-unknown-linux-gnueabihf",
            "wasm32-unknown-unknown",
        ]
    );
}

#[test]
fn target_description_is_padded() {
    let db = TargetDb::new();
    let t = db.get("wasm32-unknown-unknown").unwrap();
    let expected = format!(
        "{:<30} os={:<12} arch={:<10} endian={:<6} ptr={}-bit  popularity={}",
        "wasm32-unknown-unknown", "unknown", "wasm32", "little", 32, 65
    );
    assert_eq!(t.to_string(), expected);
    assert_eq!(
        t.to_string(),
        "wasm32-unknown-unknown         os=unknown      arch=wasm32     endian=little ptr=32-bit  popularity=65"
    );
}

#[test]
fn listing_of_targets() {
    let lines = list_targets(Some("android"), None);
    assert_eq!(lines.len(), 6);
    assert_eq!(lines[0], "Known Rust target triples (4 found):");
    assert_eq!(lines[1], "");
    assert!(lines[2].starts_with("  aarch64-linux-android"));
    assert!(lines[3].ends_with("popularity=40"));
    assert!(lines[4].starts_with("  armv7-linux-androideabi"));
    assert!(lines[5].ends_with("popularity=20"));
    assert_eq!(list_targets(Some("beos"), None), vec!["No targets found matching filters.".to_string()]);
}

#[test]
fn big_endian_description_is_not_padded() {
    let db = TargetDb::new();
    let t = db.get("s390x-unknown-linux-gnu").unwrap();
    let expected = format!(
        "{:<30} os={:<12} arch={:<10} endian={} ptr={}-bit  popularity={}",
        "s390x-unknown-linux-gnu", "linux", "s390x", "big", 64, 10
    );
    assert_eq!(t.to_string(), expected);
    assert!(t.to_string().contains("endian=big ptr=64-bit"));
}

#[test]
fn database_covers_fifty_triples_with_bare_metal() {
    let db = TargetDb::new();
    assert!(db.all().len() >= 50);
    let t = db.get("thumbv6m-none-eabi").unwrap();
    assert_eq!(t.os, "none");
    assert_eq!(t.pointer_width, 32);
    assert!(db.get("riscv32imac-unknown-none-elf").is_some());
    assert!(db.get("wasm32-wasip2").is_some());
}
