//! Rule-based compatibility scoring of a manifest's dependencies against every
//! known target.

use vstd::prelude::*;
use vstd::string::*;
use crate::target_db::{views, Endianness, TargetDb, TargetInfo, TargetSpec};
#[allow(unused_imports)]
use crate::target_db::builtin_targets_spec;
use crate::text::{decimal, has_substring, str_contains, str_eq};
use crate::json::{object_views, pretty_json, to_json_pretty, JsonObject, JsonValue, JsonValueSpec};

verus! {

/// Compatibility risk level for a target.
#[derive(Clone, Copy, Debug, PartialEq, Eq, Structural)]
pub enum RiskLevel {
    Safe,
    Warning,
    Danger,
}

/// The label of a risk level as printed.
pub open spec fn risk_label(r: RiskLevel) -> Seq<char> {
    match r {
        RiskLevel::Safe => "✅ Safe"@,
        RiskLevel::Warning => "⚠️  Warning"@,
        RiskLevel::Danger => "❌ Danger"@,
    }
}

impl RiskLevel {
    /// The printed label of this risk level.
    pub fn to_string(&self) -> (s: String)
        ensures
            s@ == risk_label(*self),
    {
        match self {
            RiskLevel::Safe => String::from_str("✅ Safe"),
            RiskLevel::Warning => String::from_str("⚠️  Warning"),
            RiskLevel::Danger => String::from_str("❌ Danger"),
        }
    }
}

/// The risk level of a risk score: `Safe` for 0, `Warning` for 1 to 3, `Danger`
/// from 4 on.
pub open spec fn risk_of_score(score: nat) -> RiskLevel {
    if score == 0 {
        RiskLevel::Safe
    } else if score <= 3 {
        RiskLevel::Warning
    } else {
        RiskLevel::Danger
    }
}

/// The views of a sequence of strings.
pub open spec fn string_views(v: Seq<String>) -> Seq<Seq<char>> {
    v.map_values(|s: String| s@)
}

/// The views of a sequence of string slices.
pub open spec fn str_views(v: Seq<&str>) -> Seq<Seq<char>> {
    v.map_values(|s: &str| s@)
}

/// Compatibility result for a single target.
#[derive(Debug, Clone)]
pub struct CompatResult {
    pub target: String,
    pub risk: RiskLevel,
    pub notes: Vec<String>,
}

/// The mathematical content of a [`CompatResult`].
pub struct CompatSpec {
    pub target: Seq<char>,
    pub risk: RiskLevel,
    pub notes: Seq<Seq<char>>,
}

impl View for CompatResult {
    type V = CompatSpec;

    open spec fn view(&self) -> CompatSpec {
        CompatSpec { target: self.target@, risk: self.risk, notes: string_views(self.notes@) }
    }
}

/// The views of a sequence of compatibility results.
pub open spec fn compat_views(v: Seq<CompatResult>) -> Seq<CompatSpec> {
    v.map_values(|c: CompatResult| c@)
}

/// The compatibility results of all targets, in order.
pub open spec fn compat_all(
    targets: Seq<TargetSpec>,
    deps: Seq<Seq<char>>,
    std_os: bool,
    pcs: Seq<PlatformSpec>,
) -> Seq<CompatSpec> {
    targets.map_values(|t: TargetSpec| compat_of(t, deps, std_os, pcs))
}

/// The dependency names of a Cargo manifest, table by table; each list holds the
/// keys of its table.
#[derive(Debug, Clone)]
pub struct CargoToml {
    pub dependencies: Vec<String>,
    pub dev_dependencies: Vec<String>,
    pub build_dependencies: Vec<String>,
}

/// Every dependency name of the manifest: normal, then dev, then build ones.
pub open spec fn all_deps(cargo: CargoToml) -> Seq<Seq<char>> {
    string_views(cargo.dependencies@) + string_views(cargo.dev_dependencies@) + string_views(
        cargo.build_dependencies@,
    )
}

/// Whether the manifest text mentions `std::os`.
pub open spec fn uses_std_os(content: Seq<char>) -> bool {
    has_substring(content, "std::os"@) || has_substring(content, "std::os::"@)
}

/// A finding of one rule on one target: its note and the score it adds.
pub struct Finding {
    pub note: Seq<char>,
    pub weight: nat,
}

pub open spec fn finding(note: Seq<char>, weight: nat) -> Finding {
    Finding { note, weight }
}

/// The notes of a sequence of findings.
pub open spec fn notes_of(fs: Seq<Finding>) -> Seq<Seq<char>> {
    fs.map_values(|f: Finding| f.note)
}

/// The total score of a sequence of findings.
pub open spec fn weight_of(fs: Seq<Finding>) -> nat
    decreases fs.len(),
{
    if fs.len() == 0 {
        0
    } else {
        weight_of(fs.drop_last()) + fs.last().weight
    }
}

/// The kinds of dependency list that the rules look names up in.
#[derive(Clone, Copy, Debug, PartialEq, Eq, Structural)]
pub enum CrateClass {
    /// Crates that need networking or a filesystem.
    WasmNetworking,
    /// Crates that need std.
    NeedsStd,
    /// Crates sensitive to the pointer width.
    PointerWidth,
}

/// Whether a dependency name belongs to a crate class.
pub open spec fn in_class(class: CrateClass, d: Seq<char>) -> bool {
    match class {
        CrateClass::WasmNetworking => d == "tokio"@ || d == "reqwest"@ || d == "hyper"@ || d
            == "std::fs"@ || d == "diesel"@ || d == "sqlx"@,
        CrateClass::NeedsStd => d == "tokio"@ || d == "reqwest"@ || d == "serde_json"@ || d
            == "diesel"@ || d == "sqlx"@ || d == "hyper"@,
        CrateClass::PointerWidth => d == "num_cpus"@ || d == "sysinfo"@,
    }
}

/// One finding `dep + suffix` of the given weight for each dependency of the class,
/// in the order of `deps`.
pub open spec fn class_findings(
    deps: Seq<Seq<char>>,
    class: CrateClass,
    suffix: Seq<char>,
    weight: nat,
) -> Seq<Finding>
    decreases deps.len(),
{
    if deps.len() == 0 {
        Seq::empty()
    } else {
        let rest = class_findings(deps.drop_last(), class, suffix, weight);
        if in_class(class, deps.last()) {
            rest.push(finding(deps.last() + suffix, weight))
        } else {
            rest
        }
    }
}

/// A platform-specific crate: its name, the OSes it is meant for, and a note.
pub struct PlatformSpec {
    pub name: Seq<char>,
    pub incompatible_os: Seq<Seq<char>>,
    pub notes: Seq<char>,
}

/// Whether some entry of `oses` occurs in the OS name `os`.
pub open spec fn os_listed(os: Seq<char>, oses: Seq<Seq<char>>) -> bool {
    exists|k: int| 0 <= k < oses.len() && has_substring(os, oses[k])
}

/// The finding of one platform crate on a target: when the manifest depends on it,
/// its OS list is not empty and none of its entries occurs in the target's OS.
pub open spec fn platform_finding(t: TargetSpec, deps: Seq<Seq<char>>, pc: PlatformSpec) -> Seq<
    Finding,
> {
    if deps.contains(pc.name) && !os_listed(t.os, pc.incompatible_os) && pc.incompatible_os.len()
        > 0 {
        seq![finding(pc.name + " — "@ + pc.notes, 2)]
    } else {
        Seq::empty()
    }
}

/// The findings of all platform crates on a target, in the order of `pcs`.
pub open spec fn platform_findings(t: TargetSpec, deps: Seq<Seq<char>>, pcs: Seq<PlatformSpec>) -> Seq<
    Finding,
>
    decreases pcs.len(),
{
    if pcs.len() == 0 {
        Seq::empty()
    } else {
        platform_findings(t, deps, pcs.drop_last()) + platform_finding(t, deps, pcs.last())
    }
}

/// Findings that add `weight` once in all: the first one carries the weight.
pub open spec fn charged_once(fs: Seq<Finding>, weight: nat) -> Seq<Finding> {
    if fs.len() == 0 {
        fs
    } else {
        seq![finding(fs[0].note, weight)] + fs.drop_first()
    }
}

/// The networking findings on `wasm32-unknown-unknown`-like targets: one note per
/// networking crate, and 2 added once for the rule.
pub open spec fn wasm_network_findings(deps: Seq<Seq<char>>) -> Seq<Finding> {
    charged_once(
        class_findings(deps, CrateClass::WasmNetworking, " likely won't work on wasm32-unknown-unknown"@, 0),
        2,
    )
}

/// The wasm rules: `std::os` use and `libc` (3 each) on any wasm architecture, and
/// networking crates (2 for the rule) on `wasm32-unknown-unknown`-like targets.
pub open spec fn wasm_findings(t: TargetSpec, deps: Seq<Seq<char>>, std_os: bool) -> Seq<Finding> {
    if has_substring(t.arch, "wasm"@) {
        (if std_os {
            seq![finding("Uses std::os — not available on wasm"@, 3)]
        } else {
            Seq::empty()
        }) + (if deps.contains("libc"@) {
            seq![finding("Uses libc — not available on wasm32-unknown-unknown"@, 3)]
        } else {
            Seq::empty()
        }) + (if t.os == "unknown"@ {
            wasm_network_findings(deps)
        } else {
            Seq::empty()
        })
    } else {
        Seq::empty()
    }
}

/// Crates that need std, on bare-metal targets (3 each).
pub open spec fn no_std_findings(t: TargetSpec, deps: Seq<Seq<char>>) -> Seq<Finding> {
    if t.os == "none"@ {
        class_findings(deps, CrateClass::NeedsStd, " requires std — incompatible with bare-metal"@, 3)
    } else {
        Seq::empty()
    }
}

/// Pointer-width-sensitive crates on 32-bit targets (1 each).
pub open spec fn pointer_width_findings(t: TargetSpec, deps: Seq<Seq<char>>) -> Seq<Finding> {
    if t.pointer_width == 32 {
        class_findings(deps, CrateClass::PointerWidth, " may have issues on 32-bit targets"@, 1)
    } else {
        Seq::empty()
    }
}

/// Endian-aware crates on big-endian targets (1 in all).
pub open spec fn endian_findings(t: TargetSpec, deps: Seq<Seq<char>>) -> Seq<Finding> {
    if t.endianness == Endianness::Big && (deps.contains("byteorder"@) || deps.contains(
        "bincode"@,
    )) {
        seq![finding("Endian-aware crate detected — verify big-endian behavior"@, 1)]
    } else {
        Seq::empty()
    }
}

/// `nix` or `libc` on Windows (1 in all).
pub open spec fn windows_findings(t: TargetSpec, deps: Seq<Seq<char>>) -> Seq<Finding> {
    if t.os == "windows"@ && (deps.contains("nix"@) || deps.contains("libc"@)) {
        seq![finding("nix/libc have limited Windows support"@, 1)]
    } else {
        Seq::empty()
    }
}

/// Apple frameworks on Android (3 in all).
pub open spec fn android_findings(t: TargetSpec, deps: Seq<Seq<char>>) -> Seq<Finding> {
    if t.os == "android"@ && (deps.contains("core-foundation"@) || deps.contains("cocoa"@)) {
        seq![finding("Apple frameworks not available on Android"@, 3)]
    } else {
        Seq::empty()
    }
}

/// All findings on one target, in the order the rules are applied.
pub open spec fn target_findings(
    t: TargetSpec,
    deps: Seq<Seq<char>>,
    std_os: bool,
    pcs: Seq<PlatformSpec>,
) -> Seq<Finding> {
    wasm_findings(t, deps, std_os) + no_std_findings(t, deps) + pointer_width_findings(t, deps)
        + endian_findings(t, deps) + platform_findings(t, deps, pcs) + windows_findings(t, deps)
        + android_findings(t, deps)
}

/// The compatibility result of one target.
pub open spec fn compat_of(
    t: TargetSpec,
    deps: Seq<Seq<char>>,
    std_os: bool,
    pcs: Seq<PlatformSpec>,
) -> CompatSpec {
    let fs = target_findings(t, deps, std_os, pcs);
    CompatSpec { target: t.triple, risk: risk_of_score(weight_of(fs)), notes: notes_of(fs) }
}


/// Every finding of `fs` adds at least 1 to the score.
pub open spec fn all_weighted(fs: Seq<Finding>) -> bool {
    forall|k: int| 0 <= k < fs.len() ==> (#[trigger] fs[k]).weight >= 1
}

proof fn lemma_weight_zero_iff_empty(fs: Seq<Finding>)
    requires
        all_weighted(fs),
    ensures
        weight_of(fs) == 0 <==> fs.len() == 0,
    decreases fs.len(),
{
    if fs.len() > 0 {
        assert(fs.last().weight >= 1) by {
            assert(fs[fs.len() - 1].weight >= 1);
        }
        assert(all_weighted(fs.drop_last())) by {
            assert forall|k: int| 0 <= k < fs.drop_last().len() implies (
            #[trigger] fs.drop_last()[k]).weight >= 1 by {
                assert(fs.drop_last()[k] == fs[k]);
            }
        }
        lemma_weight_zero_iff_empty(fs.drop_last());
    }
}

proof fn lemma_class_weighted(deps: Seq<Seq<char>>, class: CrateClass, suffix: Seq<char>, weight: nat)
    requires
        weight >= 1,
    ensures
        all_weighted(class_findings(deps, class, suffix, weight)),
        deps.len() == 0 ==> class_findings(deps, class, suffix, weight).len() == 0,
    decreases deps.len(),
{
    if deps.len() > 0 {
        lemma_class_weighted(deps.drop_last(), class, suffix, weight);
    }
}

proof fn lemma_platform_weighted(t: TargetSpec, deps: Seq<Seq<char>>, pcs: Seq<PlatformSpec>)
    ensures
        all_weighted(platform_findings(t, deps, pcs)),
        deps.len() == 0 ==> platform_findings(t, deps, pcs).len() == 0,
    decreases pcs.len(),
{
    if pcs.len() > 0 {
        lemma_platform_weighted(t, deps, pcs.drop_last());
        let a = platform_findings(t, deps, pcs.drop_last());
        let b = platform_finding(t, deps, pcs.last());
        assert(all_weighted(a + b)) by {
            assert forall|k: int| 0 <= k < (a + b).len() implies (#[trigger] (a + b)[k]).weight
                >= 1 by {
                if k < a.len() {
                    assert((a + b)[k] == a[k]);
                } else {
                    assert((a + b)[k] == b[k - a.len()]);
                }
            }
        }
    }
}

proof fn lemma_weight_concat(a: Seq<Finding>, b: Seq<Finding>)
    ensures
        weight_of(a + b) == weight_of(a) + weight_of(b),
    decreases b.len(),
{
    if b.len() == 0 {
        assert(a + b =~= a);
    } else {
        lemma_weight_concat(a, b.drop_last());
        assert((a + b).drop_last() =~= a + b.drop_last());
    }
}

/// Findings that note something add something to the score.
pub open spec fn scored_if_noted(fs: Seq<Finding>) -> bool {
    fs.len() > 0 ==> weight_of(fs) > 0
}

proof fn lemma_concat_scored(a: Seq<Finding>, b: Seq<Finding>)
    requires
        scored_if_noted(a),
        scored_if_noted(b),
    ensures
        scored_if_noted(a + b),
{
    lemma_weight_concat(a, b);
}

proof fn lemma_weighted_scored(fs: Seq<Finding>)
    requires
        all_weighted(fs),
    ensures
        scored_if_noted(fs),
{
    lemma_weight_zero_iff_empty(fs);
}

proof fn lemma_zero_weights(fs: Seq<Finding>)
    requires
        forall|k: int| 0 <= k < fs.len() ==> (#[trigger] fs[k]).weight == 0,
    ensures
        weight_of(fs) == 0,
    decreases fs.len(),
{
    if fs.len() > 0 {
        assert(fs[fs.len() - 1].weight == 0);
        lemma_zero_weights(fs.drop_last());
    }
}

proof fn lemma_class_unweighted(deps: Seq<Seq<char>>, class: CrateClass, suffix: Seq<char>)
    ensures
        forall|k: int|
            0 <= k < class_findings(deps, class, suffix, 0).len() ==> (#[trigger] class_findings(
                deps,
                class,
                suffix,
                0,
            )[k]).weight == 0,
        deps.len() == 0 ==> class_findings(deps, class, suffix, 0).len() == 0,
    decreases deps.len(),
{
    if deps.len() > 0 {
        lemma_class_unweighted(deps.drop_last(), class, suffix);
        let prev = class_findings(deps.drop_last(), class, suffix, 0);
        assert forall|k: int| 0 <= k < class_findings(deps, class, suffix, 0).len() implies (
        #[trigger] class_findings(deps, class, suffix, 0)[k]).weight == 0 by {
            if k < prev.len() {
                assert(class_findings(deps, class, suffix, 0)[k] == prev[k]);
            }
        }
    }
}

proof fn lemma_charged_once(fs: Seq<Finding>, weight: nat)
    requires
        forall|k: int| 0 <= k < fs.len() ==> (#[trigger] fs[k]).weight == 0,
    ensures
        notes_of(charged_once(fs, weight)) == notes_of(fs),
        weight_of(charged_once(fs, weight)) == if fs.len() > 0 {
            weight
        } else {
            0
        },
{
    assert(notes_of(charged_once(fs, weight)) =~= notes_of(fs));
    if fs.len() > 0 {
        let rest = fs.drop_first();
        assert forall|k: int| 0 <= k < rest.len() implies (#[trigger] rest[k]).weight == 0 by {
            assert(rest[k] == fs[k + 1]);
        }
        lemma_zero_weights(rest);
        let head = seq![finding(fs[0].note, weight)];
        assert(head.drop_last() =~= Seq::<Finding>::empty());
        assert(weight_of(head.drop_last()) == 0);
        assert(head.last() == finding(fs[0].note, weight));
        assert(weight_of(head) == weight_of(head.drop_last()) + head.last().weight);
        lemma_weight_concat(head, rest);
    } else {
        lemma_zero_weights(fs);
    }
}

proof fn lemma_network_scored(deps: Seq<Seq<char>>)
    ensures
        scored_if_noted(wasm_network_findings(deps)),
        deps.len() == 0 ==> wasm_network_findings(deps).len() == 0,
{
    let cs = class_findings(deps, CrateClass::WasmNetworking, " likely won't work on wasm32-unknown-unknown"@, 0);
    lemma_class_unweighted(deps, CrateClass::WasmNetworking, " likely won't work on wasm32-unknown-unknown"@);
    lemma_charged_once(cs, 2);
}

proof fn lemma_target_findings_weighted(
    t: TargetSpec,
    deps: Seq<Seq<char>>,
    std_os: bool,
    pcs: Seq<PlatformSpec>,
)
    ensures
        scored_if_noted(target_findings(t, deps, std_os, pcs)),
        deps.len() == 0 && !std_os ==> target_findings(t, deps, std_os, pcs).len() == 0,
{
    let e = Seq::<Finding>::empty();
    lemma_class_weighted(deps, CrateClass::NeedsStd, " requires std — incompatible with bare-metal"@, 3);
    lemma_class_weighted(deps, CrateClass::PointerWidth, " may have issues on 32-bit targets"@, 1);
    lemma_platform_weighted(t, deps, pcs);
    lemma_network_scored(deps);
    let s1 = if std_os {
        seq![finding("Uses std::os — not available on wasm"@, 3)]
    } else {
        e
    };
    let s2 = if deps.contains("libc"@) {
        seq![finding("Uses libc — not available on wasm32-unknown-unknown"@, 3)]
    } else {
        e
    };
    let s3 = if t.os == "unknown"@ {
        wasm_network_findings(deps)
    } else {
        e
    };
    assert(all_weighted(s1));
    assert(all_weighted(s2));
    lemma_weighted_scored(s1);
    lemma_weighted_scored(s2);
    assert(scored_if_noted(s3));
    lemma_concat_scored(s1, s2);
    lemma_concat_scored(s1 + s2, s3);
    let w = wasm_findings(t, deps, std_os);
    assert(scored_if_noted(w));
    let n = no_std_findings(t, deps);
    let pw = pointer_width_findings(t, deps);
    let en = endian_findings(t, deps);
    let pl = platform_findings(t, deps, pcs);
    let wi = windows_findings(t, deps);
    let an = android_findings(t, deps);
    assert(all_weighted(n));
    assert(all_weighted(pw));
    assert(all_weighted(en));
    assert(all_weighted(wi));
    assert(all_weighted(an));
    lemma_weighted_scored(n);
    lemma_weighted_scored(pw);
    lemma_weighted_scored(en);
    lemma_weighted_scored(pl);
    lemma_weighted_scored(wi);
    lemma_weighted_scored(an);
    lemma_concat_scored(w, n);
    lemma_concat_scored(w + n, pw);
    lemma_concat_scored(w + n + pw, en);
    lemma_concat_scored(w + n + pw + en, pl);
    lemma_concat_scored(w + n + pw + en + pl, wi);
    lemma_concat_scored(w + n + pw + en + pl + wi, an);
    if deps.len() == 0 && !std_os {
        assert(!deps.contains("libc"@));
        assert(!deps.contains("byteorder"@));
        assert(!deps.contains("bincode"@));
        assert(!deps.contains("nix"@));
        assert(!deps.contains("core-foundation"@));
        assert(!deps.contains("cocoa"@));
        assert(w.len() == 0);
        assert(target_findings(t, deps, std_os, pcs) =~= e);
    }
}

/// A target is `Safe` exactly when no rule notes anything on it.
pub proof fn lemma_safe_iff_no_notes(
    t: TargetSpec,
    deps: Seq<Seq<char>>,
    std_os: bool,
    pcs: Seq<PlatformSpec>,
)
    ensures
        compat_of(t, deps, std_os, pcs).risk == RiskLevel::Safe <==> compat_of(
            t,
            deps,
            std_os,
            pcs,
        ).notes.len() == 0,
{
    let fs = target_findings(t, deps, std_os, pcs);
    lemma_target_findings_weighted(t, deps, std_os, pcs);
    if fs.len() == 0 {
        assert(weight_of(fs) == 0);
    }
}

/// A manifest without dependencies whose text does not mention `std::os` is `Safe`
/// on every target, with no notes.
pub proof fn lemma_no_dependencies_is_safe(
    t: TargetSpec,
    deps: Seq<Seq<char>>,
    std_os: bool,
    pcs: Seq<PlatformSpec>,
)
    requires
        deps.len() == 0,
        !std_os,
    ensures
        compat_of(t, deps, std_os, pcs).risk == RiskLevel::Safe,
        compat_of(t, deps, std_os, pcs).notes.len() == 0,
{
    lemma_target_findings_weighted(t, deps, std_os, pcs);
}

/// Two sequences of findings with the same notes, counted with multiplicity, and
/// the same score.
pub open spec fn same_findings(a: Seq<Finding>, b: Seq<Finding>) -> bool {
    notes_of(a).to_multiset() == notes_of(b).to_multiset() && weight_of(a) == weight_of(b)
}

proof fn lemma_same_len(a: Seq<Finding>, b: Seq<Finding>)
    requires
        same_findings(a, b),
    ensures
        a.len() == b.len(),
{
    vstd::seq_lib::to_multiset_len(notes_of(a));
    vstd::seq_lib::to_multiset_len(notes_of(b));
}

proof fn lemma_same_concat(a1: Seq<Finding>, a2: Seq<Finding>, b1: Seq<Finding>, b2: Seq<Finding>)
    requires
        same_findings(a1, a2),
        same_findings(b1, b2),
    ensures
        same_findings(a1 + b1, a2 + b2),
{
    assert(notes_of(a1 + b1) =~= notes_of(a1) + notes_of(b1));
    assert(notes_of(a2 + b2) =~= notes_of(a2) + notes_of(b2));
    vstd::seq_lib::lemma_multiset_commutative(notes_of(a1), notes_of(b1));
    vstd::seq_lib::lemma_multiset_commutative(notes_of(a2), notes_of(b2));
    lemma_weight_concat(a1, b1);
    lemma_weight_concat(a2, b2);
}

proof fn lemma_same_swap(a: Seq<Finding>, b: Seq<Finding>)
    ensures
        same_findings(a + b, b + a),
{
    assert(notes_of(a + b) =~= notes_of(a) + notes_of(b));
    assert(notes_of(b + a) =~= notes_of(b) + notes_of(a));
    vstd::seq_lib::lemma_multiset_commutative(notes_of(a), notes_of(b));
    vstd::seq_lib::lemma_multiset_commutative(notes_of(b), notes_of(a));
    assert(notes_of(a).to_multiset().add(notes_of(b).to_multiset()) =~= notes_of(b).to_multiset().add(
        notes_of(a).to_multiset(),
    ));
    lemma_weight_concat(a, b);
    lemma_weight_concat(b, a);
}

proof fn lemma_class_concat(
    a: Seq<Seq<char>>,
    b: Seq<Seq<char>>,
    class: CrateClass,
    suffix: Seq<char>,
    weight: nat,
)
    ensures
        class_findings(a + b, class, suffix, weight) == class_findings(a, class, suffix, weight)
            + class_findings(b, class, suffix, weight),
    decreases b.len(),
{
    if b.len() == 0 {
        assert(a + b =~= a);
        assert(class_findings(a, class, suffix, weight) + class_findings(b, class, suffix, weight)
            =~= class_findings(a, class, suffix, weight));
    } else {
        lemma_class_concat(a, b.drop_last(), class, suffix, weight);
        assert((a + b).drop_last() =~= a + b.drop_last());
        assert((a + b).last() == b.last());
        assert(class_findings(a + b, class, suffix, weight) =~= class_findings(a, class, suffix, weight)
            + class_findings(b, class, suffix, weight));
    }
}

proof fn lemma_class_permutation(
    d1: Seq<Seq<char>>,
    d2: Seq<Seq<char>>,
    class: CrateClass,
    suffix: Seq<char>,
    weight: nat,
)
    requires
        d1.to_multiset() == d2.to_multiset(),
    ensures
        same_findings(class_findings(d1, class, suffix, weight), class_findings(d2, class, suffix, weight)),
    decreases d1.len(),
{
    broadcast use vstd::seq_lib::group_to_multiset_ensures;

    if d1.len() == 0 {
        assert(d2.to_multiset().len() == 0);
        assert(d2 =~= d1);
    } else {
        let x = d1.last();
        let r1 = d1.drop_last();
        assert(r1.push(x) =~= d1);
        assert(d1.to_multiset().count(x) > 0);
        assert(d2.contains(x));
        let i = d2.index_of(x);
        let r2 = d2.remove(i);
        assert(r2.to_multiset() =~= r1.to_multiset());
        lemma_class_permutation(r1, r2, class, suffix, weight);
        let left = d2.subrange(0, i);
        let right = d2.subrange(i + 1, d2.len() as int);
        let one = seq![x];
        assert(d2 =~= left + (one + right));
        assert(r2 =~= left + right);
        assert(d1 =~= r1 + one);
        lemma_class_concat(left, one + right, class, suffix, weight);
        lemma_class_concat(one, right, class, suffix, weight);
        lemma_class_concat(left, right, class, suffix, weight);
        lemma_class_concat(r1, one, class, suffix, weight);
        let cl = class_findings(left, class, suffix, weight);
        let cr = class_findings(right, class, suffix, weight);
        let cx = class_findings(one, class, suffix, weight);
        let c1 = class_findings(r1, class, suffix, weight);
        lemma_same_concat(c1, cl + cr, cx, cx);
        assert((cl + cr) + cx =~= cl + (cr + cx));
        lemma_same_swap(cr, cx);
        lemma_same_concat(cl, cl, cr + cx, cx + cr);
    }
}

proof fn lemma_platform_same(t: TargetSpec, d1: Seq<Seq<char>>, d2: Seq<Seq<char>>, pcs: Seq<PlatformSpec>)
    requires
        forall|x: Seq<char>| d1.contains(x) == d2.contains(x),
    ensures
        platform_findings(t, d1, pcs) == platform_findings(t, d2, pcs),
    decreases pcs.len(),
{
    if pcs.len() > 0 {
        lemma_platform_same(t, d1, d2, pcs.drop_last());
        assert(d1.contains(pcs.last().name) == d2.contains(pcs.last().name));
    }
}

proof fn lemma_network_permutation(d1: Seq<Seq<char>>, d2: Seq<Seq<char>>)
    requires
        d1.to_multiset() == d2.to_multiset(),
    ensures
        same_findings(wasm_network_findings(d1), wasm_network_findings(d2)),
{
    let net = " likely won't work on wasm32-unknown-unknown"@;
    lemma_class_permutation(d1, d2, CrateClass::WasmNetworking, net, 0);
    let n1 = class_findings(d1, CrateClass::WasmNetworking, net, 0);
    let n2 = class_findings(d2, CrateClass::WasmNetworking, net, 0);
    lemma_same_len(n1, n2);
    lemma_class_unweighted(d1, CrateClass::WasmNetworking, net);
    lemma_class_unweighted(d2, CrateClass::WasmNetworking, net);
    lemma_charged_once(n1, 2);
    lemma_charged_once(n2, 2);
}

proof fn lemma_wasm_permutation(t: TargetSpec, d1: Seq<Seq<char>>, d2: Seq<Seq<char>>, std_os: bool)
    requires
        d1.to_multiset() == d2.to_multiset(),
        forall|x: Seq<char>| d1.contains(x) == d2.contains(x),
    ensures
        same_findings(wasm_findings(t, d1, std_os), wasm_findings(t, d2, std_os)),
{
    lemma_network_permutation(d1, d2);
    assert(d1.contains("libc"@) == d2.contains("libc"@));
    let e = Seq::<Finding>::empty();
    let s1 = if std_os {
        seq![finding("Uses std::os — not available on wasm"@, 3)]
    } else {
        e
    };
    let s2 = if d1.contains("libc"@) {
        seq![finding("Uses libc — not available on wasm32-unknown-unknown"@, 3)]
    } else {
        e
    };
    let s3a = if t.os == "unknown"@ {
        wasm_network_findings(d1)
    } else {
        e
    };
    let s3b = if t.os == "unknown"@ {
        wasm_network_findings(d2)
    } else {
        e
    };
    lemma_same_concat(s1 + s2, s1 + s2, s3a, s3b);
}

proof fn lemma_name_rules_equal(t: TargetSpec, d1: Seq<Seq<char>>, d2: Seq<Seq<char>>, pcs: Seq<PlatformSpec>)
    requires
        forall|x: Seq<char>| d1.contains(x) == d2.contains(x),
    ensures
        endian_findings(t, d1) == endian_findings(t, d2),
        platform_findings(t, d1, pcs) == platform_findings(t, d2, pcs),
        windows_findings(t, d1) == windows_findings(t, d2),
        android_findings(t, d1) == android_findings(t, d2),
{
    assert(d1.contains("nix"@) == d2.contains("nix"@));
    assert(d1.contains("libc"@) == d2.contains("libc"@));
    assert(d1.contains("byteorder"@) == d2.contains("byteorder"@));
    assert(d1.contains("bincode"@) == d2.contains("bincode"@));
    assert(d1.contains("cocoa"@) == d2.contains("cocoa"@));
    assert(d1.contains("core-foundation"@) == d2.contains("core-foundation"@));
    lemma_platform_same(t, d1, d2, pcs);
}

proof fn lemma_findings_permutation(
    t: TargetSpec,
    d1: Seq<Seq<char>>,
    d2: Seq<Seq<char>>,
    std_os: bool,
    pcs: Seq<PlatformSpec>,
)
    requires
        d1.to_multiset() == d2.to_multiset(),
    ensures
        same_findings(target_findings(t, d1, std_os, pcs), target_findings(t, d2, std_os, pcs)),
{
    lemma_same_names(d1, d2);
    lemma_wasm_permutation(t, d1, d2, std_os);
    lemma_name_rules_equal(t, d1, d2, pcs);
    let std = " requires std — incompatible with bare-metal"@;
    let ptr = " may have issues on 32-bit targets"@;
    lemma_class_permutation(d1, d2, CrateClass::NeedsStd, std, 3);
    lemma_class_permutation(d1, d2, CrateClass::PointerWidth, ptr, 1);
    let w1 = wasm_findings(t, d1, std_os);
    let w2 = wasm_findings(t, d2, std_os);
    let n1 = no_std_findings(t, d1);
    let n2 = no_std_findings(t, d2);
    let p1 = pointer_width_findings(t, d1);
    let p2 = pointer_width_findings(t, d2);
    let en = endian_findings(t, d1);
    let pl = platform_findings(t, d1, pcs);
    let wi = windows_findings(t, d1);
    let an = android_findings(t, d1);
    assert(same_findings(n1, n2));
    assert(same_findings(p1, p2));
    lemma_same_concat(w1, w2, n1, n2);
    lemma_same_concat(w1 + n1, w2 + n2, p1, p2);
    lemma_same_concat(w1 + n1 + p1, w2 + n2 + p2, en, en);
    lemma_same_concat(w1 + n1 + p1 + en, w2 + n2 + p2 + en, pl, pl);
    lemma_same_concat(w1 + n1 + p1 + en + pl, w2 + n2 + p2 + en + pl, wi, wi);
    lemma_same_concat(w1 + n1 + p1 + en + pl + wi, w2 + n2 + p2 + en + pl + wi, an, an);
}

proof fn lemma_same_names(d1: Seq<Seq<char>>, d2: Seq<Seq<char>>)
    requires
        d1.to_multiset() == d2.to_multiset(),
    ensures
        forall|x: Seq<char>| d1.contains(x) == d2.contains(x),
{
    assert forall|x: Seq<char>| d1.contains(x) == d2.contains(x) by {
        vstd::seq_lib::to_multiset_contains(d1, x);
        vstd::seq_lib::to_multiset_contains(d2, x);
    }
}

/// Listing the same dependencies in another order changes no result's target or
/// risk, and only the order of its notes.
pub proof fn lemma_dependency_order_irrelevant(
    targets: Seq<TargetSpec>,
    d1: Seq<Seq<char>>,
    d2: Seq<Seq<char>>,
    std_os: bool,
    pcs: Seq<PlatformSpec>,
)
    requires
        d1.to_multiset() == d2.to_multiset(),
    ensures
        compat_all(targets, d1, std_os, pcs).len() == compat_all(targets, d2, std_os, pcs).len(),
        forall|i: int|
            0 <= i < targets.len() ==> {
                let r1 = #[trigger] compat_all(targets, d1, std_os, pcs)[i];
                let r2 = compat_all(targets, d2, std_os, pcs)[i];
                &&& r1.target == r2.target
                &&& r1.risk == r2.risk
                &&& r1.notes.to_multiset() == r2.notes.to_multiset()
            },
{
    assert forall|i: int| 0 <= i < targets.len() implies {
        let r1 = #[trigger] compat_all(targets, d1, std_os, pcs)[i];
        let r2 = compat_all(targets, d2, std_os, pcs)[i];
        &&& r1.target == r2.target
        &&& r1.risk == r2.risk
        &&& r1.notes.to_multiset() == r2.notes.to_multiset()
    } by {
        lemma_findings_permutation(targets[i], d1, d2, std_os, pcs);
    }
}

/// On a big-endian target, a manifest that depends on `byteorder` or `bincode` gets
/// the note "Endian-aware crate detected — verify big-endian behavior", and is not
/// `Safe` there.
pub proof fn lemma_endian_crates_flagged(
    t: TargetSpec,
    deps: Seq<Seq<char>>,
    std_os: bool,
    pcs: Seq<PlatformSpec>,
)
    requires
        t.endianness == Endianness::Big,
        deps.contains("byteorder"@) || deps.contains("bincode"@),
    ensures
        compat_of(t, deps, std_os, pcs).notes.contains(
            "Endian-aware crate detected — verify big-endian behavior"@,
        ),
        compat_of(t, deps, std_os, pcs).risk != RiskLevel::Safe,
{
    let w = wasm_findings(t, deps, std_os);
    let n = no_std_findings(t, deps);
    let p = pointer_width_findings(t, deps);
    let en = endian_findings(t, deps);
    let rest = platform_findings(t, deps, pcs) + windows_findings(t, deps) + android_findings(t, deps);
    let fs = target_findings(t, deps, std_os, pcs);
    assert(fs =~= (w + n + p) + en + rest);
    let i = (w + n + p).len() as int;
    assert(fs[i] == en[0]);
    assert(notes_of(fs)[i] == "Endian-aware crate detected — verify big-endian behavior"@);
    lemma_safe_iff_no_notes(t, deps, std_os, pcs);
}

/// `byteorder` and `bincode` are named by no rule but the byte-order one.
proof fn lemma_endian_names_only(d: Seq<char>)
    requires
        d == "byteorder"@ || d == "bincode"@,
    ensures
        !in_class(CrateClass::WasmNetworking, d),
        !in_class(CrateClass::NeedsStd, d),
        !in_class(CrateClass::PointerWidth, d),
        d != "libc"@,
        d != "nix"@,
        d != "cocoa"@,
        d != "core-foundation"@,
{
    reveal_strlit("byteorder");
    reveal_strlit("bincode");
    reveal_strlit("tokio");
    reveal_strlit("reqwest");
    reveal_strlit("hyper");
    reveal_strlit("std::fs");
    reveal_strlit("diesel");
    reveal_strlit("sqlx");
    reveal_strlit("serde_json");
    reveal_strlit("num_cpus");
    reveal_strlit("sysinfo");
    reveal_strlit("libc");
    reveal_strlit("nix");
    reveal_strlit("cocoa");
    reveal_strlit("core-foundation");
    assert(d[0] == 'b');
}

proof fn lemma_class_none(deps: Seq<Seq<char>>, class: CrateClass, suffix: Seq<char>, weight: nat)
    requires
        forall|k: int| 0 <= k < deps.len() ==> !in_class(class, #[trigger] deps[k]),
    ensures
        class_findings(deps, class, suffix, weight) == Seq::<Finding>::empty(),
    decreases deps.len(),
{
    if deps.len() > 0 {
        assert(!in_class(class, deps[deps.len() - 1]));
        lemma_class_none(deps.drop_last(), class, suffix, weight);
    }
}

proof fn lemma_platform_none(t: TargetSpec, deps: Seq<Seq<char>>, pcs: Seq<PlatformSpec>)
    requires
        forall|k: int| 0 <= k < pcs.len() ==> !deps.contains(#[trigger] pcs[k].name),
    ensures
        platform_findings(t, deps, pcs) == Seq::<Finding>::empty(),
    decreases pcs.len(),
{
    if pcs.len() > 0 {
        assert(!deps.contains(pcs[pcs.len() - 1].name));
        lemma_platform_none(t, deps, pcs.drop_last());
        assert(platform_findings(t, deps, pcs) =~= Seq::<Finding>::empty());
    }
}

/// A manifest whose only dependencies are `byteorder` and `bincode`, whose text does
/// not mention `std::os`, and that depends on no platform crate of `pcs`, is
/// `Warning` on a big-endian target, with the byte-order note as its one note.
pub proof fn lemma_endian_crates_alone(t: TargetSpec, deps: Seq<Seq<char>>, pcs: Seq<PlatformSpec>)
    requires
        t.endianness == Endianness::Big,
        deps.len() > 0,
        forall|k: int| 0 <= k < deps.len() ==> #[trigger] deps[k] == "byteorder"@ || deps[k] == "bincode"@,
        forall|k: int| 0 <= k < pcs.len() ==> !deps.contains(#[trigger] pcs[k].name),
    ensures
        compat_of(t, deps, false, pcs).risk == RiskLevel::Warning,
        compat_of(t, deps, false, pcs).notes == seq!["Endian-aware crate detected — verify big-endian behavior"@],
{
    assert forall|k: int| 0 <= k < deps.len() implies !in_class(CrateClass::WasmNetworking, #[trigger] deps[k])
        && !in_class(CrateClass::NeedsStd, deps[k]) && !in_class(CrateClass::PointerWidth, deps[k])
        && deps[k] != "libc"@ && deps[k] != "nix"@ && deps[k] != "cocoa"@ && deps[k] != "core-foundation"@ by {
        lemma_endian_names_only(deps[k]);
    }
    let e = Seq::<Finding>::empty();
    lemma_class_none(deps, CrateClass::WasmNetworking, " likely won't work on wasm32-unknown-unknown"@, 0);
    lemma_class_none(deps, CrateClass::NeedsStd, " requires std — incompatible with bare-metal"@, 3);
    lemma_class_none(deps, CrateClass::PointerWidth, " may have issues on 32-bit targets"@, 1);
    lemma_platform_none(t, deps, pcs);
    assert(!deps.contains("libc"@));
    assert(!deps.contains("nix"@));
    assert(!deps.contains("cocoa"@));
    assert(!deps.contains("core-foundation"@));
    assert(deps.contains(deps[0]));
    assert(deps.contains("byteorder"@) || deps.contains("bincode"@));
    assert(wasm_network_findings(deps) =~= e);
    assert(wasm_findings(t, deps, false) =~= e);
    let note = finding("Endian-aware crate detected — verify big-endian behavior"@, 1);
    let fs = target_findings(t, deps, false, pcs);
    assert(fs =~= seq![note]);
    assert(seq![note].drop_last() =~= e);
    assert(weight_of(e) == 0);
    assert(seq![note].last() == note);
    assert(weight_of(seq![note]) == weight_of(seq![note].drop_last()) + seq![note].last().weight);
    assert(weight_of(fs) == 1);
    assert(notes_of(fs) =~= seq!["Endian-aware crate detected — verify big-endian behavior"@]);
}

/// `n` capped to the largest `u32`.
pub open spec fn capped(n: nat) -> nat {
    if n > u32::MAX {
        u32::MAX as nat
    } else {
        n
    }
}

/// Copies a list of strings.
pub fn clone_strings(v: &Vec<String>) -> (r: Vec<String>)
    ensures
        string_views(r@) == string_views(v@),
{
    let mut r: Vec<String> = Vec::new();
    let mut i: usize = 0;
    while i < v.len()
        invariant
            i <= v@.len(),
            string_views(r@) == string_views(v@.take(i as int)),
        decreases v@.len() - i,
    {
        let c = v[i].clone();
        assert(c@ == v@[i as int]@);
        let ghost old_r = r@;
        r.push(c);
        assert(string_views(r@) =~= string_views(old_r).push(c@));
        assert(string_views(v@.take(i + 1)) =~= string_views(v@.take(i as int)).push(c@));
        i = i + 1;
        assert(string_views(r@) =~= string_views(v@.take(i as int)));
    }
    assert(v@.take(v@.len() as int) =~= v@);
    r
}

/// Whether `name` is one of `deps`.
fn names_contain(deps: &Vec<&str>, name: &str) -> (b: bool)
    ensures
        b == str_views(deps@).contains(name@),
{
    let mut i: usize = 0;
    while i < deps.len()
        invariant
            i <= deps@.len(),
            forall|k: int| 0 <= k < i ==> deps@[k]@ != name@,
        decreases deps@.len() - i,
    {
        if str_eq(deps[i], name) {
            assert(str_views(deps@)[i as int] == name@);
            return true;
        }
        i = i + 1;
    }
    assert(!str_views(deps@).contains(name@)) by {
        if str_views(deps@).contains(name@) {
            let k = choose|k: int| 0 <= k < str_views(deps@).len() && str_views(deps@)[k] == name@;
            assert(deps@[k]@ == name@);
        }
    }
    false
}

fn in_class_exec(class: CrateClass, d: &str) -> (b: bool)
    ensures
        b == in_class(class, d@),
{
    match class {
        CrateClass::WasmNetworking => str_eq(d, "tokio") || str_eq(d, "reqwest") || str_eq(
            d,
            "hyper",
        ) || str_eq(d, "std::fs") || str_eq(d, "diesel") || str_eq(d, "sqlx"),
        CrateClass::NeedsStd => str_eq(d, "tokio") || str_eq(d, "reqwest") || str_eq(
            d,
            "serde_json",
        ) || str_eq(d, "diesel") || str_eq(d, "sqlx") || str_eq(d, "hyper"),
        CrateClass::PointerWidth => str_eq(d, "num_cpus") || str_eq(d, "sysinfo"),
    }
}

/// The notes and running score of one target.
struct Tally {
    notes: Vec<String>,
    score: u32,
}

impl Tally {
    /// The tally holds the findings `fs`.
    spec fn holds(&self, fs: Seq<Finding>) -> bool {
        &&& string_views(self.notes@) == notes_of(fs)
        &&& self.score == capped(weight_of(fs))
    }

    fn record(&mut self, note: String, weight: u32, Ghost(fs): Ghost<Seq<Finding>>)
        requires
            old(self).holds(fs),
        ensures
            final(self).holds(fs.push(finding(note@, weight as nat))),
    {
        let ghost f = finding(note@, weight as nat);
        let ghost old_notes = self.notes@;
        self.notes.push(note);
        assert(self.notes@ == old_notes.push(note));
        assert(string_views(self.notes@) =~= string_views(old_notes).push(note@));
        assert(notes_of(fs.push(f)) =~= notes_of(fs).push(f.note));
        self.score = self.score.saturating_add(weight);
        proof {
            assert(fs.push(f).drop_last() =~= fs);
            assert(string_views(self.notes@) =~= notes_of(fs.push(f)));
        }
    }

    fn record_class(
        &mut self,
        deps: &Vec<&str>,
        class: CrateClass,
        suffix: &str,
        weight: u32,
        Ghost(fs): Ghost<Seq<Finding>>,
    )
        requires
            old(self).holds(fs),
        ensures
            final(self).holds(fs + class_findings(str_views(deps@), class, suffix@, weight as nat)),
    {
        let mut i: usize = 0;
        let ghost ds = str_views(deps@);
        assert(fs + class_findings(ds.take(0), class, suffix@, weight as nat) =~= fs);
        while i < deps.len()
            invariant
                i <= deps@.len(),
                ds == str_views(deps@),
                self.holds(fs + class_findings(ds.take(i as int), class, suffix@, weight as nat)),
            decreases deps@.len() - i,
        {
            let ghost before = fs + class_findings(ds.take(i as int), class, suffix@, weight as nat);
            proof {
                assert(ds.take(i + 1).drop_last() =~= ds.take(i as int));
                assert(ds.take(i + 1).last() == deps@[i as int]@);
            }
            if in_class_exec(class, deps[i]) {
                let mut note = String::from_str(deps[i]);
                note.append(suffix);
                self.record(note, weight, Ghost(before));
                assert(before.push(finding(deps@[i as int]@ + suffix@, weight as nat)) =~= fs
                    + class_findings(ds.take(i + 1), class, suffix@, weight as nat));
            } else {
                assert(before =~= fs + class_findings(ds.take(i + 1), class, suffix@, weight as nat));
            }
            i = i + 1;
        }
        assert(ds.take(deps@.len() as int) =~= ds);
    }
}


/// A platform-specific crate and the OSes it is meant for.
struct PlatformCrate {
    name: &'static str,
    incompatible_os: Vec<&'static str>,
    notes: &'static str,
}

impl View for PlatformCrate {
    type V = PlatformSpec;

    closed spec fn view(&self) -> PlatformSpec {
        PlatformSpec {
            name: self.name@,
            incompatible_os: str_views(self.incompatible_os@),
            notes: self.notes@,
        }
    }
}

/// The views of a sequence of platform crates.
spec fn platform_views(v: Seq<PlatformCrate>) -> Seq<PlatformSpec> {
    v.map_values(|p: PlatformCrate| p@)
}

pub open spec fn platform(name: Seq<char>, oses: Seq<Seq<char>>, notes: Seq<char>) -> PlatformSpec {
    PlatformSpec { name, incompatible_os: oses, notes }
}

/// The known platform-specific crates, in the order they are checked.
pub open spec fn known_platform_crates_spec() -> Seq<PlatformSpec> {
    seq![
        platform("winapi"@, seq!["windows"@], "Windows-only API bindings"@),
        platform("windows"@, seq!["windows"@], "Windows-only crate"@),
        platform("windows-sys"@, seq!["windows"@], "Windows-only sys bindings"@),
        platform("cocoa"@, seq!["macos"@], "macOS-only Cocoa bindings"@),
        platform("core-foundation"@, seq!["macos"@, "ios"@], "Apple platform only"@),
        platform("core-graphics"@, seq!["macos"@, "ios"@], "Apple platform only"@),
        platform(
            "nix"@,
            seq!["linux"@, "macos"@, "freebsd"@, "netbsd"@, "android"@],
            "Unix-only — not available on Windows/WASM"@,
        ),
        platform("x11"@, seq!["linux"@, "freebsd"@], "X11 Linux/BSD only"@),
        platform("wayland-client"@, seq!["linux"@], "Linux Wayland only"@),
        platform("udev"@, seq!["linux"@], "Linux udev only"@),
    ]
}

fn os_listed_exec(os: &str, oses: &Vec<&'static str>) -> (b: bool)
    ensures
        b == os_listed(os@, str_views(oses@)),
{
    let mut i: usize = 0;
    while i < oses.len()
        invariant
            i <= oses@.len(),
            forall|k: int| 0 <= k < i ==> !has_substring(os@, oses@[k]@),
        decreases oses@.len() - i,
    {
        if str_contains(os, oses[i]) {
            assert(str_views(oses@)[i as int] == oses@[i as int]@);
            return true;
        }
        i = i + 1;
    }
    false
}

impl Tally {
    /// Charges `weight` once for findings `cs` that were recorded without weight.
    fn charge_once(&mut self, weight: u32, Ghost(fs): Ghost<Seq<Finding>>, Ghost(cs): Ghost<Seq<Finding>>)
        requires
            old(self).holds(fs + cs),
            cs.len() > 0,
            forall|k: int| 0 <= k < cs.len() ==> (#[trigger] cs[k]).weight == 0,
        ensures
            final(self).holds(fs + charged_once(cs, weight as nat)),
    {
        proof {
            lemma_charged_once(cs, weight as nat);
            lemma_zero_weights(cs);
            lemma_weight_concat(fs, cs);
            lemma_weight_concat(fs, charged_once(cs, weight as nat));
            assert(notes_of(fs + charged_once(cs, weight as nat)) =~= notes_of(fs) + notes_of(
                charged_once(cs, weight as nat),
            ));
            assert(notes_of(fs + cs) =~= notes_of(fs) + notes_of(cs));
        }
        self.score = self.score.saturating_add(weight);
    }

    fn new() -> (t: Tally)
        ensures
            t.holds(Seq::empty()),
    {
        let t = Tally { notes: Vec::new(), score: 0 };
        assert(string_views(t.notes@) =~= notes_of(Seq::empty()));
        t
    }

    /// Records a finding when `cond` holds.
    fn record_if(&mut self, cond: bool, note: &str, weight: u32, Ghost(fs): Ghost<Seq<Finding>>)
        requires
            old(self).holds(fs),
        ensures
            final(self).holds(
                fs + (if cond {
                    seq![finding(note@, weight as nat)]
                } else {
                    Seq::empty()
                }),
            ),
    {
        if cond {
            self.record(String::from_str(note), weight, Ghost(fs));
            assert(fs.push(finding(note@, weight as nat)) =~= fs + seq![finding(note@, weight as nat)]);
        } else {
            assert(fs + Seq::<Finding>::empty() =~= fs);
        }
    }

    fn record_platforms(
        &mut self,
        t: &TargetInfo,
        deps: &Vec<&str>,
        pcs: &Vec<PlatformCrate>,
        Ghost(fs): Ghost<Seq<Finding>>,
    )
        requires
            old(self).holds(fs),
        ensures
            final(self).holds(fs + platform_findings(t@, str_views(deps@), platform_views(pcs@))),
    {
        let ghost ds = str_views(deps@);
        let ghost ps = platform_views(pcs@);
        let mut i: usize = 0;
        assert(fs + platform_findings(t@, ds, ps.take(0)) =~= fs);
        while i < pcs.len()
            invariant
                i <= pcs@.len(),
                ds == str_views(deps@),
                ps == platform_views(pcs@),
                self.holds(fs + platform_findings(t@, ds, ps.take(i as int))),
            decreases pcs@.len() - i,
        {
            let ghost before = fs + platform_findings(t@, ds, ps.take(i as int));
            let pc = &pcs[i];
            proof {
                assert(ps.take(i + 1).drop_last() =~= ps.take(i as int));
                assert(ps.take(i + 1).last() == pc@);
            }
            let mut flagged = false;
            if names_contain(deps, pc.name) {
                if os_listed_exec(t.os.as_str(), &pc.incompatible_os) {
                    // The crate is meant for this OS.
                } else if pc.incompatible_os.len() != 0 {
                    flagged = true;
                }
            }
            let mut note = String::from_str(pc.name);
            note.append(" — ");
            note.append(pc.notes);
            if flagged {
                self.record(note, 2, Ghost(before));
                assert(before.push(finding(pc@.name + " — "@ + pc@.notes, 2)) =~= fs
                    + platform_findings(t@, ds, ps.take(i + 1)));
            } else {
                assert(before =~= fs + platform_findings(t@, ds, ps.take(i + 1)));
            }
            i = i + 1;
        }
        assert(ps.take(pcs@.len() as int) =~= ps);
    }
}

/// The findings of every rule on one target.
fn tally_target(
    t: &TargetInfo,
    deps: &Vec<&str>,
    std_os: bool,
    libc: bool,
    pcs: &Vec<PlatformCrate>,
) -> (r: Tally)
    requires
        libc == str_views(deps@).contains("libc"@),
    ensures
        r.holds(target_findings(t@, str_views(deps@), std_os, platform_views(pcs@))),
{
    let ghost ds = str_views(deps@);
    let mut tally = Tally::new();
    let ghost e = Seq::<Finding>::empty();

    // wasm constraints
    if str_contains(t.arch.as_str(), "wasm") {
        tally.record_if(std_os, "Uses std::os — not available on wasm", 3, Ghost(e));
        let ghost f1 = e + (if std_os {
            seq![finding("Uses std::os — not available on wasm"@, 3)]
        } else {
            Seq::empty()
        });
        tally.record_if(libc, "Uses libc — not available on wasm32-unknown-unknown", 3, Ghost(f1));
        let ghost f2 = f1 + (if libc {
            seq![finding("Uses libc — not available on wasm32-unknown-unknown"@, 3)]
        } else {
            Seq::empty()
        });
        if str_eq(t.os.as_str(), "unknown") {
            let ghost cs = class_findings(
                ds,
                CrateClass::WasmNetworking,
                " likely won't work on wasm32-unknown-unknown"@,
                0,
            );
            let before = tally.notes.len();
            assert(before == string_views(tally.notes@).len());
            assert(before == f2.len());
            tally.record_class(
                deps,
                CrateClass::WasmNetworking,
                " likely won't work on wasm32-unknown-unknown",
                0,
                Ghost(f2),
            );
            proof {
                lemma_class_unweighted(ds, CrateClass::WasmNetworking, " likely won't work on wasm32-unknown-unknown"@);
            }
            assert(tally.notes@.len() == string_views(tally.notes@).len());
            assert(tally.notes@.len() == (f2 + cs).len());
            if tally.notes.len() > before {
                tally.charge_once(2, Ghost(f2), Ghost(cs));
            } else {
                assert(cs.len() == 0);
            }
            assert(f2 + wasm_network_findings(ds) =~= f2 + charged_once(cs, 2));
        } else {
            assert(f2 + Seq::<Finding>::empty() =~= f2);
        }
        assert(tally.holds(wasm_findings(t@, ds, std_os))) by {
            assert(e + wasm_findings(t@, ds, std_os) =~= wasm_findings(t@, ds, std_os));
            assert(f1 =~= (if std_os {
                seq![finding("Uses std::os — not available on wasm"@, 3)]
            } else {
                Seq::empty()
            }));
        }
    } else {
        assert(wasm_findings(t@, ds, std_os) =~= e);
    }
    let ghost w = wasm_findings(t@, ds, std_os);

    // bare-metal targets
    if str_eq(t.os.as_str(), "none") {
        tally.record_class(
            deps,
            CrateClass::NeedsStd,
            " requires std — incompatible with bare-metal",
            3,
            Ghost(w),
        );
    } else {
        assert(w + Seq::<Finding>::empty() =~= w);
    }
    let ghost n = w + no_std_findings(t@, ds);

    // pointer width
    if t.pointer_width == 32 {
        tally.record_class(deps, CrateClass::PointerWidth, " may have issues on 32-bit targets", 1, Ghost(n));
    } else {
        assert(n + Seq::<Finding>::empty() =~= n);
    }
    let ghost p = n + pointer_width_findings(t@, ds);

    // big-endian targets
    let endian_aware = names_contain(deps, "byteorder") || names_contain(deps, "bincode");
    tally.record_if(
        t.endianness == Endianness::Big && endian_aware,
        "Endian-aware crate detected — verify big-endian behavior",
        1,
        Ghost(p),
    );
    let ghost b = p + endian_findings(t@, ds);

    // platform-specific crates
    tally.record_platforms(t, deps, pcs, Ghost(b));
    let ghost pl = b + platform_findings(t@, ds, platform_views(pcs@));

    // Windows
    let on_windows = str_eq(t.os.as_str(), "windows");
    let unix_deps = names_contain(deps, "nix") || libc;
    tally.record_if(on_windows && unix_deps, "nix/libc have limited Windows support", 1, Ghost(pl));
    let ghost wi = pl + windows_findings(t@, ds);

    // Android
    let on_android = str_eq(t.os.as_str(), "android");
    let apple_deps = names_contain(deps, "core-foundation") || names_contain(deps, "cocoa");
    tally.record_if(
        on_android && apple_deps,
        "Apple frameworks not available on Android",
        3,
        Ghost(wi),
    );
    tally
}


/// Appends the names of `names` to `out`.
fn push_names<'a>(out: &mut Vec<&'a str>, names: &'a Vec<String>)
    ensures
        str_views(final(out)@) == str_views(old(out)@) + string_views(names@),
{
    let mut i: usize = 0;
    while i < names.len()
        invariant
            i <= names@.len(),
            str_views(out@) == str_views(old(out)@) + string_views(names@.take(i as int)),
        decreases names@.len() - i,
    {
        let ghost before = out@;
        out.push(names[i].as_str());
        assert(str_views(out@) =~= str_views(before).push(names@[i as int]@));
        assert(string_views(names@.take(i + 1)) =~= string_views(names@.take(i as int)).push(
            names@[i as int]@,
        ));
        i = i + 1;
    }
    assert(names@.take(names@.len() as int) =~= names@);
}

/// The compatibility checker: the target database and the known platform crates.
pub struct CompatibilityChecker {
    db: TargetDb,
    platform_crates: Vec<PlatformCrate>,
}

impl CompatibilityChecker {
    /// The targets that the checker scores.
    pub closed spec fn targets(&self) -> Seq<TargetSpec> {
        self.db@
    }

    /// The platform-specific crates that the checker knows.
    pub closed spec fn platforms(&self) -> Seq<PlatformSpec> {
        platform_views(self.platform_crates@)
    }

    pub fn new() -> (c: Self)
        ensures
            c.targets() == builtin_targets_spec(),
            c.platforms() == known_platform_crates_spec(),
    {
        CompatibilityChecker { db: TargetDb::new(), platform_crates: Self::known_platform_crates() }
    }

    /// Check compatibility of a manifest against all known targets: one result per
    /// target, in the database's order, scored by the rules on the manifest's
    /// dependency names and on whether its text mentions `std::os`.
    pub fn check(&self, content: &str, cargo: &CargoToml) -> (r: Vec<CompatResult>)
        ensures
            compat_views(r@) == compat_all(
                self.targets(),
                all_deps(*cargo),
                uses_std_os(content@),
                self.platforms(),
            ),
            r@.len() == self.targets().len(),
            forall|i: int|
                0 <= i < r@.len() ==> #[trigger] r@[i]@ == compat_of(
                    self.targets()[i],
                    all_deps(*cargo),
                    uses_std_os(content@),
                    self.platforms(),
                ),
    {
        let mut deps: Vec<&str> = Vec::new();
        push_names(&mut deps, &cargo.dependencies);
        push_names(&mut deps, &cargo.dev_dependencies);
        push_names(&mut deps, &cargo.build_dependencies);
        assert(str_views(deps@) =~= all_deps(*cargo));

        let std_os = str_contains(content, "std::os") || str_contains(content, "std::os::");
        let libc = names_contain(&deps, "libc");

        let targets = self.db.all();
        let mut results: Vec<CompatResult> = Vec::new();
        let mut i: usize = 0;
        while i < targets.len()
            invariant
                i <= targets@.len(),
                views(targets@) == self.targets(),
                str_views(deps@) == all_deps(*cargo),
                std_os == uses_std_os(content@),
                libc == str_views(deps@).contains("libc"@),
                results@.len() == i,
                forall|k: int|
                    0 <= k < i ==> #[trigger] results@[k]@ == compat_of(
                        self.targets()[k],
                        all_deps(*cargo),
                        uses_std_os(content@),
                        self.platforms(),
                    ),
            decreases targets@.len() - i,
        {
            let t = &targets[i];
            let tally = tally_target(t, &deps, std_os, libc, &self.platform_crates);
            let ghost fs = target_findings(t@, str_views(deps@), std_os, self.platforms());
            let risk = if tally.score == 0 {
                RiskLevel::Safe
            } else if tally.score <= 3 {
                RiskLevel::Warning
            } else {
                RiskLevel::Danger
            };
            assert(risk == risk_of_score(weight_of(fs)));
            let r = CompatResult { target: t.triple.clone(), risk, notes: tally.notes };
            assert(self.targets()[i as int] == t@);
            results.push(r);
            i = i + 1;
        }
        assert(compat_views(results@) =~= compat_all(
            self.targets(),
            all_deps(*cargo),
            uses_std_os(content@),
            self.platforms(),
        ));
        results
    }

    fn known_platform_crates() -> (v: Vec<PlatformCrate>)
        ensures
            platform_views(v@) == known_platform_crates_spec(),
    {
        let mut v: Vec<PlatformCrate> = Vec::new();
        let ghost spec = known_platform_crates_spec();
        let mut oses: Vec<&'static str> = Vec::new();
        oses.push("windows");
        assert(str_views(oses@) =~= spec[0].incompatible_os);
        v.push(PlatformCrate { name: "winapi", incompatible_os: oses, notes: "Windows-only API bindings" });
        assert(v@[0]@ == spec[0]);
        let mut oses: Vec<&'static str> = Vec::new();
        oses.push("windows");
        assert(str_views(oses@) =~= spec[1].incompatible_os);
        v.push(PlatformCrate { name: "windows", incompatible_os: oses, notes: "Windows-only crate" });
        assert(v@[1]@ == spec[1]);
        let mut oses: Vec<&'static str> = Vec::new();
        oses.push("windows");
        assert(str_views(oses@) =~= spec[2].incompatible_os);
        v.push(PlatformCrate { name: "windows-sys", incompatible_os: oses, notes: "Windows-only sys bindings" });
        assert(v@[2]@ == spec[2]);
        let mut oses: Vec<&'static str> = Vec::new();
        oses.push("macos");
        assert(str_views(oses@) =~= spec[3].incompatible_os);
        v.push(PlatformCrate { name: "cocoa", incompatible_os: oses, notes: "macOS-only Cocoa bindings" });
        assert(v@[3]@ == spec[3]);
        let mut oses: Vec<&'static str> = Vec::new();
        oses.push("macos");
        oses.push("ios");
        assert(str_views(oses@) =~= spec[4].incompatible_os);
        v.push(PlatformCrate { name: "core-foundation", incompatible_os: oses, notes: "Apple platform only" });
        assert(v@[4]@ == spec[4]);
        let mut oses: Vec<&'static str> = Vec::new();
        oses.push("macos");
        oses.push("ios");
        assert(str_views(oses@) =~= spec[5].incompatible_os);
        v.push(PlatformCrate { name: "core-graphics", incompatible_os: oses, notes: "Apple platform only" });
        assert(v@[5]@ == spec[5]);
        let mut oses: Vec<&'static str> = Vec::new();
        oses.push("linux");
        oses.push("macos");
        oses.push("freebsd");
        oses.push("netbsd");
        oses.push("android");
        assert(str_views(oses@) =~= spec[6].incompatible_os);
        v.push(PlatformCrate { name: "nix", incompatible_os: oses, notes: "Unix-only — not available on Windows/WASM" });
        assert(v@[6]@ == spec[6]);
        let mut oses: Vec<&'static str> = Vec::new();
        oses.push("linux");
        oses.push("freebsd");
        assert(str_views(oses@) =~= spec[7].incompatible_os);
        v.push(PlatformCrate { name: "x11", incompatible_os: oses, notes: "X11 Linux/BSD only" });
        assert(v@[7]@ == spec[7]);
        let mut oses: Vec<&'static str> = Vec::new();
        oses.push("linux");
        assert(str_views(oses@) =~= spec[8].incompatible_os);
        v.push(PlatformCrate { name: "wayland-client", incompatible_os: oses, notes: "Linux Wayland only" });
        assert(v@[8]@ == spec[8]);
        let mut oses: Vec<&'static str> = Vec::new();
        oses.push("linux");
        assert(str_views(oses@) =~= spec[9].incompatible_os);
        v.push(PlatformCrate { name: "udev", incompatible_os: oses, notes: "Linux udev only" });
        assert(v@[9]@ == spec[9]);
        assert(platform_views(v@) =~= known_platform_crates_spec());
        v
    }
}


/// How many results have the given risk level.
pub open spec fn count_risk(rs: Seq<CompatSpec>, level: RiskLevel) -> nat
    decreases rs.len(),
{
    if rs.len() == 0 {
        0
    } else {
        count_risk(rs.drop_last(), level) + if rs.last().risk == level {
            1nat
        } else {
            0nat
        }
    }
}

/// The lines of one result: its label and target, then one arrow line per note.
pub open spec fn result_lines(r: CompatSpec) -> Seq<Seq<char>> {
    seq!["  "@ + risk_label(r.risk) + " "@ + r.target] + r.notes.map_values(
        |n: Seq<char>| "      → "@ + n,
    )
}

/// The lines of all results, in order.
pub open spec fn results_lines(rs: Seq<CompatSpec>) -> Seq<Seq<char>>
    decreases rs.len(),
{
    if rs.len() == 0 {
        Seq::empty()
    } else {
        results_lines(rs.drop_last()) + result_lines(rs.last())
    }
}

/// The text report of a compatibility analysis, line by line.
pub open spec fn report_lines_spec(path: Seq<char>, rs: Seq<CompatSpec>) -> Seq<Seq<char>> {
    seq!["Cross-compilation compatibility analysis for "@ + path, Seq::empty()] + results_lines(rs)
        + seq![
        Seq::empty(),
        "Summary: "@ + decimal(count_risk(rs, RiskLevel::Safe)) + " safe, "@ + decimal(
            count_risk(rs, RiskLevel::Warning),
        ) + " warnings, "@ + decimal(count_risk(rs, RiskLevel::Danger)) + " danger (out of "@
            + decimal(rs.len()) + " targets)"@,
    ]
}

/// How many results have the given risk level.
pub fn count_risk_exec(results: &[CompatResult], level: RiskLevel) -> (n: usize)
    ensures
        n == count_risk(compat_views(results@), level),
{
    let ghost rs = compat_views(results@);
    let mut n: usize = 0;
    let mut i: usize = 0;
    while i < results.len()
        invariant
            i <= results@.len(),
            rs == compat_views(results@),
            n == count_risk(rs.take(i as int), level),
            n <= i,
        decreases results@.len() - i,
    {
        assert(rs.take(i + 1).drop_last() =~= rs.take(i as int));
        assert(rs.take(i + 1).last() == results@[i as int]@);
        if results[i].risk == level {
            n = n + 1;
        }
        i = i + 1;
    }
    assert(rs.take(results@.len() as int) =~= rs);
    n
}

fn push_result_lines(out: &mut Vec<String>, r: &CompatResult)
    ensures
        string_views(final(out)@) == string_views(old(out)@) + result_lines(r@),
{
    let mut head = String::from_str("  ");
    let label = r.risk.to_string();
    head.append(label.as_str());
    head.append(" ");
    head.append(r.target.as_str());
    out.push(head);
    let ghost start = string_views(out@);
    assert(start =~= string_views(old(out)@).push(head@));
    let mut i: usize = 0;
    let ghost ns = string_views(r.notes@);
    while i < r.notes.len()
        invariant
            i <= r.notes@.len(),
            ns == string_views(r.notes@),
            string_views(out@) == start + ns.take(i as int).map_values(
                |n: Seq<char>| "      → "@ + n,
            ),
        decreases r.notes@.len() - i,
    {
        let mut line = String::from_str("      → ");
        line.append(r.notes[i].as_str());
        let ghost before = out@;
        out.push(line);
        assert(string_views(out@) =~= string_views(before).push(line@));
        assert(ns.take(i + 1).map_values(|n: Seq<char>| "      → "@ + n) =~= ns.take(
            i as int,
        ).map_values(|n: Seq<char>| "      → "@ + n).push(line@));
        i = i + 1;
    }
    assert(ns.take(r.notes@.len() as int) =~= ns);
    assert(string_views(out@) =~= string_views(old(out)@) + result_lines(r@));
}

/// The text report of a compatibility analysis of the manifest at `path`, line by
/// line: a heading, each result with its notes, and a summary of the counts.
pub fn report_lines(path: &str, results: &[CompatResult]) -> (r: Vec<String>)
    ensures
        string_views(r@) == report_lines_spec(path@, compat_views(results@)),
{
    let ghost rs = compat_views(results@);
    let mut out: Vec<String> = Vec::new();
    let mut head = String::from_str("Cross-compilation compatibility analysis for ");
    head.append(path);
    out.push(head);
    out.push(String::new());
    let ghost start = string_views(out@);
    assert(start =~= seq![head@, Seq::<char>::empty()]);
    let mut i: usize = 0;
    assert(string_views(out@) =~= start + results_lines(rs.take(0)));
    while i < results.len()
        invariant
            i <= results@.len(),
            rs == compat_views(results@),
            string_views(out@) == start + results_lines(rs.take(i as int)),
        decreases results@.len() - i,
    {
        assert(rs.take(i + 1).drop_last() =~= rs.take(i as int));
        assert(rs.take(i + 1).last() == results@[i as int]@);
        push_result_lines(&mut out, &results[i]);
        assert(string_views(out@) =~= start + results_lines(rs.take(i + 1)));
        i = i + 1;
    }
    assert(rs.take(results@.len() as int) =~= rs);
    let safe = count_risk_exec(results, RiskLevel::Safe);
    let warn = count_risk_exec(results, RiskLevel::Warning);
    let danger = count_risk_exec(results, RiskLevel::Danger);
    let ghost body = string_views(out@);
    out.push(String::new());
    let mut summary = String::from_str("Summary: ");
    crate::text::push_decimal(&mut summary, safe as u64);
    summary.append(" safe, ");
    crate::text::push_decimal(&mut summary, warn as u64);
    summary.append(" warnings, ");
    crate::text::push_decimal(&mut summary, danger as u64);
    summary.append(" danger (out of ");
    crate::text::push_decimal(&mut summary, results.len() as u64);
    summary.append(" targets)");
    out.push(summary);
    assert(string_views(out@) =~= report_lines_spec(path@, rs));
    out
}


/// The JSON object of one compatibility result.
pub open spec fn compat_json_object(c: CompatSpec) -> Seq<(Seq<char>, JsonValueSpec)> {
    seq![
        ("target"@, JsonValueSpec::Text(c.target)),
        ("risk"@, JsonValueSpec::Text(risk_label(c.risk))),
        ("notes"@, JsonValueSpec::List(c.notes)),
    ]
}

/// The JSON report of the results.
pub open spec fn report_json_text(cs: Seq<CompatSpec>) -> Seq<char> {
    pretty_json(cs.map_values(|c: CompatSpec| compat_json_object(c)))
}

/// The JSON report of the results: an array with one object per result,
/// whose keys are `target`, `risk` (the labelled level) and `notes`.
pub fn report_json(results: &[CompatResult]) -> (s: String)
    ensures
        s@ == report_json_text(compat_views(results@)),
{
    let ghost cs = compat_views(results@);
    let ghost objs = cs.map_values(|c: CompatSpec| compat_json_object(c));
    let mut objects: Vec<JsonObject> = Vec::new();
    let mut i: usize = 0;
    while i < results.len()
        invariant
            i <= results@.len(),
            cs == compat_views(results@),
            objs == cs.map_values(|c: CompatSpec| compat_json_object(c)),
            object_views(objects@) == objs.take(i as int),
        decreases results@.len() - i,
    {
        let r = &results[i];
        let mut fields: Vec<(String, JsonValue)> = Vec::new();
        fields.push((String::from_str("target"), JsonValue::Text(r.target.clone())));
        fields.push((String::from_str("risk"), JsonValue::Text(r.risk.to_string())));
        fields.push((String::from_str("notes"), JsonValue::List(clone_strings(&r.notes))));
        let o = JsonObject { fields };
        assert(o@ =~= objs[i as int]);
        let ghost before = objects@;
        objects.push(o);
        assert(object_views(objects@) =~= object_views(before).push(objs[i as int]));
        assert(objs.take(i + 1) =~= objs.take(i as int).push(objs[i as int]));
        i = i + 1;
    }
    assert(objs.take(results@.len() as int) =~= objs);
    to_json_pretty(&objects)
}

} // verus!
