//! Suggestions of CI targets, ranked by compatibility and popularity.

use vstd::prelude::*;
use vstd::string::*;
use crate::compat::{
    all_deps, compat_all, compat_views, string_views, uses_std_os, CargoToml, CompatResult, CompatSpec,
    CompatibilityChecker, PlatformSpec, RiskLevel,
};
use crate::target_db::{builtin_targets_spec, views, TargetDb, TargetSpec};
#[allow(unused_imports)]
use crate::compat::known_platform_crates_spec;
use crate::report::{risk_icon, risk_icon_str};
use crate::text::{decimal, push_decimal};

verus! {

/// A suggested CI target with reasoning.
#[derive(Debug, Clone)]
pub struct Suggestion {
    pub target: String,
    pub os: String,
    pub arch: String,
    pub popularity: u32,
    pub risk: RiskLevel,
    pub reason: String,
}

/// The mathematical content of a [`Suggestion`].
pub struct SuggestionSpec {
    pub target: Seq<char>,
    pub os: Seq<char>,
    pub arch: Seq<char>,
    pub popularity: u32,
    pub risk: RiskLevel,
    pub reason: Seq<char>,
}

impl View for Suggestion {
    type V = SuggestionSpec;

    open spec fn view(&self) -> SuggestionSpec {
        SuggestionSpec {
            target: self.target@,
            os: self.os@,
            arch: self.arch@,
            popularity: self.popularity,
            risk: self.risk,
            reason: self.reason@,
        }
    }
}

/// The views of a sequence of suggestions.
pub open spec fn suggestion_views(v: Seq<Suggestion>) -> Seq<SuggestionSpec> {
    v.map_values(|s: Suggestion| s@)
}

/// The parts joined by the separator.
pub open spec fn join(parts: Seq<Seq<char>>, sep: Seq<char>) -> Seq<char>
    decreases parts.len(),
{
    if parts.len() == 0 {
        Seq::empty()
    } else if parts.len() == 1 {
        parts[0]
    } else {
        join(parts.drop_last(), sep) + sep + parts.last()
    }
}

/// Why a target is suggested: `Fully compatible` without notes, else
/// `Minor: ` and the notes joined by `, `.
pub open spec fn reason_text(notes: Seq<Seq<char>>) -> Seq<char> {
    if notes.len() == 0 {
        "Fully compatible"@
    } else {
        "Minor: "@ + join(notes, ", "@)
    }
}

/// The last compatibility result for a triple, if any.
pub open spec fn find_last(compat: Seq<CompatSpec>, triple: Seq<char>) -> Option<CompatSpec>
    decreases compat.len(),
{
    if compat.len() == 0 {
        None
    } else if compat.last().target == triple {
        Some(compat.last())
    } else {
        find_last(compat.drop_last(), triple)
    }
}

/// The suggestion for one target: none without a compatibility result or when the
/// result is `Danger`.
pub open spec fn candidate(t: TargetSpec, compat: Seq<CompatSpec>) -> Option<SuggestionSpec> {
    match find_last(compat, t.triple) {
        None => None,
        Some(c) => if c.risk == RiskLevel::Danger {
            None
        } else {
            Some(
                SuggestionSpec {
                    target: t.triple,
                    os: t.os,
                    arch: t.arch,
                    popularity: t.popularity,
                    risk: c.risk,
                    reason: reason_text(c.notes),
                },
            )
        },
    }
}

/// The suggestions for all targets, in the database's order.
pub open spec fn candidates(targets: Seq<TargetSpec>, compat: Seq<CompatSpec>) -> Seq<SuggestionSpec>
    decreases targets.len(),
{
    if targets.len() == 0 {
        Seq::empty()
    } else {
        let rest = candidates(targets.drop_last(), compat);
        match candidate(targets.last(), compat) {
            Some(s) => rest.push(s),
            None => rest,
        }
    }
}

/// The rank of a risk level: safe before warning before danger.
pub open spec fn risk_rank(r: RiskLevel) -> int {
    match r {
        RiskLevel::Safe => 0,
        RiskLevel::Warning => 1,
        RiskLevel::Danger => 2,
    }
}

/// `a` comes strictly before `b`: lower risk, or equal risk and higher popularity.
pub open spec fn ranks_before(a: SuggestionSpec, b: SuggestionSpec) -> bool {
    risk_rank(a.risk) < risk_rank(b.risk) || (risk_rank(a.risk) == risk_rank(b.risk)
        && a.popularity > b.popularity)
}

/// `a` and `b` have the same risk and popularity.
pub open spec fn same_rank(a: SuggestionSpec, b: SuggestionSpec) -> bool {
    risk_rank(a.risk) == risk_rank(b.risk) && a.popularity == b.popularity
}

/// Some entry of `p` is `m`.
pub open spec fn hits(p: Seq<int>, m: int) -> bool {
    exists|k: int| 0 <= k < p.len() && p[k] == m
}

/// `o` is `s` reordered by the permutation `p` (`o[k] == s[p[k]]`) so that every
/// element comes before the later ones by rank, and elements of the same rank keep
/// their order in `s`.
pub open spec fn stably_sorted_by(o: Seq<SuggestionSpec>, s: Seq<SuggestionSpec>, p: Seq<int>) -> bool {
    &&& o.len() == s.len()
    &&& p.len() == s.len()
    &&& forall|k: int| 0 <= k < o.len() ==> 0 <= #[trigger] p[k] < s.len() && o[k] == s[p[k]]
    &&& forall|m: int| 0 <= m < s.len() ==> #[trigger] hits(p, m)
    &&& forall|k: int, l: int|
        0 <= k < l < o.len() ==> ranks_before(#[trigger] o[k], #[trigger] o[l]) || (same_rank(
            o[k],
            o[l],
        ) && p[k] < p[l])
}

/// `o` is the stable sort of `s` by rank.
pub open spec fn is_stable_sort_of(o: Seq<SuggestionSpec>, s: Seq<SuggestionSpec>) -> bool {
    exists|p: Seq<int>| stably_sorted_by(o, s, p)
}

/// How many of `sel` run on `os`.
pub open spec fn count_os(sel: Seq<SuggestionSpec>, os: Seq<char>) -> nat
    decreases sel.len(),
{
    if sel.len() == 0 {
        0
    } else {
        count_os(sel.drop_last(), os) + if sel.last().os == os {
            1nat
        } else {
            0nat
        }
    }
}

/// The first, diversity-seeking pass: in ranked order, take a target while fewer
/// than `top_n` are taken and fewer than two taken ones share its OS.
pub open spec fn first_pass(scored: Seq<SuggestionSpec>, top_n: nat) -> Seq<SuggestionSpec>
    decreases scored.len(),
{
    if scored.len() == 0 {
        Seq::empty()
    } else {
        let prev = first_pass(scored.drop_last(), top_n);
        let s = scored.last();
        if prev.len() < top_n && count_os(prev, s.os) < 2 {
            prev.push(s)
        } else {
            prev
        }
    }
}

/// Whether some element of `sel` suggests `target`.
pub open spec fn has_target(sel: Seq<SuggestionSpec>, target: Seq<char>) -> bool {
    exists|k: int| 0 <= k < sel.len() && sel[k].target == target
}

/// The second pass: in ranked order, add each target not taken yet while fewer
/// than `top_n` are taken.
pub open spec fn second_pass(
    scored: Seq<SuggestionSpec>,
    taken: Seq<SuggestionSpec>,
    top_n: nat,
) -> Seq<SuggestionSpec>
    decreases scored.len(),
{
    if scored.len() == 0 {
        taken
    } else {
        let prev = second_pass(scored.drop_last(), taken, top_n);
        let s = scored.last();
        if prev.len() < top_n && !has_target(prev, s.target) {
            prev.push(s)
        } else {
            prev
        }
    }
}

/// The suggestions chosen from a ranked list.
pub open spec fn select(scored: Seq<SuggestionSpec>, top_n: nat) -> Seq<SuggestionSpec> {
    second_pass(scored, first_pass(scored, top_n), top_n)
}


impl Suggestion {
    /// A copy of this suggestion.
    fn duplicate(&self) -> (r: Suggestion)
        ensures
            r@ == self@,
    {
        Suggestion {
            target: self.target.clone(),
            os: self.os.clone(),
            arch: self.arch.clone(),
            popularity: self.popularity,
            risk: self.risk,
            reason: self.reason.clone(),
        }
    }
}

/// The notes joined by `, `.
fn join_notes(notes: &Vec<String>) -> (r: String)
    ensures
        r@ == join(string_views(notes@), ", "@),
{
    let mut r = String::new();
    let mut i: usize = 0;
    while i < notes.len()
        invariant
            i <= notes@.len(),
            r@ == join(string_views(notes@.take(i as int)), ", "@),
        decreases notes@.len() - i,
    {
        let ghost parts = string_views(notes@.take(i + 1));
        assert(parts.drop_last() =~= string_views(notes@.take(i as int)));
        assert(parts.last() == notes@[i as int]@);
        if i != 0 {
            r.append(", ");
        } else {
            assert(r@ =~= Seq::<char>::empty());
        }
        r.append(notes[i].as_str());
        i = i + 1;
    }
    assert(notes@.take(notes@.len() as int) =~= notes@);
    r
}

/// Why a target with these notes is suggested.
fn reason_for(notes: &Vec<String>) -> (r: String)
    ensures
        r@ == reason_text(string_views(notes@)),
{
    if notes.len() == 0 {
        String::from_str("Fully compatible")
    } else {
        let mut r = String::from_str("Minor: ");
        let joined = join_notes(notes);
        r.append(joined.as_str());
        r
    }
}

/// The index of the last compatibility result for `triple`.
fn find_last_index(compat: &Vec<CompatResult>, triple: &String) -> (r: Option<usize>)
    ensures
        match r {
            Some(k) => k < compat@.len() && find_last(compat_views(compat@), triple@) == Some(
                compat@[k as int]@,
            ),
            None => find_last(compat_views(compat@), triple@) is None,
        },
{
    let ghost cs = compat_views(compat@);
    let mut i: usize = compat.len();
    assert(cs.take(i as int) =~= cs);
    while i > 0
        invariant
            i <= compat@.len(),
            cs == compat_views(compat@),
            find_last(cs, triple@) == find_last(cs.take(i as int), triple@),
        decreases i,
    {
        let ghost prefix = cs.take(i as int);
        assert(prefix.last() == compat@[i - 1]@);
        if compat[i - 1].target == *triple {
            return Some(i - 1);
        }
        assert(prefix.drop_last() =~= cs.take(i - 1));
        i = i - 1;
    }
    None
}

fn rank_of(r: RiskLevel) -> (k: u8)
    ensures
        k as int == risk_rank(r),
{
    match r {
        RiskLevel::Safe => 0,
        RiskLevel::Warning => 1,
        RiskLevel::Danger => 2,
    }
}

/// Whether `a` comes strictly before `b`.
fn before(a: &Suggestion, b: &Suggestion) -> (r: bool)
    ensures
        r == ranks_before(a@, b@),
{
    let ra = rank_of(a.risk);
    let rb = rank_of(b.risk);
    ra < rb || (ra == rb && a.popularity > b.popularity)
}

proof fn lemma_insert_keeps_stable_order(
    o: Seq<SuggestionSpec>,
    s: Seq<SuggestionSpec>,
    p: Seq<int>,
    i: int,
    pos: int,
)
    requires
        0 <= i < s.len(),
        stably_sorted_by(o, s.take(i), p),
        0 <= pos <= o.len(),
        forall|k: int| 0 <= k < pos ==> !ranks_before(s[i], #[trigger] o[k]),
        pos < o.len() ==> ranks_before(s[i], o[pos]),
    ensures
        stably_sorted_by(o.insert(pos, s[i]), s.take(i + 1), p.insert(pos, i)),
{
    let o2 = o.insert(pos, s[i]);
    let s2 = s.take(i + 1);
    let p2 = p.insert(pos, i);
    let x = s[i];
    assert forall|k: int| 0 <= k < o2.len() implies 0 <= #[trigger] p2[k] < s2.len() && o2[k]
        == s2[p2[k]] by {
        if k < pos {
            assert(p2[k] == p[k]);
        } else if k > pos {
            assert(p2[k] == p[k - 1]);
        }
    }
    assert forall|m: int| 0 <= m < s2.len() implies #[trigger] hits(p2, m) by {
        if m == i {
            assert(p2[pos] == i);
        } else {
            assert(hits(p, m));
            let k = choose|k: int| 0 <= k < p.len() && p[k] == m;
            if k < pos {
                assert(p2[k] == m);
            } else {
                assert(p2[k + 1] == m);
            }
        }
    }
    assert forall|k: int, l: int|
        0 <= k < l < o2.len() implies ranks_before(#[trigger] o2[k], #[trigger] o2[l]) || (
        same_rank(o2[k], o2[l]) && p2[k] < p2[l]) by {
        if k < pos && l < pos {
            assert(o2[k] == o[k] && o2[l] == o[l]);
        } else if k > pos && l > pos {
            assert(o2[k] == o[k - 1] && o2[l] == o[l - 1]);
        } else if k < pos && l > pos {
            assert(o2[k] == o[k] && o2[l] == o[l - 1]);
        } else if k == pos {
            assert(o2[l] == o[l - 1]);
            assert(ranks_before(x, o[pos]));
            if l - 1 > pos {
                assert(ranks_before(o[pos], o[l - 1]) || same_rank(o[pos], o[l - 1]));
            }
        } else {
            assert(l == pos);
            assert(o2[k] == o[k]);
            assert(!ranks_before(x, o[k]));
            assert(0 <= p[k] < i);
        }
    }
}

/// The stable sort of `v` by rank (insertion sort).
fn sort_ranked(v: Vec<Suggestion>) -> (o: Vec<Suggestion>)
    ensures
        is_stable_sort_of(suggestion_views(o@), suggestion_views(v@)),
{
    let ghost s = suggestion_views(v@);
    let mut o: Vec<Suggestion> = Vec::new();
    let ghost mut p: Seq<int> = Seq::empty();
    let mut i: usize = 0;
    assert(stably_sorted_by(suggestion_views(o@), s.take(0), p)) by {
        assert(suggestion_views(o@) =~= Seq::<SuggestionSpec>::empty());
    }
    while i < v.len()
        invariant
            i <= v@.len(),
            s == suggestion_views(v@),
            stably_sorted_by(suggestion_views(o@), s.take(i as int), p),
        decreases v@.len() - i,
    {
        let x = v[i].duplicate();
        let ghost ov = suggestion_views(o@);
        assert(x@ == s[i as int]);
        let mut pos: usize = 0;
        while pos < o.len() && !before(&x, &o[pos])
            invariant
                pos <= o@.len(),
                ov == suggestion_views(o@),
                forall|k: int| 0 <= k < pos ==> !ranks_before(x@, #[trigger] ov[k]),
            decreases o@.len() - pos,
        {
            pos = pos + 1;
        }
        proof {
            lemma_insert_keeps_stable_order(ov, s, p, i as int, pos as int);
            p = p.insert(pos as int, i as int);
        }
        o.insert(pos, x);
        assert(suggestion_views(o@) =~= ov.insert(pos as int, s[i as int]));
        i = i + 1;
    }
    assert(s.take(v@.len() as int) =~= s);
    o
}

/// How many of `sel` run on `os`.
fn count_os_exec(sel: &Vec<Suggestion>, os: &String) -> (n: usize)
    ensures
        n == count_os(suggestion_views(sel@), os@),
{
    let ghost sv = suggestion_views(sel@);
    let mut n: usize = 0;
    let mut i: usize = 0;
    while i < sel.len()
        invariant
            i <= sel@.len(),
            sv == suggestion_views(sel@),
            n == count_os(sv.take(i as int), os@),
            n <= i,
        decreases sel@.len() - i,
    {
        assert(sv.take(i + 1).drop_last() =~= sv.take(i as int));
        if sel[i].os == *os {
            n = n + 1;
        }
        i = i + 1;
    }
    assert(sv.take(sel@.len() as int) =~= sv);
    n
}

/// Whether some of `sel` suggests `target`.
fn has_target_exec(sel: &Vec<Suggestion>, target: &String) -> (b: bool)
    ensures
        b == has_target(suggestion_views(sel@), target@),
{
    let ghost sv = suggestion_views(sel@);
    let mut i: usize = 0;
    while i < sel.len()
        invariant
            i <= sel@.len(),
            sv == suggestion_views(sel@),
            forall|k: int| 0 <= k < i ==> sv[k].target != target@,
        decreases sel@.len() - i,
    {
        if sel[i].target == *target {
            assert(sv[i as int].target == target@);
            return true;
        }
        i = i + 1;
    }
    false
}

/// The suggestions chosen from a ranked list: a diversity-seeking first pass, then
/// a second pass that fills the remaining places.
fn select_exec(scored: &Vec<Suggestion>, top_n: usize) -> (r: Vec<Suggestion>)
    ensures
        suggestion_views(r@) == select(suggestion_views(scored@), top_n as nat),
{
    let ghost sv = suggestion_views(scored@);
    let mut selected: Vec<Suggestion> = Vec::new();
    let mut i: usize = 0;
    assert(suggestion_views(selected@) =~= first_pass(sv.take(0), top_n as nat));
    while i < scored.len()
        invariant
            i <= scored@.len(),
            sv == suggestion_views(scored@),
            suggestion_views(selected@) == first_pass(sv.take(i as int), top_n as nat),
        decreases scored@.len() - i,
    {
        let ghost prev = suggestion_views(selected@);
        assert(sv.take(i + 1).drop_last() =~= sv.take(i as int));
        assert(sv.take(i + 1).last() == scored@[i as int]@);
        if selected.len() < top_n && count_os_exec(&selected, &scored[i].os) < 2 {
            selected.push(scored[i].duplicate());
            assert(suggestion_views(selected@) =~= prev.push(scored@[i as int]@));
        }
        i = i + 1;
    }
    assert(sv.take(scored@.len() as int) =~= sv);
    let ghost taken = suggestion_views(selected@);
    let mut j: usize = 0;
    assert(suggestion_views(selected@) =~= second_pass(sv.take(0), taken, top_n as nat));
    while j < scored.len()
        invariant
            j <= scored@.len(),
            sv == suggestion_views(scored@),
            suggestion_views(selected@) == second_pass(sv.take(j as int), taken, top_n as nat),
        decreases scored@.len() - j,
    {
        let ghost prev = suggestion_views(selected@);
        assert(sv.take(j + 1).drop_last() =~= sv.take(j as int));
        assert(sv.take(j + 1).last() == scored@[j as int]@);
        if selected.len() < top_n && !has_target_exec(&selected, &scored[j].target) {
            selected.push(scored[j].duplicate());
            assert(suggestion_views(selected@) =~= prev.push(scored@[j as int]@));
        }
        j = j + 1;
    }
    assert(sv.take(scored@.len() as int) =~= sv);
    selected
}


/// The suggestions for all targets of `targets`, in order.
fn build_candidates(targets: &[crate::target_db::TargetInfo], compat: &Vec<CompatResult>) -> (r: Vec<
    Suggestion,
>)
    ensures
        suggestion_views(r@) == candidates(views(targets@), compat_views(compat@)),
{
    let ghost ts = views(targets@);
    let ghost cs = compat_views(compat@);
    let mut out: Vec<Suggestion> = Vec::new();
    let mut i: usize = 0;
    assert(suggestion_views(out@) =~= candidates(ts.take(0), cs));
    while i < targets.len()
        invariant
            i <= targets@.len(),
            ts == views(targets@),
            cs == compat_views(compat@),
            suggestion_views(out@) == candidates(ts.take(i as int), cs),
        decreases targets@.len() - i,
    {
        let t = &targets[i];
        let ghost prev = suggestion_views(out@);
        assert(ts.take(i + 1).drop_last() =~= ts.take(i as int));
        assert(ts.take(i + 1).last() == t@);
        match find_last_index(compat, &t.triple) {
            Some(k) => {
                let c = &compat[k];
                if c.risk != RiskLevel::Danger {
                    let sug = Suggestion {
                        target: t.triple.clone(),
                        os: t.os.clone(),
                        arch: t.arch.clone(),
                        popularity: t.popularity,
                        risk: c.risk,
                        reason: reason_for(&c.notes),
                    };
                    out.push(sug);
                    assert(suggestion_views(out@) =~= prev.push(sug@));
                }
            },
            None => {},
        }
        i = i + 1;
    }
    assert(ts.take(targets@.len() as int) =~= ts);
    out
}

/// The suggestions for a manifest: the non-`Danger` targets ranked stably by risk
/// (safe first) and then by popularity (highest first), then chosen by
/// [`select`].
pub open spec fn suggestions_for(
    targets: Seq<TargetSpec>,
    compat: Seq<CompatSpec>,
    top_n: nat,
    r: Seq<SuggestionSpec>,
) -> bool {
    exists|o: Seq<SuggestionSpec>|
        is_stable_sort_of(o, candidates(targets, compat)) && r == select(o, top_n)
}

proof fn lemma_first_pass_from(scored: Seq<SuggestionSpec>, n: nat)
    ensures
        first_pass(scored, n).len() <= n,
        forall|k: int|
            0 <= k < first_pass(scored, n).len() ==> scored.contains(
                #[trigger] first_pass(scored, n)[k],
            ),
    decreases scored.len(),
{
    if scored.len() > 0 {
        lemma_first_pass_from(scored.drop_last(), n);
        let prev = first_pass(scored.drop_last(), n);
        assert forall|k: int| 0 <= k < first_pass(scored, n).len() implies scored.contains(
            #[trigger] first_pass(scored, n)[k],
        ) by {
            if k < prev.len() {
                assert(first_pass(scored, n)[k] == prev[k]);
                let j = choose|j: int| 0 <= j < scored.drop_last().len() && scored.drop_last()[j]
                    == prev[k];
                assert(scored[j] == prev[k]);
            } else {
                assert(first_pass(scored, n)[k] == scored[scored.len() - 1]);
            }
        }
    }
}

proof fn lemma_second_pass_from(scored: Seq<SuggestionSpec>, taken: Seq<SuggestionSpec>, n: nat)
    requires
        taken.len() <= n,
    ensures
        second_pass(scored, taken, n).len() <= n,
        forall|k: int|
            0 <= k < second_pass(scored, taken, n).len() ==> scored.contains(
                #[trigger] second_pass(scored, taken, n)[k],
            ) || taken.contains(second_pass(scored, taken, n)[k]),
        second_pass(scored, taken, n).len() < n ==> forall|j: int|
            0 <= j < scored.len() ==> has_target(
                second_pass(scored, taken, n),
                #[trigger] scored[j].target,
            ),
        forall|j: int|
            0 <= j < taken.len() ==> #[trigger] second_pass(scored, taken, n)[j] == taken[j],
        taken.len() <= second_pass(scored, taken, n).len(),
    decreases scored.len(),
{
    if scored.len() > 0 {
        let d = scored.drop_last();
        lemma_second_pass_from(d, taken, n);
        let prev = second_pass(d, taken, n);
        let cur = second_pass(scored, taken, n);
        let s = scored.last();
        assert forall|k: int| 0 <= k < cur.len() implies scored.contains(#[trigger] cur[k])
            || taken.contains(cur[k]) by {
            if k < prev.len() {
                assert(cur[k] == prev[k]);
                if d.contains(prev[k]) {
                    let j = choose|j: int| 0 <= j < d.len() && d[j] == prev[k];
                    assert(scored[j] == prev[k]);
                }
            } else {
                assert(cur[k] == scored[scored.len() - 1]);
            }
        }
        if cur.len() < n {
            assert forall|j: int| 0 <= j < scored.len() implies has_target(
                cur,
                #[trigger] scored[j].target,
            ) by {
                if j < d.len() {
                    assert(d[j] == scored[j]);
                    assert(has_target(prev, d[j].target));
                    let k = choose|k: int| 0 <= k < prev.len() && prev[k].target == d[j].target;
                    assert(cur[k] == prev[k]);
                } else {
                    if has_target(prev, s.target) {
                        let k = choose|k: int| 0 <= k < prev.len() && prev[k].target == s.target;
                        assert(cur[k] == prev[k]);
                    } else {
                        assert(cur[prev.len() as int] == s);
                    }
                }
            }
        }
        assert forall|j: int| 0 <= j < taken.len() implies #[trigger] cur[j] == taken[j] by {
            assert(prev[j] == taken[j]);
        }
    }
}

proof fn lemma_candidates_not_danger(targets: Seq<TargetSpec>, compat: Seq<CompatSpec>)
    ensures
        forall|k: int|
            0 <= k < candidates(targets, compat).len() ==> (#[trigger] candidates(
                targets,
                compat,
            )[k]).risk != RiskLevel::Danger,
    decreases targets.len(),
{
    if targets.len() > 0 {
        lemma_candidates_not_danger(targets.drop_last(), compat);
        let prev = candidates(targets.drop_last(), compat);
        assert forall|k: int| 0 <= k < candidates(targets, compat).len() implies (
        #[trigger] candidates(targets, compat)[k]).risk != RiskLevel::Danger by {
            if k < prev.len() {
                assert(candidates(targets, compat)[k] == prev[k]);
            }
        }
    }
}

/// Every element of the ranked list is a candidate, and every candidate is an
/// element of the ranked list.
proof fn lemma_sorted_same_elements(o: Seq<SuggestionSpec>, s: Seq<SuggestionSpec>)
    requires
        is_stable_sort_of(o, s),
    ensures
        forall|k: int| 0 <= k < o.len() ==> s.contains(#[trigger] o[k]),
        forall|m: int| 0 <= m < s.len() ==> o.contains(#[trigger] s[m]),
        o.len() == s.len(),
{
    let p = choose|p: Seq<int>| stably_sorted_by(o, s, p);
    assert forall|k: int| 0 <= k < o.len() implies s.contains(#[trigger] o[k]) by {
        assert(0 <= p[k] < s.len() && o[k] == s[p[k]]);
    }
    assert forall|m: int| 0 <= m < s.len() implies o.contains(#[trigger] s[m]) by {
        assert(hits(p, m));
        let k = choose|k: int| 0 <= k < p.len() && p[k] == m;
        assert(o[k] == s[p[k]]);
    }
}

/// No suggestion is a `Danger` target.
pub proof fn lemma_suggestions_not_danger(
    targets: Seq<TargetSpec>,
    compat: Seq<CompatSpec>,
    top_n: nat,
    r: Seq<SuggestionSpec>,
)
    requires
        suggestions_for(targets, compat, top_n, r),
    ensures
        forall|k: int| 0 <= k < r.len() ==> (#[trigger] r[k]).risk != RiskLevel::Danger,
{
    let s = candidates(targets, compat);
    let o = choose|o: Seq<SuggestionSpec>| is_stable_sort_of(o, s) && r == select(o, top_n);
    lemma_sorted_same_elements(o, s);
    lemma_first_pass_from(o, top_n);
    let fp = first_pass(o, top_n);
    lemma_second_pass_from(o, fp, top_n);
    lemma_candidates_not_danger(targets, compat);
    assert forall|k: int| 0 <= k < r.len() implies (#[trigger] r[k]).risk != RiskLevel::Danger by {
        let x = r[k];
        let j = if o.contains(x) {
            choose|j: int| 0 <= j < o.len() && o[j] == x
        } else {
            let i = choose|i: int| 0 <= i < fp.len() && fp[i] == x;
            choose|j: int| 0 <= j < o.len() && o[j] == fp[i]
        };
        assert(o[j] == x);
        assert(s.contains(o[j]));
        let m = choose|m: int| 0 <= m < s.len() && s[m] == o[j];
        assert(s[m].risk != RiskLevel::Danger);
    }
}

/// At most `top_n` targets are suggested, and when fewer are, every candidate
/// target (every target whose risk is not `Danger`) is among them.
pub proof fn lemma_suggestions_fill_up(
    targets: Seq<TargetSpec>,
    compat: Seq<CompatSpec>,
    top_n: nat,
    r: Seq<SuggestionSpec>,
)
    requires
        suggestions_for(targets, compat, top_n, r),
    ensures
        r.len() <= top_n,
        r.len() < top_n ==> forall|m: int|
            0 <= m < candidates(targets, compat).len() ==> has_target(
                r,
                #[trigger] candidates(targets, compat)[m].target,
            ),
{
    let s = candidates(targets, compat);
    let o = choose|o: Seq<SuggestionSpec>| is_stable_sort_of(o, s) && r == select(o, top_n);
    lemma_sorted_same_elements(o, s);
    lemma_first_pass_from(o, top_n);
    let fp = first_pass(o, top_n);
    lemma_second_pass_from(o, fp, top_n);
    if r.len() < top_n {
        assert forall|m: int| 0 <= m < s.len() implies has_target(r, #[trigger] s[m].target) by {
            assert(o.contains(s[m]));
            let j = choose|j: int| 0 <= j < o.len() && o[j] == s[m];
            assert(has_target(r, o[j].target));
        }
    }
}

proof fn lemma_first_pass_head(scored: Seq<SuggestionSpec>, n: nat)
    requires
        scored.len() > 0,
        n > 0,
    ensures
        first_pass(scored, n).len() > 0,
        first_pass(scored, n)[0] == scored[0],
    decreases scored.len(),
{
    if scored.len() == 1 {
        let e = Seq::<SuggestionSpec>::empty();
        assert(scored.drop_last().len() == 0);
        assert(first_pass(scored.drop_last(), n) == e);
        assert(count_os(e, scored.last().os) == 0);
        assert(first_pass(scored, n) == e.push(scored.last()));
        assert(e.push(scored.last())[0] == scored[0]);
    } else {
        lemma_first_pass_head(scored.drop_last(), n);
        let prev = first_pass(scored.drop_last(), n);
        assert(scored.drop_last()[0] == scored[0]);
        assert(prev[0] == scored[0]);
        if prev.len() < n && count_os(prev, scored.last().os) < 2 {
            assert(prev.push(scored.last())[0] == prev[0]);
        }
    }
}

/// The first suggestion, if any, is a best-ranked candidate: no candidate has a
/// lower risk, or the same risk and a higher popularity.
pub proof fn lemma_first_suggestion_best(
    targets: Seq<TargetSpec>,
    compat: Seq<CompatSpec>,
    top_n: nat,
    r: Seq<SuggestionSpec>,
)
    requires
        suggestions_for(targets, compat, top_n, r),
        r.len() > 0,
    ensures
        forall|m: int|
            0 <= m < candidates(targets, compat).len() ==> !ranks_before(
                #[trigger] candidates(targets, compat)[m],
                r[0],
            ),
{
    let s = candidates(targets, compat);
    let o = choose|o: Seq<SuggestionSpec>| is_stable_sort_of(o, s) && r == select(o, top_n);
    let p = choose|p: Seq<int>| stably_sorted_by(o, s, p);
    lemma_first_pass_from(o, top_n);
    let fp = first_pass(o, top_n);
    lemma_second_pass_from(o, fp, top_n);
    if top_n == 0 {
        assert(r.len() <= 0);
    }
    if o.len() == 0 {
        assert(fp.len() == 0);
        assert(r.len() == 0 || has_target(fp, r[0].target) || true);
        assert(forall|k: int| 0 <= k < r.len() ==> o.contains(#[trigger] r[k]) || fp.contains(r[k]));
        assert(!o.contains(r[0]));
        assert(!fp.contains(r[0]));
    }
    lemma_first_pass_head(o, top_n);
    assert(r[0] == o[0]);
    assert forall|m: int| 0 <= m < s.len() implies !ranks_before(#[trigger] s[m], r[0]) by {
        assert(hits(p, m));
        let k = choose|k: int| 0 <= k < p.len() && p[k] == m;
        assert(o[k] == s[m]);
        if k > 0 {
            assert(ranks_before(o[0], o[k]) || same_rank(o[0], o[k]));
        }
    }
}

/// The ranked list puts lower risk first (every `Safe` candidate before every
/// `Warning` one), and among candidates of the same risk the more popular first.
pub proof fn lemma_ranking_risk_then_popularity(o: Seq<SuggestionSpec>, s: Seq<SuggestionSpec>)
    requires
        is_stable_sort_of(o, s),
    ensures
        forall|k: int, l: int|
            0 <= k < l < o.len() ==> risk_rank((#[trigger] o[k]).risk) <= risk_rank(
                (#[trigger] o[l]).risk,
            ) && (o[k].risk == o[l].risk ==> o[k].popularity >= o[l].popularity),
        forall|k: int, l: int|
            0 <= k < l < o.len() && (#[trigger] o[l]).risk == RiskLevel::Safe ==> (
            #[trigger] o[k]).risk == RiskLevel::Safe,
{
    let p = choose|p: Seq<int>| stably_sorted_by(o, s, p);
    assert forall|k: int, l: int| 0 <= k < l < o.len() implies risk_rank((#[trigger] o[k]).risk)
        <= risk_rank((#[trigger] o[l]).risk) && (o[k].risk == o[l].risk ==> o[k].popularity
        >= o[l].popularity) by {
        assert(ranks_before(o[k], o[l]) || (same_rank(o[k], o[l]) && p[k] < p[l]));
    }
    assert forall|k: int, l: int| 0 <= k < l < o.len() && (#[trigger] o[l]).risk == RiskLevel::Safe
        implies (#[trigger] o[k]).risk == RiskLevel::Safe by {
        assert(ranks_before(o[k], o[l]) || (same_rank(o[k], o[l]) && p[k] < p[l]));
    }
}

/// When some candidate is `Safe` and at least one target is asked for, the first
/// suggestion is `Safe`, and no candidate of its risk is more popular.
pub proof fn lemma_first_suggestion_safe(
    targets: Seq<TargetSpec>,
    compat: Seq<CompatSpec>,
    top_n: nat,
    r: Seq<SuggestionSpec>,
)
    requires
        suggestions_for(targets, compat, top_n, r),
        top_n > 0,
        exists|m: int|
            0 <= m < candidates(targets, compat).len() && (#[trigger] candidates(
                targets,
                compat,
            )[m]).risk == RiskLevel::Safe,
    ensures
        r.len() > 0,
        r[0].risk == RiskLevel::Safe,
        forall|m: int|
            0 <= m < candidates(targets, compat).len() && (#[trigger] candidates(targets, compat)[m]).risk
                == r[0].risk ==> candidates(targets, compat)[m].popularity <= r[0].popularity,
{
    let c = candidates(targets, compat);
    let m0 = choose|m: int| 0 <= m < c.len() && (#[trigger] c[m]).risk == RiskLevel::Safe;
    lemma_suggestions_fill_up(targets, compat, top_n, r);
    if r.len() == 0 {
        assert(has_target(r, c[m0].target));
    }
    lemma_first_suggestion_best(targets, compat, top_n, r);
    assert(!ranks_before(c[m0], r[0]));
}

/// Suggests which targets to add to CI based on popularity and compatibility.
pub struct Suggestor {
    db: TargetDb,
    checker: CompatibilityChecker,
}

impl Suggestor {
    /// The targets that are ranked.
    pub closed spec fn targets(&self) -> Seq<TargetSpec> {
        self.db@
    }

    /// The checker that scores the targets.
    pub closed spec fn checker(&self) -> CompatibilityChecker {
        self.checker
    }

    pub fn new() -> (s: Self)
        ensures
            s.targets() == builtin_targets_spec(),
            s.checker().targets() == builtin_targets_spec(),
            s.checker().platforms() == known_platform_crates_spec(),
    {
        Suggestor { db: TargetDb::new(), checker: CompatibilityChecker::new() }
    }

    /// Suggest up to `top_n` targets to add to CI for the manifest with text
    /// `content` and dependency names `cargo`.
    pub fn suggest(&self, content: &str, cargo: &CargoToml, top_n: usize) -> (r: Vec<Suggestion>)
        ensures
            suggestions_for(
                self.targets(),
                compat_all(
                    self.checker().targets(),
                    all_deps(*cargo),
                    uses_std_os(content@),
                    self.checker().platforms(),
                ),
                top_n as nat,
                suggestion_views(r@),
            ),
    {
        let compat_results = self.checker.check(content, cargo);
        let scored = build_candidates(self.db.all(), &compat_results);
        let ranked = sort_ranked(scored);
        let selected = select_exec(&ranked, top_n);
        let ghost o = suggestion_views(ranked@);
        assert(is_stable_sort_of(o, candidates(self.targets(), compat_views(compat_results@))));
        selected
    }
}


/// The two lines of the suggestion at position `i` (counted from 0).
pub open spec fn suggestion_lines(i: nat, s: SuggestionSpec) -> Seq<Seq<char>> {
    seq![
        "  "@ + decimal(i + 1) + ". "@ + risk_icon(s.risk) + " "@ + s.target + " (popularity: "@
            + decimal(s.popularity as nat) + ", os: "@ + s.os + ", arch: "@ + s.arch + ")"@,
        "     → "@ + s.reason,
    ]
}

/// The lines of all suggestions, numbered in order.
pub open spec fn suggestions_lines(ss: Seq<SuggestionSpec>) -> Seq<Seq<char>>
    decreases ss.len(),
{
    if ss.len() == 0 {
        Seq::empty()
    } else {
        suggestions_lines(ss.drop_last()) + suggestion_lines((ss.len() - 1) as nat, ss.last())
    }
}

/// The text report of the suggestions, line by line: a heading, the numbered
/// suggestions, and a CI matrix of their triples.
pub open spec fn report_lines_spec(top: nat, ss: Seq<SuggestionSpec>) -> Seq<Seq<char>> {
    seq!["Suggested CI targets (top "@ + decimal(top) + "):"@, Seq::empty()] + suggestions_lines(ss)
        + seq![
        Seq::empty(),
        "Suggested GitHub Actions matrix:"@,
        "    target: ["@ + join(ss.map_values(|s: SuggestionSpec| s.target), ", "@) + "]"@,
    ]
}

fn push_suggestion_lines(out: &mut Vec<String>, i: usize, s: &Suggestion)
    requires
        i < usize::MAX,
    ensures
        string_views(final(out)@) == string_views(old(out)@) + suggestion_lines(i as nat, s@),
{
    let mut first = String::from_str("  ");
    push_decimal(&mut first, (i + 1) as u64);
    first.append(". ");
    first.append(risk_icon_str(s.risk));
    first.append(" ");
    first.append(s.target.as_str());
    first.append(" (popularity: ");
    push_decimal(&mut first, s.popularity as u64);
    first.append(", os: ");
    first.append(s.os.as_str());
    first.append(", arch: ");
    first.append(s.arch.as_str());
    first.append(")");
    let mut second = String::from_str("     → ");
    second.append(s.reason.as_str());
    out.push(first);
    out.push(second);
    assert(string_views(final(out)@) =~= string_views(old(out)@) + suggestion_lines(i as nat, s@));
}

/// The text report of the suggestions for at most `top` targets, line by line.
pub fn report_lines(top: usize, suggestions: &[Suggestion]) -> (r: Vec<String>)
    ensures
        string_views(r@) == report_lines_spec(top as nat, suggestion_views(suggestions@)),
{
    let ghost ss = suggestion_views(suggestions@);
    let mut out: Vec<String> = Vec::new();
    let mut head = String::from_str("Suggested CI targets (top ");
    push_decimal(&mut head, top as u64);
    head.append("):");
    out.push(head);
    out.push(String::new());
    let ghost start = string_views(out@);
    assert(start =~= seq![head@, Seq::<char>::empty()]);
    let mut targets = String::new();
    let mut i: usize = 0;
    assert(string_views(out@) =~= start + suggestions_lines(ss.take(0)));
    while i < suggestions.len()
        invariant
            i <= suggestions@.len(),
            ss == suggestion_views(suggestions@),
            string_views(out@) == start + suggestions_lines(ss.take(i as int)),
            targets@ == join(ss.take(i as int).map_values(|s: SuggestionSpec| s.target), ", "@),
        decreases suggestions@.len() - i,
    {
        let ghost names = ss.take(i + 1).map_values(|s: SuggestionSpec| s.target);
        assert(ss.take(i + 1).drop_last() =~= ss.take(i as int));
        assert(ss.take(i + 1).last() == suggestions@[i as int]@);
        assert(names.drop_last() =~= ss.take(i as int).map_values(|s: SuggestionSpec| s.target));
        push_suggestion_lines(&mut out, i, &suggestions[i]);
        if i != 0 {
            targets.append(", ");
        } else {
            assert(targets@ =~= Seq::<char>::empty());
        }
        targets.append(suggestions[i].target.as_str());
        assert(string_views(out@) =~= start + suggestions_lines(ss.take(i + 1)));
        i = i + 1;
    }
    assert(ss.take(suggestions@.len() as int) =~= ss);
    out.push(String::new());
    out.push(String::from_str("Suggested GitHub Actions matrix:"));
    let mut last = String::from_str("    target: [");
    last.append(targets.as_str());
    last.append("]");
    out.push(last);
    assert(string_views(out@) =~= report_lines_spec(top as nat, ss));
    out
}

} // verus!
