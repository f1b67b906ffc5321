//! Planning and recording of `cargo check` runs across targets.

use vstd::prelude::*;
use vstd::string::*;
use crate::target_db::{popular_triples, ref_views, select_triples, TargetDb, TargetSpec};
#[allow(unused_imports)]
use crate::target_db::builtin_targets_spec;
use crate::compat::string_views;
use crate::text::{decimal, lines, push_decimal, text_lines};

verus! {

/// Result of running `cargo check --target <triple>`.
#[derive(Debug, Clone)]
pub struct CheckResult {
    pub target: String,
    pub success: bool,
    pub output: String,
}

/// The mathematical content of a [`CheckResult`].
pub struct CheckSpec {
    pub target: Seq<char>,
    pub success: bool,
    pub output: Seq<char>,
}

impl View for CheckResult {
    type V = CheckSpec;

    open spec fn view(&self) -> CheckSpec {
        CheckSpec { target: self.target@, success: self.success, output: self.output@ }
    }
}

/// The views of a sequence of check results.
pub open spec fn check_views(v: Seq<CheckResult>) -> Seq<CheckSpec> {
    v.map_values(|c: CheckResult| c@)
}

/// The triples of a sequence of targets.
pub open spec fn triples_of(ts: Seq<TargetSpec>) -> Seq<Seq<char>> {
    ts.map_values(|t: TargetSpec| t.triple)
}

impl CheckResult {
    /// The result of one check run: the combined output is the standard output, a
    /// newline, then the standard error.
    pub fn from_output(target: &str, stdout: &str, stderr: &str, success: bool) -> (r: CheckResult)
        ensures
            r@ == (CheckSpec { target: target@, success, output: stdout@ + "\n"@ + stderr@ }),
    {
        let mut output = String::from_str(stdout);
        output.append("\n");
        output.append(stderr);
        CheckResult { target: String::from_str(target), success, output }
    }
}

/// The cross-builder runs `cargo check` for multiple targets.
pub struct CrossBuilder {
    db: TargetDb,
}

impl CrossBuilder {
    /// The targets the builder knows.
    pub closed spec fn targets(&self) -> Seq<TargetSpec> {
        self.db@
    }

    pub fn new() -> (b: Self)
        ensures
            b.targets() == builtin_targets_spec(),
    {
        CrossBuilder { db: TargetDb::new() }
    }

    /// The triples to check: the given ones, or else the popular targets.
    pub fn target_list(&self, targets: Option<&[String]>) -> (r: Vec<String>)
        ensures
            string_views(r@) == match targets {
                Some(t) => string_views(t@),
                None => triples_of(select_triples(self.targets(), popular_triples())),
            },
    {
        let mut r: Vec<String> = Vec::new();
        match targets {
            Some(t) => {
                let mut i: usize = 0;
                while i < t.len()
                    invariant
                        i <= t@.len(),
                        string_views(r@) == string_views(t@.take(i as int)),
                    decreases t@.len() - i,
                {
                    let ghost before = r@;
                    r.push(t[i].clone());
                    assert(string_views(r@) =~= string_views(before).push(t@[i as int]@));
                    assert(string_views(t@.take(i + 1)) =~= string_views(t@.take(i as int)).push(
                        t@[i as int]@,
                    ));
                    i = i + 1;
                }
                assert(t@.take(t@.len() as int) =~= t@);
            },
            None => {
                let popular = self.db.popular_targets();
                let mut i: usize = 0;
                while i < popular.len()
                    invariant
                        i <= popular@.len(),
                        ref_views(popular@) == select_triples(self.targets(), popular_triples()),
                        string_views(r@) == triples_of(ref_views(popular@).take(i as int)),
                    decreases popular@.len() - i,
                {
                    let ghost before = r@;
                    r.push(popular[i].triple.clone());
                    assert(string_views(r@) =~= string_views(before).push(popular@[i as int].triple@));
                    assert(triples_of(ref_views(popular@).take(i + 1)) =~= triples_of(
                        ref_views(popular@).take(i as int),
                    ).push(popular@[i as int].triple@));
                    i = i + 1;
                }
                assert(ref_views(popular@).take(popular@.len() as int) =~= ref_views(popular@));
            },
        }
        r
    }
}


/// The last `k` lines (all of them when there are fewer).
pub open spec fn last_lines(ls: Seq<Seq<char>>, k: nat) -> Seq<Seq<char>> {
    if ls.len() <= k {
        ls
    } else {
        ls.skip(ls.len() - k)
    }
}

/// The non-empty lines, in order.
pub open spec fn non_empty(ls: Seq<Seq<char>>) -> Seq<Seq<char>>
    decreases ls.len(),
{
    if ls.len() == 0 {
        Seq::empty()
    } else if ls.last().len() == 0 {
        non_empty(ls.drop_last())
    } else {
        non_empty(ls.drop_last()).push(ls.last())
    }
}

/// The end of a failed run's output that is shown: the non-empty lines among its
/// last five, each indented.
pub open spec fn failure_tail(output: Seq<char>) -> Seq<Seq<char>> {
    non_empty(last_lines(text_lines(output), 5)).map_values(|l: Seq<char>| "     "@ + l)
}

/// How many runs passed.
pub open spec fn count_passed(rs: Seq<CheckSpec>) -> nat
    decreases rs.len(),
{
    if rs.len() == 0 {
        0
    } else {
        count_passed(rs.drop_last()) + if rs.last().success {
            1nat
        } else {
            0nat
        }
    }
}

/// The report of each failed run: its target, then the end of its output.
pub open spec fn failure_blocks(rs: Seq<CheckSpec>) -> Seq<Seq<char>>
    decreases rs.len(),
{
    if rs.len() == 0 {
        Seq::empty()
    } else if rs.last().success {
        failure_blocks(rs.drop_last())
    } else {
        failure_blocks(rs.drop_last()) + seq!["  ❌ "@ + rs.last().target] + failure_tail(
            rs.last().output,
        )
    }
}

/// The summary of the check runs, line by line: the counts, then the failed runs.
pub open spec fn summary_lines(rs: Seq<CheckSpec>) -> Seq<Seq<char>> {
    let passed = count_passed(rs);
    let failed = (rs.len() - passed) as nat;
    seq![
        Seq::empty(),
        "Results: "@ + decimal(passed) + " passed, "@ + decimal(failed) + " failed out of "@
            + decimal(rs.len()) + " targets"@,
    ] + if failed > 0 {
        seq![Seq::empty(), "Failed targets:"@] + failure_blocks(rs)
    } else {
        Seq::empty()
    }
}

/// Whether a summary line names a failed target: it begins with "  ❌ ".
pub open spec fn names_failed_target(l: Seq<char>) -> bool {
    l.len() >= 4 && l.subrange(0, 4) == "  ❌ "@
}

/// The lines of `ls` that name a failed target, in order.
pub open spec fn failed_target_lines(ls: Seq<Seq<char>>) -> Seq<Seq<char>>
    decreases ls.len(),
{
    if ls.len() == 0 {
        Seq::empty()
    } else if names_failed_target(ls.last()) {
        failed_target_lines(ls.drop_last()).push(ls.last())
    } else {
        failed_target_lines(ls.drop_last())
    }
}

/// The targets of the runs that failed, in order.
pub open spec fn failed_targets(rs: Seq<CheckSpec>) -> Seq<Seq<char>>
    decreases rs.len(),
{
    if rs.len() == 0 {
        Seq::empty()
    } else if rs.last().success {
        failed_targets(rs.drop_last())
    } else {
        failed_targets(rs.drop_last()).push(rs.last().target)
    }
}

proof fn lemma_failed_lines_concat(a: Seq<Seq<char>>, b: Seq<Seq<char>>)
    ensures
        failed_target_lines(a + b) == failed_target_lines(a) + failed_target_lines(b),
    decreases b.len(),
{
    if b.len() == 0 {
        assert(a + b =~= a);
        assert(failed_target_lines(a) + failed_target_lines(b) =~= failed_target_lines(a));
    } else {
        lemma_failed_lines_concat(a, b.drop_last());
        assert((a + b).drop_last() =~= a + b.drop_last());
        assert((a + b).last() == b.last());
        assert(failed_target_lines(a + b) =~= failed_target_lines(a) + failed_target_lines(b));
    }
}

proof fn lemma_failed_lines_none(ls: Seq<Seq<char>>)
    requires
        forall|k: int| 0 <= k < ls.len() ==> !names_failed_target(#[trigger] ls[k]),
    ensures
        failed_target_lines(ls) == Seq::<Seq<char>>::empty(),
    decreases ls.len(),
{
    if ls.len() > 0 {
        assert(!names_failed_target(ls[ls.len() - 1]));
        lemma_failed_lines_none(ls.drop_last());
    }
}

proof fn lemma_tail_names_nothing(output: Seq<char>)
    ensures
        failed_target_lines(failure_tail(output)) == Seq::<Seq<char>>::empty(),
{
    reveal_strlit("  ❌ ");
    reveal_strlit("     ");
    let t = failure_tail(output);
    assert forall|k: int| 0 <= k < t.len() implies !names_failed_target(#[trigger] t[k]) by {
        let l = t[k];
        if names_failed_target(l) {
            assert(l[2] == "  ❌ "@[2]);
            assert(l[2] == ' ');
        }
    }
    lemma_failed_lines_none(t);
}

proof fn lemma_blocks_name_failures(rs: Seq<CheckSpec>)
    ensures
        failed_target_lines(failure_blocks(rs)) == failed_targets(rs).map_values(
            |t: Seq<char>| "  ❌ "@ + t,
        ),
        failed_targets(rs).len() + count_passed(rs) == rs.len(),
    decreases rs.len(),
{
    if rs.len() == 0 {
        assert(failed_targets(rs).map_values(|t: Seq<char>| "  ❌ "@ + t) =~= Seq::<Seq<char>>::empty());
    } else {
        let d = rs.drop_last();
        lemma_blocks_name_failures(d);
        if !rs.last().success {
            reveal_strlit("  ❌ ");
            let head = "  ❌ "@ + rs.last().target;
            assert(head.subrange(0, 4) =~= "  ❌ "@);
            assert(names_failed_target(head));
            let fb = failure_blocks(d);
            lemma_failed_lines_concat(fb + seq![head], failure_tail(rs.last().output));
            lemma_failed_lines_concat(fb, seq![head]);
            lemma_tail_names_nothing(rs.last().output);
            let one = seq![head];
            assert(one.drop_last() =~= Seq::<Seq<char>>::empty());
            assert(one.last() == head);
            assert(failed_target_lines(one.drop_last()) == Seq::<Seq<char>>::empty());
            assert(failed_target_lines(one) =~= one);
            assert(failed_targets(rs).map_values(|t: Seq<char>| "  ❌ "@ + t) =~= failed_targets(d).map_values(
                |t: Seq<char>| "  ❌ "@ + t,
            ).push(head));
        }
    }
}

/// The summary names the target of every failed run once, in order, on a line
/// "  ❌ <target>", and no other line begins that way; the failed runs and the
/// passed ones together are all the runs.
pub proof fn lemma_summary_names_each_failure(rs: Seq<CheckSpec>)
    ensures
        failed_target_lines(summary_lines(rs)) == failed_targets(rs).map_values(
            |t: Seq<char>| "  ❌ "@ + t,
        ),
        failed_targets(rs).len() + count_passed(rs) == rs.len(),
{
    lemma_blocks_name_failures(rs);
    reveal_strlit("  ❌ ");
    reveal_strlit("Results: ");
    reveal_strlit("Failed targets:");
    let passed = count_passed(rs);
    let failed = (rs.len() - passed) as nat;
    let counts = "Results: "@ + decimal(passed) + " passed, "@ + decimal(failed) + " failed out of "@
        + decimal(rs.len()) + " targets"@;
    let head = seq![Seq::<char>::empty(), counts];
    assert(counts[0] == 'R');
    assert(!names_failed_target(counts)) by {
        if names_failed_target(counts) {
            assert(counts[0] == "  ❌ "@[0]);
        }
    }
    assert(!names_failed_target(Seq::<char>::empty()));
    lemma_failed_lines_none(head);
    if failed > 0 {
        let mid = seq![Seq::<char>::empty(), "Failed targets:"@];
        assert(!names_failed_target("Failed targets:"@)) by {
            if names_failed_target("Failed targets:"@) {
                assert("Failed targets:"@[0] == "  ❌ "@[0]);
            }
        }
        lemma_failed_lines_none(mid);
        lemma_failed_lines_concat(head, mid + failure_blocks(rs));
        lemma_failed_lines_concat(mid, failure_blocks(rs));
        assert(summary_lines(rs) =~= head + (mid + failure_blocks(rs)));
    } else {
        assert(summary_lines(rs) =~= head);
        assert(failed_targets(rs).map_values(|t: Seq<char>| "  ❌ "@ + t) =~= Seq::<Seq<char>>::empty());
    }
}

proof fn lemma_count_passed_bound(rs: Seq<CheckSpec>)
    ensures
        count_passed(rs) <= rs.len(),
    decreases rs.len(),
{
    if rs.len() > 0 {
        lemma_count_passed_bound(rs.drop_last());
    }
}

/// Appends the end of a failed run's output, indented.
fn push_failure_tail(out: &mut Vec<String>, output: &str)
    ensures
        string_views(final(out)@) == string_views(old(out)@) + failure_tail(output@),
{
    let ls = lines(output);
    let n = ls.len();
    let first: usize = if n <= 5 { 0 } else { n - 5 };
    let ghost all = string_views(ls@);
    let ghost tail = last_lines(all, 5);
    assert(tail =~= all.skip(first as int));
    let mut i: usize = first;
    assert(all.subrange(first as int, first as int) =~= Seq::<Seq<char>>::empty());
    assert(string_views(out@) =~= string_views(old(out)@) + non_empty(
        all.subrange(first as int, first as int),
    ).map_values(|l: Seq<char>| "     "@ + l));
    while i < n
        invariant
            n == ls@.len(),
            all == string_views(ls@),
            first <= i <= n,
            string_views(out@) == string_views(old(out)@) + non_empty(
                all.subrange(first as int, i as int),
            ).map_values(|l: Seq<char>| "     "@ + l),
        decreases n - i,
    {
        let ghost part = all.subrange(first as int, i + 1);
        assert(part.drop_last() =~= all.subrange(first as int, i as int));
        assert(part.last() == ls@[i as int]@);
        let ghost before = out@;
        if ls[i].as_str().unicode_len() != 0 {
            let mut line = String::from_str("     ");
            line.append(ls[i].as_str());
            out.push(line);
            assert(string_views(out@) =~= string_views(before).push(line@));
            assert(non_empty(part).map_values(|l: Seq<char>| "     "@ + l) =~= non_empty(
                part.drop_last(),
            ).map_values(|l: Seq<char>| "     "@ + l).push("     "@ + ls@[i as int]@));
        }
        i = i + 1;
    }
    assert(all.subrange(first as int, n as int) =~= tail);
}

fn count_passed_exec(results: &[CheckResult]) -> (n: usize)
    ensures
        n == count_passed(check_views(results@)),
{
    let ghost rs = check_views(results@);
    let mut n: usize = 0;
    let mut i: usize = 0;
    while i < results.len()
        invariant
            i <= results@.len(),
            rs == check_views(results@),
            n == count_passed(rs.take(i as int)),
            n <= i,
        decreases results@.len() - i,
    {
        assert(rs.take(i + 1).drop_last() =~= rs.take(i as int));
        if results[i].success {
            n = n + 1;
        }
        i = i + 1;
    }
    assert(rs.take(results@.len() as int) =~= rs);
    n
}

fn push_text(out: &mut Vec<String>, s: String)
    ensures
        string_views(final(out)@) == string_views(old(out)@).push(s@),
{
    out.push(s);
    assert(string_views(final(out)@) =~= string_views(old(out)@).push(s@));
}

/// The summary of the check runs, line by line.
pub fn check_summary(results: &[CheckResult]) -> (r: Vec<String>)
    ensures
        string_views(r@) == summary_lines(check_views(results@)),
{
    let ghost rs = check_views(results@);
    let passed = count_passed_exec(results);
    proof {
        lemma_count_passed_bound(rs);
    }
    let failed = results.len() - passed;
    let mut out: Vec<String> = Vec::new();
    push_text(&mut out, String::new());
    let mut line = String::from_str("Results: ");
    push_decimal(&mut line, passed as u64);
    line.append(" passed, ");
    push_decimal(&mut line, failed as u64);
    line.append(" failed out of ");
    push_decimal(&mut line, results.len() as u64);
    line.append(" targets");
    push_text(&mut out, line);
    let ghost head = string_views(out@);
    if failed > 0 {
        push_text(&mut out, String::new());
        push_text(&mut out, String::from_str("Failed targets:"));
        let ghost start = string_views(out@);
        let mut i: usize = 0;
        assert(string_views(out@) =~= start + failure_blocks(rs.take(0)));
        while i < results.len()
            invariant
                i <= results@.len(),
                rs == check_views(results@),
                string_views(out@) == start + failure_blocks(rs.take(i as int)),
            decreases results@.len() - i,
        {
            assert(rs.take(i + 1).drop_last() =~= rs.take(i as int));
            assert(rs.take(i + 1).last() == results@[i as int]@);
            if !results[i].success {
                let mut t = String::from_str("  ❌ ");
                t.append(results[i].target.as_str());
                push_text(&mut out, t);
                push_failure_tail(&mut out, results[i].output.as_str());
                assert(string_views(out@) =~= start + failure_blocks(rs.take(i + 1)));
            }
            i = i + 1;
        }
        assert(rs.take(results@.len() as int) =~= rs);
        assert(string_views(out@) =~= summary_lines(rs));
    } else {
        assert(string_views(out@) =~= summary_lines(rs));
    }
    out
}

} // verus!
