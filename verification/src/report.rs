//! The compatibility matrix: its entries and its renderings.

use vstd::prelude::*;
use vstd::string::*;
use crate::compat::{
    all_deps, compat_all, compat_views, string_views, uses_std_os, CargoToml, CompatResult,
    CompatSpec, CompatibilityChecker, RiskLevel,
};
use crate::cross_build::{check_views, CheckResult, CheckSpec, CrossBuilder};
use crate::suggest::join;
use crate::text_table::{
    cell_forms, cell_new, cell_set_alignment, centered_cell, drawn_table, plain_cell, table_add_row,
    table_load_preset, table_new, table_set_header, table_to_string, utf8_full_preset, Alignment,
    CellForm,
};
use comfy_table::Cell;
use crate::json::{object_views, pretty_json, to_json_pretty, JsonObject, JsonValue, JsonValueSpec};
use crate::compat::clone_strings;
use crate::target_db::{builtin_targets_spec, lookup, TargetDb, TargetSpec};
#[allow(unused_imports)]
use crate::compat::known_platform_crates_spec;

verus! {

/// Output format for the report.
#[derive(Debug, Clone, Copy, PartialEq, Eq, Structural)]
pub enum ReportFormat {
    Table,
    Json,
    Markdown,
}

/// Errors of the report generator.
#[derive(Debug, Clone)]
pub enum ReportError {
    /// The format name that was given matches no format.
    UnknownFormat(String),
}

/// The message of a report error.
pub open spec fn report_error_message(e: ReportError) -> Seq<char> {
    match e {
        ReportError::UnknownFormat(s) => "Unknown format '"@ + s@ + "'. Use: table, json, markdown"@,
    }
}

impl ReportError {
    /// The message of this error.
    pub fn message(&self) -> (m: String)
        ensures
            m@ == report_error_message(*self),
    {
        match self {
            ReportError::UnknownFormat(s) => {
                let mut m = String::from_str("Unknown format '");
                m.append(s.as_str());
                m.append("'. Use: table, json, markdown");
                m
            },
        }
    }
}

/// What `str::to_lowercase` returns for a text.
pub uninterp spec fn lowercase(s: Seq<char>) -> Seq<char>;

/// `str::to_lowercase`: the lowercase equivalent of `s` as defined by the Unicode
/// Lowercase property. The result is named, not restated; it depends on `s` alone.
#[verifier::external_body]
fn to_lowercase(s: &str) -> (r: String)
    ensures
        r@ == lowercase(s@),
{
    s.to_lowercase()
}

/// The format named by an already lower-cased name.
pub open spec fn format_named(lowered: Seq<char>) -> Option<ReportFormat> {
    if lowered == "table"@ {
        Some(ReportFormat::Table)
    } else if lowered == "json"@ {
        Some(ReportFormat::Json)
    } else if lowered == "markdown"@ {
        Some(ReportFormat::Markdown)
    } else {
        None
    }
}

impl ReportFormat {
    /// The format that the lower-cased form `lowered` of the name `name` denotes:
    /// `table`, `json` or `markdown`; any other name is refused with
    /// `UnknownFormat(name)`.
    pub fn from_lowercase(name: &str, lowered: &str) -> (r: Result<ReportFormat, ReportError>)
        ensures
            match format_named(lowered@) {
                Some(f) => r == Ok::<ReportFormat, ReportError>(f),
                None => r matches Err(ReportError::UnknownFormat(s)) && s@ == name@,
            },
    {
        if crate::text::str_eq(lowered, "table") {
            Ok(ReportFormat::Table)
        } else if crate::text::str_eq(lowered, "json") {
            Ok(ReportFormat::Json)
        } else if crate::text::str_eq(lowered, "markdown") {
            Ok(ReportFormat::Markdown)
        } else {
            Err(ReportError::UnknownFormat(String::from_str(name)))
        }
    }

    /// Parse a format name, case-insensitively: `table`, `json` or `markdown`.
    pub fn from_str(s: &str) -> (r: Result<ReportFormat, ReportError>)
        ensures
            match format_named(lowercase(s@)) {
                Some(f) => r == Ok::<ReportFormat, ReportError>(f),
                None => r matches Err(ReportError::UnknownFormat(e)) && e@ == s@,
            },
    {
        let lowered = to_lowercase(s);
        Self::from_lowercase(s, lowered.as_str())
    }
}

/// Compatibility matrix entry.
#[derive(Debug, Clone)]
pub struct MatrixEntry {
    pub target: String,
    pub os: String,
    pub arch: String,
    pub compat_risk: RiskLevel,
    pub check_passed: Option<bool>,
    pub notes: Vec<String>,
}

/// The mathematical content of a [`MatrixEntry`].
pub struct MatrixSpec {
    pub target: Seq<char>,
    pub os: Seq<char>,
    pub arch: Seq<char>,
    pub compat_risk: RiskLevel,
    pub check_passed: Option<bool>,
    pub notes: Seq<Seq<char>>,
}

impl View for MatrixEntry {
    type V = MatrixSpec;

    open spec fn view(&self) -> MatrixSpec {
        MatrixSpec {
            target: self.target@,
            os: self.os@,
            arch: self.arch@,
            compat_risk: self.compat_risk,
            check_passed: self.check_passed,
            notes: string_views(self.notes@),
        }
    }
}

/// The views of a sequence of matrix entries.
pub open spec fn matrix_views(v: Seq<MatrixEntry>) -> Seq<MatrixSpec> {
    v.map_values(|e: MatrixEntry| e@)
}

/// Whether the first check run of `target` passed, if it was checked.
pub open spec fn first_check(checks: Seq<CheckSpec>, target: Seq<char>) -> Option<bool>
    decreases checks.len(),
{
    if checks.len() == 0 {
        None
    } else if checks[0].target == target {
        Some(checks[0].success)
    } else {
        first_check(checks.drop_first(), target)
    }
}

/// Whether a target passes the optional list of wanted triples.
pub open spec fn wanted(filter: Option<Seq<Seq<char>>>, target: Seq<char>) -> bool {
    match filter {
        Some(f) => f.contains(target),
        None => true,
    }
}

/// The matrix entry of one compatibility result; the OS and architecture come from
/// the first database target with its triple, and are empty without one.
pub open spec fn entry_of(c: CompatSpec, db: Seq<TargetSpec>, checks: Seq<CheckSpec>) -> MatrixSpec {
    MatrixSpec {
        target: c.target,
        os: match lookup(db, c.target) {
            Some(t) => t.os,
            None => Seq::empty(),
        },
        arch: match lookup(db, c.target) {
            Some(t) => t.arch,
            None => Seq::empty(),
        },
        compat_risk: c.risk,
        check_passed: first_check(checks, c.target),
        notes: c.notes,
    }
}

/// The matrix: one entry per wanted compatibility result, in order.
pub open spec fn matrix_of(
    compat: Seq<CompatSpec>,
    db: Seq<TargetSpec>,
    filter: Option<Seq<Seq<char>>>,
    checks: Seq<CheckSpec>,
) -> Seq<MatrixSpec>
    decreases compat.len(),
{
    if compat.len() == 0 {
        Seq::empty()
    } else {
        let rest = matrix_of(compat.drop_last(), db, filter, checks);
        if wanted(filter, compat.last().target) {
            rest.push(entry_of(compat.last(), db, checks))
        } else {
            rest
        }
    }
}

/// Without a list of wanted triples the matrix has one entry per compatibility
/// result, in order; without check runs no entry has a check outcome.
pub proof fn lemma_matrix_unfiltered(compat: Seq<CompatSpec>, db: Seq<TargetSpec>, checks: Seq<CheckSpec>)
    ensures
        matrix_of(compat, db, None, checks).len() == compat.len(),
        forall|k: int|
            0 <= k < compat.len() ==> #[trigger] matrix_of(compat, db, None, checks)[k] == entry_of(
                compat[k],
                db,
                checks,
            ),
        checks.len() == 0 ==> forall|k: int|
            0 <= k < compat.len() ==> (#[trigger] matrix_of(compat, db, None, checks)[k]).check_passed
                is None,
    decreases compat.len(),
{
    if compat.len() > 0 {
        let d = compat.drop_last();
        lemma_matrix_unfiltered(d, db, checks);
        assert forall|k: int| 0 <= k < compat.len() implies #[trigger] matrix_of(
            compat,
            db,
            None,
            checks,
        )[k] == entry_of(compat[k], db, checks) by {
            if k < d.len() {
                assert(d[k] == compat[k]);
            }
        }
    }
}

/// Every entry of the matrix is for a wanted triple, and is the entry of one of the
/// compatibility results.
pub proof fn lemma_matrix_wanted(
    compat: Seq<CompatSpec>,
    db: Seq<TargetSpec>,
    filter: Option<Seq<Seq<char>>>,
    checks: Seq<CheckSpec>,
)
    ensures
        forall|k: int|
            0 <= k < matrix_of(compat, db, filter, checks).len() ==> wanted(
                filter,
                (#[trigger] matrix_of(compat, db, filter, checks)[k]).target,
            ),
        matrix_of(compat, db, filter, checks).len() <= compat.len(),
    decreases compat.len(),
{
    if compat.len() > 0 {
        let d = compat.drop_last();
        lemma_matrix_wanted(d, db, filter, checks);
        let prev = matrix_of(d, db, filter, checks);
        assert forall|k: int| 0 <= k < matrix_of(compat, db, filter, checks).len() implies wanted(
            filter,
            (#[trigger] matrix_of(compat, db, filter, checks)[k]).target,
        ) by {
            if k < prev.len() {
                assert(matrix_of(compat, db, filter, checks)[k] == prev[k]);
            }
        }
    }
}

/// The texts of an optional list of triples.
pub open spec fn opt_strings(t: Option<&[String]>) -> Option<Seq<Seq<char>>> {
    match t {
        Some(v) => Some(string_views(v@)),
        None => None,
    }
}

fn first_check_exec(checks: &[CheckResult], target: &String) -> (r: Option<bool>)
    ensures
        r == first_check(check_views(checks@), target@),
{
    let ghost cs = check_views(checks@);
    let mut i: usize = 0;
    assert(cs.skip(0) =~= cs);
    while i < checks.len()
        invariant
            i <= checks@.len(),
            cs == check_views(checks@),
            first_check(cs, target@) == first_check(cs.skip(i as int), target@),
        decreases checks@.len() - i,
    {
        assert(cs.skip(i as int)[0] == checks@[i as int]@);
        if checks[i].target == *target {
            return Some(checks[i].success);
        }
        assert(cs.skip(i as int).drop_first() =~= cs.skip(i + 1));
        i = i + 1;
    }
    None
}

fn strings_contain(list: &[String], s: &String) -> (b: bool)
    ensures
        b == string_views(list@).contains(s@),
{
    let mut i: usize = 0;
    while i < list.len()
        invariant
            i <= list@.len(),
            forall|k: int| 0 <= k < i ==> list@[k]@ != s@,
        decreases list@.len() - i,
    {
        if list[i] == *s {
            assert(string_views(list@)[i as int] == s@);
            return true;
        }
        i = i + 1;
    }
    assert(!string_views(list@).contains(s@)) by {
        if string_views(list@).contains(s@) {
            let k = choose|k: int| 0 <= k < list@.len() && string_views(list@)[k] == s@;
            assert(list@[k]@ == s@);
        }
    }
    false
}

/// The icon of a risk level in the matrix.
pub open spec fn risk_icon(r: RiskLevel) -> Seq<char> {
    match r {
        RiskLevel::Safe => "✅"@,
        RiskLevel::Warning => "⚠️"@,
        RiskLevel::Danger => "❌"@,
    }
}

/// The icon of a check outcome in the matrix.
pub open spec fn check_icon(c: Option<bool>) -> Seq<char> {
    match c {
        Some(true) => "✅"@,
        Some(false) => "❌"@,
        None => "—"@,
    }
}

/// The word for a risk level in JSON reports.
pub open spec fn risk_word(r: RiskLevel) -> Seq<char> {
    match r {
        RiskLevel::Safe => "safe"@,
        RiskLevel::Warning => "warning"@,
        RiskLevel::Danger => "danger"@,
    }
}

/// The Markdown line of one matrix entry.
pub open spec fn markdown_row(e: MatrixSpec) -> Seq<char> {
    "| "@ + e.target + " | "@ + e.os + " | "@ + e.arch + " | "@ + risk_icon(e.compat_risk) + " | "@
        + check_icon(e.check_passed) + " | "@ + join(e.notes, "; "@) + " |\n"@
}

/// The Markdown lines of the entries, in order.
pub open spec fn markdown_rows(es: Seq<MatrixSpec>) -> Seq<char>
    decreases es.len(),
{
    if es.len() == 0 {
        Seq::empty()
    } else {
        markdown_rows(es.drop_last()) + markdown_row(es.last())
    }
}

/// The Markdown table of a matrix: a header line, a separator line, and one line
/// per entry.
pub open spec fn markdown_text(es: Seq<MatrixSpec>) -> Seq<char> {
    "| Target | OS | Arch | Compat | Check | Notes |\n"@
        + "|--------|-----|------|--------|-------|-------|\n"@ + markdown_rows(es)
}

pub(crate) fn risk_icon_str(r: RiskLevel) -> (s: &'static str)
    ensures
        s@ == risk_icon(r),
{
    match r {
        RiskLevel::Safe => "✅",
        RiskLevel::Warning => "⚠️",
        RiskLevel::Danger => "❌",
    }
}

fn check_icon_str(c: Option<bool>) -> (s: &'static str)
    ensures
        s@ == check_icon(c),
{
    match c {
        Some(true) => "✅",
        Some(false) => "❌",
        None => "—",
    }
}

/// The strings joined by the separator.
pub fn join_strings(parts: &Vec<String>, sep: &str) -> (r: String)
    ensures
        r@ == join(string_views(parts@), sep@),
{
    let mut r = String::new();
    let mut i: usize = 0;
    while i < parts.len()
        invariant
            i <= parts@.len(),
            r@ == join(string_views(parts@.take(i as int)), sep@),
        decreases parts@.len() - i,
    {
        let ghost ps = string_views(parts@.take(i + 1));
        assert(ps.drop_last() =~= string_views(parts@.take(i as int)));
        assert(ps.last() == parts@[i as int]@);
        if i != 0 {
            r.append(sep);
        } else {
            assert(r@ =~= Seq::<char>::empty());
        }
        r.append(parts[i].as_str());
        i = i + 1;
    }
    assert(parts@.take(parts@.len() as int) =~= parts@);
    r
}

/// Appends the Markdown line of one entry.
fn push_markdown_row(md: &mut String, entry: &MatrixEntry)
    ensures
        final(md)@ == old(md)@ + markdown_row(entry@),
{
    let notes = join_strings(&entry.notes, "; ");
    md.append("| ");
    md.append(entry.target.as_str());
    md.append(" | ");
    md.append(entry.os.as_str());
    md.append(" | ");
    md.append(entry.arch.as_str());
    md.append(" | ");
    md.append(risk_icon_str(entry.compat_risk));
    md.append(" | ");
    md.append(check_icon_str(entry.check_passed));
    md.append(" | ");
    md.append(notes.as_str());
    md.append(" |\n");
    assert(final(md)@ =~= old(md)@ + markdown_row(entry@));
}

/// The header cells of the matrix table.
pub open spec fn table_header_cells() -> Seq<CellForm> {
    seq![
        plain_cell("Target"@),
        plain_cell("OS"@),
        plain_cell("Arch"@),
        plain_cell("Compat"@),
        plain_cell("Check"@),
        plain_cell("Notes"@),
    ]
}

/// The cells of one entry in the matrix table; the two icons are centred.
pub open spec fn table_row_cells(e: MatrixSpec) -> Seq<CellForm> {
    seq![
        plain_cell(e.target),
        plain_cell(e.os),
        plain_cell(e.arch),
        centered_cell(risk_icon(e.compat_risk)),
        centered_cell(check_icon(e.check_passed)),
        plain_cell(join(e.notes, "; "@)),
    ]
}

/// The matrix drawn as a table in the `UTF8_FULL` style.
pub open spec fn matrix_table_text(es: Seq<MatrixSpec>) -> Seq<char> {
    drawn_table(
        "││──╞═╪╡┆╌┼├┤┬┴┌┐└┘"@,
        Some(table_header_cells()),
        es.map_values(|e: MatrixSpec| table_row_cells(e)),
    )
}

/// The Check cell of the matrix table shows "✅" for a passed check, "❌" for a
/// failed one and "—" for a target that was not checked.
pub proof fn lemma_check_cell_icons(e: MatrixSpec)
    ensures
        table_row_cells(e).len() == 6,
        e.check_passed == Some(true) ==> table_row_cells(e)[4].text == "✅"@,
        e.check_passed == Some(false) ==> table_row_cells(e)[4].text == "❌"@,
        e.check_passed is None ==> table_row_cells(e)[4].text == "—"@,
{
}

/// Two entries that differ only in their check outcome get different Markdown
/// lines: the Check column tells passed, failed and unchecked targets apart.
pub proof fn lemma_markdown_check_distinguishes(e1: MatrixSpec, e2: MatrixSpec)
    requires
        e1.target == e2.target,
        e1.os == e2.os,
        e1.arch == e2.arch,
        e1.compat_risk == e2.compat_risk,
        e1.notes == e2.notes,
    ensures
        markdown_row(e1) == markdown_row(e2) <==> e1.check_passed == e2.check_passed,
{
    reveal_strlit("✅");
    reveal_strlit("❌");
    reveal_strlit("—");
    if e1.check_passed != e2.check_passed {
        let p = "| "@ + e1.target + " | "@ + e1.os + " | "@ + e1.arch + " | "@ + risk_icon(
            e1.compat_risk,
        ) + " | "@;
        let rest = " | "@ + join(e1.notes, "; "@) + " |\n"@;
        let c1 = check_icon(e1.check_passed);
        let c2 = check_icon(e2.check_passed);
        assert(markdown_row(e1) =~= p + c1 + rest);
        assert(markdown_row(e2) =~= p + c2 + rest);
        assert(c1.len() == 1 && c2.len() == 1);
        assert(c1[0] != c2[0]);
        assert((p + c1 + rest)[p.len() as int] == c1[0]);
        assert((p + c2 + rest)[p.len() as int] == c2[0]);
    }
}

/// The cells of one entry in the matrix table.
fn row_cells(entry: &MatrixEntry) -> (cells: Vec<Cell>)
    ensures
        cell_forms(cells@) == table_row_cells(entry@),
{
    let notes = if entry.notes.len() == 0 {
        String::new()
    } else {
        join_strings(&entry.notes, "; ")
    };
    assert(entry.notes@.len() == 0 ==> notes@ == join(entry@.notes, "; "@));
    let mut cells: Vec<Cell> = Vec::new();
    cells.push(cell_new(entry.target.as_str()));
    cells.push(cell_new(entry.os.as_str()));
    cells.push(cell_new(entry.arch.as_str()));
    cells.push(cell_set_alignment(cell_new(risk_icon_str(entry.compat_risk)), Alignment::Center));
    cells.push(cell_set_alignment(cell_new(check_icon_str(entry.check_passed)), Alignment::Center));
    cells.push(cell_new(notes.as_str()));
    assert(cell_forms(cells@) =~= table_row_cells(entry@));
    cells
}

/// The JSON object of one matrix entry.
pub open spec fn matrix_json_object(e: MatrixSpec) -> Seq<(Seq<char>, JsonValueSpec)> {
    seq![
        ("target"@, JsonValueSpec::Text(e.target)),
        ("os"@, JsonValueSpec::Text(e.os)),
        ("arch"@, JsonValueSpec::Text(e.arch)),
        ("compatibility"@, JsonValueSpec::Text(risk_word(e.compat_risk))),
        ("check_passed"@, JsonValueSpec::Flag(e.check_passed)),
        ("notes"@, JsonValueSpec::List(e.notes)),
    ]
}

/// The JSON report of a matrix.
pub open spec fn matrix_json_text(es: Seq<MatrixSpec>) -> Seq<char> {
    pretty_json(es.map_values(|e: MatrixSpec| matrix_json_object(e)))
}

fn matrix_json_object_exec(entry: &MatrixEntry) -> (o: JsonObject)
    ensures
        o@ == matrix_json_object(entry@),
{
    let mut fields: Vec<(String, JsonValue)> = Vec::new();
    fields.push((String::from_str("target"), JsonValue::Text(entry.target.clone())));
    fields.push((String::from_str("os"), JsonValue::Text(entry.os.clone())));
    fields.push((String::from_str("arch"), JsonValue::Text(entry.arch.clone())));
    let word = ReportGenerator::risk_word(entry.compat_risk);
    fields.push((String::from_str("compatibility"), JsonValue::Text(word)));
    fields.push((String::from_str("check_passed"), JsonValue::Flag(entry.check_passed)));
    fields.push((String::from_str("notes"), JsonValue::List(clone_strings(&entry.notes))));
    let o = JsonObject { fields };
    assert(o@ =~= matrix_json_object(entry@));
    o
}

/// Generate a compatibility matrix report.
pub struct ReportGenerator {
    db: TargetDb,
    checker: CompatibilityChecker,
    builder: CrossBuilder,
}

impl ReportGenerator {
    /// The targets whose OS and architecture the matrix shows.
    pub closed spec fn targets(&self) -> Seq<TargetSpec> {
        self.db@
    }

    /// The checker that scores the targets.
    pub closed spec fn checker(&self) -> CompatibilityChecker {
        self.checker
    }

    /// The builder that plans check runs.
    pub closed spec fn builder(&self) -> CrossBuilder {
        self.builder
    }

    pub fn new() -> (g: Self)
        ensures
            g.targets() == builtin_targets_spec(),
            g.checker().targets() == builtin_targets_spec(),
            g.checker().platforms() == known_platform_crates_spec(),
            g.builder().targets() == builtin_targets_spec(),
    {
        ReportGenerator {
            db: TargetDb::new(),
            checker: CompatibilityChecker::new(),
            builder: CrossBuilder::new(),
        }
    }

    /// The builder that plans the check runs whose results [`Self::generate`] takes.
    pub fn cross_builder(&self) -> (b: &CrossBuilder)
        ensures
            b == self.builder(),
    {
        &self.builder
    }

    /// Generate the compatibility matrix of a manifest (text `content`, dependency
    /// names `cargo`): one entry per target that `targets` names (all targets
    /// without a list), with the outcome of its first run among `checks`, if any.
    pub fn generate(
        &self,
        content: &str,
        cargo: &CargoToml,
        targets: Option<&[String]>,
        checks: &[CheckResult],
    ) -> (r: Vec<MatrixEntry>)
        ensures
            matrix_views(r@) == matrix_of(
                compat_all(
                    self.checker().targets(),
                    all_deps(*cargo),
                    uses_std_os(content@),
                    self.checker().platforms(),
                ),
                self.targets(),
                opt_strings(targets),
                check_views(checks@),
            ),
    {
        let compat_results = self.checker.check(content, cargo);
        let ghost cs = compat_views(compat_results@);
        let ghost filter = opt_strings(targets);
        let ghost chk = check_views(checks@);
        let mut matrix: Vec<MatrixEntry> = Vec::new();
        let mut i: usize = 0;
        assert(matrix_views(matrix@) =~= matrix_of(cs.take(0), self.targets(), filter, chk));
        while i < compat_results.len()
            invariant
                i <= compat_results@.len(),
                cs == compat_views(compat_results@),
                filter == opt_strings(targets),
                chk == check_views(checks@),
                matrix_views(matrix@) == matrix_of(cs.take(i as int), self.targets(), filter, chk),
            decreases compat_results@.len() - i,
        {
            let cr = &compat_results[i];
            let ghost prev = matrix_views(matrix@);
            assert(cs.take(i + 1).drop_last() =~= cs.take(i as int));
            assert(cs.take(i + 1).last() == cr@);
            let keep = match targets {
                Some(list) => strings_contain(list, &cr.target),
                None => true,
            };
            if keep {
                let info = self.db.get(cr.target.as_str());
                let os = match info {
                    Some(t) => t.os.clone(),
                    None => String::new(),
                };
                let arch = match info {
                    Some(t) => t.arch.clone(),
                    None => String::new(),
                };
                let entry = MatrixEntry {
                    target: cr.target.clone(),
                    os,
                    arch,
                    compat_risk: cr.risk,
                    check_passed: first_check_exec(checks, &cr.target),
                    notes: crate::compat::clone_strings(&cr.notes),
                };
                matrix.push(entry);
                assert(matrix_views(matrix@) =~= prev.push(entry_of(cr@, self.targets(), chk)));
            }
            i = i + 1;
        }
        assert(cs.take(compat_results@.len() as int) =~= cs);
        matrix
    }

    /// The word for a risk level in JSON reports: `safe`, `warning` or `danger`.
    pub fn risk_word(r: RiskLevel) -> (s: String)
        ensures
            s@ == risk_word(r),
    {
        match r {
            RiskLevel::Safe => String::from_str("safe"),
            RiskLevel::Warning => String::from_str("warning"),
            RiskLevel::Danger => String::from_str("danger"),
        }
    }

    /// Render the matrix as a table drawn with box characters.
    pub fn render_table(matrix: &[MatrixEntry]) -> (text: String)
        ensures
            text@ == matrix_table_text(matrix_views(matrix@)),
    {
        let mut table = table_new();
        let preset = utf8_full_preset();
        proof {
            reveal_strlit("││──╞═╪╡┆╌┼├┤┬┴┌┐└┘");
        }
        table_load_preset(&mut table, preset);
        let mut header: Vec<Cell> = Vec::new();
        header.push(cell_new("Target"));
        header.push(cell_new("OS"));
        header.push(cell_new("Arch"));
        header.push(cell_new("Compat"));
        header.push(cell_new("Check"));
        header.push(cell_new("Notes"));
        assert(cell_forms(header@) =~= table_header_cells());
        table_set_header(&mut table, header);
        let ghost es = matrix_views(matrix@);
        let ghost rows = es.map_values(|e: MatrixSpec| table_row_cells(e));
        let mut i: usize = 0;
        while i < matrix.len()
            invariant
                i <= matrix@.len(),
                es == matrix_views(matrix@),
                rows == es.map_values(|e: MatrixSpec| table_row_cells(e)),
                crate::text_table::table_default_settings(table),
                crate::text_table::table_style(table) == "││──╞═╪╡┆╌┼├┤┬┴┌┐└┘"@,
                crate::text_table::table_header(table) == Some(table_header_cells()),
                crate::text_table::table_rows(table) == rows.take(i as int),
            decreases matrix@.len() - i,
        {
            let cells = row_cells(&matrix[i]);
            table_add_row(&mut table, cells);
            assert(rows.take(i + 1) =~= rows.take(i as int).push(table_row_cells(es[i as int])));
            i = i + 1;
        }
        assert(rows.take(matrix@.len() as int) =~= rows);
        assert(crate::text_table::all_plain(Some(table_header_cells()), rows));
        table_to_string(&table)
    }

    /// Render the matrix as Markdown.
    pub fn render_markdown(matrix: &[MatrixEntry]) -> (md: String)
        ensures
            md@ == markdown_text(matrix_views(matrix@)),
    {
        let mut md = String::from_str("| Target | OS | Arch | Compat | Check | Notes |\n");
        md.append("|--------|-----|------|--------|-------|-------|\n");
        let ghost es = matrix_views(matrix@);
        let mut i: usize = 0;
        assert(md@ =~= markdown_text(es.take(0)));
        while i < matrix.len()
            invariant
                i <= matrix@.len(),
                es == matrix_views(matrix@),
                md@ == markdown_text(es.take(i as int)),
            decreases matrix@.len() - i,
        {
            let entry = &matrix[i];
            assert(es.take(i + 1).drop_last() =~= es.take(i as int));
            assert(es.take(i + 1).last() == entry@);
            push_markdown_row(&mut md, entry);
            i = i + 1;
            assert(md@ =~= markdown_text(es.take(i as int)));
        }
        assert(es.take(matrix@.len() as int) =~= es);
        md
    }

    /// Render the matrix as JSON: an array with one object per entry, whose
    /// keys are `target`, `os`, `arch`, `compatibility`, `check_passed` and
    /// `notes`.
    pub fn render_json(matrix: &[MatrixEntry]) -> (r: Result<String, ReportError>)
        ensures
            r is Ok,
            r->Ok_0@ == matrix_json_text(matrix_views(matrix@)),
    {
        let ghost es = matrix_views(matrix@);
        let ghost objs = es.map_values(|e: MatrixSpec| matrix_json_object(e));
        let mut objects: Vec<JsonObject> = Vec::new();
        let mut i: usize = 0;
        while i < matrix.len()
            invariant
                i <= matrix@.len(),
                es == matrix_views(matrix@),
                objs == es.map_values(|e: MatrixSpec| matrix_json_object(e)),
                object_views(objects@) == objs.take(i as int),
            decreases matrix@.len() - i,
        {
            let o = matrix_json_object_exec(&matrix[i]);
            let ghost before = objects@;
            objects.push(o);
            assert(object_views(objects@) =~= object_views(before).push(objs[i as int]));
            assert(objs.take(i + 1) =~= objs.take(i as int).push(objs[i as int]));
            i = i + 1;
        }
        assert(objs.take(matrix@.len() as int) =~= objs);
        Ok(to_json_pretty(&objects))
    }
}

} // verus!
