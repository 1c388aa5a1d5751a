//! Structural validation of acceptance requirements and evidence locators.
use super::coverage::{collect_flow_cases, fcs_view, flow_cases_spec};
use super::model::{first_tag_journeys, FlowCase, MatrixRow};
use crate::acceptance_matrix::producer::validation::named_parts;
use crate::paths::{has_special_component, special_component};
use crate::strset::{contains_str_in, set_insert, sorted, strings_of};
use crate::text::{
    cat, cat3, chars_of, contains, contains_str, ends_with, has_char, has_char_exec, split_char, split_str,
    split_ws, split_ws_str, starts_with, starts_with_str, to_string, trim, trim_str,
};
use vstd::prelude::*;

verus! {

/// `value` is one of `allowed`.
pub fn require_enum(field: &str, value: &str, allowed: &Vec<&str>, row: &MatrixRow) -> (r: Result<(), String>)
    ensures
        r is Ok <==> exists|i: int| 0 <= i < allowed@.len() && #[trigger] allowed@[i]@ == value@,
{
    let mut i: usize = 0;
    while i < allowed.len()
        invariant
            i <= allowed.len(),
            forall|k: int| 0 <= k < i ==> #[trigger] allowed@[k]@ != value@,
        decreases allowed.len() - i,
    {
        if crate::text::eq_str(allowed[i], value) {
            return Ok(());
        }
        i += 1;
    }
    let head = cat3("acceptance-matrix: ", row.requirement_id.as_str(), " has invalid ");
    let mid = cat3(head.as_str(), field, "=");
    Err(cat(mid.as_str(), value))
}

/// A gap names a concrete missing fact: its trimmed note has at least 16
/// bytes and is neither the evidence id nor the locator.
pub open spec fn gap_ok(row: MatrixRow) -> bool {
    let note = trim(row.note@);
    crate::text::utf8_len(note) >= 16 && note != row.evidence_id@ && note != row.evidence_ref@
}

pub fn validate_gap(row: &MatrixRow) -> (r: Result<(), String>)
    ensures
        r is Ok <==> gap_ok(*row),
{
    let note = trim_str(row.note.as_str());
    let n = note.as_str();
    if !crate::text::utf8_len_at_least(n, 16) || crate::text::eq_str(n, row.evidence_id.as_str()) || crate::text::eq_str(n, row.evidence_ref.as_str()) {
        return Err(cat3("acceptance-matrix: ", row.requirement_id.as_str(), " gap must describe the concrete missing fact"));
    }
    Ok(())
}

/// The final component of a path (`Path::file_name`), when it has one.
pub open spec fn file_name(p: Seq<char>) -> Option<Seq<char>> {
    let named = named_parts(split_char(p, '/'));
    if named.len() > 0 && named.last() != seq!['.', '.'] {
        Some(named.last())
    } else {
        None
    }
}

/// A receipt locator: a relative forward-slash path of normal components
/// whose file name has the extension `json`.
pub open spec fn receipt_ref_ok(r: Seq<char>) -> bool {
    &&& !has_special_component(r)
    &&& !has_char(r, '\\')
    &&& file_name(r) matches Some(f) && f.len() > 5 && ends_with(f, ".json"@)
}

pub fn validate_receipt_ref(row: &MatrixRow) -> (r: Result<(), String>)
    ensures
        r is Ok <==> receipt_ref_ok(row.evidence_ref@),
{
    let reference = row.evidence_ref.as_str();
    let fail = cat3("acceptance-matrix: ", row.requirement_id.as_str(), " receipt locator must be a canonical relative JSON path");
    if special_component(reference) || has_char_exec(&chars_of(reference), '\\') {
        return Err(fail);
    }
    let name = crate::acceptance_matrix::producer::validation::program_name_raw(reference);
    match name {
        Some(f) => {
            let fc = chars_of(f.as_str());
            if fc.len() > 5 && crate::text::ends_with_str(f.as_str(), ".json") {
                Ok(())
            } else {
                Err(fail)
            }
        },
        None => Err(fail),
    }
}

pub open spec fn requirement_ok(v: Seq<char>) -> bool {
    v == "required"@ || v == "conditional"@ || v == "non-goal"@
}

pub open spec fn gate_ok(v: Seq<char>) -> bool {
    v == "ci"@ || v == "release"@ || v == "tag-ready"@ || v == "advisory"@
}

pub open spec fn freshness_ok(v: Seq<char>) -> bool {
    v == "source-bound"@ || v == "current-head"@ || v == "target-host-30d"@ || v == "first-tag-once"@ || v == "none"@
}

pub open spec fn evidence_kind_ok(v: Seq<char>) -> bool {
    v == "source-ref"@ || v == "test"@ || v == "script"@ || v == "document"@ || v == "receipt"@ || v
        == "external-state"@ || v == "gap"@
}

/// All twelve required columns are non-empty.
pub open spec fn nonempty_ok(r: MatrixRow) -> bool {
    &&& r.requirement_id@.len() > 0 && r.journey_id@.len() > 0 && r.flow_id@.len() > 0 && r.case_id@.len() > 0
    &&& r.surface@.len() > 0 && r.mode@.len() > 0 && r.gate@.len() > 0 && r.requirement@.len() > 0
    &&& r.evidence_kind@.len() > 0 && r.evidence_id@.len() > 0 && r.evidence_ref@.len() > 0 && r.freshness@.len() > 0
}

/// Every enum value is controlled, a rationale stands where the requirement
/// is not plain required, and required tag-ready rows have a freshness.
pub open spec fn row_rules_ok(r: MatrixRow) -> bool {
    &&& requirement_ok(r.requirement@)
    &&& gate_ok(r.gate@)
    &&& freshness_ok(r.freshness@)
    &&& evidence_kind_ok(r.evidence_kind@)
    &&& ((r.requirement@ == "conditional"@ || r.requirement@ == "non-goal"@) ==> trim(r.note@).len() > 0)
    &&& !(r.requirement@ == "required"@ && r.gate@ == "tag-ready"@ && r.freshness@ == "none"@)
}

/// A row's own fields are well formed.
pub open spec fn row_shape_ok(r: MatrixRow) -> bool {
    nonempty_ok(r) && row_rules_ok(r)
}

fn require_nonempty(r: &MatrixRow) -> (res: Result<(), String>)
    ensures
        res is Ok <==> nonempty_ok(*r),
{
    let id = r.requirement_id.as_str();
    let fields: Vec<(&str, &str)> = vec![
        ("requirement_id", r.requirement_id.as_str()),
        ("journey_id", r.journey_id.as_str()),
        ("flow_id", r.flow_id.as_str()),
        ("case_id", r.case_id.as_str()),
        ("surface", r.surface.as_str()),
        ("mode", r.mode.as_str()),
        ("gate", r.gate.as_str()),
        ("requirement", r.requirement.as_str()),
        ("evidence_kind", r.evidence_kind.as_str()),
        ("evidence_id", r.evidence_id.as_str()),
        ("evidence_ref", r.evidence_ref.as_str()),
        ("freshness", r.freshness.as_str()),
    ];
    let mut k: usize = 0;
    while k < fields.len()
        invariant
            k <= fields.len(),
            fields@.len() == 12,
            fields@[0].1@ == r.requirement_id@,
            fields@[1].1@ == r.journey_id@,
            fields@[2].1@ == r.flow_id@,
            fields@[3].1@ == r.case_id@,
            fields@[4].1@ == r.surface@,
            fields@[5].1@ == r.mode@,
            fields@[6].1@ == r.gate@,
            fields@[7].1@ == r.requirement@,
            fields@[8].1@ == r.evidence_kind@,
            fields@[9].1@ == r.evidence_id@,
            fields@[10].1@ == r.evidence_ref@,
            fields@[11].1@ == r.freshness@,
            forall|q: int| 0 <= q < k ==> (#[trigger] fields@[q]).1@.len() > 0,
        decreases fields.len() - k,
    {
        if fields[k].1.is_empty() {
            let head = cat3("acceptance-matrix: ", id, " has empty ");
            return Err(cat(head.as_str(), fields[k].0));
        }
        k += 1;
    }
    assert(fields@[0].1@.len() > 0 && fields@[1].1@.len() > 0 && fields@[2].1@.len() > 0 && fields@[3].1@.len() > 0);
    assert(fields@[4].1@.len() > 0 && fields@[5].1@.len() > 0 && fields@[6].1@.len() > 0 && fields@[7].1@.len() > 0);
    assert(fields@[8].1@.len() > 0 && fields@[9].1@.len() > 0 && fields@[10].1@.len() > 0 && fields@[11].1@.len() > 0);
    Ok(())
}

fn check_row_rules(r: &MatrixRow) -> (res: Result<(), String>)
    ensures
        res is Ok <==> row_rules_ok(*r),
{
    let id = r.requirement_id.as_str();
    let requirements = vec!["required", "conditional", "non-goal"];
    let gates = vec!["ci", "release", "tag-ready", "advisory"];
    let freshness = vec!["source-bound", "current-head", "target-host-30d", "first-tag-once", "none"];
    let kinds = vec!["source-ref", "test", "script", "document", "receipt", "external-state", "gap"];
    require_enum("requirement", r.requirement.as_str(), &requirements, r)?;
    require_enum("gate", r.gate.as_str(), &gates, r)?;
    require_enum("freshness", r.freshness.as_str(), &freshness, r)?;
    require_enum("evidence_kind", r.evidence_kind.as_str(), &kinds, r)?;
    let req = r.requirement.as_str();
    if (crate::text::eq_str(req, "conditional") || crate::text::eq_str(req, "non-goal")) && trim_str(r.note.as_str()).as_str().is_empty() {
        return Err(cat3("acceptance-matrix: ", id, " requires a concrete rationale"));
    }
    if crate::text::eq_str(req, "required") && crate::text::eq_str(r.gate.as_str(), "tag-ready") && crate::text::eq_str(
        r.freshness.as_str(),
        "none",
    ) {
        return Err(cat3("acceptance-matrix: tag-ready requirement ", id, " cannot have freshness=none"));
    }
    Ok(())
}

/// An evidence path: the part before `#` is relative, has no `..`, and is
/// a repository file.
pub open spec fn evidence_path_ok(reference: Seq<char>, files: Set<Seq<char>>) -> bool {
    let rel = split_char(reference, '#')[0];
    !(rel.len() > 0 && rel[0] == '/') && !contains(rel, ".."@) && files.contains(rel)
}

fn validate_path(reference: &str, shown: &str, row: &MatrixRow, files: &Vec<String>) -> (r: Result<(), String>)
    ensures
        r is Ok <==> evidence_path_ok(reference@, files.deep_view().to_set()),
{
    let parts = split_str(reference, '#');
    proof {
        crate::text::lemma_split_char_nonempty(reference@, '#');
    }
    assert(parts.deep_view()[0] == parts@[0]@);
    let rel = parts[0].as_str();
    let rc = chars_of(rel);
    if (rc.len() > 0 && rc[0] == '/') || contains_str(rel, "..") || !contains_str_in(files, rel) {
        let head = cat3("acceptance-matrix: ", row.requirement_id.as_str(), " evidence path is missing or unsafe: ");
        return Err(cat(head.as_str(), shown));
    }
    Ok(())
}

/// The row's evidence locator fits its kind; `test_ok` is the outcome of
/// checking a test selector against the workspace.
pub open spec fn evidence_ok(r: MatrixRow, files: Set<Seq<char>>, test_ok: bool) -> bool {
    let k = r.evidence_kind@;
    if k == "source-ref"@ || k == "document"@ {
        evidence_path_ok(r.evidence_ref@, files)
    } else if k == "script"@ {
        let words = split_ws(r.evidence_ref@);
        let script = if words.len() > 0 { words[0] } else { Seq::<char>::empty() };
        starts_with(script, "scripts/"@) && evidence_path_ok(script, files)
    } else if k == "test"@ {
        test_ok
    } else if k == "receipt"@ {
        receipt_ref_ok(r.evidence_ref@)
    } else if k == "gap"@ {
        gap_ok(r)
    } else {
        true
    }
}

fn validate_evidence(r: &MatrixRow, files: &Vec<String>, test: &Result<(), String>) -> (res: Result<(), String>)
    ensures
        res is Ok <==> evidence_ok(*r, files.deep_view().to_set(), test is Ok),
{
    let k = r.evidence_kind.as_str();
    if crate::text::eq_str(k, "source-ref") || crate::text::eq_str(k, "document") {
        validate_path(r.evidence_ref.as_str(), r.evidence_ref.as_str(), r, files)
    } else if crate::text::eq_str(k, "script") {
        let words = split_ws_str(r.evidence_ref.as_str());
        proof {
            reveal_strlit("");
        }
        let script: &str = if words.len() > 0 {
            assert(words.deep_view()[0] == words@[0]@);
            words[0].as_str()
        } else {
            ""
        };
        assert(""@ =~= Seq::<char>::empty());
        assert(words.deep_view() == split_ws(r.evidence_ref@));
        assert(script@ == (if words.deep_view().len() > 0 { words.deep_view()[0] } else { Seq::<char>::empty() }));
        if !starts_with_str(script, "scripts/") {
            return Err(cat3("acceptance-matrix: ", r.requirement_id.as_str(), " script evidence must start with scripts/"));
        }
        validate_path(script, r.evidence_ref.as_str(), r, files)
    } else if crate::text::eq_str(k, "test") {
        match test {
            Ok(()) => Ok(()),
            Err(e) => Err(e.clone()),
        }
    } else if crate::text::eq_str(k, "receipt") {
        validate_receipt_ref(r)
    } else if crate::text::eq_str(k, "gap") {
        validate_gap(r)
    } else {
        Ok(())
    }
}

pub open spec fn has_flow(fcs: Seq<FlowCase>, flow: Seq<char>) -> bool {
    exists|k: int| 0 <= k < fcs.len() && #[trigger] fcs[k].flow_id@ == flow
}

pub open spec fn has_flow_case(fcs: Seq<FlowCase>, flow: Seq<char>, case: Seq<char>) -> bool {
    exists|k: int| 0 <= k < fcs.len() && #[trigger] fcs[k].flow_id@ == flow && fcs[k].case_id@ == case
}

pub open spec fn journey_declared(j: Seq<char>, s: Seq<char>, m: Seq<char>) -> bool {
    exists|k: int| 0 <= k < first_tag_journeys().len() && #[trigger] first_tag_journeys()[k].0 == j
        && first_tag_journeys()[k].1 == s && first_tag_journeys()[k].2 == m
}

/// The row's case, flow and journey references resolve.
pub open spec fn identity_ok(r: MatrixRow, cases: Set<Seq<char>>, fcs: Seq<FlowCase>) -> bool {
    &&& (r.case_id@ != "none"@ ==> cases.contains(r.case_id@))
    &&& (r.flow_id@ != "none"@ ==> has_flow(fcs, r.flow_id@) && r.case_id@ != "none"@ && has_flow_case(fcs, r.flow_id@, r.case_id@))
    &&& (r.journey_id@ != "none"@ ==> journey_declared(r.journey_id@, r.surface@, r.mode@))
}

fn validate_identity_relations(r: &MatrixRow, case_ids: &Vec<String>, fcs: &Vec<FlowCase>) -> (res: Result<(), String>)
    ensures
        res is Ok <==> identity_ok(*r, case_ids.deep_view().to_set(), fcs@),
{
    let id = r.requirement_id.as_str();
    let case_none = crate::text::eq_str(r.case_id.as_str(), "none");
    if !case_none && !contains_str_in(case_ids, r.case_id.as_str()) {
        let head = cat3("acceptance-matrix: ", id, " references unknown case ");
        return Err(cat(head.as_str(), r.case_id.as_str()));
    }
    if !crate::text::eq_str(r.flow_id.as_str(), "none") {
        let mut known = false;
        let mut pair = false;
        let mut k: usize = 0;
        while k < fcs.len()
            invariant
                k <= fcs.len(),
                known == exists|q: int| 0 <= q < k && #[trigger] fcs@[q].flow_id@ == r.flow_id@,
                pair == exists|q: int| 0 <= q < k && #[trigger] fcs@[q].flow_id@ == r.flow_id@ && fcs@[q].case_id@ == r.case_id@,
            decreases fcs.len() - k,
        {
            if crate::text::eq_str(fcs[k].flow_id.as_str(), r.flow_id.as_str()) {
                known = true;
                if crate::text::eq_str(fcs[k].case_id.as_str(), r.case_id.as_str()) {
                    pair = true;
                }
            }
            k += 1;
        }
        if !known {
            let head = cat3("acceptance-matrix: ", id, " references unknown flow ");
            return Err(cat(head.as_str(), r.flow_id.as_str()));
        }
        if case_none {
            return Err(cat3("acceptance-matrix: ", id, " maps a flow without a case"));
        }
        if !pair {
            return Err(cat3("acceptance-matrix: ", id, " maps a flow/case relation absent from operation coverage"));
        }
    }
    if !crate::text::eq_str(r.journey_id.as_str(), "none") {
        let table = super::model::first_tag_table();
        let mut found = false;
        let mut k: usize = 0;
        while k < table.len()
            invariant
                k <= table.len(),
                table@.len() == first_tag_journeys().len(),
                forall|q: int| 0 <= q < table@.len() ==> #[trigger] super::model::journey_view(table@[q]) == first_tag_journeys()[q],
                found == exists|q: int| 0 <= q < k && #[trigger] first_tag_journeys()[q].0 == r.journey_id@
                    && first_tag_journeys()[q].1 == r.surface@ && first_tag_journeys()[q].2 == r.mode@,
            decreases table.len() - k,
        {
            let t = table[k];
            assert(super::model::journey_view(table@[k as int]) == first_tag_journeys()[k as int]);
            assert(t == table@[k as int]);
            assert(t.0@ == first_tag_journeys()[k as int].0 && t.1@ == first_tag_journeys()[k as int].1 && t.2@ == first_tag_journeys()[k as int].2);
            if crate::text::eq_str(t.0, r.journey_id.as_str()) && crate::text::eq_str(t.1, r.surface.as_str()) && crate::text::eq_str(
                t.2,
                r.mode.as_str(),
            ) {
                found = true;
            }
            k += 1;
        }
        if !found {
            return Err(cat3("acceptance-matrix: ", id, " references undeclared journey/surface/mode"));
        }
    }
    Ok(())
}

/// Every row is well formed; requirement ids are distinct and repeated
/// evidence ids keep one locator; every acceptance case and flow/case
/// relation is mapped; every first-tag contract has a row.
pub open spec fn matrix_valid(
    rows: Seq<MatrixRow>,
    cases: Set<Seq<char>>,
    fcs: Seq<FlowCase>,
    files: Set<Seq<char>>,
    tests: Seq<Result<(), String>>,
) -> bool {
    &&& rows.len() > 0
    &&& forall|i: int|
        0 <= i < rows.len() ==> row_shape_ok(#[trigger] rows[i]) && identity_ok(rows[i], cases, fcs) && evidence_ok(
            rows[i],
            files,
            tests[i] is Ok,
        )
    &&& forall|i: int, j: int| 0 <= i < j < rows.len() ==> #[trigger] rows[i].requirement_id@ != #[trigger] rows[j].requirement_id@
    &&& forall|i: int, j: int|
        0 <= i < j < rows.len() && #[trigger] rows[i].evidence_id@ == #[trigger] rows[j].evidence_id@ ==> rows[i].evidence_kind@
            == rows[j].evidence_kind@ && rows[i].evidence_ref@ == rows[j].evidence_ref@
    &&& forall|c: Seq<char>| #[trigger] cases.contains(c) ==> case_bound(rows, c)
    &&& forall|k: int| 0 <= k < fcs.len() ==> relation_bound(rows, #[trigger] fcs[k])
    &&& forall|k: int|
        0 <= k < first_tag_journeys().len() ==> exists|i: int|
            0 <= i < rows.len() && #[trigger] row_contract(rows[i]) == #[trigger] first_tag_journeys()[k]
}

/// Some row other than a `none` case maps acceptance case `c`.
pub open spec fn case_bound(rows: Seq<MatrixRow>, c: Seq<char>) -> bool {
    c != "none"@ && exists|i: int| 0 <= i < rows.len() && #[trigger] rows[i].case_id@ == c
}

/// Some row maps the flow/case relation `fc`.
pub open spec fn relation_bound(rows: Seq<MatrixRow>, fc: FlowCase) -> bool {
    exists|i: int|
        0 <= i < rows.len() && #[trigger] rows[i].flow_id@ == fc.flow_id@ && rows[i].case_id@ == fc.case_id@ && rows[i].flow_id@ != "none"@
}

pub open spec fn row_contract(r: MatrixRow) -> (Seq<char>, Seq<char>, Seq<char>, Seq<char>, Seq<char>) {
    (r.journey_id@, r.surface@, r.mode@, r.gate@, r.requirement@)
}

/// Validates the matrix rows against the declared acceptance cases, the
/// operation coverage relations, the repository files and, for test
/// evidence, the outcome of checking each row's selector (`tests`, one per
/// row).
pub fn validate(
    rows: &Vec<MatrixRow>,
    case_ids: &Vec<String>,
    flow_cases: &Vec<FlowCase>,
    files: &Vec<String>,
    tests: &Vec<Result<(), String>>,
) -> (r: Result<(), String>)
    requires
        tests@.len() == rows@.len(),
    ensures
        r is Ok <==> matrix_valid(rows@, case_ids.deep_view().to_set(), flow_cases@, files.deep_view().to_set(), tests@),
        r is Ok ==> forall|i: int|
            0 <= i < rows@.len() && (#[trigger] rows@[i]).evidence_kind@ == "script"@ ==> split_ws(rows@[i].evidence_ref@).len()
                > 0 && starts_with(split_ws(rows@[i].evidence_ref@)[0], "scripts/"@),
{
    let ghost rs = rows@;
    let ghost cs = case_ids.deep_view().to_set();
    let ghost fs = files.deep_view().to_set();
    if rows.len() == 0 {
        return Err(to_string("acceptance-matrix: matrix has no requirement rows"));
    }
    let mut i: usize = 0;
    while i < rows.len()
        invariant
            rs == rows@,
            tests@.len() == rs.len(),
            cs == case_ids.deep_view().to_set(),
            fs == files.deep_view().to_set(),
            i <= rs.len(),
            forall|q: int|
                0 <= q < i ==> row_shape_ok(#[trigger] rs[q]) && identity_ok(rs[q], cs, flow_cases@) && evidence_ok(
                    rs[q],
                    fs,
                    tests@[q] is Ok,
                ),
            forall|a: int, b: int| 0 <= a < b < i ==> #[trigger] rs[a].requirement_id@ != #[trigger] rs[b].requirement_id@,
            forall|a: int, b: int|
                0 <= a < b < i && #[trigger] rs[a].evidence_id@ == #[trigger] rs[b].evidence_id@ ==> rs[a].evidence_kind@
                    == rs[b].evidence_kind@ && rs[a].evidence_ref@ == rs[b].evidence_ref@,
        decreases rs.len() - i,
    {
        let row = &rows[i];
        require_nonempty(row)?;
        let mut q: usize = 0;
        while q < i
            invariant
                rs == rows@,
                i < rs.len(),
                *row == rs[i as int],
                q <= i,
                forall|a: int| 0 <= a < q ==> #[trigger] rs[a].requirement_id@ != rs[i as int].requirement_id@,
            decreases i - q,
        {
            if crate::text::eq_str(rows[q].requirement_id.as_str(), row.requirement_id.as_str()) {
                return Err(cat("acceptance-matrix: duplicate requirement_id ", row.requirement_id.as_str()));
            }
            q += 1;
        }
        check_row_rules(row)?;
        validate_identity_relations(row, case_ids, flow_cases)?;
        validate_evidence(row, files, &tests[i])?;
        let mut q: usize = 0;
        while q < i
            invariant
                rs == rows@,
                i < rs.len(),
                *row == rs[i as int],
                q <= i,
                forall|a: int|
                    0 <= a < q && #[trigger] rs[a].evidence_id@ == rs[i as int].evidence_id@ ==> rs[a].evidence_kind@
                        == rs[i as int].evidence_kind@ && rs[a].evidence_ref@ == rs[i as int].evidence_ref@,
            decreases i - q,
        {
            if crate::text::eq_str(rows[q].evidence_id.as_str(), row.evidence_id.as_str()) && !(crate::text::eq_str(
                rows[q].evidence_kind.as_str(),
                row.evidence_kind.as_str(),
            ) && crate::text::eq_str(rows[q].evidence_ref.as_str(), row.evidence_ref.as_str())) {
                return Err(cat3("acceptance-matrix: evidence_id ", row.evidence_id.as_str(), " has conflicting locators"));
            }
            q += 1;
        }
        i += 1;
    }
    let mut missing: Vec<String> = Vec::new();
    let mut c: usize = 0;
    while c < case_ids.len()
        invariant
            rs == rows@,
            c <= case_ids.len(),
            missing@.len() == 0 <==> forall|k: int| 0 <= k < c ==> case_bound(rs, #[trigger] case_ids.deep_view()[k]),
        decreases case_ids.len() - c,
    {
        let id = case_ids[c].as_str();
        assert(case_ids.deep_view()[c as int] == id@);
        let mut found = false;
        let mut k: usize = 0;
        while k < rows.len()
            invariant
                rs == rows@,
                k <= rows.len(),
                found == (id@ != "none"@ && exists|i: int| 0 <= i < k && #[trigger] rs[i].case_id@ == id@),
            decreases rows.len() - k,
        {
            if !crate::text::eq_str(rows[k].case_id.as_str(), "none") && crate::text::eq_str(rows[k].case_id.as_str(), id) {
                found = true;
            }
            k += 1;
        }
        if !found {
            missing.push(case_ids[c].clone());
        }
        c += 1;
    }
    if missing.len() > 0 {
        proof {
            let k = choose|k: int| 0 <= k < case_ids.deep_view().len() && !case_bound(rs, #[trigger] case_ids.deep_view()[k]);
            assert(case_ids.deep_view().contains(case_ids.deep_view()[k]));
            assert(cs.contains(case_ids.deep_view()[k]));
        }
        return Err(cat("acceptance-matrix: unbound acceptance cases: ", crate::text::join(&missing, ", ").as_str()));
    }
    assert forall|x: Seq<char>| #[trigger] cs.contains(x) implies case_bound(rs, x) by {
        let k = choose|k: int| 0 <= k < case_ids.deep_view().len() && case_ids.deep_view()[k] == x;
        assert(case_bound(rs, case_ids.deep_view()[k]));
    }
    let ghost cases_ok = forall|x: Seq<char>| #[trigger] cs.contains(x) ==> case_bound(rs, x);
    let mut absent: Vec<String> = Vec::new();
    let mut f: usize = 0;
    while f < flow_cases.len()
        invariant
            rs == rows@,
            cases_ok,
            f <= flow_cases.len(),
            absent@.len() == 0 <==> forall|k: int| 0 <= k < f ==> relation_bound(rs, #[trigger] flow_cases@[k]),
        decreases flow_cases.len() - f,
    {
        let fc = &flow_cases[f];
        let mut found = false;
        let mut k: usize = 0;
        while k < rows.len()
            invariant
                rs == rows@,
                k <= rows.len(),
                found == exists|i: int|
                    0 <= i < k && #[trigger] rs[i].flow_id@ == fc.flow_id@ && rs[i].case_id@ == fc.case_id@ && rs[i].flow_id@ != "none"@,
            decreases rows.len() - k,
        {
            if !crate::text::eq_str(rows[k].flow_id.as_str(), "none") && crate::text::eq_str(rows[k].flow_id.as_str(), fc.flow_id.as_str())
                && crate::text::eq_str(rows[k].case_id.as_str(), fc.case_id.as_str()) {
                found = true;
            }
            k += 1;
        }
        if !found {
            absent.push(cat3(fc.flow_id.as_str(), ":", fc.case_id.as_str()));
        }
        f += 1;
    }
    if absent.len() > 0 {
        return Err(cat("acceptance-matrix: missing operation relations: ", crate::text::join(&absent, ", ").as_str()));
    }
    let ghost flows_ok = forall|k: int| 0 <= k < flow_cases@.len() ==> relation_bound(rs, #[trigger] flow_cases@[k]);
    let table = super::model::first_tag_table();
    let mut t: usize = 0;
    while t < table.len()
        invariant
            rs == rows@,
            cases_ok,
            flows_ok,
            t <= table.len(),
            table@.len() == first_tag_journeys().len(),
            forall|q: int| 0 <= q < table@.len() ==> #[trigger] super::model::journey_view(table@[q]) == first_tag_journeys()[q],
            forall|k: int| 0 <= k < t ==> exists|i: int| 0 <= i < rs.len() && #[trigger] row_contract(rs[i]) == #[trigger] first_tag_journeys()[k],
        decreases table.len() - t,
    {
        let entry = table[t];
        assert(super::model::journey_view(table@[t as int]) == first_tag_journeys()[t as int]);
        assert(entry == table@[t as int]);
        let mut found = false;
        let mut k: usize = 0;
        while k < rows.len()
            invariant
                rs == rows@,
                k <= rows.len(),
                found == exists|i: int| 0 <= i < k && #[trigger] row_contract(rs[i]) == super::model::journey_view(entry),
            decreases rows.len() - k,
        {
            let r = &rows[k];
            if crate::text::eq_str(r.journey_id.as_str(), entry.0) && crate::text::eq_str(r.surface.as_str(), entry.1) && crate::text::eq_str(
                r.mode.as_str(),
                entry.2,
            ) && crate::text::eq_str(r.gate.as_str(), entry.3) && crate::text::eq_str(r.requirement.as_str(), entry.4) {
                assert(row_contract(rs[k as int]) == super::model::journey_view(entry));
                found = true;
            } else {
                assert(row_contract(rs[k as int]) != super::model::journey_view(entry));
            }
            k += 1;
        }
        if !found {
            let head = cat3("acceptance-matrix: missing first-tag contract ", entry.0, ":");
            let a = cat3(head.as_str(), entry.1, ":");
            let b = cat3(a.as_str(), entry.2, ":");
            let c2 = cat3(b.as_str(), entry.3, ":");
            return Err(cat(c2.as_str(), entry.4));
        }
        t += 1;
    }
    proof {
        assert(matrix_valid(rows@, cs, flow_cases@, fs, tests@));
        assert forall|i: int|
            0 <= i < rows@.len() && (#[trigger] rows@[i]).evidence_kind@ == "script"@ implies split_ws(
            rows@[i].evidence_ref@,
        ).len() > 0 && starts_with(split_ws(rows@[i].evidence_ref@)[0], "scripts/"@) by {
            lemma_script_evidence_under_scripts(rows@, cs, flow_cases@, fs, tests@, i);
        }
    }
    Ok(())
}

/// Validates the matrix against the relations the operation coverage table
/// states: a matrix without rows is refused first, then the table is read,
/// and its refusal, if any, is returned.
pub fn validate_with_coverage(
    rows: &Vec<MatrixRow>,
    case_ids: &Vec<String>,
    coverage: &str,
    files: &Vec<String>,
    tests: &Vec<Result<(), String>>,
) -> (r: Result<(), String>)
    requires
        tests@.len() == rows@.len(),
    ensures
        rows@.len() == 0 ==> (r matches Err(m) && m@ == "acceptance-matrix: matrix has no requirement rows"@),
        rows@.len() > 0 ==> match flow_cases_spec(coverage@) {
            Err(e) => r matches Err(m) && m@ == e,
            Ok(s) => exists|v: Seq<FlowCase>|
                #![trigger fcs_view(v)]
                fcs_view(v).to_set() == s && (r is Ok <==> matrix_valid(
                    rows@,
                    case_ids.deep_view().to_set(),
                    v,
                    files.deep_view().to_set(),
                    tests@,
                )),
        },
{
    if rows.len() == 0 {
        return Err(to_string("acceptance-matrix: matrix has no requirement rows"));
    }
    let flow_cases = collect_flow_cases(coverage)?;
    let r = validate(rows, case_ids, &flow_cases, files, tests);
    r
}

/// A script row is valid evidence only where the first word of its locator
/// is a repository file under `scripts/`: in a valid matrix every script
/// row's command starts with `scripts/` and names an existing file.
pub proof fn lemma_script_evidence_under_scripts(
    rows: Seq<MatrixRow>,
    cases: Set<Seq<char>>,
    fcs: Seq<FlowCase>,
    files: Set<Seq<char>>,
    tests: Seq<Result<(), String>>,
    i: int,
)
    requires
        matrix_valid(rows, cases, fcs, files, tests),
        0 <= i < rows.len(),
        rows[i].evidence_kind@ == "script"@,
    ensures
        split_ws(rows[i].evidence_ref@).len() > 0,
        starts_with(split_ws(rows[i].evidence_ref@)[0], "scripts/"@),
        files.contains(split_char(split_ws(rows[i].evidence_ref@)[0], '#')[0]),
{
    reveal_strlit("scripts/");
    reveal_strlit("source-ref");
    reveal_strlit("document");
    reveal_strlit("script");
    assert("source-ref"@.len() != "script"@.len());
    assert("document"@.len() != "script"@.len());
    assert(evidence_ok(rows[i], files, tests[i] is Ok));
    assert("scripts/"@.len() == 8);
}

} // verus!
