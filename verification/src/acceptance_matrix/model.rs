//! Acceptance matrix data model.
use vstd::prelude::*;

verus! {

pub const MATRIX_PATH: &'static str = "docs/registry/acceptance-matrix.tsv";

pub const RENDERED_PATH: &'static str = "docs/acceptance-matrix.md";

/// Number of tab-separated columns of a matrix row.
pub const COLUMNS: usize = 13;

/// The header of the matrix, one column name per field.
pub open spec fn header_spec() -> Seq<Seq<char>> {
    seq![
        "requirement_id"@,
        "journey_id"@,
        "flow_id"@,
        "case_id"@,
        "surface"@,
        "mode"@,
        "gate"@,
        "requirement"@,
        "evidence_kind"@,
        "evidence_id"@,
        "evidence_ref"@,
        "freshness"@,
        "note"@,
    ]
}

/// The column names, in order.
pub fn header() -> (r: Vec<&'static str>)
    ensures
        r@.len() == COLUMNS,
        forall|i: int| 0 <= i < COLUMNS ==> #[trigger] r@[i]@ == header_spec()[i],
{
    let r = vec![
        "requirement_id",
        "journey_id",
        "flow_id",
        "case_id",
        "surface",
        "mode",
        "gate",
        "requirement",
        "evidence_kind",
        "evidence_id",
        "evidence_ref",
        "freshness",
        "note",
    ];
    r
}

/// The first-tag journey contracts: journey, surface, mode, gate, requirement.
pub open spec fn first_tag_journeys() -> Seq<(Seq<char>, Seq<char>, Seq<char>, Seq<char>, Seq<char>)> {
    seq![
        ("auth-session"@, "web"@, "browser"@, "tag-ready"@, "required"@),
        ("repo-lifecycle"@, "web"@, "browser"@, "tag-ready"@, "required"@),
        ("edit-sync-offline-recovery"@, "docker"@, "multiclient"@, "tag-ready"@, "required"@),
        ("source-control"@, "web"@, "browser"@, "tag-ready"@, "required"@),
        ("external-changes"@, "web"@, "browser"@, "tag-ready"@, "required"@),
        ("remote-import"@, "web"@, "browser"@, "tag-ready"@, "required"@),
        ("notegit"@, "desktop"@, "local-backend"@, "tag-ready"@, "required"@),
        ("p2p-gap-recovery"@, "docker"@, "mesh"@, "tag-ready"@, "required"@),
        ("docker-multiclient"@, "docker"@, "browser"@, "tag-ready"@, "required"@),
        ("desktop-local-backend"@, "desktop"@, "local-backend"@, "tag-ready"@, "required"@),
        ("desktop-remote-browser"@, "desktop"@, "remote-browser"@, "tag-ready"@, "required"@),
        ("android-local-backend"@, "android"@, "local-backend"@, "tag-ready"@, "required"@),
        ("android-remote-browser"@, "android"@, "remote-browser"@, "tag-ready"@, "required"@),
        ("release-artifacts"@, "release"@, "multi-platform"@, "tag-ready"@, "required"@),
        ("release-artifacts"@, "macos"@, "target-host"@, "advisory"@, "conditional"@),
        ("release-artifacts"@, "ios"@, "target-host"@, "advisory"@, "conditional"@),
        ("security-supply-chain"@, "github"@, "repository"@, "tag-ready"@, "required"@),
    ]
}

pub open spec fn journey_view(t: (&str, &str, &str, &str, &str)) -> (Seq<char>, Seq<char>, Seq<char>, Seq<char>, Seq<char>) {
    (t.0@, t.1@, t.2@, t.3@, t.4@)
}

/// The first-tag journey contracts, as a table.
pub fn first_tag_table() -> (r: Vec<(&'static str, &'static str, &'static str, &'static str, &'static str)>)
    ensures
        r@.len() == first_tag_journeys().len(),
        forall|k: int| 0 <= k < r@.len() ==> #[trigger] journey_view(r@[k]) == first_tag_journeys()[k],
{
    let r = vec![
        ("auth-session", "web", "browser", "tag-ready", "required"),
        ("repo-lifecycle", "web", "browser", "tag-ready", "required"),
        ("edit-sync-offline-recovery", "docker", "multiclient", "tag-ready", "required"),
        ("source-control", "web", "browser", "tag-ready", "required"),
        ("external-changes", "web", "browser", "tag-ready", "required"),
        ("remote-import", "web", "browser", "tag-ready", "required"),
        ("notegit", "desktop", "local-backend", "tag-ready", "required"),
        ("p2p-gap-recovery", "docker", "mesh", "tag-ready", "required"),
        ("docker-multiclient", "docker", "browser", "tag-ready", "required"),
        ("desktop-local-backend", "desktop", "local-backend", "tag-ready", "required"),
        ("desktop-remote-browser", "desktop", "remote-browser", "tag-ready", "required"),
        ("android-local-backend", "android", "local-backend", "tag-ready", "required"),
        ("android-remote-browser", "android", "remote-browser", "tag-ready", "required"),
        ("release-artifacts", "release", "multi-platform", "tag-ready", "required"),
        ("release-artifacts", "macos", "target-host", "advisory", "conditional"),
        ("release-artifacts", "ios", "target-host", "advisory", "conditional"),
        ("security-supply-chain", "github", "repository", "tag-ready", "required"),
    ];
    assert forall|k: int| 0 <= k < r@.len() implies #[trigger] journey_view(r@[k]) == first_tag_journeys()[k] by {}
    r
}

/// One requirement row of the acceptance matrix.
#[derive(Debug)]
pub struct MatrixRow {
    pub requirement_id: String,
    pub journey_id: String,
    pub flow_id: String,
    pub case_id: String,
    pub surface: String,
    pub mode: String,
    pub gate: String,
    pub requirement: String,
    pub evidence_kind: String,
    pub evidence_id: String,
    pub evidence_ref: String,
    pub freshness: String,
    pub note: String,
}

impl MatrixRow {
    /// The row's columns, in header order.
    pub open spec fn fields(self) -> Seq<Seq<char>> {
        seq![
            self.requirement_id@,
            self.journey_id@,
            self.flow_id@,
            self.case_id@,
            self.surface@,
            self.mode@,
            self.gate@,
            self.requirement@,
            self.evidence_kind@,
            self.evidence_id@,
            self.evidence_ref@,
            self.freshness@,
            self.note@,
        ]
    }

    /// Builds a row from its columns in header order.
    pub fn from_fields(fields: &Vec<String>) -> (r: Self)
        requires
            fields@.len() >= COLUMNS,
        ensures
            r.fields() == fields.deep_view().take(COLUMNS as int),
    {
        let r = MatrixRow {
            requirement_id: fields[0].clone(),
            journey_id: fields[1].clone(),
            flow_id: fields[2].clone(),
            case_id: fields[3].clone(),
            surface: fields[4].clone(),
            mode: fields[5].clone(),
            gate: fields[6].clone(),
            requirement: fields[7].clone(),
            evidence_kind: fields[8].clone(),
            evidence_id: fields[9].clone(),
            evidence_ref: fields[10].clone(),
            freshness: fields[11].clone(),
            note: fields[12].clone(),
        };
        assert(r.fields() =~= fields.deep_view().take(COLUMNS as int));
        r
    }

    /// A copy of the row with the same columns.
    pub fn duplicate(&self) -> (r: Self)
        ensures
            r == *self,
    {
        MatrixRow {
            requirement_id: self.requirement_id.clone(),
            journey_id: self.journey_id.clone(),
            flow_id: self.flow_id.clone(),
            case_id: self.case_id.clone(),
            surface: self.surface.clone(),
            mode: self.mode.clone(),
            gate: self.gate.clone(),
            requirement: self.requirement.clone(),
            evidence_kind: self.evidence_kind.clone(),
            evidence_id: self.evidence_id.clone(),
            evidence_ref: self.evidence_ref.clone(),
            freshness: self.freshness.clone(),
            note: self.note.clone(),
        }
    }
}

/// A flow and one of the acceptance cases it is covered by.
#[derive(Debug)]
pub struct FlowCase {
    pub flow_id: String,
    pub case_id: String,
}

} // verus!
