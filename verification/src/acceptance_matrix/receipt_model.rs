//! The acceptance receipt: what one producer execution recorded for one
//! piece of evidence.
use super::json::JsonValue;
use super::producer::execution::keys_sorted;
use crate::text::opt_view;
use vstd::prelude::*;

verus! {

#[derive(Debug)]
pub struct Receipt {
    pub schema: u8,
    pub producer_id: String,
    pub producer_contract: String,
    pub execution_id: String,
    /// Every evidence ID the execution produced, this one included.
    pub execution_evidence_ids: Vec<String>,
    pub evidence_id: String,
    pub evidence_ref: String,
    pub head: String,
    pub head_after: Option<String>,
    pub dirty_before: bool,
    pub dirty_after: bool,
    pub os: String,
    pub arch: String,
    pub target_os: String,
    pub surface: String,
    pub mode: String,
    pub started_at: String,
    pub finished_at: String,
    pub status: String,
    pub exit_code: Option<i32>,
    pub error: Option<String>,
    pub command_program: String,
    pub command_arg_count: usize,
    pub command_fingerprint: String,
    pub command_artifacts: Vec<String>,
    /// Bound producer inputs by name, ordered by name, each name once.
    pub producer_inputs: Vec<(String, String)>,
    pub claims: Option<JsonValue>,
}


pub open spec fn pairs_view(v: Seq<(String, String)>) -> Seq<(Seq<char>, Seq<char>)> {
    v.map_values(|e: (String, String)| (e.0@, e.1@))
}

/// A receipt's bound inputs form a map: names strictly ascending, so each
/// name once. Comparing two such lists in order compares the maps.
pub open spec fn inputs_are_map(r: Receipt) -> bool {
    keys_sorted(r.producer_inputs@)
}

/// Two receipts come from one execution context: the same producer,
/// contract, execution, repository state, host, timing, outcome, command and
/// inputs.
pub open spec fn same_context(a: Receipt, b: Receipt) -> bool {
    &&& a.producer_id@ == b.producer_id@
    &&& a.producer_contract@ == b.producer_contract@
    &&& a.execution_id@ == b.execution_id@
    &&& a.head@ == b.head@
    &&& opt_view(a.head_after) == opt_view(b.head_after)
    &&& a.dirty_before == b.dirty_before
    &&& a.dirty_after == b.dirty_after
    &&& a.os@ == b.os@
    &&& a.arch@ == b.arch@
    &&& a.started_at@ == b.started_at@
    &&& a.finished_at@ == b.finished_at@
    &&& a.status@ == b.status@
    &&& a.exit_code == b.exit_code
    &&& a.command_program@ == b.command_program@
    &&& a.command_arg_count == b.command_arg_count
    &&& a.command_fingerprint@ == b.command_fingerprint@
    &&& a.command_artifacts.deep_view() == b.command_artifacts.deep_view()
    &&& pairs_view(a.producer_inputs@) == pairs_view(b.producer_inputs@)
}

} // verus!
