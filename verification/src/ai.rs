//! The AI baseline check: which specification table runs, under which
//! context label, and in which mode.
use crate::text::to_string;
use vstd::prelude::*;

verus! {

/// How much of a specification table a check runs.
#[derive(Debug, PartialEq, Eq, Structural)]
pub enum RunMode {
    /// Every row, including those that execute commands.
    Full,
    /// Only the rows that inspect text.
    TextOnly,
}

/// A baseline check to run: the context label it reports under, the
/// specification table it reads, and the mode.
#[derive(Debug)]
pub struct BaselineCheck {
    pub label: String,
    pub spec_table: String,
    pub mode: RunMode,
}

pub open spec fn ai_check(c: BaselineCheck, mode: RunMode) -> bool {
    c.label@ == "ai-baseline-check"@ && c.spec_table@ == "specs/ai.tsv"@ && c.mode == mode
}

fn run_with_mode(mode: RunMode) -> (r: BaselineCheck)
    ensures
        ai_check(r, mode),
{
    BaselineCheck { label: to_string("ai-baseline-check"), spec_table: to_string("specs/ai.tsv"), mode }
}

/// The full AI baseline check.
pub fn run() -> (r: BaselineCheck)
    ensures
        ai_check(r, RunMode::Full),
{
    run_with_mode(RunMode::Full)
}

/// The text-only AI baseline check.
pub fn run_text() -> (r: BaselineCheck)
    ensures
        ai_check(r, RunMode::TextOnly),
{
    run_with_mode(RunMode::TextOnly)
}

} // verus!
