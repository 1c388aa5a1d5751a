//! Typed Repo Lifecycle claims shared by the target-host receipts.
use crate::acceptance_matrix::json::{
    flag, get, get_flag, json_get, text_or_empty, text_or_empty_exec, u64_or_zero, u64_or_zero_exec, JsonValue,
};
use crate::text::{cat, chars_of};
use vstd::prelude::*;

verus! {

/// The removed repository and its scope nonce before removal, where the
/// claims prove the last-repo NoScope finalization: a named repository, a
/// nonce that advanced from a non-zero value, and NoScope both in the
/// lifecycle and in the journey.
pub open spec fn repo_lifecycle_spec(claims: JsonValue, journey: JsonValue) -> Option<(Seq<char>, u64)> {
    match json_get(claims, "repoLifecycle"@) {
        None => None,
        Some(l) => {
            let removed = text_or_empty(l, "removedRepoId"@);
            let before = u64_or_zero(l, "scopeNonceBeforeRemoval"@);
            let after = u64_or_zero(l, "scopeNonceAfterRemoval"@);
            if removed.len() == 0 || before == 0 || after <= before || !flag(l, "noScope"@) || !flag(
                journey,
                "repoRemovalNoScope"@,
            ) {
                None
            } else {
                Some((removed, before))
            }
        },
    }
}

/// Checks the Repo Lifecycle claims (`label` names the platform in the
/// diagnostics) and returns the removed repository and its nonce before
/// removal.
pub fn validate_repo_lifecycle_claims<'a>(claims: &'a JsonValue, journey: &JsonValue, label: &str) -> (r: Result<
    (&'a str, u64),
    String,
>)
    ensures
        match repo_lifecycle_spec(*claims, *journey) {
            None => r is Err,
            Some((id, before)) => r matches Ok((s, n)) && s@ == id && n == before,
        },
{
    let lifecycle = match get(claims, "repoLifecycle") {
        Some(l) => l,
        None => {
            return Err(cat(label, " claims are missing repoLifecycle"));
        },
    };
    let removed = text_or_empty_exec(lifecycle, "removedRepoId");
    let before = u64_or_zero_exec(lifecycle, "scopeNonceBeforeRemoval");
    let after = u64_or_zero_exec(lifecycle, "scopeNonceAfterRemoval");
    if chars_of(removed).len() == 0 || before == 0 || after <= before || !get_flag(lifecycle, "noScope") || !get_flag(
        journey,
        "repoRemovalNoScope",
    ) {
        return Err(cat(label, " claims do not prove typed last-repo NoScope finalization"));
    }
    Ok((removed, before))
}

} // verus!
