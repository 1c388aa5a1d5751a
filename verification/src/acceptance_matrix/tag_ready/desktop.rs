//! Desktop producer-bound Repo Lifecycle receipt validation.
use super::repo_lifecycle::{repo_lifecycle_spec, validate_repo_lifecycle_claims};
use crate::acceptance_matrix::json::{flag, get, get_flag, get_str, get_u64, json_get, json_str, json_u64, JsonValue};
use crate::acceptance_matrix::model::MatrixRow;
use crate::acceptance_matrix::receipt_model::Receipt;
use crate::text::{cat, eq_str, to_string};
use vstd::prelude::*;

verus! {

pub open spec fn desktop_producer(mode: Seq<char>) -> Seq<char> {
    if mode == "local-backend"@ {
        "smoke-desktop-packaged-ui"@
    } else {
        "smoke-desktop-remote-browser"@
    }
}

/// The journey, the Repo Lifecycle and the pre-removal scope agree, and the
/// mode's own claim holds: a bound native session locally, zero native IPC
/// remotely.
#[verifier::opaque]
pub open spec fn desktop_journey_ok(c: JsonValue, j: JsonValue, local: bool) -> bool {
    &&& flag(j, "loginOrNativeSession"@) && flag(j, "edit"@) && flag(j, "commitHistory"@)
    &&& match repo_lifecycle_spec(c, j) {
        None => false,
        Some((removed, before)) => match json_get(c, "scope"@) {
            None => false,
            Some(scope) => json_str(json_get(scope, "repoId"@)) == Some(removed) && json_u64(json_get(scope, "scopeNonce"@))
                == Some(before),
        },
    }
    &&& if local {
        flag(c, "sessionBound"@)
    } else {
        flag(j, "zeroNativeIpc"@)
    }
}

/// A Desktop Repo Lifecycle receipt carries typed claims from the producer of
/// its mode with a complete, consistent journey.
pub open spec fn desktop_ok(receipt: Receipt, row: MatrixRow) -> bool {
    match receipt.claims {
        None => false,
        Some(c) => {
            &&& json_u64(json_get(c, "schema"@)) == Some(1u64)
            &&& (row.mode@ == "local-backend"@ || row.mode@ == "remote-browser"@)
            &&& json_str(json_get(c, "producer"@)) == Some(desktop_producer(row.mode@))
            &&& json_str(json_get(c, "mode"@)) == Some(row.mode@)
            &&& match json_get(c, "journey"@) {
                None => false,
                Some(j) => desktop_journey_ok(c, j, row.mode@ == "local-backend"@),
            }
        },
    }
}

fn desktop_journey(claims: &JsonValue, journey: &JsonValue, local: bool) -> (r: Result<(), String>)
    ensures
        r is Ok <==> desktop_journey_ok(*claims, *journey, local),
{
    proof {
        reveal(desktop_journey_ok);
    }
    if !get_flag(journey, "loginOrNativeSession") {
        return Err(to_string("Desktop journey is missing required claim loginOrNativeSession"));
    }
    if !get_flag(journey, "edit") {
        return Err(to_string("Desktop journey is missing required claim edit"));
    }
    if !get_flag(journey, "commitHistory") {
        return Err(to_string("Desktop journey is missing required claim commitHistory"));
    }
    let (removed, before) = validate_repo_lifecycle_claims(claims, journey, "Desktop")?;
    let scope = match get(claims, "scope") {
        Some(s) => s,
        None => {
            return Err(to_string("Desktop claims are missing the pre-removal scope"));
        },
    };
    let repo_ok = match get_str(scope, "repoId") {
        Some(id) => eq_str(id, removed),
        None => false,
    };
    if !repo_ok || get_u64(scope, "scopeNonce") != Some(before) {
        return Err(to_string("Desktop pre-removal scope does not match repoLifecycle"));
    }
    if local {
        if !get_flag(claims, "sessionBound") {
            return Err(to_string("Desktop LocalBackend claims require a bound native session"));
        }
    } else {
        if !get_flag(journey, "zeroNativeIpc") {
            return Err(to_string("Desktop RemoteBrowser claims require zero native IPC"));
        }
    }
    Ok(())
}

/// Checks the typed claims of a Desktop Repo Lifecycle receipt against its
/// matrix row.
pub fn validate_desktop_claims(receipt: &Receipt, row: &MatrixRow) -> (r: Result<(), String>)
    ensures
        r is Ok <==> desktop_ok(*receipt, *row),
{
    let claims = match &receipt.claims {
        Some(c) => c,
        None => {
            return Err(to_string("Desktop Repo Lifecycle receipt is missing typed claims"));
        },
    };
    if get_u64(claims, "schema") != Some(1u64) {
        return Err(to_string("Desktop claims schema is unsupported"));
    }
    let mode = row.mode.as_str();
    let local = eq_str(mode, "local-backend");
    if !local && !eq_str(mode, "remote-browser") {
        return Err(cat("unsupported Desktop Repo Lifecycle evidence mode ", mode));
    }
    let expected = if local {
        "smoke-desktop-packaged-ui"
    } else {
        "smoke-desktop-remote-browser"
    };
    let producer_ok = match get_str(claims, "producer") {
        Some(p) => eq_str(p, expected),
        None => false,
    };
    let mode_ok = match get_str(claims, "mode") {
        Some(m) => eq_str(m, mode),
        None => false,
    };
    if !producer_ok || !mode_ok {
        return Err(to_string("Desktop claims producer or mode does not match the receipt"));
    }
    let journey = match get(claims, "journey") {
        Some(j) => j,
        None => {
            return Err(to_string("Desktop claims journey result is missing"));
        },
    };
    desktop_journey(claims, journey, local)
}

} // verus!
