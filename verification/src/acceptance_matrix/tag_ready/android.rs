//! Android producer-bound target and recovery receipt validation.
use super::repo_lifecycle::{repo_lifecycle_spec, validate_repo_lifecycle_claims};
use crate::acceptance_matrix::json::{
    flag, get, get_flag, get_null, get_str, get_u64, json_get, json_str, json_u64, null_member, text_or_empty,
    text_or_empty_exec, u64_or_zero, u64_or_zero_exec, JsonValue,
};
use crate::acceptance_matrix::model::MatrixRow;
use crate::acceptance_matrix::receipt_model::Receipt;
use crate::paths::{file_name, file_name_spec};
use crate::text::{
    ascii_lower, cat, cat3, chars_of, eq_str, is_ascii_alnum, parse_u64, parse_u64_spec, split_char, split_str, starts_with,
    starts_with_str, to_ascii_lowercase, to_string,
};
use vstd::prelude::*;

verus! {

/// Every named member is the boolean `true`.
pub open spec fn all_flags(v: JsonValue, names: Seq<Seq<char>>) -> bool {
    forall|k: int| 0 <= k < names.len() ==> flag(v, #[trigger] names[k])
}

/// The journey claims a LocalBackend run must make.
pub open spec fn local_claims() -> Seq<Seq<char>> {
    seq![
        "loginOrNativeSession"@,
        "edit"@,
        "commitHistory"@,
        "backgroundResume"@,
        "staleScopeRejected"@,
        "pendingPreserved"@,
        "repoRemovalNoScope"@,
        "rootBackBackgroundsTaskWithStablePid"@,
    ]
}

/// The journey claims a RemoteBrowser run must make.
pub open spec fn remote_claims() -> Seq<Seq<char>> {
    seq![
        "loginOrNativeSession"@,
        "edit"@,
        "commitHistory"@,
        "backgroundResume"@,
        "repoRemovalNoScope"@,
        "zeroNativeIpc"@,
        "nativeLocalRecovery"@,
        "remoteSurfaceDestroyedBeforeLocalIpc"@,
        "freshLocalBootstrapUnboundBeforeFirstCreate"@,
        "freshLocalEndpointSessionScope"@,
        "remoteAuthorityNotReused"@,
        "noOrphanEmbeddedRuntime"@,
    ]
}

/// The recovery transition observations that must hold.
pub open spec fn transition_flags() -> Seq<Seq<char>> {
    seq![
        "remoteSurfaceRetired"@,
        "preferenceCommittedAfterRemoteRetirement"@,
        "localPluginsRegisteredAfterRemoteRetirement"@,
        "supervisorManaged"@,
        "localWindowCreated"@,
    ]
}

/// The recovery observations that must hold.
pub open spec fn recovery_flags() -> Seq<Seq<char>> {
    seq!["authorityTupleChanged"@, "appPidStable"@, "processExitedAfterGracefulShutdown"@]
}

/// The leading number of a dotted version, or zero.
pub open spec fn version_major(ver: Seq<char>) -> u64 {
    match parse_u64_spec(split_char(ver, '.')[0]) {
        Some(n) => n,
        None => 0,
    }
}

pub open spec fn package_chars_ok(p: Seq<char>) -> bool {
    forall|i: int| 0 <= i < p.len() ==> is_ascii_alnum(#[trigger] p[i]) || p[i] == '.' || p[i] == '_'
}

/// A qualified API 29 / WebView 137 target with a named provider whose
/// version agrees with its major, and an identified device.
#[verifier::opaque]
pub open spec fn target_ok(t: JsonValue) -> bool {
    let major = u64_or_zero(t, "webViewProviderMajor"@);
    let pkg = text_or_empty(t, "webViewProviderPackage"@);
    let ver = text_or_empty(t, "webViewProviderVersion"@);
    &&& u64_or_zero(t, "sdkLevel"@) >= 29
    &&& major >= 137
    &&& pkg.len() > 0
    &&& package_chars_ok(pkg)
    &&& split_char(ver, '.').len() >= 2
    &&& version_major(ver) == major
    &&& text_or_empty(t, "buildFingerprint"@).len() > 0
    &&& text_or_empty(t, "model"@).len() > 0
    &&& flag(t, "supportBaseline"@)
}

/// The target qualifies and the real Ed25519 writer probe passed.
pub open spec fn target_and_webcrypto_ok(c: JsonValue) -> bool {
    &&& match json_get(c, "target"@) {
        None => false,
        Some(t) => target_ok(t),
    }
    &&& match json_get(c, "webcrypto"@) {
        None => false,
        Some(w) => flag(w, "writable"@) && null_member(w, "blocker"@),
    }
}

/// The fresh local runtime was observed unbound before its first create:
/// still handshaking, with no repository, no scope and no default repository.
pub open spec fn bootstrap_ok(local: JsonValue) -> bool {
    match json_get(local, "bootstrapUnbound"@) {
        None => false,
        Some(b) => {
            &&& json_str(json_get(b, "status"@)) == Some("handshaking-repo"@)
            &&& flag(b, "repoIdEmpty"@)
            &&& json_u64(json_get(b, "scopeNonce"@)) == Some(0u64)
            &&& flag(b, "defaultRepoAbsent"@)
        },
    }
}

/// The remote and local authorities differ: an https remote origin, the
/// packaged local origin on a loopback endpoint with a first session, ready
/// after its unbound bootstrap, named repositories and non-zero scope nonces
/// that do not repeat the remote authority.
#[verifier::opaque]
pub open spec fn authority_ok(rec: JsonValue) -> bool {
    match (json_get(rec, "remote"@), json_get(rec, "local"@)) {
        (Some(remote), Some(local)) => {
            let ro = text_or_empty(remote, "origin"@);
            let lo = text_or_empty(local, "origin"@);
            let rr = text_or_empty(remote, "repoId"@);
            let lr = text_or_empty(local, "repoId"@);
            let rs = u64_or_zero(remote, "scopeNonce"@);
            let ls = u64_or_zero(local, "scopeNonce"@);
            &&& starts_with(ro, "https://"@)
            &&& lo == "http://tauri.localhost"@
            &&& ro != lo
            &&& rr.len() > 0
            &&& lr.len() > 0
            &&& !(rr == lr && rs == ls)
            &&& rs != 0
            &&& ls != 0
            &&& match json_str(json_get(local, "endpoint"@)) {
                Some(e) => starts_with(e, "http://127.0.0.1:"@),
                None => false,
            }
            &&& json_u64(json_get(local, "sessionGeneration"@)) == Some(1u64)
            &&& json_str(json_get(local, "status"@)) == Some("ready"@)
            &&& bootstrap_ok(local)
        },
        _ => false,
    }
}

/// The recovery transition is numbered, reached the local window after
/// retiring the remote surface, has one runtime owner and no error.
#[verifier::opaque]
pub open spec fn transition_ok(t: JsonValue) -> bool {
    &&& match json_u64(json_get(t, "recoveryId"@)) {
        Some(id) => id != 0,
        None => false,
    }
    &&& json_str(json_get(t, "phase"@)) == Some("local_window_created"@)
    &&& all_flags(t, transition_flags())
    &&& json_u64(json_get(t, "activeRuntimeOwners"@)) == Some(1u64)
    &&& null_member(t, "lastError"@)
}

/// The RemoteBrowser recovery was observed end to end: a complete
/// transition, a changed authority tuple, a stable app process, a graceful
/// exit, and distinct authorities.
#[verifier::opaque]
pub open spec fn recovery_ok(c: JsonValue) -> bool {
    match json_get(c, "recovery"@) {
        None => false,
        Some(rec) => match json_get(rec, "transition"@) {
            None => false,
            Some(t) => transition_ok(t) && all_flags(rec, recovery_flags()) && authority_ok(rec),
        },
    }
}

pub open spec fn expected_producer(mode: Seq<char>) -> Seq<char> {
    if mode == "local-backend"@ {
        "smoke-mobile-android-lifecycle"@
    } else {
        "smoke-mobile-android-remote-browser"@
    }
}

pub open spec fn expected_artifact(mode: Seq<char>) -> Seq<char> {
    if mode == "local-backend"@ {
        "smoke-mobile-android-lifecycle.sh"@
    } else {
        "smoke-mobile-android-remote-browser.sh"@
    }
}

/// Some command artifact is the expected harness script.
pub open spec fn artifact_bound(arts: Seq<String>, expected: Seq<char>) -> bool {
    exists|i: int| 0 <= i < arts.len() && file_name_spec((#[trigger] arts[i])@) == Some(expected)
}

/// The program runs through a shell harness.
pub open spec fn shell_program(p: Seq<char>) -> bool {
    let exe = ascii_lower(
        match file_name_spec(p) {
            Some(x) => x,
            None => Seq::empty(),
        },
    );
    exe == "bash"@ || exe == "bash.exe"@ || exe == "sh"@ || exe == "sh.exe"@
}

/// The journey completed the writable lifecycle and the claims the mode
/// requires.
pub open spec fn journey_ok(c: JsonValue, j: JsonValue, remote: bool) -> bool {
    &&& flag(j, "writableLifecycleComplete"@)
    &&& repo_lifecycle_spec(c, j) is Some
    &&& if remote {
        all_flags(j, remote_claims()) && recovery_ok(c)
    } else {
        all_flags(j, local_claims())
    }
}

/// An Android writable-evidence receipt carries schema 3 typed claims from
/// the producer and harness of its mode, on a qualified target, with a
/// complete journey, and was run through the shell harness.
pub open spec fn android_ok(receipt: Receipt, row: MatrixRow) -> bool {
    &&& receipt.schema == 3
    &&& match receipt.claims {
        None => false,
        Some(c) => {
            &&& json_u64(json_get(c, "schema"@)) == Some(1u64)
            &&& (row.mode@ == "local-backend"@ || row.mode@ == "remote-browser"@)
            &&& json_str(json_get(c, "producer"@)) == Some(expected_producer(row.mode@))
            &&& artifact_bound(receipt.command_artifacts@, expected_artifact(row.mode@))
            &&& json_str(json_get(c, "mode"@)) == Some(row.mode@)
            &&& target_and_webcrypto_ok(c)
            &&& match json_get(c, "journey"@) {
                None => false,
                Some(j) => journey_ok(c, j, row.mode@ == "remote-browser"@),
            }
        },
    }
    &&& shell_program(receipt.command_program@)
}

fn require_flags(v: &JsonValue, names: &Vec<&str>, head: &str, tail: &str) -> (r: Result<(), String>)
    ensures
        r is Ok <==> all_flags(*v, names@.map_values(|s: &str| s@)),
{
    let ghost nv = names@.map_values(|s: &str| s@);
    let mut k: usize = 0;
    while k < names.len()
        invariant
            k <= names@.len(),
            nv == names@.map_values(|s: &str| s@),
            forall|q: int| 0 <= q < k ==> flag(*v, #[trigger] nv[q]),
        decreases names@.len() - k,
    {
        if !get_flag(v, names[k]) {
            assert(!flag(*v, nv[k as int]));
            return Err(cat3(head, names[k], tail));
        }
        k += 1;
    }
    Ok(())
}

fn package_ok(p: &str) -> (r: bool)
    ensures
        r == package_chars_ok(p@),
{
    let cs = chars_of(p);
    let mut i: usize = 0;
    while i < cs.len()
        invariant
            i <= cs@.len(),
            cs@ == p@,
            forall|q: int| 0 <= q < i ==> is_ascii_alnum(#[trigger] cs@[q]) || cs@[q] == '.' || cs@[q] == '_',
        decreases cs@.len() - i,
    {
        let c = cs[i];
        let alnum = ('a' <= c && c <= 'z') || ('A' <= c && c <= 'Z') || ('0' <= c && c <= '9');
        if !(alnum || c == '.' || c == '_') {
            return false;
        }
        i += 1;
    }
    true
}

fn target_check(t: &JsonValue) -> (r: bool)
    ensures
        r == target_ok(*t),
{
    proof {
        reveal(target_ok);
    }
    let sdk = u64_or_zero_exec(t, "sdkLevel");
    let major = u64_or_zero_exec(t, "webViewProviderMajor");
    let pkg = text_or_empty_exec(t, "webViewProviderPackage");
    let ver = text_or_empty_exec(t, "webViewProviderVersion");
    let parts = split_str(ver, '.');
    proof {
        crate::text::lemma_split_char_nonempty(ver@, '.');
    }
    let ver_major = match parse_u64(parts[0].as_str()) {
        Some(n) => n,
        None => 0,
    };
    let fingerprint = text_or_empty_exec(t, "buildFingerprint");
    let model = text_or_empty_exec(t, "model");
    sdk >= 29 && major >= 137 && chars_of(pkg).len() > 0 && package_ok(pkg) && parts.len() >= 2 && ver_major == major
        && chars_of(fingerprint).len() > 0 && chars_of(model).len() > 0 && get_flag(t, "supportBaseline")
}

/// Checks the qualified target and the WebCrypto writer probe.
pub fn validate_target_and_webcrypto(claims: &JsonValue) -> (r: Result<(), String>)
    ensures
        r is Ok <==> target_and_webcrypto_ok(*claims),
{
    let target = match get(claims, "target") {
        Some(t) => t,
        None => {
            return Err(to_string("Android claims target is missing"));
        },
    };
    if !target_check(target) {
        return Err(
            to_string(
                "Android target does not include a qualified API 29 / WebView 137 provider and device identity",
            ),
        );
    }
    let webcrypto = match get(claims, "webcrypto") {
        Some(w) => w,
        None => {
            return Err(to_string("Android claims WebCrypto probe is missing"));
        },
    };
    if !get_flag(webcrypto, "writable") || !get_null(webcrypto, "blocker") {
        return Err(to_string("Android target did not pass the real Ed25519 writer probe"));
    }
    Ok(())
}

fn bootstrap_check(local: &JsonValue) -> (r: bool)
    ensures
        r == bootstrap_ok(*local),
{
    match get(local, "bootstrapUnbound") {
        None => false,
        Some(b) => {
            let status_ok = match get_str(b, "status") {
                Some(st) => eq_str(st, "handshaking-repo"),
                None => false,
            };
            status_ok && get_flag(b, "repoIdEmpty") && get_u64(b, "scopeNonce") == Some(0u64) && get_flag(b, "defaultRepoAbsent")
        },
    }
}

/// Checks the remote and local authority observations of a recovery.
pub fn validate_authority_observations(recovery: &JsonValue) -> (r: Result<(), String>)
    ensures
        r is Ok <==> authority_ok(*recovery),
{
    proof {
        reveal(authority_ok);
    }
    let remote = match get(recovery, "remote") {
        Some(v) => v,
        None => {
            return Err(to_string("Android RemoteBrowser remote authority observation is missing"));
        },
    };
    let local = match get(recovery, "local") {
        Some(v) => v,
        None => {
            return Err(to_string("Android RemoteBrowser local authority observation is missing"));
        },
    };
    let remote_origin = text_or_empty_exec(remote, "origin");
    let local_origin = text_or_empty_exec(local, "origin");
    let remote_repo = text_or_empty_exec(remote, "repoId");
    let local_repo = text_or_empty_exec(local, "repoId");
    let remote_scope = u64_or_zero_exec(remote, "scopeNonce");
    let local_scope = u64_or_zero_exec(local, "scopeNonce");
    let endpoint_ok = match get_str(local, "endpoint") {
        Some(e) => starts_with_str(e, "http://127.0.0.1:"),
        None => false,
    };
    if !starts_with_str(remote_origin, "https://") || !eq_str(local_origin, "http://tauri.localhost") || eq_str(
        remote_origin,
        local_origin,
    ) || chars_of(remote_repo).len() == 0 || chars_of(local_repo).len() == 0 || (eq_str(remote_repo, local_repo)
        && remote_scope == local_scope) || remote_scope == 0 || local_scope == 0 || !endpoint_ok || get_u64(
        local,
        "sessionGeneration",
    ) != Some(1u64) {
        return Err(to_string("Android RemoteBrowser recovery authority observations are invalid"));
    }
    let ready = match get_str(local, "status") {
        Some(st) => eq_str(st, "ready"),
        None => false,
    };
    if !ready || !bootstrap_check(local) {
        return Err(to_string("Android RemoteBrowser local runtime was not observed unbound before its first create"));
    }
    Ok(())
}

fn transition_check(transition: &JsonValue) -> (r: bool)
    ensures
        r == transition_ok(*transition),
{
    proof {
        reveal(transition_ok);
    }
    let id_ok = match get_u64(transition, "recoveryId") {
        Some(id) => id != 0,
        None => false,
    };
    let phase_ok = match get_str(transition, "phase") {
        Some(p) => eq_str(p, "local_window_created"),
        None => false,
    };
    let transition_names = vec![
        "remoteSurfaceRetired",
        "preferenceCommittedAfterRemoteRetirement",
        "localPluginsRegisteredAfterRemoteRetirement",
        "supervisorManaged",
        "localWindowCreated",
    ];
    assert(transition_names@.map_values(|s: &str| s@) =~= transition_flags());
    id_ok && phase_ok && require_flags(transition, &transition_names, "", "").is_ok() && get_u64(
        transition,
        "activeRuntimeOwners",
    ) == Some(1u64) && get_null(transition, "lastError")
}

/// Checks the RemoteBrowser recovery observations.
pub fn validate_remote_recovery(claims: &JsonValue) -> (r: Result<(), String>)
    ensures
        r is Ok <==> recovery_ok(*claims),
{
    proof {
        reveal(recovery_ok);
    }
    let recovery = match get(claims, "recovery") {
        Some(v) => v,
        None => {
            return Err(to_string("Android RemoteBrowser claims are missing recovery observations"));
        },
    };
    let transition = match get(recovery, "transition") {
        Some(v) => v,
        None => {
            return Err(to_string("Android RemoteBrowser recovery transition is missing"));
        },
    };
    let incomplete = "Android RemoteBrowser recovery transition observations are incomplete";
    if !transition_check(transition) {
        return Err(to_string(incomplete));
    }
    let recovery_names = vec!["authorityTupleChanged", "appPidStable", "processExitedAfterGracefulShutdown"];
    assert(recovery_names@.map_values(|s: &str| s@) =~= recovery_flags());
    require_flags(recovery, &recovery_names, "Android RemoteBrowser recovery observation ", " is missing")?;
    validate_authority_observations(recovery)
}

/// Checks that a LocalBackend journey makes every required claim.
pub fn validate_local_journey(journey: &JsonValue) -> (r: Result<(), String>)
    ensures
        r is Ok <==> all_flags(*journey, local_claims()),
{
    let names = vec![
        "loginOrNativeSession",
        "edit",
        "commitHistory",
        "backgroundResume",
        "staleScopeRejected",
        "pendingPreserved",
        "repoRemovalNoScope",
        "rootBackBackgroundsTaskWithStablePid",
    ];
    assert(names@.map_values(|s: &str| s@) =~= local_claims());
    require_flags(journey, &names, "Android LocalBackend journey is missing required claim ", "")
}

/// Checks that a RemoteBrowser journey makes every required claim.
pub fn validate_remote_journey(journey: &JsonValue) -> (r: Result<(), String>)
    ensures
        r is Ok <==> all_flags(*journey, remote_claims()),
{
    let names = vec![
        "loginOrNativeSession",
        "edit",
        "commitHistory",
        "backgroundResume",
        "repoRemovalNoScope",
        "zeroNativeIpc",
        "nativeLocalRecovery",
        "remoteSurfaceDestroyedBeforeLocalIpc",
        "freshLocalBootstrapUnboundBeforeFirstCreate",
        "freshLocalEndpointSessionScope",
        "remoteAuthorityNotReused",
        "noOrphanEmbeddedRuntime",
    ];
    assert(names@.map_values(|s: &str| s@) =~= remote_claims());
    require_flags(journey, &names, "Android RemoteBrowser journey is missing required claim ", "")
}

fn artifact_bound_exec(arts: &Vec<String>, expected: &str) -> (r: bool)
    ensures
        r == artifact_bound(arts@, expected@),
{
    let mut i: usize = 0;
    while i < arts.len()
        invariant
            i <= arts@.len(),
            forall|q: int| 0 <= q < i ==> file_name_spec((#[trigger] arts@[q])@) != Some(expected@),
        decreases arts@.len() - i,
    {
        match file_name(arts[i].as_str()) {
            Some(name) => {
                if eq_str(name.as_str(), expected) {
                    return true;
                }
            },
            None => {},
        }
        i += 1;
    }
    false
}

fn shell_program_exec(p: &str) -> (r: bool)
    ensures
        r == shell_program(p@),
{
    let name = match file_name(p) {
        Some(n) => n,
        None => String::new(),
    };
    let exe = to_ascii_lowercase(name.as_str());
    let e = exe.as_str();
    eq_str(e, "bash") || eq_str(e, "bash.exe") || eq_str(e, "sh") || eq_str(e, "sh.exe")
}

fn journey_check(claims: &JsonValue, journey: &JsonValue, remote: bool) -> (r: Result<(), String>)
    ensures
        r is Ok <==> journey_ok(*claims, *journey, remote),
{
    if !get_flag(journey, "writableLifecycleComplete") {
        return Err(to_string("Android writable lifecycle journey is incomplete"));
    }
    validate_repo_lifecycle_claims(claims, journey, "Android")?;
    if remote {
        validate_remote_journey(journey)?;
        validate_remote_recovery(claims)
    } else {
        validate_local_journey(journey)
    }
}

/// Checks the typed claims of an Android writable-evidence receipt against
/// its matrix row.
pub fn validate_android_claims(receipt: &Receipt, row: &MatrixRow) -> (r: Result<(), String>)
    ensures
        r is Ok <==> android_ok(*receipt, *row),
{
    if receipt.schema != 3 {
        return Err(to_string("Android writable evidence requires receipt schema 3 typed claims"));
    }
    let claims = match &receipt.claims {
        Some(c) => c,
        None => {
            return Err(to_string("Android receipt is missing typed target/probe claims"));
        },
    };
    if get_u64(claims, "schema") != Some(1u64) {
        return Err(to_string("Android claims schema is unsupported"));
    }
    let mode = row.mode.as_str();
    let local = eq_str(mode, "local-backend");
    let remote = eq_str(mode, "remote-browser");
    if !local && !remote {
        return Err(cat("unsupported Android evidence mode ", mode));
    }
    let expected_producer_id = if local {
        "smoke-mobile-android-lifecycle"
    } else {
        "smoke-mobile-android-remote-browser"
    };
    let expected_script = if local {
        "smoke-mobile-android-lifecycle.sh"
    } else {
        "smoke-mobile-android-remote-browser.sh"
    };
    let producer_ok = match get_str(claims, "producer") {
        Some(p) => eq_str(p, expected_producer_id),
        None => false,
    };
    if !producer_ok {
        return Err(cat("Android claims producer does not match ", expected_producer_id));
    }
    if !artifact_bound_exec(&receipt.command_artifacts, expected_script) {
        return Err(cat("Android receipt command is not bound to ", expected_script));
    }
    let mode_ok = match get_str(claims, "mode") {
        Some(m) => eq_str(m, mode),
        None => false,
    };
    if !mode_ok {
        return Err(to_string("Android claims mode does not match receipt mode"));
    }
    validate_target_and_webcrypto(claims)?;
    let journey = match get(claims, "journey") {
        Some(j) => j,
        None => {
            return Err(to_string("Android claims journey result is missing"));
        },
    };
    journey_check(claims, journey, remote)?;
    if !shell_program_exec(receipt.command_program.as_str()) {
        return Err(to_string("Android receipt producer must be invoked through the shell harness"));
    }
    Ok(())
}

} // verus!
