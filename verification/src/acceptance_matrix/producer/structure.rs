//! Candidate-to-native reachability and contract-receipt delivery-chain
//! validation of the release candidate workflow.
use super::receipt_artifacts::{required_field, string_field, UPLOAD_ACTION};
use super::yaml::{
    as_mapping, as_sequence, as_string, has_key, load_yaml, lookup, mapping_of, optional, sequence_of, string_of,
    yaml_documents, YamlNode,
};
use crate::strset::contains_str_in;
use crate::text::{cat, cat3, decimal_string, eq_str, to_string};
use vstd::prelude::*;

verus! {

/// The reusable workflow that builds and proves the native artifacts.
pub const NATIVE_WORKFLOW: &'static str = "./.github/workflows/release-native.yml";

/// The pinned artifact download action.
pub const DOWNLOAD_ACTION: &'static str = "actions/download-artifact@3e5f45b2cfb9172054b4087a40e8e0b5a5461e7c";

/// How many of the first `n` items count, where `f` says of each item whether
/// it counts (`Some(true)`), is passed over (`Some(false)`) or is refused
/// (`None`, which refuses the whole sequence).
pub open spec fn tally_of<A>(items: Seq<A>, f: spec_fn(A) -> Option<bool>, n: int) -> Option<nat>
    decreases n,
{
    if n <= 0 {
        Some(0)
    } else {
        match tally_of(items, f, n - 1) {
            None => None,
            Some(c) => match f(items[n - 1]) {
                None => None,
                Some(true) => Some(c + 1),
                Some(false) => Some(c),
            },
        }
    }
}

/// A refused prefix refuses every longer prefix.
pub proof fn lemma_tally_refused<A>(items: Seq<A>, f: spec_fn(A) -> Option<bool>, n: int, m: int)
    requires
        0 <= n <= m,
        tally_of(items, f, n) is None,
    ensures
        tally_of(items, f, m) is None,
    decreases m - n,
{
    if n < m {
        lemma_tally_refused(items, f, n, m - 1);
    }
}

/// No execution modifier that could skip or tolerate the job or step.
pub open spec fn modifiers_free(h: Seq<(YamlNode, YamlNode)>) -> bool {
    &&& !has_key(h, "if"@)
    &&& !has_key(h, "continue-on-error"@)
    &&& !has_key(h, "strategy"@)
    &&& !has_key(h, "defaults"@)
}

pub open spec fn all_strings(a: Seq<YamlNode>) -> bool {
    forall|i: int| 0 <= i < a.len() ==> (#[trigger] string_of(a[i])) is Some
}

pub open spec fn strings_in(a: Seq<YamlNode>) -> Seq<Seq<char>> {
    a.map_values(|n: YamlNode| string_of(n).unwrap())
}

/// The jobs a job waits for: one string or a sequence of strings.
pub open spec fn needs_of(job: Seq<(YamlNode, YamlNode)>) -> Option<Seq<Seq<char>>> {
    match lookup(job, "needs"@) {
        None => None,
        Some(v) => match v {
            YamlNode::Str(s) => Some(seq![s@]),
            YamlNode::Array(a) => if all_strings(a@) {
                Some(strings_in(a@))
            } else {
                None
            },
            _ => None,
        },
    }
}

pub open spec fn includes_all(ns: Seq<Seq<char>>, wanted: Seq<Seq<char>>) -> bool {
    forall|k: int| 0 <= k < wanted.len() ==> ns.contains(#[trigger] wanted[k])
}

/// The job waits for every job of `wanted`.
pub open spec fn needs_include(job: Seq<(YamlNode, YamlNode)>, wanted: Seq<Seq<char>>) -> bool {
    match needs_of(job) {
        None => false,
        Some(ns) => includes_all(ns, wanted),
    }
}

pub open spec fn native_needs() -> Seq<Seq<char>> {
    seq!["identity"@, "web-dist"@]
}

pub open spec fn contract_needs() -> Seq<Seq<char>> {
    seq!["identity"@]
}

/// Every job whose receipts the assembly job collects.
pub open spec fn assemble_needs() -> Seq<Seq<char>> {
    seq![
        "identity"@,
        "contract-static"@,
        "rust-quality"@,
        "workspace-tests"@,
        "full-baseline"@,
        "web-dist"@,
        "docker-linux-amd64-build"@,
        "docker-linux-amd64-smoke"@,
        "contract-receipts"@,
        "repo-process-linux"@,
        "security-receipts"@,
        "github-receipts"@,
        "native"@,
    ]
}

/// The native call forwards exactly the Android signing secrets.
#[verifier::opaque]
pub open spec fn secrets_ok(job: Seq<(YamlNode, YamlNode)>) -> bool {
    match lookup(job, "secrets"@) {
        None => false,
        Some(sv) => match mapping_of(sv) {
            None => false,
            Some(s) => {
                &&& s.len() == 4
                &&& string_field(s, "ANDROID_KEYSTORE_BASE64"@) == Some("${{ secrets.ANDROID_KEYSTORE_BASE64 }}"@)
                &&& string_field(s, "ANDROID_KEYSTORE_PASSWORD"@) == Some("${{ secrets.ANDROID_KEYSTORE_PASSWORD }}"@)
                &&& string_field(s, "ANDROID_KEY_ALIAS"@) == Some("${{ secrets.ANDROID_KEY_ALIAS }}"@)
                &&& string_field(s, "ANDROID_KEY_PASSWORD"@) == Some("${{ secrets.ANDROID_KEY_PASSWORD }}"@)
            },
        },
    }
}

/// A call of the native workflow runs unconditionally on the candidate's
/// identity and web bundle and forwards the candidate head, version and web
/// artifact.
#[verifier::opaque]
pub open spec fn native_call_ok(job: Seq<(YamlNode, YamlNode)>) -> bool {
    &&& modifiers_free(job)
    &&& needs_include(job, native_needs())
    &&& match lookup(job, "with"@) {
        None => false,
        Some(wv) => match mapping_of(wv) {
            None => false,
            Some(w) => {
                &&& string_field(w, "candidate_head"@) == Some("${{ github.sha }}"@)
                &&& string_field(w, "version"@) == Some("${{ inputs.version }}"@)
                &&& string_field(w, "web_dist_artifact"@) == Some("deve-candidate-web-dist-${{ github.sha }}"@)
            },
        },
    }
    &&& secrets_ok(job)
}

/// Whether a job entry is a call of the native workflow (refused where it is
/// malformed or a call that does not hold).
#[verifier::opaque]
pub open spec fn native_entry(entry: (YamlNode, YamlNode)) -> Option<bool> {
    match string_of(entry.0) {
        None => None,
        Some(_) => match mapping_of(entry.1) {
            None => None,
            Some(job) => match lookup(job, "uses"@) {
                None => Some(false),
                Some(u) => match string_of(u) {
                    None => None,
                    Some(us) => if us != NATIVE_WORKFLOW@ {
                        Some(false)
                    } else if native_call_ok(job) {
                        Some(true)
                    } else {
                        None
                    },
                },
            },
        },
    }
}

pub open spec fn native_counter() -> spec_fn((YamlNode, YamlNode)) -> Option<bool> {
    |e: (YamlNode, YamlNode)| native_entry(e)
}

/// The contract-receipt upload runs always, untolerated, and fails on an
/// empty receipt root.
#[verifier::opaque]
pub open spec fn contract_upload_ok(st: Seq<(YamlNode, YamlNode)>) -> bool {
    &&& !has_key(st, "continue-on-error"@)
    &&& string_field(st, "if"@) == Some("${{ always() }}"@)
    &&& match lookup(st, "with"@) {
        None => false,
        Some(wv) => match mapping_of(wv) {
            None => false,
            Some(w) => {
                &&& string_field(w, "name"@) == Some("deve-acceptance-receipts-contracts-${{ github.sha }}"@)
                &&& string_field(w, "path"@) == Some("${{ runner.temp }}/deve-acceptance-contracts"@)
                &&& string_field(w, "if-no-files-found"@) == Some("error"@)
            },
        },
    }
}

/// Whether a step of the contract-receipt job is its receipt upload.
#[verifier::opaque]
pub open spec fn upload_entry(step: YamlNode) -> Option<bool> {
    match mapping_of(step) {
        None => None,
        Some(st) => match lookup(st, "uses"@) {
            None => Some(false),
            Some(u) => match string_of(u) {
                None => None,
                Some(us) => if us != UPLOAD_ACTION@ {
                    Some(false)
                } else if contract_upload_ok(st) {
                    Some(true)
                } else {
                    None
                },
            },
        },
    }
}

pub open spec fn upload_counter() -> spec_fn(YamlNode) -> Option<bool> {
    |s: YamlNode| upload_entry(s)
}

/// The receipt download is unconditional, names exactly the receipt pattern
/// and destination, and keeps the artifacts apart.
#[verifier::opaque]
pub open spec fn download_ok(st: Seq<(YamlNode, YamlNode)>, w: Seq<(YamlNode, YamlNode)>) -> bool {
    &&& !has_key(st, "if"@)
    &&& !has_key(st, "continue-on-error"@)
    &&& w.len() == 3
    &&& string_field(w, "pattern"@) == Some("deve-acceptance-receipts-*-${{ github.sha }}"@)
    &&& string_field(w, "path"@) == Some("${{ runner.temp }}/deve-release-incoming/receipts"@)
    &&& lookup(w, "merge-multiple"@) == Some(YamlNode::Boolean(false))
}

/// Whether a step of the assembly job is the receipt download (a download
/// by pattern).
#[verifier::opaque]
pub open spec fn download_entry(step: YamlNode) -> Option<bool> {
    match mapping_of(step) {
        None => None,
        Some(st) => match lookup(st, "uses"@) {
            None => Some(false),
            Some(u) => match string_of(u) {
                None => None,
                Some(us) => if us != DOWNLOAD_ACTION@ {
                    Some(false)
                } else {
                    match lookup(st, "with"@) {
                        None => None,
                        Some(wv) => match mapping_of(wv) {
                            None => None,
                            Some(w) => if !has_key(w, "pattern"@) {
                                Some(false)
                            } else if download_ok(st, w) {
                                Some(true)
                            } else {
                                None
                            },
                        },
                    }
                },
            },
        },
    }
}

pub open spec fn download_counter() -> spec_fn(YamlNode) -> Option<bool> {
    |s: YamlNode| download_entry(s)
}

/// The steps of a job that passes the job-level checks, where they are a
/// sequence.
pub open spec fn job_steps(job: Seq<(YamlNode, YamlNode)>) -> Option<Seq<YamlNode>> {
    match lookup(job, "steps"@) {
        None => None,
        Some(sv) => sequence_of(sv),
    }
}

/// The assembly job waits for every receipt job and downloads the receipt
/// artifacts exactly once.
#[verifier::opaque]
pub open spec fn assemble_ok(jobs: Seq<(YamlNode, YamlNode)>) -> bool {
    match lookup(jobs, "assemble"@) {
        None => false,
        Some(av) => match mapping_of(av) {
            None => false,
            Some(a) => {
                &&& modifiers_free(a)
                &&& needs_include(a, assemble_needs())
                &&& match job_steps(a) {
                    None => false,
                    Some(steps) => tally_of(steps, download_counter(), steps.len() as int) == Some(1nat),
                }
            },
        },
    }
}

/// The contract-receipt job runs unconditionally after the identity job and
/// uploads its receipts exactly once.
#[verifier::opaque]
pub open spec fn contract_job_ok(jobs: Seq<(YamlNode, YamlNode)>) -> bool {
    match lookup(jobs, "contract-receipts"@) {
        None => false,
        Some(cv) => match mapping_of(cv) {
            None => false,
            Some(c) => {
                &&& modifiers_free(c)
                &&& needs_include(c, contract_needs())
                &&& match job_steps(c) {
                    None => false,
                    Some(steps) => tally_of(steps, upload_counter(), steps.len() as int) == Some(1nat),
                }
            },
        },
    }
}

/// The contract-receipt job uploads its receipts exactly once, and the
/// assembly job collects them.
pub open spec fn contract_delivery_ok(jobs: Seq<(YamlNode, YamlNode)>) -> bool {
    contract_job_ok(jobs) && assemble_ok(jobs)
}

/// The candidate workflow calls the native workflow exactly once and
/// delivers the contract receipts to the assembly job.
#[verifier::opaque]
pub open spec fn candidate_ok(docs: Seq<YamlNode>) -> bool {
    &&& docs.len() == 1
    &&& match mapping_of(docs[0]) {
        None => false,
        Some(root) => {
            &&& !has_key(root, "defaults"@)
            &&& match lookup(root, "jobs"@) {
                None => false,
                Some(jv) => match mapping_of(jv) {
                    None => false,
                    Some(jobs) => {
                        &&& tally_of(jobs, native_counter(), jobs.len() as int) == Some(1nat)
                        &&& contract_delivery_ok(jobs)
                    },
                },
            }
        },
    }
}

fn reject_execution_modifiers(h: &Vec<(YamlNode, YamlNode)>, path: &str) -> (r: Result<(), String>)
    ensures
        r is Ok <==> modifiers_free(h@),
{
    let keys = ["if", "continue-on-error", "strategy", "defaults"];
    let mut i: usize = 0;
    while i < 4
        invariant
            i <= 4,
            keys@ == seq!["if", "continue-on-error", "strategy", "defaults"],
            i > 0 ==> !has_key(h@, "if"@),
            i > 1 ==> !has_key(h@, "continue-on-error"@),
            i > 2 ==> !has_key(h@, "strategy"@),
            i > 3 ==> !has_key(h@, "defaults"@),
        decreases 4 - i,
    {
        if optional(h, keys[i]).is_some() {
            let head = cat3("acceptance producers: ", path, " may not declare ");
            return Err(cat(head.as_str(), keys[i]));
        }
        i += 1;
    }
    Ok(())
}

fn require_string(h: &Vec<(YamlNode, YamlNode)>, key: &str, expected: &str, path: &str) -> (r: Result<(), String>)
    ensures
        r is Ok <==> string_field(h@, key@) == Some(expected@),
{
    let key_path = cat3(path, ".", key);
    let actual = as_string(required_field(h, key, path)?, key_path.as_str())?;
    if !eq_str(actual, expected) {
        let head = cat3("acceptance producers: ", key_path.as_str(), " must equal ");
        return Err(cat(head.as_str(), expected));
    }
    Ok(())
}

fn needs_exec(job: &Vec<(YamlNode, YamlNode)>, path: &str) -> (r: Result<Vec<String>, String>)
    ensures
        match needs_of(job@) {
            None => r is Err,
            Some(ns) => r matches Ok(v) && v.deep_view() == ns,
        },
{
    let raw = required_field(job, "needs", path)?;
    match raw {
        YamlNode::Str(s) => {
            let v = vec![to_string(s.as_str())];
            assert(v.deep_view() =~= seq![s@]);
            Ok(v)
        },
        YamlNode::Array(a) => {
            let needs_path = cat(path, ".needs");
            let mut out: Vec<String> = Vec::new();
            let mut i: usize = 0;
            assert(needs_of(job@) == (if all_strings(a@) { Some(strings_in(a@)) } else { None }));
            while i < a.len()
                invariant
                    i <= a@.len(),
                    needs_of(job@) == (if all_strings(a@) { Some(strings_in(a@)) } else { None }),
                    forall|k: int| 0 <= k < i ==> (#[trigger] string_of(a@[k])) is Some,
                    out.deep_view() == strings_in(a@.take(i as int)),
                decreases a@.len() - i,
            {
                let s = as_string(&a[i], needs_path.as_str());
                if s.is_err() {
                    assert(!all_strings(a@));
                }
                let s = s?;
                let ghost before = out.deep_view();
                out.push(to_string(s));
                assert(strings_in(a@.take(i + 1)) =~= strings_in(a@.take(i as int)).push(s@));
                i += 1;
            }
            assert(a@.take(a@.len() as int) =~= a@);
            Ok(out)
        },
        _ => Err(cat3("acceptance producers: ", path, ".needs must be a string or sequence")),
    }
}

fn require_needs(job: &Vec<(YamlNode, YamlNode)>, wanted: &Vec<&str>, path: &str) -> (r: Result<(), String>)
    ensures
        r is Ok <==> needs_include(job@, wanted@.map_values(|s: &str| s@)),
{
    let ghost wv = wanted@.map_values(|s: &str| s@);
    let needs = needs_exec(job, path)?;
    let mut k: usize = 0;
    while k < wanted.len()
        invariant
            k <= wanted@.len(),
            wv == wanted@.map_values(|s: &str| s@),
            needs_of(job@) == Some(needs.deep_view()),
            forall|q: int| 0 <= q < k ==> needs.deep_view().contains(#[trigger] wv[q]),
        decreases wanted@.len() - k,
    {
        if !contains_str_in(&needs, wanted[k]) {
            assert(!needs.deep_view().contains(wv[k as int]));
            let head = cat3("acceptance producers: ", path, ".needs must include ");
            return Err(cat(head.as_str(), wanted[k]));
        }
        k += 1;
    }
    Ok(())
}

fn native_secrets(job: &Vec<(YamlNode, YamlNode)>, path: &str) -> (r: Result<(), String>)
    ensures
        r is Ok <==> secrets_ok(job@),
{
    proof {
        reveal(secrets_ok);
    }
    let secrets_path = cat(path, ".secrets");
    let secrets = as_mapping(required_field(job, "secrets", path)?, secrets_path.as_str())?;
    if secrets.len() != 4 {
        return Err(cat3("acceptance producers: ", secrets_path.as_str(), " must use the exact Android signing set"));
    }
    require_string(secrets, "ANDROID_KEYSTORE_BASE64", "${{ secrets.ANDROID_KEYSTORE_BASE64 }}", secrets_path.as_str())?;
    require_string(
        secrets,
        "ANDROID_KEYSTORE_PASSWORD",
        "${{ secrets.ANDROID_KEYSTORE_PASSWORD }}",
        secrets_path.as_str(),
    )?;
    require_string(secrets, "ANDROID_KEY_ALIAS", "${{ secrets.ANDROID_KEY_ALIAS }}", secrets_path.as_str())?;
    require_string(secrets, "ANDROID_KEY_PASSWORD", "${{ secrets.ANDROID_KEY_PASSWORD }}", secrets_path.as_str())?;
    Ok(())
}

fn native_call(job: &Vec<(YamlNode, YamlNode)>, path: &str) -> (r: Result<(), String>)
    ensures
        r is Ok <==> native_call_ok(job@),
{
    proof {
        reveal(native_call_ok);
    }
    reject_execution_modifiers(job, path)?;
    let wanted = vec!["identity", "web-dist"];
    assert(wanted@.map_values(|s: &str| s@) =~= native_needs());
    require_needs(job, &wanted, path)?;
    let with = as_mapping(required_field(job, "with", path)?, cat(path, ".with").as_str())?;
    require_string(with, "candidate_head", "${{ github.sha }}", path)?;
    require_string(with, "version", "${{ inputs.version }}", path)?;
    require_string(with, "web_dist_artifact", "deve-candidate-web-dist-${{ github.sha }}", path)?;
    native_secrets(job, path)
}

fn native_entry_exec(entry: &(YamlNode, YamlNode)) -> (r: Result<bool, String>)
    ensures
        match native_entry(*entry) {
            None => r is Err,
            Some(b) => r == Ok::<bool, String>(b),
        },
{
    proof {
        reveal(native_entry);
    }
    let job_id = as_string(&entry.0, "release-candidate.yml.jobs key")?;
    let path = cat("release-candidate.yml.jobs.", job_id);
    let job = as_mapping(&entry.1, path.as_str())?;
    let uses = match optional(job, "uses") {
        Some(u) => u,
        None => {
            return Ok(false);
        },
    };
    let uses = as_string(uses, cat(path.as_str(), ".uses").as_str())?;
    if !eq_str(uses, NATIVE_WORKFLOW) {
        return Ok(false);
    }
    native_call(job, path.as_str())?;
    Ok(true)
}

fn validate_native_call(jobs: &Vec<(YamlNode, YamlNode)>) -> (r: Result<(), String>)
    ensures
        r is Ok <==> tally_of(jobs@, native_counter(), jobs@.len() as int) == Some(1nat),
{
    let mut calls: usize = 0;
    let mut k: usize = 0;
    while k < jobs.len()
        invariant
            k <= jobs@.len(),
            calls <= k,
            tally_of(jobs@, native_counter(), k as int) == Some(calls as nat),
        decreases jobs@.len() - k,
    {
        let hit = native_entry_exec(&jobs[k]);
        if hit.is_err() {
            proof {
                lemma_tally_refused(jobs@, native_counter(), k + 1, jobs@.len() as int);
            }
        }
        if hit? {
            calls += 1;
        }
        k += 1;
    }
    if calls != 1 {
        return Err(cat3(
            "acceptance producers: release candidate must call release-native.yml exactly once, found ",
            decimal_string(calls as u128).as_str(),
            "",
        ));
    }
    Ok(())
}

fn upload_entry_exec(node: &YamlNode, path: &str) -> (r: Result<bool, String>)
    ensures
        match upload_entry(*node) {
            None => r is Err,
            Some(b) => r == Ok::<bool, String>(b),
        },
{
    proof {
        reveal(upload_entry);
    }
    let step = as_mapping(node, path)?;
    let uses = match optional(step, "uses") {
        Some(u) => u,
        None => {
            return Ok(false);
        },
    };
    let uses = as_string(uses, cat(path, ".uses").as_str())?;
    if !eq_str(uses, UPLOAD_ACTION) {
        return Ok(false);
    }
    contract_upload_check(step, path)?;
    Ok(true)
}

fn contract_upload_check(step: &Vec<(YamlNode, YamlNode)>, path: &str) -> (r: Result<(), String>)
    ensures
        r is Ok <==> contract_upload_ok(step@),
{
    proof {
        reveal(contract_upload_ok);
    }
    if optional(step, "continue-on-error").is_some() {
        return Err(cat3("acceptance producers: ", path, " may not declare continue-on-error"));
    }
    require_string(step, "if", "${{ always() }}", path)?;
    let with = as_mapping(required_field(step, "with", path)?, cat(path, ".with").as_str())?;
    require_string(with, "name", "deve-acceptance-receipts-contracts-${{ github.sha }}", path)?;
    require_string(with, "path", "${{ runner.temp }}/deve-acceptance-contracts", path)?;
    require_string(with, "if-no-files-found", "error", path)
}

#[verifier::rlimit(40)]
fn download_entry_exec(node: &YamlNode, path: &str) -> (r: Result<bool, String>)
    ensures
        match download_entry(*node) {
            None => r is Err,
            Some(b) => r == Ok::<bool, String>(b),
        },
{
    proof {
        reveal(download_entry);
    }
    let step = as_mapping(node, path)?;
    let uses = match optional(step, "uses") {
        Some(u) => u,
        None => {
            return Ok(false);
        },
    };
    let uses = as_string(uses, cat(path, ".uses").as_str())?;
    if !eq_str(uses, DOWNLOAD_ACTION) {
        return Ok(false);
    }
    let with = as_mapping(required_field(step, "with", path)?, cat(path, ".with").as_str())?;
    if optional(with, "pattern").is_none() {
        return Ok(false);
    }
    download_check(step, with, path)?;
    Ok(true)
}

fn download_check(step: &Vec<(YamlNode, YamlNode)>, with: &Vec<(YamlNode, YamlNode)>, path: &str) -> (r: Result<(), String>)
    ensures
        r is Ok <==> download_ok(step@, with@),
{
    proof {
        reveal(download_ok);
    }
    if optional(step, "if").is_some() {
        return Err(cat3("acceptance producers: ", path, " may not declare if"));
    }
    if optional(step, "continue-on-error").is_some() {
        return Err(cat3("acceptance producers: ", path, " may not declare continue-on-error"));
    }
    if with.len() != 3 {
        return Err(cat3(
            "acceptance producers: ",
            path,
            ".with must contain only pattern, path, and merge-multiple",
        ));
    }
    require_string(with, "pattern", "deve-acceptance-receipts-*-${{ github.sha }}", path)?;
    require_string(with, "path", "${{ runner.temp }}/deve-release-incoming/receipts", path)?;
    match optional(with, "merge-multiple") {
        Some(YamlNode::Boolean(b)) => {
            if *b {
                return Err(cat3("acceptance producers: ", path, ".merge-multiple must be false"));
            }
        },
        _ => {
            return Err(cat3("acceptance producers: ", path, ".merge-multiple must be false"));
        },
    }
    Ok(())
}

/// Counts the receipt uploads (`upload` true) or receipt downloads of a
/// job's steps.
fn count_steps(steps: &Vec<YamlNode>, upload: bool, job_path: &str) -> (r: Result<usize, String>)
    ensures
        match tally_of(steps@, if upload { upload_counter() } else { download_counter() }, steps@.len() as int) {
            None => r is Err,
            Some(c) => r matches Ok(v) && v as nat == c,
        },
{
    let ghost f = if upload { upload_counter() } else { download_counter() };
    let mut count: usize = 0;
    let mut k: usize = 0;
    while k < steps.len()
        invariant
            k <= steps@.len(),
            count <= k,
            f == (if upload { upload_counter() } else { download_counter() }),
            tally_of(steps@, f, k as int) == Some(count as nat),
        decreases steps@.len() - k,
    {
        let head = cat(job_path, ".steps[");
        let path = cat3(head.as_str(), decimal_string(k as u128).as_str(), "]");
        let hit = if upload {
            upload_entry_exec(&steps[k], path.as_str())
        } else {
            download_entry_exec(&steps[k], path.as_str())
        };
        if hit.is_err() {
            proof {
                lemma_tally_refused(steps@, f, k + 1, steps@.len() as int);
            }
        }
        if hit? {
            count += 1;
        }
        k += 1;
    }
    Ok(count)
}

fn assemble_needs_table() -> (r: Vec<&'static str>)
    ensures
        r@.map_values(|s: &str| s@) == assemble_needs(),
{
    let r = vec![
        "identity",
        "contract-static",
        "rust-quality",
        "workspace-tests",
        "full-baseline",
        "web-dist",
        "docker-linux-amd64-build",
        "docker-linux-amd64-smoke",
        "contract-receipts",
        "repo-process-linux",
        "security-receipts",
        "github-receipts",
        "native",
    ];
    assert(r@.map_values(|s: &str| s@) =~= assemble_needs());
    r
}

fn validate_receipt_download(assemble: &Vec<(YamlNode, YamlNode)>) -> (r: Result<(), String>)
    ensures
        r is Ok <==> match job_steps(assemble@) {
            None => false,
            Some(steps) => tally_of(steps, download_counter(), steps.len() as int) == Some(1nat),
        },
{
    let job_path = "release-candidate.yml.jobs.assemble";
    let steps = as_sequence(required_field(assemble, "steps", job_path)?, "release-candidate.yml.jobs.assemble.steps")?;
    let downloads = count_steps(steps, false, job_path)?;
    if downloads != 1 {
        return Err(to_string("acceptance producers: assemble must download the receipt artifact set exactly once"));
    }
    Ok(())
}

fn validate_contract_job(jobs: &Vec<(YamlNode, YamlNode)>) -> (r: Result<(), String>)
    ensures
        r is Ok <==> contract_job_ok(jobs@),
{
    proof {
        reveal(contract_job_ok);
    }
    let contract_path = "release-candidate.yml.jobs.contract-receipts";
    let contract = as_mapping(required_field(jobs, "contract-receipts", "release-candidate.yml.jobs")?, contract_path)?;
    reject_execution_modifiers(contract, contract_path)?;
    let wanted = vec!["identity"];
    assert(wanted@.map_values(|s: &str| s@) =~= contract_needs());
    require_needs(contract, &wanted, contract_path)?;
    let steps = as_sequence(
        required_field(contract, "steps", contract_path)?,
        "release-candidate.yml.jobs.contract-receipts.steps",
    )?;
    let uploads = count_steps(steps, true, contract_path)?;
    if uploads != 1 {
        return Err(to_string("acceptance producers: contract-receipts must upload its receipt root exactly once"));
    }
    Ok(())
}

fn validate_assemble(jobs: &Vec<(YamlNode, YamlNode)>) -> (r: Result<(), String>)
    ensures
        r is Ok <==> assemble_ok(jobs@),
{
    proof {
        reveal(assemble_ok);
    }
    let assemble_path = "release-candidate.yml.jobs.assemble";
    let assemble = as_mapping(required_field(jobs, "assemble", "release-candidate.yml.jobs")?, assemble_path)?;
    reject_execution_modifiers(assemble, assemble_path)?;
    let wanted = assemble_needs_table();
    require_needs(assemble, &wanted, assemble_path)?;
    validate_receipt_download(assemble)
}

fn validate_contract_delivery(jobs: &Vec<(YamlNode, YamlNode)>) -> (r: Result<(), String>)
    ensures
        r is Ok <==> contract_delivery_ok(jobs@),
{
    validate_contract_job(jobs)?;
    validate_assemble(jobs)
}

/// Checks a loaded release candidate workflow: one document, no run
/// defaults, exactly one call of the native workflow, and the contract
/// receipts' delivery to the assembly job.
pub fn validate_candidate_document(docs: &Vec<YamlNode>) -> (r: Result<(), String>)
    ensures
        r is Ok <==> candidate_ok(docs@),
{
    proof {
        reveal(candidate_ok);
    }
    if docs.len() != 1 {
        return Err(to_string("acceptance producers: release-candidate.yml must contain one YAML document"));
    }
    let root = as_mapping(&docs[0], "release-candidate.yml")?;
    if optional(root, "defaults").is_some() {
        return Err(to_string("acceptance producers: candidate workflow may not override run defaults"));
    }
    let jobs = as_mapping(required_field(root, "jobs", "release-candidate.yml")?, "release-candidate.yml.jobs")?;
    validate_native_call(jobs)?;
    validate_contract_delivery(jobs)
}

/// Checks the release candidate workflow text; text that does not load as
/// YAML is refused.
pub fn validate_candidate(content: &str) -> (r: Result<(), String>)
    ensures
        r is Ok <==> (yaml_documents(content@) matches Some(d) && candidate_ok(d)),
{
    match load_yaml(content) {
        Some(docs) => validate_candidate_document(&docs),
        None => Err(to_string("acceptance producers: release-candidate.yml is not valid YAML")),
    }
}

} // verus!
