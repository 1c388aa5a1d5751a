//! Exact candidate receipt-artifact upload set validation.
use super::yaml::{
    as_mapping, as_sequence, as_string, has_key, load_yaml, lookup, mapping_of, optional, sequence_of, string_of,
    yaml_documents, YamlNode,
};
use crate::text::{cat, cat3, decimal_string, eq_str, join, starts_with, starts_with_str, to_string};
use vstd::prelude::*;

verus! {

/// The pinned artifact upload action.
pub const UPLOAD_ACTION: &'static str = "actions/upload-artifact@043fb46d1a93c77aae656e7c1c64a875d1fc6a0a";

/// The receipt artifacts the candidate and native workflows must upload,
/// each with the directory it comes from.
pub open spec fn expected_uploads() -> Seq<(Seq<char>, Seq<char>)> {
    seq![
        ("deve-acceptance-receipts-docker-${{ github.sha }}"@, "${{ runner.temp }}/deve-acceptance-docker"@),
        ("deve-acceptance-receipts-contracts-${{ github.sha }}"@, "${{ runner.temp }}/deve-acceptance-contracts"@),
        ("deve-acceptance-receipts-release-${{ github.sha }}"@, "${{ runner.temp }}/deve-acceptance-release-candidate"@),
        ("deve-acceptance-receipts-repo-linux-${{ github.sha }}"@, "${{ runner.temp }}/deve-acceptance-repo-lifecycle-linux"@),
        ("deve-acceptance-receipts-security-${{ github.sha }}"@, "${{ runner.temp }}/deve-acceptance-security"@),
        ("deve-acceptance-receipts-github-${{ github.sha }}"@, "${{ runner.temp }}/deve-acceptance-github-pvr"@),
        ("deve-acceptance-receipts-desktop-local-${{ inputs.candidate_head }}"@, "${{ runner.temp }}/deve-acceptance-desktop-local"@),
        ("deve-acceptance-receipts-desktop-remote-${{ inputs.candidate_head }}"@, "${{ runner.temp }}/deve-acceptance-desktop-remote"@),
        ("deve-acceptance-receipts-desktop-macos-${{ inputs.candidate_head }}"@, "${{ runner.temp }}/deve-acceptance-desktop-macos"@),
        ("deve-acceptance-receipts-android-local-${{ inputs.candidate_head }}"@, "${{ runner.temp }}/deve-acceptance-android-local"@),
        ("deve-acceptance-receipts-android-remote-${{ inputs.candidate_head }}"@, "${{ runner.temp }}/deve-acceptance-android-remote"@),
    ]
}

pub open spec fn pair_view(t: (&str, &str)) -> (Seq<char>, Seq<char>) {
    (t.0@, t.1@)
}

/// The expected uploads, as a table.
pub fn expected_table() -> (r: Vec<(&'static str, &'static str)>)
    ensures
        r@.len() == expected_uploads().len(),
        forall|k: int| 0 <= k < r@.len() ==> #[trigger] pair_view(r@[k]) == expected_uploads()[k],
{
    let r = vec![
        ("deve-acceptance-receipts-docker-${{ github.sha }}", "${{ runner.temp }}/deve-acceptance-docker"),
        ("deve-acceptance-receipts-contracts-${{ github.sha }}", "${{ runner.temp }}/deve-acceptance-contracts"),
        ("deve-acceptance-receipts-release-${{ github.sha }}", "${{ runner.temp }}/deve-acceptance-release-candidate"),
        ("deve-acceptance-receipts-repo-linux-${{ github.sha }}", "${{ runner.temp }}/deve-acceptance-repo-lifecycle-linux"),
        ("deve-acceptance-receipts-security-${{ github.sha }}", "${{ runner.temp }}/deve-acceptance-security"),
        ("deve-acceptance-receipts-github-${{ github.sha }}", "${{ runner.temp }}/deve-acceptance-github-pvr"),
        ("deve-acceptance-receipts-desktop-local-${{ inputs.candidate_head }}", "${{ runner.temp }}/deve-acceptance-desktop-local"),
        ("deve-acceptance-receipts-desktop-remote-${{ inputs.candidate_head }}", "${{ runner.temp }}/deve-acceptance-desktop-remote"),
        ("deve-acceptance-receipts-desktop-macos-${{ inputs.candidate_head }}", "${{ runner.temp }}/deve-acceptance-desktop-macos"),
        ("deve-acceptance-receipts-android-local-${{ inputs.candidate_head }}", "${{ runner.temp }}/deve-acceptance-android-local"),
        ("deve-acceptance-receipts-android-remote-${{ inputs.candidate_head }}", "${{ runner.temp }}/deve-acceptance-android-remote"),
    ];
    assert forall|k: int| 0 <= k < r@.len() implies #[trigger] pair_view(r@[k]) == expected_uploads()[k] by {}
    r
}

/// The directory an expected artifact name must upload (its first entry), if
/// it is expected.
#[verifier::opaque]
pub open spec fn expected_path(name: Seq<char>) -> Option<Seq<char>> {
    if exists|k: int| 0 <= k < expected_uploads().len() && #[trigger] expected_uploads()[k].0 == name {
        Some(
            expected_uploads()[choose|k: int|
                0 <= k < expected_uploads().len() && #[trigger] expected_uploads()[k].0 == name && forall|j: int|
                    0 <= j < k ==> #[trigger] expected_uploads()[j].0 != name].1,
        )
    } else {
        None
    }
}

pub open spec fn string_field(h: Seq<(YamlNode, YamlNode)>, key: Seq<char>) -> Option<Seq<char>> {
    match lookup(h, key) {
        Some(v) => string_of(v),
        None => None,
    }
}

/// What one step contributes: an error (`None`), nothing, or the name of a
/// receipt artifact it uploads with the pinned action, unconditionally, and
/// (for an expected name) from its directory, failing when it is empty.
#[verifier::opaque]
pub open spec fn step_upload(step: YamlNode) -> Option<Option<Seq<char>>> {
    match mapping_of(step) {
        None => None,
        Some(h) => match lookup(h, "with"@) {
            None => Some(None),
            Some(w) => match mapping_of(w) {
                None => None,
                Some(wh) => match lookup(wh, "name"@) {
                    None => Some(None),
                    Some(nv) => match string_of(nv) {
                        None => None,
                        Some(name) => if !starts_with(name, "deve-acceptance-receipts-"@) {
                            Some(None)
                        } else if !upload_ok(h, wh, name) {
                            None
                        } else {
                            Some(Some(name))
                        },
                    },
                },
            },
        },
    }
}

/// A receipt upload step uses the pinned action unconditionally and without
/// tolerance, and an expected artifact comes from its directory and fails
/// when it is empty.
pub open spec fn upload_ok(h: Seq<(YamlNode, YamlNode)>, wh: Seq<(YamlNode, YamlNode)>, name: Seq<char>) -> bool {
    &&& string_field(h, "uses"@) == Some(UPLOAD_ACTION@)
    &&& !has_key(h, "continue-on-error"@)
    &&& string_field(h, "if"@) == Some("${{ always() }}"@)
    &&& (expected_path(name) matches Some(ep) ==> string_field(wh, "path"@) == Some(ep) && string_field(
        wh,
        "if-no-files-found"@,
    ) == Some("error"@))
}

/// The uploads of the first `n` steps.
pub open spec fn steps_uploads(steps: Seq<YamlNode>, n: int) -> Option<Seq<Seq<char>>>
    decreases n,
{
    if n <= 0 {
        Some(Seq::empty())
    } else {
        match steps_uploads(steps, n - 1) {
            None => None,
            Some(acc) => match step_upload(steps[n - 1]) {
                None => None,
                Some(None) => Some(acc),
                Some(Some(name)) => Some(acc.push(name)),
            },
        }
    }
}

/// The uploads of one job.
#[verifier::opaque]
pub open spec fn job_uploads(entry: (YamlNode, YamlNode)) -> Option<Seq<Seq<char>>> {
    if string_of(entry.0) is None {
        None
    } else {
        match mapping_of(entry.1) {
            None => None,
            Some(job) => match lookup(job, "steps"@) {
                None => Some(Seq::empty()),
                Some(sv) => match sequence_of(sv) {
                    None => None,
                    Some(steps) => steps_uploads(steps, steps.len() as int),
                },
            },
        }
    }
}

/// The uploads of the first `n` jobs.
pub open spec fn jobs_uploads(jobs: Seq<(YamlNode, YamlNode)>, n: int) -> Option<Seq<Seq<char>>>
    decreases n,
{
    if n <= 0 {
        Some(Seq::empty())
    } else {
        match jobs_uploads(jobs, n - 1) {
            None => None,
            Some(acc) => match job_uploads(jobs[n - 1]) {
                None => None,
                Some(u) => Some(acc + u),
            },
        }
    }
}

/// The receipt artifacts a loaded workflow uploads, in document order.
pub open spec fn workflow_uploads(docs: Seq<YamlNode>) -> Option<Seq<Seq<char>>> {
    if docs.len() != 1 {
        None
    } else {
        match mapping_of(docs[0]) {
            None => None,
            Some(root) => match lookup(root, "jobs"@) {
                None => None,
                Some(jv) => match mapping_of(jv) {
                    None => None,
                    Some(jobs) => jobs_uploads(jobs, jobs.len() as int),
                },
            },
        }
    }
}

/// The expected artifact names.
#[verifier::opaque]
pub open spec fn expected_names() -> Set<Seq<char>> {
    Set::new(|n: Seq<char>| exists|k: int| 0 <= k < expected_uploads().len() && #[trigger] expected_uploads()[k].0 == n)
}

/// Every expected artifact is uploaded exactly once and nothing else is.
pub open spec fn upload_set_ok(names: Seq<Seq<char>>) -> bool {
    names.no_duplicates() && names.to_set() == expected_names()
}


/// The value keyed `name`; its absence is an error naming `path`.
pub(crate) fn required_field<'a>(h: &'a Vec<(YamlNode, YamlNode)>, name: &str, path: &str) -> (r: Result<&'a YamlNode, String>)
    ensures
        r is Ok <==> has_key(h@, name@),
        r matches Ok(v) ==> lookup(h@, name@) == Some(*v),
{
    match optional(h, name) {
        Some(v) => Ok(v),
        None => {
            let head = cat3("acceptance producers: ", path, " missing ");
            Err(cat(head.as_str(), name))
        },
    }
}

fn string_field_exec<'a>(h: &'a Vec<(YamlNode, YamlNode)>, key: &str, path: &str, value_path: &str) -> (r: Result<&'a str, String>)
    ensures
        r is Ok <==> string_field(h@, key@) is Some,
        r matches Ok(v) ==> string_field(h@, key@) == Some(v@),
{
    as_string(required_field(h, key, path)?, value_path)
}

proof fn lemma_expected_names(n: Seq<char>)
    ensures
        expected_path(n) is Some <==> expected_names().contains(n),
{
    reveal(expected_path);
    reveal(expected_names);
}

fn expected_path_exec(name: &str) -> (r: Option<&'static str>)
    ensures
        match expected_path(name@) {
            Some(p) => r matches Some(v) && v@ == p,
            None => r is None,
        },
{
    proof {
        reveal(expected_path);
    }
    let table = expected_table();
    let mut k: usize = 0;
    while k < table.len()
        invariant
            k <= table@.len(),
            table@.len() == expected_uploads().len(),
            forall|q: int| 0 <= q < table@.len() ==> #[trigger] pair_view(table@[q]) == expected_uploads()[q],
            forall|q: int| 0 <= q < k ==> #[trigger] expected_uploads()[q].0 != name@,
        decreases table@.len() - k,
    {
        assert(pair_view(table@[k as int]) == expected_uploads()[k as int]);
        if eq_str(table[k].0, name) {
            proof {
                reveal(expected_path);
                assert(expected_uploads()[k as int].0 == name@);
                let c = choose|c: int|
                    0 <= c < expected_uploads().len() && #[trigger] expected_uploads()[c].0 == name@ && forall|j: int|
                        0 <= j < c ==> #[trigger] expected_uploads()[j].0 != name@;
                if c < k {
                    assert(expected_uploads()[c].0 != name@);
                }
                if c > k {
                    assert(expected_uploads()[k as int].0 != name@);
                }
            }
            return Some(table[k].1);
        }
        k += 1;
    }
    None
}

fn check_upload(
    step: &Vec<(YamlNode, YamlNode)>,
    with: &Vec<(YamlNode, YamlNode)>,
    name: &str,
    path: &str,
    with_path: &str,
) -> (r: Result<(), String>)
    ensures
        r is Ok <==> upload_ok(step@, with@, name@),
{
    let uses = string_field_exec(step, "uses", path, cat(path, ".uses").as_str())?;
    if !eq_str(uses, UPLOAD_ACTION) {
        return Err(cat3("acceptance producers: ", path, " must use the pinned receipt upload action"));
    }
    if optional(step, "continue-on-error").is_some() {
        return Err(cat3("acceptance producers: ", path, " may not declare continue-on-error"));
    }
    let condition = string_field_exec(step, "if", path, cat(path, ".if").as_str())?;
    if !eq_str(condition, "${{ always() }}") {
        return Err(cat3("acceptance producers: ", path, ".if must equal ${{ always() }}"));
    }
    match expected_path_exec(name) {
        Some(expected) => {
            let upload_path = string_field_exec(with, "path", with_path, cat(with_path, ".path").as_str())?;
            if !eq_str(upload_path, expected) {
                let head = cat3("acceptance producers: ", path, ".with.path must equal ");
                return Err(cat(head.as_str(), expected));
            }
            let missing = string_field_exec(
                with,
                "if-no-files-found",
                with_path,
                cat(with_path, ".if-no-files-found").as_str(),
            )?;
            if !eq_str(missing, "error") {
                return Err(cat3("acceptance producers: ", path, ".with.if-no-files-found must equal error"));
            }
        },
        None => {},
    }
    Ok(())
}

fn step_upload_exec(node: &YamlNode, path: &str) -> (r: Result<Option<String>, String>)
    ensures
        match step_upload(*node) {
            None => r is Err,
            Some(None) => r matches Ok(None),
            Some(Some(name)) => r matches Ok(Some(v)) && v@ == name,
        },
{
    proof {
        reveal(step_upload);
    }
    let step = as_mapping(node, path)?;
    let with = match optional(step, "with") {
        Some(w) => w,
        None => {
            return Ok(None);
        },
    };
    let with_path = cat(path, ".with");
    let with = as_mapping(with, with_path.as_str())?;
    let name = match optional(with, "name") {
        Some(n) => n,
        None => {
            return Ok(None);
        },
    };
    let name = as_string(name, cat(with_path.as_str(), ".name").as_str())?;
    if !starts_with_str(name, "deve-acceptance-receipts-") {
        return Ok(None);
    }
    check_upload(step, with, name, path, with_path.as_str())?;
    Ok(Some(to_string(name)))
}

proof fn lemma_steps_uploads_none(steps: Seq<YamlNode>, n: int, m: int)
    requires
        0 <= n <= m,
        steps_uploads(steps, n) is None,
    ensures
        steps_uploads(steps, m) is None,
    decreases m - n,
{
    if m > n {
        lemma_steps_uploads_none(steps, n, m - 1);
    }
}

proof fn lemma_jobs_uploads_none(jobs: Seq<(YamlNode, YamlNode)>, n: int, m: int)
    requires
        0 <= n <= m,
        jobs_uploads(jobs, n) is None,
    ensures
        jobs_uploads(jobs, m) is None,
    decreases m - n,
{
    if m > n {
        lemma_jobs_uploads_none(jobs, n, m - 1);
    }
}

fn job_uploads_exec(entry: &(YamlNode, YamlNode), label: &str) -> (r: Result<Vec<String>, String>)
    ensures
        match job_uploads(*entry) {
            None => r is Err,
            Some(u) => r matches Ok(v) && v.deep_view() == u,
        },
{
    proof {
        reveal(job_uploads);
    }
    let job_id = as_string(&entry.0, cat(label, ".jobs key").as_str())?;
    let job_path = cat3(label, ".jobs.", job_id);
    let job = as_mapping(&entry.1, job_path.as_str())?;
    let mut out: Vec<String> = Vec::new();
    let steps = match optional(job, "steps") {
        Some(v) => v,
        None => {
            assert(out.deep_view() =~= Seq::<Seq<char>>::empty());
            return Ok(out);
        },
    };
    let steps = as_sequence(steps, cat(job_path.as_str(), ".steps").as_str())?;
    let ghost sv = steps@;
    let mut index: usize = 0;
    assert(out.deep_view() =~= Seq::<Seq<char>>::empty());
    while index < steps.len()
        invariant
            sv == steps@,
            index <= sv.len(),
            job_uploads(*entry) == steps_uploads(sv, sv.len() as int),
            steps_uploads(sv, index as int) == Some(out.deep_view()),
        decreases sv.len() - index,
    {
        let head = cat3(job_path.as_str(), ".steps[", decimal_string(index as u128).as_str());
        let path = cat(head.as_str(), "]");
        let found = step_upload_exec(&steps[index], path.as_str());
        if found.is_err() {
            proof {
                lemma_steps_uploads_none(sv, index + 1, sv.len() as int);
            }
        }
        match found? {
            Some(name) => {
                let ghost before = out.deep_view();
                out.push(name);
                assert(out.deep_view() =~= before.push(name@));
            },
            None => {},
        }
        index += 1;
    }
    Ok(out)
}

/// The receipt artifacts a loaded workflow uploads, in document order.
pub fn document_uploads(label: &str, docs: &Vec<YamlNode>) -> (r: Result<Vec<String>, String>)
    ensures
        match workflow_uploads(docs@) {
            None => r is Err,
            Some(u) => r matches Ok(v) && v.deep_view() == u,
        },
{
    if docs.len() != 1 {
        return Err(cat3("acceptance producers: ", label, " must contain one YAML document"));
    }
    let root = as_mapping(&docs[0], label)?;
    let jobs = as_mapping(required_field(root, "jobs", label)?, cat(label, ".jobs").as_str())?;
    let ghost jv = jobs@;
    let mut out: Vec<String> = Vec::new();
    let mut k: usize = 0;
    assert(out.deep_view() =~= Seq::<Seq<char>>::empty());
    while k < jobs.len()
        invariant
            jv == jobs@,
            k <= jv.len(),
            workflow_uploads(docs@) == jobs_uploads(jv, jv.len() as int),
            jobs_uploads(jv, k as int) == Some(out.deep_view()),
        decreases jv.len() - k,
    {
        let found = job_uploads_exec(&jobs[k], label);
        if found.is_err() {
            proof {
                lemma_jobs_uploads_none(jv, k + 1, jv.len() as int);
            }
        }
        let names = found?;
        let mut q: usize = 0;
        let ghost before = out.deep_view();
        while q < names.len()
            invariant
                q <= names@.len(),
                out.deep_view() == before + names.deep_view().take(q as int),
            decreases names@.len() - q,
        {
            let ghost b2 = out.deep_view();
            let item = to_string(names[q].as_str());
            out.push(item);
            assert(out.deep_view() =~= b2.push(item@));
            assert(names.deep_view().take(q + 1) =~= names.deep_view().take(q as int).push(names@[q as int]@));
            assert(out.deep_view() =~= before + names.deep_view().take(q + 1));
            q += 1;
        }
        assert(names.deep_view().take(names@.len() as int) =~= names.deep_view());
        k += 1;
    }
    Ok(out)
}

/// The receipt artifacts a workflow text uploads; text that does not load as
/// YAML is refused.
pub fn collect(label: &str, content: &str) -> (r: Result<Vec<String>, String>)
    ensures
        match yaml_documents(content@) {
            None => r is Err,
            Some(d) => match workflow_uploads(d) {
                None => r is Err,
                Some(u) => r matches Ok(v) && v.deep_view() == u,
            },
        },
{
    match load_yaml(content) {
        Some(docs) => document_uploads(label, &docs),
        None => Err(cat3("acceptance producers: ", label, " is not valid YAML")),
    }
}

/// How many of the names equal `x`.
#[verifier::opaque]
pub open spec fn count_in(names: Seq<Seq<char>>, x: Seq<char>) -> nat {
    names.filter(|n: Seq<char>| n == x).len()
}

fn count_of(names: &Vec<String>, x: &str) -> (r: usize)
    ensures
        r == count_in(names.deep_view(), x@),
        r <= names@.len(),
{
    let mut c: usize = 0;
    let mut i: usize = 0;
    while i < names.len()
        invariant
            i <= names@.len(),
            c <= i,
            c == names.deep_view().take(i as int).filter(|n: Seq<char>| n == x@).len(),
        decreases names@.len() - i,
    {
        assert(names.deep_view().take(i + 1).drop_last() =~= names.deep_view().take(i as int));
        assert(names.deep_view().take(i + 1).last() == names@[i as int]@);
        reveal(Seq::filter);
        if eq_str(names[i].as_str(), x) {
            c += 1;
        }
        i += 1;
    }
    assert(names.deep_view().take(names@.len() as int) =~= names.deep_view());
    proof {
        reveal(count_in);
    }
    c
}

/// Checks that uploaded artifact names are exactly the expected set, each
/// once.
pub fn check_upload_set(names: &Vec<String>) -> (r: Result<(), String>)
    ensures
        r is Ok <==> upload_set_ok(names.deep_view()),
{
    let table = expected_table();
    let ghost nv = names.deep_view();
    let mut exact = true;
    let mut unexpected: Vec<String> = Vec::new();
    let mut i: usize = 0;
    while i < names.len()
        invariant
            nv == names.deep_view(),
            i <= nv.len(),
            table@.len() == expected_uploads().len(),
            forall|q: int| 0 <= q < table@.len() ==> #[trigger] pair_view(table@[q]) == expected_uploads()[q],
            exact == forall|q: int| 0 <= q < i ==> expected_names().contains(#[trigger] nv[q]),
        decreases nv.len() - i,
    {
        let name = names[i].as_str();
        assert(nv[i as int] == name@);
        let found = expected_path_exec(name).is_some();
        proof {
            lemma_expected_names(name@);
        }
        if !found {
            exact = false;
            unexpected.push(to_string(name));
        }
        i += 1;
    }
    let mut missing: Vec<String> = Vec::new();
    let mut k: usize = 0;
    let ghost covered = exact;
    let mut all_present = true;
    while k < table.len()
        invariant
            nv == names.deep_view(),
            k <= table@.len(),
            table@.len() == expected_uploads().len(),
            forall|q: int| 0 <= q < table@.len() ==> #[trigger] pair_view(table@[q]) == expected_uploads()[q],
            all_present == forall|q: int| 0 <= q < k ==> nv.contains(#[trigger] expected_uploads()[q].0),
        decreases table@.len() - k,
    {
        assert(pair_view(table@[k as int]) == expected_uploads()[k as int]);
        let present = crate::strset::contains_str_in(names, table[k].0);
        assert(present == nv.contains(expected_uploads()[k as int].0));
        if !present {
            all_present = false;
            missing.push(to_string(table[k].0));
        }
        k += 1;
    }
    let mut distinct = true;
    let mut duplicate: Vec<String> = Vec::new();
    let set = crate::strset::sorted_set_of(names);
    let mut a: usize = 0;
    while a < names.len()
        invariant
            nv == names.deep_view(),
            a <= nv.len(),
            distinct == forall|p: int, q: int| 0 <= p < a && 0 <= q < nv.len() && p != q ==> #[trigger] nv[p] != #[trigger] nv[q],
        decreases nv.len() - a,
    {
        let mut b: usize = 0;
        let mut clash = false;
        while b < names.len()
            invariant
                nv == names.deep_view(),
                a < nv.len(),
                b <= nv.len(),
                clash == exists|q: int| 0 <= q < b && q != a && #[trigger] nv[q] == nv[a as int],
            decreases nv.len() - b,
        {
            if b != a && eq_str(names[b].as_str(), names[a].as_str()) {
                assert(nv[b as int] == nv[a as int]);
                clash = true;
            }
            b += 1;
        }
        if clash {
            distinct = false;
        }
        proof {
            if clash {
                let q = choose|q: int| 0 <= q < nv.len() && q != a && #[trigger] nv[q] == nv[a as int];
                assert(nv[a as int] == nv[q]);
            }
        }
        a += 1;
    }
    let mut s: usize = 0;
    while s < set.len()
        invariant
            s <= set@.len(),
        decreases set@.len() - s,
    {
        let c = count_of(names, set[s].as_str());
        if c != 1 {
            let head = cat3(set[s].as_str(), ":", decimal_string(c as u128).as_str());
            duplicate.push(head);
        }
        s += 1;
    }
    proof {
        reveal(expected_names);
        if exact && all_present {
            assert forall|x: Seq<char>| nv.to_set().contains(x) <==> expected_names().contains(x) by {
                if nv.to_set().contains(x) {
                    let q = choose|q: int| 0 <= q < nv.len() && nv[q] == x;
                    assert(expected_names().contains(nv[q]));
                }
                if expected_names().contains(x) {
                    let q = choose|q: int| 0 <= q < expected_uploads().len() && #[trigger] expected_uploads()[q].0 == x;
                    assert(nv.contains(expected_uploads()[q].0));
                }
            }
            assert(nv.to_set() =~= expected_names());
        }
        if !exact {
            let q = choose|q: int| 0 <= q < nv.len() && !expected_names().contains(#[trigger] nv[q]);
            assert(nv.to_set().contains(nv[q]));
        }
        if !all_present {
            let q = choose|q: int| 0 <= q < expected_uploads().len() && !nv.contains(#[trigger] expected_uploads()[q].0);
            assert(expected_names().contains(expected_uploads()[q].0));
        }
    }
    if !exact || !all_present || !distinct {
        let unexpected = crate::strset::sorted_set_of(&unexpected);
        let head = cat(
            "acceptance producers: receipt artifact upload set mismatch; missing=[",
            join(&missing, ",").as_str(),
        );
        let mid = cat3(head.as_str(), "] unexpected=[", join(&unexpected, ",").as_str());
        let tail = cat3(mid.as_str(), "] duplicate=[", join(&duplicate, ",").as_str());
        return Err(cat(tail.as_str(), "]"));
    }
    Ok(())
}

/// Checks the receipt artifacts the candidate and native release workflows
/// upload against the expected set.
#[verifier::rlimit(40)]
pub fn validate(candidate: &str, native: &str) -> (r: Result<(), String>)
    ensures
        r is Ok <==> (yaml_documents(candidate@) matches Some(c) && yaml_documents(native@) matches Some(n) && workflow_uploads(c)
            matches Some(cu) && workflow_uploads(n) matches Some(nu) && upload_set_ok(cu + nu)),
{
    let mut names = collect("release-candidate.yml", candidate)?;
    let native_names = collect("release-native.yml", native)?;
    let ghost first = names.deep_view();
    let mut q: usize = 0;
    while q < native_names.len()
        invariant
            q <= native_names@.len(),
            names.deep_view() == first + native_names.deep_view().take(q as int),
        decreases native_names@.len() - q,
    {
        let ghost b = names.deep_view();
        let item = to_string(native_names[q].as_str());
        names.push(item);
        assert(names.deep_view() =~= b.push(item@));
        assert(native_names.deep_view().take(q + 1) =~= native_names.deep_view().take(q as int).push(native_names@[q as int]@));
        q += 1;
    }
    assert(native_names.deep_view().take(native_names@.len() as int) =~= native_names.deep_view());
    check_upload_set(&names)
}

} // verus!
