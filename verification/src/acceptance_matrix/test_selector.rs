//! Cargo test evidence selectors.
use super::model::MatrixRow;
use crate::acceptance_bindings::{regex_compile_error, regex_group1};
use crate::text::{cat, cat3, contains, contains_str, split_ws, split_ws_str, starts_with, starts_with_str, eq_str, to_string};
use crate::text::opt_view;
use vstd::prelude::*;

verus! {

/// A `cargo test` evidence reference: the package, and the test target
/// and/or name filter it runs.
#[derive(Debug)]
pub struct TestSelector {
    pub package: String,
    pub test_target: Option<String>,
    pub filter: Option<String>,
}

pub type SelectorState = (Option<Seq<char>>, Option<Seq<char>>, Option<Seq<char>>);

/// The first `--` among the words, or their count.
pub open spec fn separator_index(w: Seq<Seq<char>>) -> int {
    if exists|i: int| 0 <= i < w.len() && w[i] == "--"@ {
        choose|i: int| 0 <= i < w.len() && w[i] == "--"@ && forall|j: int| 0 <= j < i ==> #[trigger] w[j] != "--"@
    } else {
        w.len() as int
    }
}

/// Reads the words from `i` up to `sep`: `-p`/`--package <name>`,
/// `--test <target>`, `--lib`, `--locked`, and at most one filter.
pub open spec fn selector_scan(w: Seq<Seq<char>>, sep: int, i: int, st: SelectorState) -> Option<SelectorState>
    decreases (if sep >= i { sep - i } else { 0 }),
{
    if i >= sep || i < 0 {
        Some(st)
    } else if w[i] == "-p"@ || w[i] == "--package"@ {
        if i + 1 < w.len() {
            selector_scan(w, sep, i + 2, (Some(w[i + 1]), st.1, st.2))
        } else {
            None
        }
    } else if w[i] == "--test"@ {
        if i + 1 < w.len() {
            selector_scan(w, sep, i + 2, (st.0, Some(w[i + 1]), st.2))
        } else {
            None
        }
    } else if w[i] == "--lib"@ || w[i] == "--locked"@ {
        selector_scan(w, sep, i + 1, st)
    } else if starts_with(w[i], "-"@) {
        None
    } else if st.2 is None {
        selector_scan(w, sep, i + 1, (st.0, st.1, Some(w[i])))
    } else {
        None
    }
}

/// The selector a reference denotes, if it is well formed.
pub open spec fn selector_spec(reference: Seq<char>) -> Option<SelectorState> {
    let w = split_ws(reference);
    if w.len() < 2 || w[0] != "cargo"@ || w[1] != "test"@ {
        None
    } else {
        match selector_scan(w, separator_index(w), 2, (None, None, None)) {
            Some(st) => if (st.2 is None && st.1 is None) || st.0 is None {
                None
            } else {
                Some(st)
            },
            None => None,
        }
    }
}


fn find_separator(words: &Vec<String>) -> (r: usize)
    ensures
        r <= words.len(),
        r as int == separator_index(words.deep_view()),
{
    let ghost w = words.deep_view();
    proof {
        reveal_strlit("--");
    }
    let mut q: usize = 0;
    while q < words.len()
        invariant
            q <= words.len(),
            w == words.deep_view(),
            forall|j: int| 0 <= j < q ==> #[trigger] w[j] != "--"@,
        decreases words.len() - q,
    {
        assert(w[q as int] == words@[q as int]@);
        if eq_str(words[q].as_str(), "--") {
            proof {
                let c = choose|c: int| 0 <= c < w.len() && w[c] == "--"@ && forall|j: int| 0 <= j < c ==> #[trigger] w[j] != "--"@;
                if c < q {
                    assert(w[c] != "--"@);
                } else if c > q {
                    assert(w[q as int] != "--"@);
                }
            }
            return q;
        }
        q += 1;
    }
    words.len()
}

impl TestSelector {
    /// Parses `cargo test -p <package> [--test <target>] [<filter>] [-- ...]`.
    pub fn parse(reference: &str) -> (r: Result<TestSelector, String>)
        ensures
            r is Ok <==> selector_spec(reference@) is Some,
            r matches Ok(s) ==> selector_spec(reference@) == Some((Some(s.package@), opt_view(s.test_target), opt_view(s.filter))),
    {
        let words = split_ws_str(reference);
        let ghost w = words.deep_view();
        proof {
            reveal_strlit("--");
            reveal_strlit("-");
            reveal_strlit("-p");
            reveal_strlit("--package");
            reveal_strlit("--test");
            reveal_strlit("--lib");
            reveal_strlit("--locked");
        }
        if words.len() < 2 || !eq_str(words[0].as_str(), "cargo") || !eq_str(words[1].as_str(), "test") {
            assert(w.len() >= 2 ==> w[0] == words@[0]@ && w[1] == words@[1]@);
            return Err(to_string("test evidence must start with `cargo test`"));
        }
        assert(w[0] == words@[0]@ && w[1] == words@[1]@);
        let sep = find_separator(&words);
        assert(sep as int == separator_index(w));
        let mut package: Option<String> = None;
        let mut test_target: Option<String> = None;
        let mut filter: Option<String> = None;
        let mut index: usize = 2;
        while index < sep
            invariant
                w == words.deep_view(),
                w == split_ws(reference@),
                w.len() >= 2 && w[0] == "cargo"@ && w[1] == "test"@,
                sep <= words.len(),
                sep as int == separator_index(w),
                2 <= index <= words.len(),
                selector_scan(w, sep as int, 2, (None, None, None)) == selector_scan(
                    w,
                    sep as int,
                    index as int,
                    (opt_view(package), opt_view(test_target), opt_view(filter)),
                ),
            decreases words.len() - index,
        {
            let word = words[index].as_str();
            assert(w[index as int] == word@);
            if eq_str(word, "-p") || eq_str(word, "--package") {
                if index + 1 >= words.len() {
                    return Err(to_string("package option is missing its value"));
                }
                assert(w[index + 1] == words@[index as int + 1]@);
                package = Some(words[index + 1].clone());
                index += 2;
            } else if eq_str(word, "--test") {
                if index + 1 >= words.len() {
                    return Err(to_string("test target option is missing its value"));
                }
                assert(w[index + 1] == words@[index as int + 1]@);
                test_target = Some(words[index + 1].clone());
                index += 2;
            } else if eq_str(word, "--lib") || eq_str(word, "--locked") {
                index += 1;
            } else if starts_with_str(word, "-") {
                return Err(cat("unsupported cargo test option ", word));
            } else if filter.is_none() {
                filter = Some(words[index].clone());
                index += 1;
            } else {
                return Err(cat("unexpected cargo test argument ", word));
            }
        }
        if filter.is_none() && test_target.is_none() {
            return Err(to_string("test evidence needs a filter or an explicit --test target"));
        }
        let package = match package {
            Some(p) => p,
            None => {
                return Err(to_string("cargo test evidence requires -p/--package"));
            },
        };
        Ok(TestSelector { package, test_target, filter })
    }
}

/// One package of the workspace: its directory and its test targets, each
/// a (name, source path) pair.
#[derive(Debug)]
pub struct TestPackage {
    pub name: String,
    pub root: String,
    pub test_targets: Vec<(String, String)>,
}

/// The workspace's packages, as `cargo metadata` lists them.
#[derive(Debug)]
pub struct TestCatalog {
    pub packages: Vec<TestPackage>,
}

/// No two packages share a name, and no package has two test targets of one
/// name: the catalog is a map from names.
pub open spec fn catalog_wf(packages: Seq<TestPackage>) -> bool {
    &&& forall|i: int, j: int| 0 <= i < j < packages.len() ==> (#[trigger] packages[i]).name@ != (#[trigger] packages[j]).name@
    &&& forall|p: int| 0 <= p < packages.len() ==> targets_unique((#[trigger] packages[p]).test_targets@)
}

pub open spec fn targets_unique(targets: Seq<(String, String)>) -> bool {
    forall|i: int, j: int| 0 <= i < j < targets.len() ==> (#[trigger] targets[i]).0@ != (#[trigger] targets[j]).0@
}

/// The package of that name, if any.
pub open spec fn package_named(packages: Seq<TestPackage>, name: Seq<char>) -> Option<TestPackage> {
    if exists|i: int| 0 <= i < packages.len() && (#[trigger] packages[i]).name@ == name {
        Some(packages[choose|i: int| 0 <= i < packages.len() && (#[trigger] packages[i]).name@ == name])
    } else {
        None
    }
}

/// The source path of the test target of that name, if any.
pub open spec fn target_named(targets: Seq<(String, String)>, name: Seq<char>) -> Option<Seq<char>> {
    if exists|i: int| 0 <= i < targets.len() && (#[trigger] targets[i]).0@ == name {
        Some(targets[choose|i: int| 0 <= i < targets.len() && (#[trigger] targets[i]).0@ == name].1@)
    } else {
        None
    }
}

/// Where a test row's selector points: its package, the directory whose
/// sources must define its filter, and the filter.
#[derive(Debug)]
pub struct SearchRoot {
    pub package: String,
    pub root: String,
    pub filter: Option<String>,
}

/// What `selector_search_root` gives for a row with that id and reference:
/// the package, the search directory and the filter, or the error text.
pub open spec fn search_root_spec(id: Seq<char>, reference: Seq<char>, packages: Seq<TestPackage>) -> Result<
    (Seq<char>, Seq<char>, Option<Seq<char>>),
    Seq<char>,
> {
    match selector_spec(reference) {
        None => Err("acceptance-matrix: invalid test selector for "@ + id),
        Some(st) => {
            let name = st.0.unwrap();
            match package_named(packages, name) {
                None => Err("acceptance-matrix: "@ + id + " references unknown package "@ + name),
                Some(pkg) => match st.1 {
                    None => Ok((name, pkg.root@, st.2)),
                    Some(target) => match target_named(pkg.test_targets@, target) {
                        None => Err(
                            "acceptance-matrix: "@ + id + " references unknown test target "@ + target + " in "@ + name,
                        ),
                        Some(src) => Ok((name, src, st.2)),
                    },
                },
            }
        },
    }
}

fn find_package<'a>(packages: &'a Vec<TestPackage>, name: &str) -> (r: Option<&'a TestPackage>)
    requires
        catalog_wf(packages@),
    ensures
        match package_named(packages@, name@) {
            Some(p) => r == Some(&p),
            None => r is None,
        },
{
    let mut i: usize = 0;
    while i < packages.len()
        invariant
            i <= packages@.len(),
            catalog_wf(packages@),
            forall|j: int| 0 <= j < i ==> (#[trigger] packages@[j]).name@ != name@,
        decreases packages@.len() - i,
    {
        if eq_str(packages[i].name.as_str(), name) {
            proof {
                let c = choose|c: int| 0 <= c < packages@.len() && (#[trigger] packages@[c]).name@ == name@;
                if c != i {
                    if c < i {
                        assert(packages@[c].name@ != name@);
                    } else {
                        assert(packages@[i as int].name@ != packages@[c].name@);
                    }
                }
            }
            return Some(&packages[i]);
        }
        i += 1;
    }
    None
}

fn find_target<'a>(targets: &'a Vec<(String, String)>, name: &str) -> (r: Option<&'a String>)
    requires
        targets_unique(targets@),
    ensures
        match target_named(targets@, name@) {
            Some(src) => r matches Some(v) && v@ == src,
            None => r is None,
        },
{
    let mut i: usize = 0;
    while i < targets.len()
        invariant
            i <= targets@.len(),
            targets_unique(targets@),
            forall|j: int| 0 <= j < i ==> (#[trigger] targets@[j]).0@ != name@,
        decreases targets@.len() - i,
    {
        if eq_str(targets[i].0.as_str(), name) {
            proof {
                let c = choose|c: int| 0 <= c < targets@.len() && (#[trigger] targets@[c]).0@ == name@;
                if c != i {
                    if c < i {
                        assert(targets@[c].0@ != name@);
                    } else {
                        assert(targets@[i as int].0@ != targets@[c].0@);
                    }
                }
            }
            return Some(&targets[i].1);
        }
        i += 1;
    }
    None
}

/// Resolves a test row's selector against the catalog: the package must
/// exist, and so must the test target where the selector names one.
pub fn selector_search_root(row: &MatrixRow, catalog: &TestCatalog) -> (r: Result<SearchRoot, String>)
    requires
        catalog_wf(catalog.packages@),
    ensures
        match search_root_spec(row.requirement_id@, row.evidence_ref@, catalog.packages@) {
            Ok(t) => r matches Ok(s) && s.package@ == t.0 && s.root@ == t.1 && opt_view(s.filter) == t.2,
            Err(e) => r matches Err(m) && m@ == e,
        },
{
    let id = row.requirement_id.as_str();
    let selector = match TestSelector::parse(row.evidence_ref.as_str()) {
        Ok(s) => s,
        Err(_) => {
            return Err(cat("acceptance-matrix: invalid test selector for ", id));
        },
    };
    let package = match find_package(&catalog.packages, selector.package.as_str()) {
        Some(p) => p,
        None => {
            let head = cat3("acceptance-matrix: ", id, " references unknown package ");
            return Err(cat(head.as_str(), selector.package.as_str()));
        },
    };
    proof {
        let c = choose|i: int| 0 <= i < catalog.packages@.len() && (#[trigger] catalog.packages@[i]).name@ == selector.package@;
        assert(targets_unique(catalog.packages@[c].test_targets@));
    }
    let root = match &selector.test_target {
        Some(target) => match find_target(&package.test_targets, target.as_str()) {
            Some(src) => to_string(src.as_str()),
            None => {
                let head = cat3("acceptance-matrix: ", id, " references unknown test target ");
                let mid = cat3(head.as_str(), target.as_str(), " in ");
                return Err(cat(mid.as_str(), selector.package.as_str()));
            },
        },
        None => to_string(package.root.as_str()),
    };
    Ok(SearchRoot { package: selector.package, root, filter: selector.filter })
}

/// The pattern of a test function: a `#[test]` (or `#[tokio::test]`)
/// attribute, then `fn`, whose name group 1 captures.
pub open spec fn test_function_pattern() -> Seq<char> {
    "(?ms)#\\[(?:tokio::)?test[^\\]]*\\][^\\{;]*?\\bfn\\s+([A-Za-z_][A-Za-z0-9_]*)\\s*\\("@
}

/// `regex::Regex::new` of the test-function pattern, then `captures_iter`
/// over `content`, taking group 1 (the function name) of each match.
/// Claims only that compiling is a function of the pattern, and the names a
/// function of the pattern and the text.
#[verifier::external_body]
fn test_function_names(pattern: &str, content: &str) -> (r: Result<Vec<String>, String>)
    requires
        pattern@ == test_function_pattern(),
    ensures
        match r {
            Ok(v) => regex_compile_error(pattern@) is None && v.deep_view() == regex_group1(pattern@, content@),
            Err(e) => regex_compile_error(pattern@) == Some(e@),
        },
{
    match regex::Regex::new(pattern) {
        Ok(re) => Ok(re.captures_iter(content).map(|capture| capture[1].to_string()).collect()),
        Err(error) => Err(error.to_string()),
    }
}

/// Some test function named in the sources has `filter` in its name.
pub open spec fn sources_define(contents: Seq<Seq<char>>, filter: Seq<char>) -> bool {
    exists|i: int, j: int|
        0 <= i < contents.len() && 0 <= j < regex_group1(test_function_pattern(), contents[i]).len() && contains(
            #[trigger] regex_group1(test_function_pattern(), contents[i])[j],
            filter,
        )
}

/// Whether the sources define a test whose name contains `filter`. The
/// pattern is compiled before any source is searched; where it does not
/// compile, that error is returned.
pub fn sources_define_test(contents: &Vec<String>, filter: &str) -> (r: Result<bool, String>)
    ensures
        match r {
            Ok(b) => regex_compile_error(test_function_pattern()) is None && (b <==> sources_define(
                contents.deep_view(),
                filter@,
            )),
            Err(e) => regex_compile_error(test_function_pattern()) == Some(e@),
        },
{
    let pattern = "(?ms)#\\[(?:tokio::)?test[^\\]]*\\][^\\{;]*?\\bfn\\s+([A-Za-z_][A-Za-z0-9_]*)\\s*\\(";
    test_function_names(pattern, "")?;
    let ghost cv = contents.deep_view();
    let mut i: usize = 0;
    while i < contents.len()
        invariant
            i <= contents@.len(),
            cv == contents.deep_view(),
            pattern@ == test_function_pattern(),
            regex_compile_error(test_function_pattern()) is None,
            forall|a: int, j: int|
                0 <= a < i && 0 <= j < regex_group1(test_function_pattern(), cv[a]).len() ==> !contains(
                    #[trigger] regex_group1(test_function_pattern(), cv[a])[j],
                    filter@,
                ),
        decreases contents@.len() - i,
    {
        assert(cv[i as int] == contents@[i as int]@);
        let names = test_function_names(pattern, contents[i].as_str())?;
        let mut k: usize = 0;
        while k < names.len()
            invariant
                k <= names@.len(),
                i < cv.len(),
                cv == contents.deep_view(),
                regex_compile_error(test_function_pattern()) is None,
                names.deep_view() == regex_group1(test_function_pattern(), cv[i as int]),
                forall|j: int| 0 <= j < k ==> !contains(#[trigger] names.deep_view()[j], filter@),
            decreases names@.len() - k,
        {
            assert(names.deep_view()[k as int] == names@[k as int]@);
            if contains_str(names[k].as_str(), filter) {
                assert(contains(regex_group1(test_function_pattern(), cv[i as int])[k as int], filter@));
                assert(sources_define(contents.deep_view(), filter@));
                return Ok(true);
            }
            k += 1;
        }
        i += 1;
    }
    Ok(false)
}

/// Checks that the sources under a selector's search directory define its
/// filter; a selector without a filter passes.
pub fn check_test_filter(row: &MatrixRow, search: &SearchRoot, contents: &Vec<String>) -> (r: Result<(), String>)
    ensures
        match search.filter {
            None => r is Ok,
            Some(f) => match regex_compile_error(test_function_pattern()) {
                Some(e) => r matches Err(m) && m@ == e,
                None => if sources_define(contents.deep_view(), f@) {
                    r is Ok
                } else {
                    r matches Err(m) && m@ == "acceptance-matrix: "@ + row.requirement_id@
                        + " test filter is not defined in package "@ + search.package@ + ": "@ + f@
                },
            },
        },
{
    match &search.filter {
        None => Ok(()),
        Some(f) => {
            if sources_define_test(contents, f.as_str())? {
                Ok(())
            } else {
                let head = cat3("acceptance-matrix: ", row.requirement_id.as_str(), " test filter is not defined in package ");
                let mid = cat3(head.as_str(), search.package.as_str(), ": ");
                Err(cat(mid.as_str(), f.as_str()))
            }
        },
    }
}

/// The path names a Rust source: its file name has the extension `rs`
/// (`Path::extension`: text after the last `.`, which may not start the
/// name).
pub open spec fn is_rust_source(p: Seq<char>) -> bool {
    match crate::paths::file_name_spec(p) {
        Some(f) => f.len() > 3 && crate::text::ends_with(f, ".rs"@),
        None => false,
    }
}

/// The Rust sources among the lines of a `git ls-files` listing, in order.
pub fn rust_source_paths(listing: &str) -> (r: Vec<String>)
    ensures
        r.deep_view() == crate::text::lines(listing@).filter(|p: Seq<char>| is_rust_source(p)),
{
    let all = crate::text::lines_of(listing);
    let ghost lv = all.deep_view();
    let mut out: Vec<String> = Vec::new();
    let mut i: usize = 0;
    while i < all.len()
        invariant
            lv == all.deep_view(),
            i <= lv.len(),
            out.deep_view() == lv.take(i as int).filter(|p: Seq<char>| is_rust_source(p)),
        decreases lv.len() - i,
    {
        let ghost prev = out.deep_view();
        assert(lv.take(i + 1).drop_last() =~= lv.take(i as int));
        assert(lv[i as int] == all@[i as int]@);
        reveal(Seq::filter);
        let rust = match crate::paths::file_name(all[i].as_str()) {
            Some(f) => crate::text::chars_of(f.as_str()).len() > 3 && crate::text::ends_with_str(f.as_str(), ".rs"),
            None => false,
        };
        if rust {
            out.push(to_string(all[i].as_str()));
            assert(out.deep_view() =~= prev.push(lv[i as int]));
        }
        assert(out.deep_view() =~= lv.take(i + 1).filter(|p: Seq<char>| is_rust_source(p)));
        i += 1;
    }
    assert(lv.take(lv.len() as int) =~= lv);
    out
}

} // verus!
