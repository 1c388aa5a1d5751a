use deve_baseline::acceptance_matrix::producer::runner::{
    git_bash_candidates, producer_duration_diagnostic, with_producer_duration,
};
use std::time::Duration;

#[test]
fn git_bash_candidates_include_git_install_root() {
    let candidates = git_bash_candidates(r"C:\tools\git\mingw64\libexec\git-core");
    assert!(candidates.contains(&String::from(r"C:\tools\git\bin\bash.exe")));
}

#[test]
fn git_bash_candidates_stop_at_the_drive_root() {
    let candidates = git_bash_candidates(r"C:\git\cmd");
    assert_eq!(
        candidates,
        [
            r"C:\git\cmd\bin\bash.exe",
            r"C:\git\cmd\usr\bin\bash.exe",
            r"C:\git\bin\bash.exe",
            r"C:\git\usr\bin\bash.exe",
            r"C:\bin\bash.exe",
            r"C:\usr\bin\bash.exe",
        ]
    );
}

#[test]
fn producer_duration_diagnostic_is_fixed_and_secret_free() {
    assert_eq!(
        producer_duration_diagnostic(
            "ci.storage-repository-cases",
            true,
            Duration::from_millis(1234).as_millis(),
        ),
        "acceptance-run: producer ci.storage-repository-cases status=ok duration_ms=1234"
    );
    assert_eq!(
        producer_duration_diagnostic("ci.failed", false, Duration::from_millis(9).as_millis()),
        "acceptance-run: producer ci.failed status=failed duration_ms=9"
    );
}

#[test]
fn duration_wrapper_preserves_the_primary_error() {
    let (result, line) = with_producer_duration("ci.failed", || -> Result<(), String> {
        Err("primary producer failure".to_string())
    });
    let error = result.expect_err("operation must remain failed").to_string();
    assert_eq!(error, "primary producer failure");
    assert!(line.starts_with("acceptance-run: producer ci.failed status=failed duration_ms="));
}
