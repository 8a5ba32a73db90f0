use fnorm::batch::process_file;
use fnorm::batch::Filesystem;
use fnorm::rename::Outcome;
use fnorm::run;
use fnorm::Cli;
use fnorm::FnormError;
use fnorm::NormalizationConfig;

/// A case-sensitive in-memory filesystem double. Paths are treated as
/// plain file names in one directory.
struct FakeFs {
    files: Vec<String>,
}

impl FakeFs {
    fn new(names: &[&str]) -> FakeFs {
        FakeFs {
            files: names.iter().map(|n| n.to_string()).collect(),
        }
    }

    fn has(&self, name: &str) -> bool {
        self.files.iter().any(|f| f == name)
    }
}

impl Filesystem for FakeFs {
    fn inspect(&mut self, path: &str) -> Result<String, String> {
        if self.has(path) {
            Ok(path.to_string())
        } else {
            Err("no such entry".to_string())
        }
    }

    fn sibling_exists(&mut self, _path: &str, name: &str) -> bool {
        self.has(name)
    }

    fn rename(&mut self, _path: &str, from: &str, to: &str) -> Result<(), String> {
        if !self.has(from) || self.has(to) {
            return Err("source missing or target taken".to_string());
        }
        for f in self.files.iter_mut() {
            if f == from {
                *f = to.to_string();
                return Ok(());
            }
        }
        Err("source missing or target taken".to_string())
    }
}

/// A double whose renames fail whenever the destination matches a fixed
/// name, to exercise the rollback path.
struct FailingFs {
    inner: FakeFs,
    refuse_to: String,
}

impl Filesystem for FailingFs {
    fn inspect(&mut self, path: &str) -> Result<String, String> {
        self.inner.inspect(path)
    }

    fn sibling_exists(&mut self, path: &str, name: &str) -> bool {
        self.inner.sibling_exists(path, name)
    }

    fn rename(&mut self, path: &str, from: &str, to: &str) -> Result<(), String> {
        if to == self.refuse_to {
            return Err("rename refused".to_string());
        }
        self.inner.rename(path, from, to)
    }
}

#[test]
fn test_file_basic_rename() {
    let mut fs = FakeFs::new(&["My Test File.txt"]);
    let config = NormalizationConfig::default();
    let r = process_file(&mut fs, "My Test File.txt", &config, false);
    assert!(r.is_ok(), "Rename should succeed");
    assert!(fs.has("my-test-file.txt"), "File should be renamed");
    assert!(!fs.has("My Test File.txt"), "Original file should not exist");
}

#[test]
fn test_file_with_special_chars() {
    let mut fs = FakeFs::new(&["Ben & Jerry's.txt"]);
    let config = NormalizationConfig::default();
    let r = process_file(&mut fs, "Ben & Jerry's.txt", &config, false);
    assert!(r.is_ok(), "Rename should succeed");
    assert!(
        fs.has("ben-and-jerry-s.txt"),
        "File should be renamed with special chars handled"
    );
}

#[test]
fn test_file_extension_preserved() {
    let mut fs = FakeFs::new(&["My Document.PDF"]);
    let config = NormalizationConfig::default();
    let r = process_file(&mut fs, "My Document.PDF", &config, false);
    assert!(r.is_ok(), "Rename should succeed");
    assert!(
        fs.has("my-document.pdf"),
        "File should be renamed with extension lowercased"
    );
}

#[test]
fn test_file_case_only_change() {
    let mut fs = FakeFs::new(&["README.TXT"]);
    let config = NormalizationConfig::default();
    let r = process_file(&mut fs, "README.TXT", &config, false);
    assert!(r.is_ok(), "Case-only rename should succeed");
    assert!(fs.has("readme.txt"), "File should exist with new case");
    assert!(!fs.has("README.TXT"));
    assert!(
        !fs.has("README.TXT.fnorm-tmp"),
        "No temporary file may remain"
    );
    assert_eq!(fs.files.len(), 1);
}

#[test]
fn test_file_target_exists() {
    let mut fs = FakeFs::new(&["Source File.txt", "source-file.txt"]);
    let config = NormalizationConfig::default();
    let r = process_file(&mut fs, "Source File.txt", &config, false);
    let err = r.expect_err("Should fail when target exists");
    match &err {
        FnormError::TargetExists { path } => assert_eq!(path, "source-file.txt"),
        _ => panic!("expected TargetExists"),
    }
    assert!(
        err.message().contains("already exists"),
        "Error should mention target exists"
    );
    assert!(fs.has("Source File.txt"), "Source must be untouched");
    assert!(fs.has("source-file.txt"), "Target must be untouched");
    assert_eq!(fs.files.len(), 2);
}

#[test]
fn test_file_not_found() {
    let mut fs = FakeFs::new(&[]);
    let config = NormalizationConfig::default();
    let r = process_file(&mut fs, "does-not-exist.txt", &config, false);
    let err = r.expect_err("Should fail for nonexistent file");
    assert!(matches!(err, FnormError::FileNotFound { .. }));
    assert!(
        err.message().contains("not found"),
        "Error should mention file not found"
    );
}

#[test]
fn test_dry_run_file() {
    let mut fs = FakeFs::new(&["Test File.txt"]);
    let config = NormalizationConfig::default();
    let r = process_file(&mut fs, "Test File.txt", &config, true);
    let outcome = r.expect("Dry run should succeed");
    match outcome {
        Outcome::WouldRename { from, to } => {
            assert_eq!(from, "Test File.txt");
            assert_eq!(to, "test-file.txt");
        }
        _ => panic!("expected WouldRename"),
    }
    assert!(fs.has("Test File.txt"), "Original file should still exist");
    assert!(
        !fs.has("test-file.txt"),
        "Target file should not exist in dry run"
    );
}

#[test]
fn test_dry_run_no_change_needed() {
    let mut fs = FakeFs::new(&["already-normalized.txt"]);
    let config = NormalizationConfig::default();
    let r = process_file(&mut fs, "already-normalized.txt", &config, true);
    assert!(matches!(r, Ok(Outcome::NoChange { .. })));
    assert!(fs.has("already-normalized.txt"));
}

#[test]
fn test_no_change_needed_real_run() {
    let mut fs = FakeFs::new(&["already-normalized.txt"]);
    let config = NormalizationConfig::default();
    let r = process_file(&mut fs, "already-normalized.txt", &config, false);
    match r.expect("Should succeed with no changes") {
        Outcome::NoChange { name } => assert_eq!(name, "already-normalized.txt"),
        _ => panic!("expected NoChange"),
    }
    assert!(fs.has("already-normalized.txt"));
}

#[test]
fn test_case_only_rollback_restores_original() {
    // The second hop of the case-only dance fails; the original name
    // must be restored and the error must name the failed hop.
    let mut fs = FailingFs {
        inner: FakeFs::new(&["README.TXT"]),
        refuse_to: "readme.txt".to_string(),
    };
    let config = NormalizationConfig::default();
    let r = process_file(&mut fs, "README.TXT", &config, false);
    let err = r.expect_err("second hop fails");
    match &err {
        FnormError::RenameError { from, to, cause } => {
            assert_eq!(from, "README.TXT.fnorm-tmp");
            assert_eq!(to, "readme.txt");
            assert_eq!(cause, "rename refused");
        }
        _ => panic!("expected RenameError"),
    }
    assert!(
        fs.inner.has("README.TXT"),
        "original name must be restored"
    );
    assert!(!fs.inner.has("README.TXT.fnorm-tmp"));
}

#[test]
fn test_case_only_first_hop_failure() {
    // The first hop fails outright: nothing has moved.
    let mut fs = FailingFs {
        inner: FakeFs::new(&["README.TXT"]),
        refuse_to: "README.TXT.fnorm-tmp".to_string(),
    };
    let config = NormalizationConfig::default();
    let r = process_file(&mut fs, "README.TXT", &config, false);
    let err = r.expect_err("first hop fails");
    match &err {
        FnormError::RenameError { from, to, cause } => {
            assert_eq!(from, "README.TXT");
            assert_eq!(to, "README.TXT.fnorm-tmp");
            assert_eq!(cause, "rename refused");
        }
        _ => panic!("expected RenameError"),
    }
    assert!(fs.inner.has("README.TXT"), "file must be untouched");
}

#[test]
fn test_batch_partial_failure() {
    let mut fs = FakeFs::new(&["My File.txt", "Other File.txt"]);
    let cli = Cli {
        dry_run: false,
        files: vec![
            "My File.txt".to_string(),
            "does-not-exist.txt".to_string(),
            "Other File.txt".to_string(),
        ],
    };
    let err = run(&mut fs, cli).expect_err("one path fails");
    assert_eq!(err.entries.len(), 1, "exactly one failure");
    assert_eq!(err.entries[0].path, "does-not-exist.txt");
    assert!(matches!(
        err.entries[0].error,
        FnormError::FileNotFound { .. }
    ));
    assert!(fs.has("my-file.txt"), "first file renamed");
    assert!(fs.has("other-file.txt"), "third file renamed");
    assert_eq!(fs.files.len(), 2);
}

#[test]
fn test_batch_all_ok() {
    let mut fs = FakeFs::new(&["A B.txt", "c-d.txt"]);
    let cli = Cli {
        dry_run: false,
        files: vec!["A B.txt".to_string(), "c-d.txt".to_string()],
    };
    assert!(run(&mut fs, cli).is_ok());
    assert!(fs.has("a-b.txt"));
    assert!(fs.has("c-d.txt"));
}

#[test]
fn test_batch_dry_run_mutates_nothing() {
    let mut fs = FakeFs::new(&["A B.txt", "C D.txt"]);
    let cli = Cli {
        dry_run: true,
        files: vec!["A B.txt".to_string(), "C D.txt".to_string()],
    };
    assert!(run(&mut fs, cli).is_ok());
    assert!(fs.has("A B.txt"));
    assert!(fs.has("C D.txt"));
    assert_eq!(fs.files.len(), 2);
}

#[test]
fn test_rename_error_message() {
    let err = FnormError::RenameError {
        from: "a.txt".to_string(),
        to: "b.txt".to_string(),
        cause: "permission denied".to_string(),
    };
    assert_eq!(
        err.message(),
        "failed to rename \"a.txt\" to \"b.txt\": permission denied"
    );
    let err = FnormError::TargetExists {
        path: "b.txt".to_string(),
    };
    assert_eq!(err.message(), "target file already exists: \"b.txt\"");
    let err = FnormError::FileNotFound {
        path: "a.txt".to_string(),
        cause: "no such entry".to_string(),
    };
    assert_eq!(err.message(), "file not found: a.txt");
}
