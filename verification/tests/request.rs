//! Paths and the checks on a request.

use patchify::guard::lock_sidecar;
use patchify::path::absolute;
use patchify::plan::{match_edit, Refusal};
use patchify::validate::{
    size_string, validate_edit, validate_request, validate_request_on, validate_write,
};
use patchify::{
    default_true, safe_relative_path, safe_relative_path_on, BatchError, BatchRequest, Edit, Session,
    Style, Write, MAX_EDITS, MAX_FILE_BYTES, MAX_STRING_BYTES, MAX_WRITES,
};

fn edit(path: &str, old: &str, new: &str) -> Edit {
    Edit {
        path: path.to_string(),
        old_string: old.to_string(),
        new_string: new.to_string(),
        replace_all: false,
    }
}

fn write(path: &str, content: &str) -> Write {
    Write {
        path: path.to_string(),
        content: content.to_string(),
        create_dirs: default_true(),
    }
}

fn request(edits: Vec<Edit>, writes: Vec<Write>) -> BatchRequest {
    BatchRequest {
        edits,
        writes,
        verify: vec![],
        dry_run: false,
        allow_outside: false,
    }
}

fn fault(req: &BatchRequest) -> String {
    match validate_request(req) {
        Err(BatchError::InvalidRequest(m)) => m,
        other => panic!("expected invalid request, got {other:?}"),
    }
}

#[test]
fn the_limits_are_as_documented() {
    assert_eq!(MAX_EDITS, 50);
    assert_eq!(MAX_WRITES, 50);
    assert_eq!(MAX_FILE_BYTES, 5 * 1024 * 1024);
    assert_eq!(MAX_STRING_BYTES, 2 * 1024 * 1024);
    assert!(default_true());
}

#[test]
fn relative_paths_are_normalised() {
    for (given, clean) in [
        ("a", "a"),
        ("a/b.txt", "a/b.txt"),
        ("./a", "a"),
        ("a//b/./c/", "a/b/c"),
        (".", ""),
        ("a..b/...", "a..b/..."),
        (" a ", " a "),
        (".hidden", ".hidden"),
    ] {
        assert_eq!(safe_relative_path(given), Ok(clean.to_string()), "{given:?}");
        let std: std::path::PathBuf = std::path::Path::new(given)
            .components()
            .filter(|c| !matches!(c, std::path::Component::CurDir))
            .collect();
        assert_eq!(std.to_str(), Some(clean), "{given:?}");
    }
}

#[test]
fn absolute_paths_come_back_as_they_stand() {
    assert_eq!(safe_relative_path("/etc/../x/"), Ok("/etc/../x/".to_string()));
    assert!(absolute(Style::Unix, "/"));
    assert!(!absolute(Style::Unix, "a/b"));
    assert!(!absolute(Style::Unix, ""));
    assert!(!absolute(Style::Unix, "C:\\x"));
}

#[test]
fn bad_paths_are_refused() {
    assert_eq!(safe_relative_path(""), Err("empty path".to_string()));
    assert_eq!(safe_relative_path(" \t"), Err("empty path".to_string()));
    for p in ["..", "../a", "a/../b", "a/.."] {
        assert_eq!(
            safe_relative_path(p),
            Err(format!("path traversal refused: {p}"))
        );
    }
    assert_eq!(
        safe_relative_path("a\0b"),
        Err("NUL byte in path".to_string())
    );
}

#[test]
fn strings_are_measured_in_bytes() {
    assert!(size_string(&"x".repeat(MAX_STRING_BYTES), "content").is_ok());
    let long = "é".repeat(MAX_STRING_BYTES / 2 + 1);
    match size_string(&long, "content") {
        Err(BatchError::InvalidRequest(m)) => assert_eq!(
            m,
            "content too large: 2097154 bytes (max 2097152); split the edit"
        ),
        other => panic!("expected invalid request, got {other:?}"),
    }
    assert!(validate_write(&write("w", &long)).is_err());
    assert!(validate_write(&write("w", "x")).is_ok());
    assert_eq!(
        validate_edit(&edit("e", &long, "x")),
        Err("old_string too large: 2097154 bytes (max 2097152); split the edit".to_string())
    );
    assert_eq!(
        validate_edit(&edit("e", "x", &long)),
        Err("new_string too large: 2097154 bytes (max 2097152); split the edit".to_string())
    );
    assert_eq!(validate_edit(&edit("e", "x", "")), Ok(()));
}

#[test]
fn there_is_always_something_to_look_for() {
    assert_eq!(
        validate_edit(&edit("e", "", "x")),
        Err("old_string must be non-empty (use writes to create files)".to_string())
    );
    let mut e = edit("e", "", "x");
    e.replace_all = true;
    assert_eq!(
        validate_edit(&e),
        Err(
            "old_string must be non-empty; empty old_string with replace_all is rejected"
                .to_string()
        )
    );
}

#[test]
fn requests_are_counted_and_their_items_named() {
    let many: Vec<Write> = (0..51).map(|i| write(&format!("w{i}"), "")).collect();
    assert_eq!(
        fault(&request(vec![], many.clone())),
        "too many writes: 51 (max 50)"
    );
    assert!(validate_request(&request(vec![], many[..50].to_vec())).is_ok());
    assert_eq!(
        fault(&request(vec![edit("a", "x", "y"), edit("b", "", "y")], vec![])),
        "edit[1] b: old_string must be non-empty (use writes to create files)"
    );
    assert_eq!(
        fault(&request(vec![edit("/etc/passwd", "x", "y")], vec![])),
        "edit[0]: absolute path refused: /etc/passwd (set allow_outside to edit outside the tree)"
    );
    assert_eq!(
        fault(&request(vec![], vec![write("ok", ""), write("/tmp/x", "")])),
        "write[1]: absolute path refused: /tmp/x (set allow_outside to write outside the tree)"
    );
    assert_eq!(
        fault(&request(vec![], vec![write("../x", "")])),
        "path traversal refused: ../x"
    );
    let mut req = request(vec![edit("/etc/passwd", "x", "y")], vec![write("/tmp/x", "")]);
    req.allow_outside = true;
    assert!(validate_request(&req).is_ok());
}

#[test]
fn the_lock_lies_beside_the_file() {
    assert_eq!(lock_sidecar("src/lib.rs"), "src/lib.rs.patchify-lock");
    assert_eq!(lock_sidecar("Makefile"), "Makefile.patchify-lock");
}

#[test]
fn an_edit_is_matched_against_bytes() {
    let m = match match_edit(&edit("f", "b", "B"), &b"abc".to_vec()) {
        Ok(m) => m,
        Err(f) => panic!("{}", f.message),
    };
    assert_eq!(m.current, "abc");
    assert_eq!(m.new_text, "aBc");
    assert_eq!(m.replacements, 1);
    let refused = |e: &Edit, bytes: &[u8]| -> Refusal {
        match match_edit(e, &bytes.to_vec()) {
            Ok(_) => panic!("expected a refusal"),
            Err(f) => f,
        }
    };
    let f = refused(&edit("f", "z", "B"), b"abc");
    assert_eq!(f.message, "old_string not found");
    assert_eq!(f.replacements, Some(0));
    let mut e = edit("f", "z", "B");
    e.replace_all = true;
    let f = refused(&e, b"abc");
    assert_eq!(f.message, "old_string not found in f");
    assert_eq!(f.replacements, None);
    let f = refused(&edit("f", "a", "B"), &[0xc3, 0x28]);
    assert_eq!(f.error, "not UTF-8");
}

#[test]
fn windows_knows_two_separators() {
    for (given, clean) in [
        ("a", "a"),
        ("a\\b.txt", "a\\b.txt"),
        ("a/b\\c", "a\\b\\c"),
        (".\\a\\.\\b\\\\c\\", "a\\b\\c"),
        (".", ""),
        ("a..b\\...", "a..b\\..."),
        // From the root of the current drive.
        ("\\a\\b", "\\a\\b"),
        ("/etc/passwd", "\\etc\\passwd"),
        ("\\\\server", "\\server"),
        // From the working directory of a drive.
        ("C:a\\b", "C:a\\b"),
        ("C:", "C:"),
        ("a\\C:\\b", "C:b"),
        ("1:\\a", "1:\\a"),
    ] {
        assert_eq!(
            safe_relative_path_on(Style::Windows, given),
            Ok(clean.to_string()),
            "{given:?}"
        );
        assert!(!absolute(Style::Windows, clean), "{given:?}");
    }
    for p in ["..", "..\\x", "a\\..\\b", "a/..", "C:..\\x"] {
        assert_eq!(
            safe_relative_path_on(Style::Windows, p),
            Err(format!("path traversal refused: {p}"))
        );
    }
    assert_eq!(
        safe_relative_path_on(Style::Windows, " "),
        Err("empty path".to_string())
    );
    assert_eq!(
        safe_relative_path_on(Style::Windows, "a\\\0"),
        Err("NUL byte in path".to_string())
    );
    // A backslash is part of a name elsewhere.
    assert_eq!(safe_relative_path("..\\x"), Ok("..\\x".to_string()));
}

#[test]
fn windows_paths_from_a_root_are_absolute() {
    for p in [
        "C:\\x",
        "z:/x",
        "C:\\",
        "\\\\server\\share",
        "//server/share/x",
        "\\\\?\\C:\\x",
        "\\\\?\\",
        "\\\\.\\COM42",
    ] {
        assert!(absolute(Style::Windows, p), "{p:?}");
        assert_eq!(
            safe_relative_path_on(Style::Windows, p),
            Ok(p.to_string()),
            "{p:?}"
        );
    }
    for p in [
        "",
        "a",
        "\\x",
        "C:x",
        "C:",
        "\\\\server",
        "\\\\server\\",
        "\\\\server\\\\share",
        "é:\\x",
    ] {
        assert!(!absolute(Style::Windows, p), "{p:?}");
    }
}

#[test]
fn requests_are_read_in_the_style_of_the_host() {
    let climbing = request(vec![edit("..\\x", "a", "b")], vec![]);
    assert!(validate_request_on(Style::Unix, &climbing).is_ok());
    match validate_request_on(Style::Windows, &climbing) {
        Err(BatchError::InvalidRequest(m)) => {
            assert_eq!(m, "path traversal refused: ..\\x")
        }
        other => panic!("expected invalid request, got {other:?}"),
    }
    let rooted = request(vec![], vec![write("C:\\x", "")]);
    assert!(Session::start_on(Style::Unix, &rooted).is_ok());
    match Session::start_on(Style::Windows, &rooted) {
        Err(BatchError::InvalidRequest(m)) => assert_eq!(
            m,
            "write[0]: absolute path refused: C:\\x (set allow_outside to write outside the tree)"
        ),
        _ => panic!("expected invalid request"),
    }
}
