//! Results as text and as JSON.

use patchify::session::rollback;
use patchify::{
    exit_code, result_to_json, result_to_text, BatchError, BatchResult, EditStatus, VerifyStatus,
    WriteStatus,
};
use serde_json::Value;

fn edit_status(path: &str) -> EditStatus {
    EditStatus {
        path: path.to_string(),
        ok: true,
        applied: true,
        error: None,
        diff_preview: None,
        replacements: Some(2),
    }
}

fn write_status(path: &str) -> WriteStatus {
    WriteStatus {
        path: path.to_string(),
        ok: true,
        applied: true,
        error: None,
        created_dirs: Some(false),
    }
}

fn result() -> BatchResult {
    let mut previewed = edit_status("a \"quoted\" path");
    previewed.diff_preview = Some("- old\n+ new\\\t\u{1}\n".to_string());
    let mut pending = edit_status("p");
    pending.applied = false;
    pending.replacements = None;
    let mut failed = edit_status("f");
    failed.ok = false;
    failed.applied = false;
    failed.error = Some("no".to_string());
    let mut made = write_status("d/w");
    made.created_dirs = Some(true);
    let mut skipped = write_status("s");
    skipped.applied = false;
    skipped.created_dirs = None;
    let mut bad = write_status("b");
    bad.error = Some("rolled back".to_string());
    BatchResult {
        ok: true,
        status: "applied".to_string(),
        edits: vec![previewed, pending, failed],
        writes: Some(vec![made, write_status("w"), skipped, bad]),
        verify: Some(vec![
            VerifyStatus {
                cmd: "cargo check".to_string(),
                exit: 0,
                stdout: (0..25).map(|i| format!("line {i}\n")).collect(),
                stderr: " \n".to_string(),
                duration_ms: 1234,
            },
            VerifyStatus {
                cmd: "false".to_string(),
                exit: -1,
                stdout: String::new(),
                stderr: "bad\r\nworse".to_string(),
                duration_ms: 0,
            },
        ]),
        error: None,
    }
}

#[test]
fn text_of_a_result() {
    let mut expected = String::from(
        "OK: applied\n  edit  a \"quoted\" path  (2 replacement(s))\n    - old\n    + new\\\t\u{1}\n  edit  p  (pending)\n  FAIL  f  (no)\n  write d/w  (dirs created)\n  write w  \n  skip  s  (superseded)\n  FAIL  b  (rolled back)\n  [  0] cargo check  (1234ms)\n",
    );
    for i in 0..20 {
        expected.push_str(&format!("    out: line {i}\n"));
    }
    expected.push_str("  [ -1] false  (0ms)\n    err: bad\n    err: worse\n");
    assert_eq!(result_to_text(&Ok(result())), expected);
}

#[test]
fn text_of_a_dry_run() {
    let mut r = result();
    r.status = "dry_run".to_string();
    r.edits.truncate(0);
    r.writes = None;
    r.verify = None;
    assert_eq!(result_to_text(&Ok(r)), "dry_run: dry_run\n");
}

#[test]
fn text_of_an_applied_edit_without_a_count() {
    let mut r = result();
    r.edits = vec![edit_status("e")];
    r.edits[0].replacements = None;
    r.writes = None;
    r.verify = None;
    assert_eq!(
        result_to_text(&Ok(r)),
        "OK: applied\n  edit  e  (0 replacement(s))\n"
    );
}

#[test]
fn text_of_errors() {
    let e = rollback(
        "write failed: disk full".to_string(),
        vec![edit_status("e")],
        vec![write_status("w")],
    );
    assert_eq!(e.message(), "write failed: disk full");
    assert_eq!(
        result_to_text(&Err(e)),
        "ROLLED_BACK: write failed: disk full\n  FAIL  e  (rolled back)\n  FAIL  w  (rolled back)\n"
    );
    let e = BatchError::bad_json("EOF");
    assert_eq!(e.message(), "bad JSON: EOF");
    assert_eq!(result_to_text(&Err(e)), "INVALID: bad JSON: EOF\n");
}

#[test]
fn json_of_a_result() {
    let mut r = result();
    r.edits.truncate(1);
    r.writes = None;
    r.verify = Some(vec![]);
    assert_eq!(
        result_to_json(&Ok(r)),
        r#"{"ok":true,"status":"applied","edits":[{"path":"a \"quoted\" path","ok":true,"applied":true,"diff_preview":"- old\n+ new\\\t\u0001\n","replacements":2}],"verify":[]}"#
    );
}

#[test]
fn json_of_a_result_reads_back() {
    let mut r = result();
    r.error = Some("é😀\u{8}\u{c}\r\u{1f}\u{7f}\u{2028}/".to_string());
    let text = result_to_json(&Ok(r.clone()));
    assert!(!text.contains('\n'));
    let v: Value = serde_json::from_str(&text).unwrap();
    assert_eq!(v["ok"], Value::from(true));
    assert_eq!(v["status"], Value::from("applied"));
    assert_eq!(v["error"], Value::from(r.error.unwrap()));
    for (i, e) in r.edits.iter().enumerate() {
        assert_eq!(v["edits"][i]["path"], Value::from(e.path.clone()));
        assert_eq!(v["edits"][i]["ok"], Value::from(e.ok));
        assert_eq!(v["edits"][i]["applied"], Value::from(e.applied));
        assert_eq!(
            v["edits"][i].get("error").cloned(),
            e.error.clone().map(Value::from)
        );
        assert_eq!(
            v["edits"][i].get("diff_preview").cloned(),
            e.diff_preview.clone().map(Value::from)
        );
        assert_eq!(
            v["edits"][i].get("replacements").cloned(),
            e.replacements.map(Value::from)
        );
    }
    for (i, w) in r.writes.unwrap().iter().enumerate() {
        assert_eq!(v["writes"][i]["path"], Value::from(w.path.clone()));
        assert_eq!(v["writes"][i]["ok"], Value::from(w.ok));
        assert_eq!(v["writes"][i]["applied"], Value::from(w.applied));
        assert_eq!(
            v["writes"][i].get("error").cloned(),
            w.error.clone().map(Value::from)
        );
        assert_eq!(
            v["writes"][i].get("created_dirs").cloned(),
            w.created_dirs.map(Value::from)
        );
    }
    for (i, c) in r.verify.unwrap().iter().enumerate() {
        assert_eq!(v["verify"][i]["cmd"], Value::from(c.cmd.clone()));
        assert_eq!(v["verify"][i]["exit"], Value::from(c.exit));
        assert_eq!(v["verify"][i]["stdout"], Value::from(c.stdout.clone()));
        assert_eq!(v["verify"][i]["stderr"], Value::from(c.stderr.clone()));
        assert_eq!(
            v["verify"][i]["duration_ms"],
            Value::from(c.duration_ms as u64)
        );
    }
}

#[test]
fn json_of_errors_is_as_the_serializer_would_have_it() {
    let mut edit = edit_status("e");
    edit.diff_preview = Some("+ x\n".to_string());
    let e = rollback("m".to_string(), vec![edit], vec![write_status("w")]);
    let text = result_to_json(&Err(e));
    assert_eq!(
        text,
        r#"{"edits":[{"applied":false,"diff_preview":"+ x\n","error":"rolled back","ok":false,"path":"e","replacements":2}],"error":"m","ok":false,"status":"rolled_back","writes":[{"applied":false,"created_dirs":false,"error":"rolled back","ok":false,"path":"w"}]}"#
    );
    let v: Value = serde_json::from_str(&text).unwrap();
    assert_eq!(v.to_string(), text);
    let e = BatchError::RolledBack("m".to_string(), vec![], None, None);
    assert_eq!(
        result_to_json(&Err(e)),
        r#"{"edits":[],"error":"m","ok":false,"status":"rolled_back","writes":null}"#
    );
    let text = result_to_json(&Err(BatchError::InvalidRequest("a\"b".to_string())));
    assert_eq!(
        text,
        r#"{"error":"a\"b","ok":false,"status":"rolled_back"}"#
    );
    let v: Value = serde_json::from_str(&text).unwrap();
    assert_eq!(v.to_string(), text);
}

#[test]
fn json_strings_are_escaped_as_the_serializer_does() {
    let all: String = (0u32..0x180).filter_map(char::from_u32).collect();
    let text = result_to_json(&Err(BatchError::InvalidRequest(all.clone())));
    assert!(text.contains(&serde_json::to_string(&all).unwrap()));
    let v: Value = serde_json::from_str(&text).unwrap();
    assert_eq!(v["error"], Value::from(all));
}

#[test]
fn exit_codes() {
    let mut r = result();
    assert_eq!(exit_code(&Ok(r.clone())), 0);
    r.ok = false;
    assert_eq!(exit_code(&Ok(r)), 1);
    assert_eq!(exit_code(&Err(BatchError::bad_json("x"))), 1);
}

#[test]
fn a_rollback_keeps_what_was_not_applied() {
    let mut pending = edit_status("p");
    pending.applied = false;
    let mut skipped = write_status("s");
    skipped.applied = false;
    skipped.error = Some("superseded by a later write to the same path".to_string());
    match rollback("m".to_string(), vec![edit_status("e"), pending], vec![skipped]) {
        BatchError::RolledBack(m, edits, Some(writes), None) => {
            assert_eq!(m, "m");
            assert_eq!(
                (edits[0].ok, edits[0].applied, edits[0].error.as_deref()),
                (false, false, Some("rolled back"))
            );
            assert_eq!(
                (edits[1].ok, edits[1].applied, edits[1].error.as_deref()),
                (true, false, None)
            );
            assert!(writes[0].ok);
        }
        other => panic!("expected rollback, got {other:?}"),
    }
}
