//! Whole batches, driven over files in memory.

use patchify::confine::{Answer, Place, Query, Resolver};
use patchify::guard::{check_not_changed, read_snapshot, Reread};
use patchify::protocol::{Action, Event};
use patchify::verify::CommandOutcome;
use patchify::{
    exit_code, result_to_json, result_to_text, BatchError, BatchRequest, BatchResult, Edit, Session,
    Verify, Write,
};
use std::collections::{BTreeMap, BTreeSet};
use std::path::{Component, Path, PathBuf};

/// Files in memory, what goes wrong with them, and what was asked of them.
struct World {
    /// The files, by their path from the working directory, which is `/work`; those outside
    /// it by their absolute path.
    files: BTreeMap<String, Vec<u8>>,
    /// Symbolic links, by their absolute path.
    links: BTreeMap<PathBuf, PathBuf>,
    /// Files that cannot be read.
    unreadable: BTreeSet<String>,
    /// The number of the writing of a file that fails, leaving half of the bytes.
    failing_put: Option<usize>,
    /// A file whose lock cannot be taken.
    locked: Option<String>,
    /// Directories cannot be made.
    no_dirs: bool,
    /// What another program writes to a file before it is read again.
    meanwhile: Option<(String, Option<Vec<u8>>)>,
    puts: usize,
    asked: Vec<String>,
    held: BTreeSet<String>,
}

fn world(files: &[(&str, &str)]) -> World {
    World {
        files: files
            .iter()
            .map(|(p, c)| (p.to_string(), c.as_bytes().to_vec()))
            .collect(),
        links: BTreeMap::new(),
        unreadable: BTreeSet::new(),
        failing_put: None,
        locked: None,
        no_dirs: false,
        meanwhile: None,
        puts: 0,
        asked: Vec::new(),
        held: BTreeSet::new(),
    }
}

fn place(p: &Path) -> Place {
    let mut absolute = false;
    let mut names: Vec<Vec<u8>> = Vec::new();
    for c in p.components() {
        match c {
            Component::RootDir => absolute = true,
            other => names.push(other.as_os_str().to_str().unwrap().as_bytes().to_vec()),
        }
    }
    Place { absolute, names }
}

fn path(p: &Place) -> PathBuf {
    let mut out = PathBuf::from(if p.absolute { "/" } else { "" });
    for n in &p.names {
        out.push(String::from_utf8(n.clone()).unwrap());
    }
    out
}

fn absolute(path: &str) -> PathBuf {
    Path::new("/work").join(path)
}

fn key(p: &Path) -> String {
    p.strip_prefix("/work").unwrap_or(p).to_str().unwrap().to_string()
}

impl World {
    fn text(&self, path: &str) -> String {
        String::from_utf8(self.files[path].clone()).unwrap()
    }

    /// There is a file or a directory at an absolute path, with no link on the way.
    fn is_plain(&self, p: &Path) -> bool {
        Path::new("/work").starts_with(p) || self.files.keys().any(|f| absolute(f).starts_with(p))
    }

    /// The real place of a path, links followed.
    fn canonical(&self, p: &Path) -> Option<PathBuf> {
        let mut out = PathBuf::from("/");
        for c in p.components() {
            match c {
                Component::RootDir | Component::CurDir => {}
                Component::ParentDir => {
                    out.pop();
                }
                other => {
                    out.push(other);
                    if let Some(to) = self.links.get(&out) {
                        out.pop();
                        out = self.canonical(&out.join(to))?;
                    } else if !self.is_plain(&out) {
                        return None;
                    }
                }
            }
        }
        Some(out)
    }

    /// Whether a path leads into the working directory.
    fn inside(&self, target: &str) -> bool {
        let mut r = Resolver::start(place(&absolute(target)), place(Path::new("/work")));
        loop {
            let answer = match r.query() {
                Query::Nothing => return r.verdict().unwrap(),
                Query::Probe { place: p } => match self.links.get(&path(&p)) {
                    Some(to) => Answer::Link(Some(place(to))),
                    None if self.canonical(&path(&p)).is_some() => Answer::Plain,
                    None => Answer::Missing,
                },
                Query::Exists { place: p } => Answer::Exists(self.canonical(&path(&p)).is_some()),
                Query::Canonical { place: p, base: b } => Answer::Canonical {
                    place: self.canonical(&path(&p)).map(|q| place(&q)),
                    base: self.canonical(&path(&b)).map(|q| place(&q)),
                },
            };
            r.answer(answer);
        }
    }

    /// What is found by following a path.
    fn read(&self, path: &str) -> Option<Vec<u8>> {
        let found = self.canonical(&absolute(path))?;
        self.files.get(&key(&found)).cloned()
    }

    fn perform(&mut self, action: Action) -> Event {
        match action {
            Action::Proceed => {
                self.asked.push("proceed".to_string());
                Event::Done(Ok(()))
            }
            Action::Locate { path } => {
                self.asked.push(format!("locate {path}"));
                Event::Located(self.inside(&path))
            }
            Action::Inspect { path } => {
                self.asked.push(format!("inspect {path}"));
                let content = if self.unreadable.contains(&path) {
                    None
                } else {
                    self.read(&path)
                };
                Event::Found {
                    exists: self.read(&path).is_some(),
                    content,
                }
            }
            Action::MakeDirs { path } => {
                self.asked.push(format!("dirs {path}"));
                if self.no_dirs {
                    Event::Done(Err("read-only file system".to_string()))
                } else {
                    Event::Done(Ok(()))
                }
            }
            Action::Lock { path } => {
                self.asked.push(format!("lock {path}"));
                if self.locked.as_deref() == Some(path.as_str()) {
                    return Event::Done(Err("flock failed".to_string()));
                }
                assert!(self.held.insert(path));
                Event::Done(Ok(()))
            }
            Action::Reread { path } => {
                self.asked.push(format!("reread {path}"));
                if let Some((p, new)) = self.meanwhile.take() {
                    if p == path {
                        match new {
                            Some(bytes) => {
                                self.files.insert(p, bytes);
                            }
                            None => {
                                self.files.remove(&p);
                            }
                        }
                    } else {
                        self.meanwhile = Some((p, new));
                    }
                }
                if self.unreadable.contains(&path) {
                    return Event::Reread(Reread::Failed("permission denied".to_string()));
                }
                Event::Reread(match self.read(&path) {
                    Some(bytes) => Reread::Content(bytes),
                    None => Reread::Missing,
                })
            }
            Action::Put { path, content } => {
                self.asked.push(format!("put {path}"));
                let number = self.puts;
                self.puts += 1;
                if self.failing_put == Some(number) {
                    let half = content[..content.len() / 2].to_vec();
                    self.files.insert(path, half);
                    Event::Done(Err("disk full".to_string()))
                } else {
                    self.files.insert(path, content);
                    Event::Done(Ok(()))
                }
            }
            Action::Delete { path } => {
                self.asked.push(format!("delete {path}"));
                match self.files.remove(&path) {
                    Some(_) => Event::Done(Ok(())),
                    None => Event::Done(Err("no such file".to_string())),
                }
            }
            Action::Unlock { path } => {
                self.asked.push(format!("unlock {path}"));
                assert!(self.held.remove(&path));
                Event::Done(Ok(()))
            }
            Action::Run { cmd } => {
                self.asked.push(format!("run {cmd}"));
                Event::Ran(self.command(&cmd))
            }
            Action::Finish => panic!("nothing is left to do"),
        }
    }

    /// A shell that knows `cat FILE`, `exit CODE`, `echo WORD`, `test -f FILE`, `kill`, and
    /// `&&` between two of them.
    fn command(&self, cmd: &str) -> CommandOutcome {
        if let Some((test, then)) = cmd.split_once(" && ") {
            return match self.command(test) {
                CommandOutcome::Exited { code: Some(0), .. } => self.command(then),
                other => other,
            };
        }
        let (code, stdout) = match cmd.split_once(' ') {
            Some(("cat", path)) => match self.files.get(path) {
                Some(bytes) => (Some(0), bytes.clone()),
                None => (Some(1), Vec::new()),
            },
            Some(("test", file)) => {
                let there = self.read(file.strip_prefix("-f ").unwrap()).is_some();
                (Some(if there { 0 } else { 1 }), Vec::new())
            }
            Some(("exit", code)) => (Some(code.parse().unwrap()), Vec::new()),
            Some(("echo", word)) => (Some(0), format!("{word}\n").into_bytes()),
            _ if cmd == "kill" => (None, vec![0x61, 0xff, 0x62]),
            _ => {
                return CommandOutcome::NotSpawned {
                    detail: "no such shell".to_string(),
                    duration_ms: 0,
                }
            }
        };
        CommandOutcome::Exited {
            code,
            stdout,
            stderr: Vec::new(),
            duration_ms: 7,
        }
    }
}

fn run(req: &BatchRequest, w: &mut World) -> Result<BatchResult, BatchError> {
    let mut s = Session::start(req)?;
    let mut answers = 0;
    loop {
        match s.action() {
            Action::Finish => break,
            action => {
                let ev = w.perform(action);
                s.advance(ev);
                answers += 1;
            }
        }
    }
    assert!(answers <= 7 * req.edits.len() + 8 * req.writes.len() + req.verify.len());
    s.into_result().unwrap()
}

fn edit(path: &str, old: &str, new: &str) -> Edit {
    Edit {
        path: path.to_string(),
        old_string: old.to_string(),
        new_string: new.to_string(),
        replace_all: false,
    }
}

fn write(path: &str, content: &str) -> Write {
    Write {
        path: path.to_string(),
        content: content.to_string(),
        create_dirs: patchify::default_true(),
    }
}

fn verify(cmd: &str) -> Verify {
    Verify {
        cmd: cmd.to_string(),
    }
}

fn request(edits: Vec<Edit>, writes: Vec<Write>, verify: Vec<Verify>) -> BatchRequest {
    BatchRequest {
        edits,
        writes,
        verify,
        dry_run: false,
        allow_outside: false,
    }
}

#[test]
fn unique_match_applies() {
    let mut w = world(&[("a.txt", "hello world\n")]);
    let req = request(vec![edit("a.txt", "world", "there")], vec![], vec![]);
    let res = run(&req, &mut w).unwrap();
    assert!(res.ok, "{res:?}");
    assert_eq!(w.text("a.txt"), "hello there\n");
    assert_eq!(res.status, "applied");
    assert_eq!(res.edits[0].replacements, Some(1));
    assert_eq!(
        res.edits[0].diff_preview.as_deref(),
        Some("- hello world\n+ hello there\n")
    );
    assert!(res.writes.is_none() && res.verify.is_none() && res.error.is_none());
    assert_eq!(
        w.asked,
        vec![
            "locate a.txt",
            "inspect a.txt",
            "lock a.txt",
            "reread a.txt",
            "put a.txt",
            "unlock a.txt"
        ]
    );
}

#[test]
fn ambiguous_match_fails_without_writing() {
    let mut w = world(&[("a.txt", "x x x\n")]);
    let req = request(vec![edit("a.txt", "x", "y")], vec![], vec![]);
    match run(&req, &mut w) {
        Err(BatchError::RolledBack(msg, edits, _, _)) => {
            assert!(msg.contains("matches 3 times"), "{msg}");
            assert!(!edits[0].applied);
            assert_eq!(edits[0].replacements, Some(3));
            assert_eq!(
                edits[0].error.as_deref(),
                Some("old_string matches 3 times (pass replace_all or make it unique)")
            );
        }
        other => panic!("expected rollback, got {other:?}"),
    }
    assert_eq!(w.text("a.txt"), "x x x\n");
    assert_eq!(w.asked, vec!["locate a.txt", "inspect a.txt"]);
}

#[test]
fn replace_all_replaces_every_occurrence() {
    let mut w = world(&[("a.txt", "x x x\n")]);
    let mut e = edit("a.txt", "x", "y");
    e.replace_all = true;
    let req = request(vec![e], vec![], vec![]);
    let res = run(&req, &mut w).unwrap();
    assert!(res.ok);
    assert_eq!(w.text("a.txt"), "y y y\n");
    assert_eq!(res.edits[0].replacements, Some(3));
}

#[test]
fn rollback_restores_prior_edits() {
    let mut w = world(&[("a.txt", "alpha\n"), ("b.txt", "bravo\n")]);
    let req = request(
        vec![
            edit("a.txt", "alpha", "ALPHA"),
            edit("b.txt", "missing", "x"),
        ],
        vec![],
        vec![],
    );
    match run(&req, &mut w) {
        Err(BatchError::RolledBack(msg, edits, _, _)) => {
            assert!(msg.contains("not found"), "{msg}");
            assert!(!edits[0].applied);
            assert!(edits[1].error.is_some());
        }
        other => panic!("expected rollback, got {other:?}"),
    }
    assert_eq!(w.text("a.txt"), "alpha\n", "a.txt must be rolled back");
    assert_eq!(w.text("b.txt"), "bravo\n");
}

#[test]
fn write_creates_parent_dirs() {
    let mut w = world(&[]);
    let req = request(vec![], vec![write("deep/nested/dir/new.txt", "hi")], vec![]);
    let res = run(&req, &mut w).unwrap();
    assert!(res.ok);
    assert_eq!(w.text("deep/nested/dir/new.txt"), "hi");
    assert_eq!(res.writes.unwrap()[0].created_dirs, Some(true));
    assert!(w.asked.contains(&"dirs deep/nested/dir/new.txt".to_string()));
}

#[test]
fn overlapping_edits_last_wins() {
    let mut w = world(&[]);
    let req = request(
        vec![],
        vec![write("w.txt", "one"), write("w.txt", "two")],
        vec![],
    );
    let res = run(&req, &mut w).unwrap();
    assert!(res.ok, "{res:?}");
    assert_eq!(w.text("w.txt"), "two");
}

#[test]
fn path_traversal_refused() {
    let req = request(vec![edit("../escape.txt", "a", "b")], vec![], vec![]);
    match run(&req, &mut world(&[])) {
        Err(BatchError::InvalidRequest(m)) => assert!(m.contains("traversal"), "{m}"),
        other => panic!("expected invalid request, got {other:?}"),
    }
}

#[test]
fn absolute_path_refused() {
    let req = request(vec![edit("/etc/passwd", "a", "b")], vec![], vec![]);
    match run(&req, &mut world(&[])) {
        Err(BatchError::InvalidRequest(m)) => assert!(m.contains("absolute"), "{m}"),
        other => panic!("expected invalid request, got {other:?}"),
    }
}

#[test]
fn symlinked_dir_escape_refused() {
    let mut w = world(&[("/outside/secret.txt", "secret\n")]);
    w.links.insert("/work/link".into(), "/outside".into());
    let req = request(vec![edit("link/secret.txt", "secret", "owned")], vec![], vec![]);
    match run(&req, &mut w) {
        Err(BatchError::RolledBack(m, ..)) => assert!(m.contains("outside"), "{m}"),
        other => panic!("expected outside-cwd refusal, got {other:?}"),
    }
    assert_eq!(w.text("/outside/secret.txt"), "secret\n");
    assert_eq!(w.asked, vec!["locate link/secret.txt"]);
}

#[test]
fn empty_old_string_rejected() {
    let req = request(vec![edit("a.txt", "", "b")], vec![], vec![]);
    match run(&req, &mut world(&[])) {
        Err(BatchError::InvalidRequest(m)) => {
            assert!(m.contains("empty") || m.contains("non-empty"), "{m}")
        }
        other => panic!("expected invalid request, got {other:?}"),
    }
}

#[test]
fn too_many_edits_rejected() {
    let edits: Vec<Edit> = (0..51).map(|i| edit(&format!("f{i}.txt"), "a", "b")).collect();
    let req = request(edits, vec![], vec![]);
    match run(&req, &mut world(&[])) {
        Err(BatchError::InvalidRequest(m)) => assert!(m.contains("too many edits"), "{m}"),
        other => panic!("expected invalid request, got {other:?}"),
    }
}

#[test]
fn missing_target_fails_cleanly() {
    let req = request(vec![edit("ghost.txt", "a", "b")], vec![], vec![]);
    match run(&req, &mut world(&[])) {
        Err(BatchError::RolledBack(m, edits, _, _)) => {
            assert!(m.contains("does not exist"), "{m}");
            assert!(!edits[0].applied);
        }
        other => panic!("expected rollback, got {other:?}"),
    }
}

#[test]
fn verify_runs_after_edits() {
    let mut w = world(&[("checkme.txt", "present\n")]);
    let req = request(vec![], vec![], vec![verify("cat checkme.txt")]);
    let res = run(&req, &mut w).unwrap();
    let v = &res.verify.as_ref().unwrap()[0];
    assert_eq!(v.exit, 0);
    assert!(v.stdout.contains("present"), "{}", v.stdout);
}

#[test]
fn dry_run_touches_nothing() {
    let mut w = world(&[("a.txt", "alpha beta\n")]);
    let mut req = request(vec![edit("a.txt", "alpha", "ALPHA")], vec![], vec![]);
    req.dry_run = true;
    let res = run(&req, &mut w).unwrap();
    assert!(res.ok);
    assert_eq!(res.status, "dry_run");
    assert!(res.edits[0]
        .diff_preview
        .as_deref()
        .unwrap()
        .contains("+ ALPHA"));
    assert_eq!(w.text("a.txt"), "alpha beta\n");
    assert_eq!(w.asked, vec!["locate a.txt", "inspect a.txt"]);
}

#[test]
fn toctou_guard_fires_on_drift() {
    let snap = read_snapshot(Some(b"before\n".to_vec()));
    assert!(
        check_not_changed(&snap, &Reread::Content(b"clobbered\n".to_vec())).is_err(),
        "guard must fire on drift"
    );
    assert!(check_not_changed(&snap, &Reread::Content(b"before\n".to_vec())).is_ok());
    assert!(check_not_changed(&snap, &Reread::Missing).is_err());
}

#[test]
fn chained_same_path_edits_compose() {
    let mut w = world(&[("f.txt", "alpha beta gamma\n")]);
    let req = request(
        vec![
            edit("f.txt", "alpha", "ALPHA"),
            edit("f.txt", "beta", "BETA"),
            edit("f.txt", "gamma", "GAMMA"),
        ],
        vec![],
        vec![],
    );
    let res = run(&req, &mut w).unwrap();
    assert!(res.ok, "{res:?}");
    assert_eq!(w.text("f.txt"), "ALPHA BETA GAMMA\n");
    assert_eq!(res.edits[1].replacements, Some(1));
    assert_eq!(w.puts, 1);
}

#[test]
fn chained_edit_matching_previous_output() {
    let mut w = world(&[("f.txt", "v1\n")]);
    let req = request(
        vec![edit("f.txt", "v1", "v2"), edit("f.txt", "v2", "v3")],
        vec![],
        vec![],
    );
    let res = run(&req, &mut w).unwrap();
    assert!(res.ok, "{res:?}");
    assert_eq!(w.text("f.txt"), "v3\n");
}

#[test]
fn chained_edit_failure_rolls_back_chain() {
    let mut w = world(&[("f.txt", "x1\n")]);
    let req = request(
        vec![edit("f.txt", "x1", "x2"), edit("f.txt", "nope", "q")],
        vec![],
        vec![],
    );
    match run(&req, &mut w) {
        Err(BatchError::RolledBack(..)) => {}
        other => panic!("expected rollback, got {other:?}"),
    }
    assert_eq!(w.text("f.txt"), "x1\n");
}

#[test]
fn symlink_escape_refused_real() {
    let mut w = world(&[("/outside/secret.txt", "secret\n")]);
    w.links
        .insert("/work/link.txt".into(), "/outside/secret.txt".into());
    let req = request(vec![edit("link.txt", "secret", "owned")], vec![], vec![]);
    match run(&req, &mut w) {
        Err(BatchError::RolledBack(m, ..)) => assert!(m.contains("outside"), "{m}"),
        other => panic!("expected outside-cwd refusal, got {other:?}"),
    }
    assert_eq!(w.text("/outside/secret.txt"), "secret\n");
}

#[test]
fn write_rollback_removes_new_file() {
    let mut w = world(&[("exist.txt", "e\n")]);
    let req = request(
        vec![edit("exist.txt", "missing", "x")],
        vec![write("brandnew.txt", "w")],
        vec![],
    );
    match run(&req, &mut w) {
        Err(BatchError::RolledBack(..)) => {}
        other => panic!("expected rollback, got {other:?}"),
    }
    assert!(
        !w.files.contains_key("brandnew.txt"),
        "new file must be removed on rollback"
    );
}

const MAIN: &str = "fn main() {\n    println!(\"hello\");\n}\n";
const LIB: &str = "pub fn add(a: i32, b: i32) -> i32 {\n    a + b\n}\n";

fn fixture() -> World {
    world(&[("main.rs", MAIN), ("lib.rs", LIB), ("README", "demo fixture\n")])
}

#[test]
fn three_patch_batch_with_failure_rolls_back_cleanly() {
    let mut w = fixture();
    let req = request(
        vec![
            edit("main.rs", "hello", "goodbye"),
            edit("lib.rs", "a + b", "a.wrapping_add(b)"),
            edit("README", "not-present-anywhere", "x"),
        ],
        vec![],
        vec![],
    );
    let res = run(&req, &mut w);
    assert_eq!(exit_code(&res), 1);
    let out = result_to_json(&res);
    assert!(out.contains("rolled_back"), "{out}");
    assert!(out.contains("not found"), "{out}");
    assert_eq!(w.text("main.rs"), MAIN);
    assert_eq!(w.text("lib.rs"), LIB);
}

#[test]
fn full_success_batch_with_verify_commands() {
    let mut w = fixture();
    let req = request(
        vec![edit(
            "main.rs",
            "println!(\"hello\");",
            "println!(\"goodbye\");",
        )],
        vec![write("src/newmod.rs", "pub const V: &str = \"new\";\n")],
        vec![verify("cat main.rs"), verify("test -f src/newmod.rs && echo created-ok"), verify("exit 3")],
    );
    let res = run(&req, &mut w);
    assert_eq!(exit_code(&res), 0);
    let out = result_to_json(&res);
    assert!(out.contains("\"status\":\"applied\""), "{out}");
    assert!(out.contains("goodbye"), "{out}");
    assert!(out.contains("created-ok"), "{out}");
    assert!(out.contains("\"exit\":3"), "{out}");
    assert!(w.files.contains_key("src/newmod.rs"));
}

#[test]
fn dry_run_writes_nothing() {
    let mut w = fixture();
    let mut req = request(vec![edit("main.rs", "hello", "goodbye")], vec![], vec![]);
    req.dry_run = true;
    let res = run(&req, &mut w);
    assert_eq!(exit_code(&res), 0);
    let out = result_to_json(&res);
    assert!(out.contains("dry_run"), "{out}");
    assert!(out.contains(r#"+     println!(\"goodbye\");"#), "{out}");
    assert_eq!(w.text("main.rs"), MAIN);
}

#[test]
fn traversal_and_absolute_refused_via_cli() {
    for bad in ["../escape.txt", "/etc/passwd"] {
        let req = request(vec![edit(bad, "a", "b")], vec![], vec![]);
        let res = run(&req, &mut fixture());
        assert_eq!(exit_code(&res), 1);
        let out = result_to_json(&res);
        assert!(out.contains("refused"), "{out}");
    }
}

#[test]
fn chained_same_path_edits_via_cli() {
    let mut w = fixture();
    let req = request(
        vec![
            edit("main.rs", "hello", "goodbye"),
            edit("main.rs", "goodbye", "farewell"),
        ],
        vec![],
        vec![],
    );
    let res = run(&req, &mut w);
    assert_eq!(exit_code(&res), 0);
    assert!(w.text("main.rs").contains("farewell"));
}

#[test]
fn a_failed_write_restores_every_file() {
    let mut w = fixture();
    let before = w.files.clone();
    w.failing_put = Some(2);
    let req = request(
        vec![
            edit("main.rs", "hello", "goodbye"),
            edit("main.rs", "goodbye", "farewell"),
            edit("lib.rs", "a + b", "b + a"),
        ],
        vec![write("README", "other text\n"), write("new.txt", "new\n")],
        vec![verify("cat main.rs")],
    );
    match run(&req, &mut w) {
        Err(BatchError::RolledBack(m, edits, writes, detail)) => {
            assert_eq!(m, "write failed: disk full");
            assert!(edits.iter().all(|e| !e.applied && !e.ok));
            assert!(edits
                .iter()
                .all(|e| e.error.as_deref() == Some("rolled back")));
            assert_eq!(writes.unwrap().len(), 0);
            assert!(detail.is_none());
        }
        other => panic!("expected rollback, got {other:?}"),
    }
    assert_eq!(w.files, before);
    assert!(!w.asked.iter().any(|a| a.starts_with("run")));
    assert_eq!(
        w.asked[w.asked.len() - 3..],
        ["put README", "put lib.rs", "put main.rs"]
    );
}

#[test]
fn a_failed_new_file_is_removed() {
    let mut w = fixture();
    let before = w.files.clone();
    w.failing_put = Some(1);
    let req = request(
        vec![],
        vec![write("README", "other\n"), write("new.txt", "new text\n")],
        vec![],
    );
    match run(&req, &mut w) {
        Err(BatchError::RolledBack(m, _, Some(writes), _)) => {
            assert_eq!(m, "write failed: disk full");
            assert_eq!(writes.len(), 1);
            assert!(!writes[0].applied && !writes[0].ok);
            assert_eq!(writes[0].error.as_deref(), Some("rolled back"));
        }
        other => panic!("expected rollback, got {other:?}"),
    }
    assert_eq!(w.files, before);
    assert!(w.asked.contains(&"delete new.txt".to_string()));
}

#[test]
fn drift_between_reading_and_writing_is_not_overwritten() {
    let mut w = fixture();
    w.meanwhile = Some(("lib.rs".to_string(), Some(b"theirs\n".to_vec())));
    let req = request(
        vec![
            edit("main.rs", "hello", "goodbye"),
            edit("lib.rs", "a + b", "b + a"),
        ],
        vec![],
        vec![],
    );
    match run(&req, &mut w) {
        Err(BatchError::RolledBack(m, ..)) => assert_eq!(
            m,
            "file changed between read and write (TOCTOU guard) — rerun the batch"
        ),
        other => panic!("expected rollback, got {other:?}"),
    }
    assert_eq!(w.text("main.rs"), MAIN);
    assert_eq!(w.text("lib.rs"), "theirs\n");
}

#[test]
fn a_file_that_vanishes_is_reported() {
    let mut w = fixture();
    w.meanwhile = Some(("lib.rs".to_string(), None));
    let req = request(vec![edit("lib.rs", "a + b", "b + a")], vec![], vec![]);
    match run(&req, &mut w) {
        Err(BatchError::RolledBack(m, ..)) => assert_eq!(
            m,
            "file disappeared before write (TOCTOU guard) — rerun the batch"
        ),
        other => panic!("expected rollback, got {other:?}"),
    }
}

#[test]
fn an_unreadable_file_is_not_overwritten() {
    let mut w = fixture();
    w.unreadable.insert("README".to_string());
    let req = request(vec![], vec![write("README", "x")], vec![]);
    match run(&req, &mut w) {
        Err(BatchError::RolledBack(m, ..)) => {
            assert_eq!(m, "could not stat file before write: permission denied")
        }
        other => panic!("expected rollback, got {other:?}"),
    }
    assert_eq!(w.text("README"), "demo fixture\n");
}

#[test]
fn a_lock_that_cannot_be_taken_rolls_back() {
    let mut w = fixture();
    w.locked = Some("lib.rs".to_string());
    let req = request(
        vec![
            edit("main.rs", "hello", "goodbye"),
            edit("lib.rs", "a + b", "b + a"),
        ],
        vec![],
        vec![],
    );
    match run(&req, &mut w) {
        Err(BatchError::RolledBack(m, edits, _, _)) => {
            assert_eq!(m, "flock failed");
            assert!(!edits[0].applied && !edits[1].applied);
            assert_eq!(edits[0].error.as_deref(), Some("rolled back"));
            assert_eq!(edits[1].error, None);
        }
        other => panic!("expected rollback, got {other:?}"),
    }
    assert_eq!(w.text("main.rs"), MAIN);
}

#[test]
fn directories_that_cannot_be_made_roll_back() {
    let mut w = fixture();
    w.no_dirs = true;
    let req = request(
        vec![edit("main.rs", "hello", "goodbye")],
        vec![write("a/b.txt", "x")],
        vec![],
    );
    match run(&req, &mut w) {
        Err(BatchError::RolledBack(m, ..)) => assert_eq!(m, "mkdir failed: read-only file system"),
        other => panic!("expected rollback, got {other:?}"),
    }
    assert_eq!(w.text("main.rs"), MAIN);
    assert!(!w.files.contains_key("a/b.txt"));
}

#[test]
fn a_write_outside_rolls_back_the_edits() {
    let mut w = fixture();
    w.links.insert("/work/link".into(), "/outside".into());
    w.files.insert("/outside/y".to_string(), Vec::new());
    let req = request(
        vec![edit("main.rs", "hello", "goodbye")],
        vec![write("link/x", "x")],
        vec![],
    );
    match run(&req, &mut w) {
        Err(BatchError::RolledBack(m, ..)) => {
            assert_eq!(m, "refusing to write outside cwd: link/x")
        }
        other => panic!("expected rollback, got {other:?}"),
    }
    assert_eq!(w.text("main.rs"), MAIN);
    assert!(!w.asked.contains(&"inspect link/x".to_string()));
}

#[test]
fn outside_is_not_asked_where_it_is_allowed() {
    let mut w = world(&[("/srv/a.txt", "one\n")]);
    let mut req = request(
        vec![edit("/srv/a.txt", "one", "two")],
        vec![write("/srv/b.txt", "b")],
        vec![],
    );
    req.allow_outside = true;
    let res = run(&req, &mut w).unwrap();
    assert!(res.ok);
    assert_eq!(w.text("/srv/a.txt"), "two\n");
    assert_eq!(w.text("/srv/b.txt"), "b");
    assert!(!w.asked.iter().any(|a| a.starts_with("locate")));
}

#[test]
fn large_files_are_neither_edited_nor_overwritten() {
    let large = "x".repeat(5 * 1024 * 1024 + 1);
    let mut w = world(&[("big", &large), ("README", "demo fixture\n")]);
    let req = request(vec![edit("big", "x", "y")], vec![], vec![]);
    match run(&req, &mut w) {
        Err(BatchError::RolledBack(m, edits, _, _)) => {
            assert_eq!(
                m,
                "file too large to edit: big (5242881 bytes, max 5242880)"
            );
            assert_eq!(edits[0].error.as_deref(), Some("file too large"));
        }
        other => panic!("expected rollback, got {other:?}"),
    }
    let req = request(
        vec![edit("README", "demo", "DEMO")],
        vec![write("big", "y")],
        vec![],
    );
    match run(&req, &mut w) {
        Err(BatchError::RolledBack(m, ..)) => {
            assert_eq!(m, "file too large to write: big (max 5242880)")
        }
        other => panic!("expected rollback, got {other:?}"),
    }
    assert_eq!(w.text("README"), "demo fixture\n");
    assert_eq!(w.files["big"].len(), large.len());
}

#[test]
fn bytes_that_are_no_text_are_not_edited() {
    let mut w = world(&[]);
    w.files.insert("bin".to_string(), vec![0x61, 0xff]);
    let req = request(vec![edit("bin", "a", "b")], vec![], vec![]);
    match run(&req, &mut w) {
        Err(BatchError::RolledBack(m, edits, writes, _)) => {
            assert_eq!(m, "file is not valid UTF-8: bin");
            assert_eq!(edits[0].error.as_deref(), Some("not UTF-8"));
            assert!(writes.is_none());
        }
        other => panic!("expected rollback, got {other:?}"),
    }
}

#[test]
fn a_dry_run_reports_every_edit() {
    let mut w = fixture();
    w.files.insert("bin".to_string(), vec![0xff]);
    w.files.insert("locked".to_string(), b"a".to_vec());
    w.unreadable.insert("locked".to_string());
    w.files.insert(
        "big".to_string(),
        format!("a{}", "x".repeat(5 * 1024 * 1024)).into_bytes(),
    );
    w.files.insert("/outside/secret".to_string(), b"a".to_vec());
    w.links
        .insert("/work/link".into(), "/outside/secret".into());
    let mut all = edit("lib.rs", "i32", "i64");
    all.replace_all = true;
    let mut none = edit("lib.rs", "i32", "i16");
    none.replace_all = true;
    let mut req = request(
        vec![
            edit("main.rs", "hello", "goodbye"),
            edit("main.rs", "goodbye", "farewell"),
            edit("lib.rs", "i32", "i64"),
            all,
            none,
            edit("nowhere", "a", "b"),
            edit("bin", "a", "b"),
            edit("locked", "a", "b"),
            edit("big", "a", "b"),
            edit("link", "a", "b"),
        ],
        vec![write("new", "x")],
        vec![verify("exit 1")],
    );
    req.dry_run = true;
    let before = w.files.clone();
    let res = run(&req, &mut w);
    assert_eq!(exit_code(&res), 1);
    let r = res.unwrap();
    assert!(!r.ok);
    let errors: Vec<Option<&str>> = r.edits.iter().map(|e| e.error.as_deref()).collect();
    assert_eq!(
        errors,
        vec![
            None,
            None,
            Some("old_string matches 3 times"),
            None,
            Some("old_string not found"),
            Some("target missing"),
            Some("not UTF-8 or unreadable"),
            Some("not UTF-8 or unreadable"),
            Some("file too large"),
            Some("outside cwd")
        ]
    );
    let counts: Vec<Option<usize>> = r.edits.iter().map(|e| e.replacements).collect();
    assert_eq!(
        counts,
        vec![
            Some(1),
            Some(1),
            Some(3),
            Some(3),
            Some(0),
            None,
            None,
            None,
            None,
            None
        ]
    );
    assert!(r.edits.iter().all(|e| !e.applied));
    assert!(r.writes.is_none() && r.verify.is_none());
    assert_eq!(w.files, before);
    assert!(!w.asked.contains(&"inspect link".to_string()));
    assert!(w
        .asked
        .iter()
        .all(|a| a.starts_with("inspect") || a.starts_with("locate") || a == "proceed"));
}

#[test]
fn a_dry_run_composes_edits_of_one_path() {
    let mut w = world(&[("f.txt", "v1\n")]);
    let mut req = request(
        vec![edit("f.txt", "v1", "v2"), edit("f.txt", "v2", "v3")],
        vec![],
        vec![],
    );
    req.dry_run = true;
    let r = run(&req, &mut w).unwrap();
    assert!(r.ok);
    assert!(r.edits[1].ok);
    assert_eq!(r.edits[1].replacements, Some(1));
    assert_eq!(r.edits[1].diff_preview.as_deref(), Some("- v2\n+ v3\n"));
    assert_eq!(w.text("f.txt"), "v1\n");
}

#[test]
fn a_dry_run_is_fine_exactly_where_the_batch_goes_through() {
    let large = format!("a{}", "x".repeat(5 * 1024 * 1024));
    let files = [
        ("f", "v1\n"),
        ("g", "x x\n"),
        ("big", large.as_str()),
        ("/outside/secret", "a"),
    ];
    let batches: Vec<Vec<Edit>> = vec![
        vec![],
        vec![edit("f", "v1", "v2"), edit("f", "v2", "v3")],
        vec![edit("f", "v1", "v2"), edit("f", "v1", "v3")],
        vec![edit("f", "v1", "v2"), edit("g", "x", "y")],
        vec![edit("big", "a", "b")],
        vec![edit("link", "a", "b")],
        vec![edit("nowhere", "a", "b")],
    ];
    let mut went_through: Vec<bool> = Vec::new();
    for edits in batches {
        let mut req = request(edits, vec![], vec![]);
        let mut w = world(&files);
        w.links
            .insert("/work/link".into(), "/outside/secret".into());
        let went = run(&req, &mut w).is_ok();
        req.dry_run = true;
        let mut w = world(&files);
        w.links
            .insert("/work/link".into(), "/outside/secret".into());
        let foretold = run(&req, &mut w).unwrap();
        assert_eq!(foretold.ok, went, "{:?}", foretold.edits);
        went_through.push(went);
    }
    assert_eq!(
        went_through,
        vec![true, true, false, false, false, false, false]
    );
}

#[test]
fn an_empty_file_that_appears_is_not_overwritten() {
    let mut w = fixture();
    w.meanwhile = Some(("new.txt".to_string(), Some(Vec::new())));
    let req = request(
        vec![edit("README", "demo", "DEMO")],
        vec![write("new.txt", "mine")],
        vec![],
    );
    match run(&req, &mut w) {
        Err(BatchError::RolledBack(m, ..)) => assert_eq!(
            m,
            "file changed between read and write (TOCTOU guard) — rerun the batch"
        ),
        other => panic!("expected rollback, got {other:?}"),
    }
    assert_eq!(w.text("new.txt"), "");
    assert_eq!(w.text("README"), "demo fixture\n");
    let snap = read_snapshot(None);
    assert!(check_not_changed(&snap, &Reread::Content(Vec::new())).is_err());
    assert!(check_not_changed(&snap, &Reread::Missing).is_ok());
    let snap = read_snapshot(Some(Vec::new()));
    assert!(check_not_changed(&snap, &Reread::Content(Vec::new())).is_ok());
}

#[test]
fn links_inside_the_tree_are_edited_through() {
    let mut w = world(&[("src/lib.rs", "one\n")]);
    w.links.insert("/work/l".into(), "src/lib.rs".into());
    let mut req = request(vec![edit("l", "one", "two")], vec![], vec![]);
    req.dry_run = true;
    assert!(run(&req, &mut w).unwrap().ok);
}

#[test]
fn a_write_overwrites_an_edit_and_both_are_applied() {
    let mut w = fixture();
    let req = request(
        vec![edit("README", "demo", "DEMO")],
        vec![write("README", "written\n")],
        vec![],
    );
    let res = run(&req, &mut w).unwrap();
    assert_eq!(w.text("README"), "written\n");
    assert!(res.edits[0].applied);
    let writes = res.writes.unwrap();
    assert!(writes[0].applied);
    assert_eq!(writes[0].created_dirs, Some(false));
}

#[test]
fn earlier_writes_to_a_path_are_superseded() {
    let mut w = world(&[]);
    let req = request(
        vec![],
        vec![write("w", "one"), write("w", "two"), write("w", "three")],
        vec![],
    );
    let res = run(&req, &mut w);
    assert_eq!(w.text("w"), "three");
    let text = result_to_text(&res);
    let r = res.unwrap();
    let writes = r.writes.unwrap();
    assert!(!writes[0].applied && !writes[1].applied && writes[2].applied);
    for superseded in &writes[..2] {
        assert!(superseded.ok);
        assert_eq!(
            superseded.error.as_deref(),
            Some("superseded by a later write to the same path")
        );
        assert_eq!(superseded.created_dirs, None);
    }
    assert_eq!(writes[2].created_dirs, Some(true));
    assert_eq!(w.puts, 1);
    assert_eq!(
        text,
        "OK: applied\n  FAIL  w  (superseded by a later write to the same path)\n  FAIL  w  (superseded by a later write to the same path)\n  write w  (dirs created)\n"
    );
}

#[test]
fn paths_that_differ_only_in_dots_name_one_file() {
    let mut w = world(&[("d/f", "one\n")]);
    let req = request(
        vec![edit("d/f", "one", "two"), edit("./d/./f", "two", "three")],
        vec![],
        vec![],
    );
    let res = run(&req, &mut w).unwrap();
    assert!(res.ok);
    assert_eq!(w.text("d/f"), "three\n");
    assert_eq!(w.puts, 1);
    assert_eq!(res.edits[1].path, "./d/./f");
}

#[test]
fn commands_see_what_landed_and_never_undo_it() {
    let mut w = fixture();
    let req = request(
        vec![edit("README", "demo", "DEMO")],
        vec![],
        vec![
            verify("exit 9"),
            verify("cat README"),
            verify("kill"),
            verify("strange"),
        ],
    );
    let res = run(&req, &mut w);
    assert_eq!(exit_code(&res), 0);
    let v = res.unwrap().verify.unwrap();
    assert_eq!(v[0].exit, 9);
    assert_eq!(v[1].stdout, "DEMO fixture\n");
    assert_eq!(v[1].duration_ms, 7);
    assert_eq!((v[2].exit, v[2].stdout.as_str()), (-1, "a\u{fffd}b"));
    assert_eq!(v[3].exit, -1);
    assert_eq!(v[3].stderr, "failed to spawn: no such shell");
    assert_eq!(w.text("README"), "DEMO fixture\n");
}

#[test]
fn an_empty_request_is_applied_at_once() {
    let req = request(vec![], vec![], vec![]);
    let mut w = world(&[]);
    let res = run(&req, &mut w).unwrap();
    assert!(res.ok);
    assert_eq!(res.status, "applied");
    assert!(w.asked.is_empty());
}

#[test]
fn an_event_that_was_not_asked_for_changes_nothing() {
    let req = request(vec![edit("a", "x", "y")], vec![], vec![]);
    let mut s = Session::start(&req).unwrap();
    s.advance(Event::Done(Ok(())));
    assert!(matches!(s.action(), Action::Locate { .. }));
    s.advance(Event::Located(true));
    s.advance(Event::Located(true));
    s.advance(Event::Done(Ok(())));
    assert!(matches!(s.action(), Action::Inspect { .. }));
    assert!(s.into_result().is_none());
}

#[test]
fn a_dry_run_foretells_what_an_edit_does() {
    let mut all = edit("lib.rs", "i32", "i64");
    all.replace_all = true;
    let mut req = request(vec![edit("main.rs", "hello", "goodbye"), all], vec![], vec![]);
    req.dry_run = true;
    let foretold = run(&req, &mut fixture()).unwrap();
    req.dry_run = false;
    let done = run(&req, &mut fixture()).unwrap();
    for (f, d) in foretold.edits.iter().zip(done.edits.iter()) {
        assert!(f.ok && d.ok && !f.applied && d.applied);
        assert_eq!(f.replacements, d.replacements);
        assert_eq!(f.diff_preview, d.diff_preview);
    }
}

#[test]
fn directories_are_made_for_the_writes_that_land() {
    let mut w = world(&[]);
    let mut plain = write("c/d.txt", "y");
    plain.create_dirs = false;
    let req = request(
        vec![],
        vec![write("a/b.txt", "x"), plain, write("a/b.txt", "z")],
        vec![],
    );
    assert!(run(&req, &mut w).unwrap().ok);
    let dirs: Vec<&String> = w.asked.iter().filter(|a| a.starts_with("dirs")).collect();
    assert_eq!(dirs, vec!["dirs a/b.txt"]);
}

#[test]
fn commands_are_reported_in_order() {
    let req = request(vec![], vec![], vec![verify("exit 1"), verify("echo two"), verify("exit 0")]);
    let res = run(&req, &mut world(&[])).unwrap();
    let cmds: Vec<String> = res.verify.unwrap().into_iter().map(|v| v.cmd).collect();
    assert_eq!(cmds, vec!["exit 1", "echo two", "exit 0"]);
}

#[test]
fn windows_paths_that_differ_only_in_separators_name_one_file() {
    let req = request(
        vec![edit("d\\f", "one", "two"), edit("d/f", "two", "three")],
        vec![],
        vec![],
    );
    let mut s = Session::start_on(patchify::Style::Windows, &req).unwrap();
    s.advance(Event::Located(true));
    match s.action() {
        Action::Inspect { path } => assert_eq!(path, "d\\f"),
        _ => panic!("expected to inspect"),
    }
    s.advance(Event::Found {
        exists: true,
        content: Some(b"one".to_vec()),
    });
    s.advance(Event::Located(true));
    assert!(matches!(s.action(), Action::Proceed));
}
