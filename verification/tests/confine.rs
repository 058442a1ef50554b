//! Where targets lie, over a made-up tree of links.

use patchify::confine::{Answer, Place, Query, Resolver};
use std::collections::BTreeMap;
use std::path::{Component, Path, PathBuf};

fn place(p: &Path) -> Place {
    let mut absolute = false;
    let mut names: Vec<Vec<u8>> = Vec::new();
    for c in p.components() {
        match c {
            Component::RootDir => absolute = true,
            Component::CurDir => names.push(b".".to_vec()),
            Component::ParentDir => names.push(b"..".to_vec()),
            Component::Normal(n) => names.push(n.to_str().unwrap().as_bytes().to_vec()),
            Component::Prefix(_) => unreachable!(),
        }
    }
    Place { absolute, names }
}

fn path(p: &Place) -> PathBuf {
    let mut out = PathBuf::new();
    if p.absolute {
        out.push("/");
    }
    for n in &p.names {
        out.push(String::from_utf8(n.clone()).unwrap());
    }
    out
}

/// A tree: a path is a link to a path, or plain.
struct Tree {
    nodes: BTreeMap<PathBuf, Option<PathBuf>>,
    probes: usize,
}

fn tree(plain: &[&str], links: &[(&str, &str)]) -> Tree {
    let mut nodes = BTreeMap::new();
    for p in plain {
        nodes.insert(PathBuf::from(p), None);
    }
    for (p, to) in links {
        nodes.insert(PathBuf::from(p), Some(PathBuf::from(to)));
    }
    Tree { nodes, probes: 0 }
}

impl Tree {
    /// The real place of a path, links followed.
    fn canonical(&self, p: &Path, depth: usize) -> Option<PathBuf> {
        if depth > 40 {
            return None;
        }
        let mut out = PathBuf::from("/");
        for c in p.components() {
            match c {
                Component::RootDir | Component::CurDir => {}
                Component::ParentDir => {
                    out.pop();
                }
                Component::Normal(n) => {
                    out.push(n);
                    match self.nodes.get(&out)? {
                        None => {}
                        Some(to) => {
                            out.pop();
                            out = self.canonical(&out.join(to), depth + 1)?;
                        }
                    }
                }
                Component::Prefix(_) => unreachable!(),
            }
        }
        Some(out)
    }

    /// What is at a path; its directory's links are followed.
    fn at(&self, p: &Path) -> Option<Option<PathBuf>> {
        let name = p.file_name()?;
        let dir = self.canonical(p.parent()?, 0)?;
        self.nodes.get(&dir.join(name)).cloned()
    }

    fn inside(&mut self, target: &str, base: &str) -> bool {
        let mut r = Resolver::start(place(Path::new(target)), place(Path::new(base)));
        loop {
            let answer = match r.query() {
                Query::Nothing => return r.verdict().unwrap(),
                Query::Probe { place: p } => {
                    self.probes += 1;
                    if p.names.is_empty() {
                        Answer::Plain
                    } else {
                        match self.at(&path(&p)) {
                            Some(Some(to)) => Answer::Link(Some(place(&to))),
                            Some(None) => Answer::Plain,
                            None => Answer::Missing,
                        }
                    }
                }
                Query::Exists { place: p } => {
                    Answer::Exists(self.canonical(&path(&p), 0).is_some())
                }
                Query::Canonical { place: p, base: b } => Answer::Canonical {
                    place: self.canonical(&path(&p), 0).map(|q| place(&q)),
                    base: self.canonical(&path(&b), 0).map(|q| place(&q)),
                },
            };
            r.answer(answer);
        }
    }
}

const PLAIN: [&str; 6] = [
    "/work",
    "/work/src",
    "/work/src/lib.rs",
    "/out",
    "/out/secret",
    "/workshop",
];

#[test]
fn plain_files_lie_where_they_are() {
    let mut t = tree(&PLAIN, &[]);
    assert!(t.inside("/work/src/lib.rs", "/work"));
    assert!(t.inside("/work", "/work"));
    assert!(!t.inside("/out/secret", "/work"));
    assert!(!t.inside("/workshop", "/work"));
}

#[test]
fn files_that_do_not_exist_lie_where_their_directory_is() {
    let mut t = tree(&PLAIN, &[("/work/link", "/out")]);
    assert!(t.inside("/work/src/new.rs", "/work"));
    assert!(t.inside("/work/a/b/c/new.rs", "/work"));
    assert!(!t.inside("/work/link/a/b/new.rs", "/work"));
    assert!(!t.inside("/out/new", "/work"));
}

#[test]
fn links_are_followed() {
    let mut t = tree(
        &PLAIN,
        &[
            ("/work/in", "src/lib.rs"),
            ("/work/dot", "./src"),
            ("/work/src/up", "../src/lib.rs"),
            ("/work/escape", "/out/secret"),
            ("/work/climb", "../out/secret"),
            ("/work/dir", "/out"),
            ("/out/back", "/work/src/lib.rs"),
        ],
    );
    assert!(t.inside("/work/in", "/work"));
    assert!(t.inside("/work/dot", "/work"));
    assert!(t.inside("/work/src/up", "/work"));
    assert!(!t.inside("/work/escape", "/work"));
    assert!(!t.inside("/work/climb", "/work"));
    assert!(!t.inside("/work/dir/secret", "/work"));
    assert!(t.inside("/work/dir/back", "/work"));
}

#[test]
fn eight_links_are_followed_and_no_more() {
    let mut t = tree(
        &PLAIN,
        &[
            ("/work/l1", "src/lib.rs"),
            ("/work/l2", "l1"),
            ("/work/l3", "l2"),
            ("/work/l4", "l3"),
            ("/work/l5", "l4"),
            ("/work/l6", "l5"),
            ("/work/l7", "l6"),
            ("/work/l8", "l7"),
            ("/work/l9", "l8"),
        ],
    );
    assert!(t.inside("/work/l7", "/work"));
    assert!(t.inside("/work/l8", "/work"));
    t.probes = 0;
    assert!(!t.inside("/work/l9", "/work"));
    assert_eq!(t.probes, 9);
}

#[test]
fn a_loop_of_links_is_refused() {
    let mut t = tree(&PLAIN, &[("/work/a", "b"), ("/work/b", "a")]);
    assert!(!t.inside("/work/a", "/work"));
    assert!(t.probes <= 9);
}

#[test]
fn links_that_lead_nowhere_lie_where_they_point() {
    let mut t = tree(&PLAIN, &[("/work/new", "src/new"), ("/work/bad", "/out/new")]);
    assert!(t.inside("/work/new", "/work"));
    assert!(!t.inside("/work/bad", "/work"));
}

#[test]
fn what_cannot_be_looked_at_is_refused() {
    let base = || place(Path::new("/work"));
    let mut r = Resolver::start(place(Path::new("/work/x")), base());
    r.answer(Answer::Link(None));
    assert_eq!(r.verdict(), Some(false));
    let mut r = Resolver::start(place(Path::new("/work/x")), base());
    r.answer(Answer::Plain);
    assert_eq!(r.verdict(), None);
    r.answer(Answer::Canonical {
        place: None,
        base: Some(base()),
    });
    assert_eq!(r.verdict(), Some(false));
    let mut r = Resolver::start(place(Path::new("x")), base());
    r.answer(Answer::Missing);
    r.answer(Answer::Exists(false));
    assert_eq!(r.verdict(), Some(false));
    assert!(matches!(r.query(), Query::Nothing));
}

#[test]
fn answers_to_other_questions_change_nothing() {
    let mut r = Resolver::start(place(Path::new("/work/x")), place(Path::new("/work")));
    r.answer(Answer::Exists(true));
    assert!(matches!(r.query(), Query::Probe { .. }));
    assert_eq!(r.verdict(), None);
}

#[test]
fn places_join_as_paths_do() {
    for dir in ["", ".", "/", "/a", "a/b", "./a", ".."] {
        for link in ["x", "./x", "../x", "/x/y", "x/./y", ".", ""] {
            let joined = place(Path::new(dir)).joined(&place(Path::new(link)));
            let expected = place(&Path::new(dir).join(link));
            assert_eq!(joined.absolute, expected.absolute, "{dir:?} {link:?}");
            assert_eq!(joined.names, expected.names, "{dir:?} {link:?}");
        }
    }
}

#[test]
fn places_have_parents_as_paths_do() {
    for p in ["", ".", "/", "/a", "a", "a/b", "./a", "..", "/a/../b"] {
        let parent = place(Path::new(p)).parent();
        let expected = Path::new(p).parent().map(place);
        assert_eq!(
            parent.map(|q| (q.absolute, q.names)),
            expected.map(|q| (q.absolute, q.names)),
            "{p:?}"
        );
    }
}

#[test]
fn places_lie_within_as_paths_start_with() {
    let paths = ["", "/", "/a", "/a/b", "/ab", "a", "a/b", "b"];
    for p in paths {
        for q in paths {
            assert_eq!(
                place(Path::new(p)).within(&place(Path::new(q))),
                Path::new(p).starts_with(q),
                "{p:?} {q:?}"
            );
            let copy = place(Path::new(p)).copied();
            assert_eq!(path(&copy), PathBuf::from(p));
        }
    }
}
