use std::collections::BTreeMap;

use dotr::{Action, Dotr, EntryError, FileKind, FsPath, Outcome, Plan, Probe};

#[derive(Clone, Debug, PartialEq, Eq)]
enum Node {
    Dir,
    File,
    Link(FsPath),
}

/// An in-memory file system keyed by path components.
#[derive(Clone, Debug, PartialEq, Eq)]
struct Tree(BTreeMap<Vec<Vec<u8>>, Node>);

fn path(parts: &[&str]) -> FsPath {
    FsPath { parts: parts.iter().map(|p| p.as_bytes().to_vec()).collect() }
}

fn src_base() -> FsPath {
    path(&["/", "tmp", "src"])
}

fn dst_base() -> FsPath {
    path(&["/", "tmp", "dst"])
}

fn under(base: &FsPath, rel: &[&str]) -> FsPath {
    let mut p = base.clone();
    p.parts.extend(rel.iter().map(|r| r.as_bytes().to_vec()));
    p
}

impl Tree {
    fn new() -> Tree {
        let mut t = Tree(BTreeMap::new());
        t.0.insert(path(&["/"]).parts, Node::Dir);
        t.0.insert(path(&["/", "tmp"]).parts, Node::Dir);
        t.0.insert(src_base().parts, Node::Dir);
        t.0.insert(dst_base().parts, Node::Dir);
        t
    }

    fn put(&mut self, p: &FsPath, n: Node) {
        self.0.insert(p.parts.clone(), n);
    }

    fn get(&self, p: &FsPath) -> Option<&Node> {
        self.0.get(&p.parts)
    }

    fn probe(&self, src: &FsPath, dst: &FsPath) -> Probe {
        let kind = |n: Option<&Node>| {
            n.map(|n| match n {
                Node::Dir => FileKind::Directory,
                Node::File => FileKind::File,
                Node::Link(_) => FileKind::Symlink,
            })
        };
        let target = |n: Option<&Node>| match n {
            Some(Node::Link(t)) => Some(t.clone()),
            _ => None,
        };
        Probe {
            source: kind(self.get(src)),
            source_target: target(self.get(src)),
            destination: kind(self.get(dst)),
            destination_target: target(self.get(dst)),
        }
    }

    fn apply(&mut self, actions: &[Action]) {
        for a in actions {
            match a {
                Action::RemoveFile(p) => {
                    assert!(!matches!(self.get(p), Some(Node::Dir) | None));
                    self.0.remove(&p.parts);
                }
                Action::RemoveDir(p) => {
                    assert_eq!(self.get(p), Some(&Node::Dir));
                    self.0.retain(|k, _| !k.starts_with(&p.parts));
                }
                Action::CreateDirAll(p) => {
                    for n in 1..=p.parts.len() {
                        let k = p.parts[..n].to_vec();
                        let n = self.0.entry(k).or_insert(Node::Dir);
                        assert_eq!(*n, Node::Dir);
                    }
                }
                Action::Symlink { target, link } => {
                    assert!(self.get(link).is_none());
                    self.put(link, Node::Link(target.clone()));
                }
            }
        }
    }

    /// The source entries in walk order.
    fn sources(&self) -> Vec<FsPath> {
        let base = src_base();
        self.0
            .keys()
            .filter(|k| k.starts_with(&base.parts))
            .map(|k| FsPath { parts: k.clone() })
            .collect()
    }

    fn run(&mut self, dotr: &Dotr, linking: bool) -> Result<Vec<Outcome>, EntryError> {
        let mut outcomes = Vec::new();
        for src in self.sources() {
            let rel = src.strip_prefix(&src_base());
            let dst = dst_base().join(&rel);
            let probe = self.probe(&src, &dst);
            let plan = if linking {
                dotr.link_entry(&src, &src_base(), &dst_base(), &probe)?
            } else {
                dotr.unlink_entry(&src, &src_base(), &dst_base(), &probe)?
            };
            self.apply(&plan.actions);
            outcomes.push(plan.outcome);
        }
        Ok(outcomes)
    }

    fn link(&mut self, dotr: &Dotr) -> Result<Vec<Outcome>, EntryError> {
        self.run(dotr, true)
    }

    fn unlink(&mut self, dotr: &Dotr) -> Result<Vec<Outcome>, EntryError> {
        self.run(dotr, false)
    }
}

fn file_probe(destination: Option<FileKind>, destination_target: Option<FsPath>) -> Probe {
    Probe { source: Some(FileKind::File), source_target: None, destination, destination_target }
}

#[test]
fn simple_file() {
    let dotr = Dotr::new();
    let mut t = Tree::new();
    let src_path = under(&src_base(), &["a"]);
    let dst_path = under(&dst_base(), &["a"]);
    t.put(&src_path, Node::File);

    t.link(&dotr).unwrap();
    assert_eq!(t.get(&dst_path), Some(&Node::Link(src_path.clone())));

    t.unlink(&dotr).unwrap();
    assert_eq!(t.get(&dst_path), None);
}

#[test]
fn simple_nested_file() {
    let dotr = Dotr::new();
    let mut t = Tree::new();
    let src_path = under(&src_base(), &["foo", "a"]);
    let dst_path = under(&dst_base(), &["foo", "a"]);
    t.put(&under(&src_base(), &["foo"]), Node::Dir);
    t.put(&src_path, Node::File);

    t.link(&dotr).unwrap();
    assert_eq!(t.get(&dst_path), Some(&Node::Link(src_path.clone())));

    t.unlink(&dotr).unwrap();
    assert_eq!(t.get(&dst_path), None);
}

#[test]
fn simple_symlink() {
    let dotr = Dotr::new();
    let mut t = Tree::new();
    let src_path = under(&src_base(), &["a"]);
    let src_link_path = under(&src_base(), &["a.lnk"]);
    let dst_path = under(&dst_base(), &["a"]);
    let dst_link_path = under(&dst_base(), &["a.lnk"]);
    t.put(&src_path, Node::File);
    t.put(&src_link_path, Node::Link(src_path.clone()));

    t.link(&dotr).unwrap();
    assert_eq!(t.get(&dst_path), Some(&Node::Link(src_path.clone())));
    assert_eq!(t.get(&dst_link_path), Some(&Node::Link(src_path.clone())));

    t.unlink(&dotr).unwrap();
    assert_eq!(t.get(&dst_path), None);
    assert_eq!(t.get(&dst_link_path), None);
}

#[test]
fn nested_file_creates_parent_directories() {
    let dotr = Dotr::new();
    let src = under(&src_base(), &["foo", "bar", "a"]);
    let plan = dotr.link_entry(&src, &src_base(), &dst_base(), &file_probe(None, None)).unwrap();
    assert_eq!(
        plan,
        Plan {
            outcome: Outcome::Created,
            actions: vec![
                Action::CreateDirAll(under(&dst_base(), &["foo", "bar"])),
                Action::Symlink { target: src.clone(), link: under(&dst_base(), &["foo", "bar", "a"]) },
            ],
        }
    );
    let mut t = Tree::new();
    t.put(&under(&src_base(), &["foo"]), Node::Dir);
    t.put(&under(&src_base(), &["foo", "bar"]), Node::Dir);
    t.put(&src, Node::File);
    t.link(&dotr).unwrap();
    assert_eq!(t.get(&under(&dst_base(), &["foo", "bar"])), Some(&Node::Dir));
    assert_eq!(t.get(&under(&dst_base(), &["foo", "bar", "a"])), Some(&Node::Link(src)));
}

#[test]
fn second_link_is_already_satisfied() {
    let dotr = Dotr::new();
    let mut t = Tree::new();
    t.put(&under(&src_base(), &["a"]), Node::File);
    t.put(&under(&src_base(), &["b"]), Node::Link(path(&["/", "etc", "b"])));
    t.link(&dotr).unwrap();
    let once = t.clone();
    let outcomes = t.link(&dotr).unwrap();
    assert_eq!(t, once);
    assert_eq!(outcomes, vec![Outcome::Directory, Outcome::AlreadyLinked, Outcome::AlreadyLinked]);
}

#[test]
fn second_forced_link_leaves_same_tree() {
    let dotr = Dotr::new().set_force();
    let mut t = Tree::new();
    t.put(&under(&src_base(), &["a"]), Node::File);
    t.put(&under(&dst_base(), &["a"]), Node::File);
    t.link(&dotr).unwrap();
    let once = t.clone();
    t.link(&dotr).unwrap();
    assert_eq!(t, once);
    assert_eq!(t.get(&under(&dst_base(), &["a"])), Some(&Node::Link(under(&src_base(), &["a"]))));
}

#[test]
fn round_trip_leaves_no_links() {
    let dotr = Dotr::new();
    let mut t = Tree::new();
    t.put(&under(&src_base(), &["x"]), Node::Dir);
    t.put(&under(&src_base(), &["x", "y"]), Node::File);
    t.put(&under(&src_base(), &["z"]), Node::Link(path(&["/", "etc", "z"])));
    t.put(&under(&dst_base(), &["keep"]), Node::File);
    let before = t.clone();
    t.link(&dotr).unwrap();
    t.unlink(&dotr).unwrap();
    let mut expected = before;
    expected.put(&under(&dst_base(), &["x"]), Node::Dir);
    assert_eq!(t, expected);
}

#[test]
fn ignored_path_is_not_linked() {
    let mut opts = dotr::Options {
        dst_dir: dst_base(),
        src_dir: src_base(),
        command: dotr::Command::Link,
        dry_run: false,
        force: true,
        ignore: vec![path(&["LICENSE"])],
        verbose: 0,
    };
    let dotr = Dotr::from_opts(opts.clone());
    let src = under(&src_base(), &["LICENSE"]);
    let probe = file_probe(Some(FileKind::File), None);
    let ignored = Plan { outcome: Outcome::Ignored, actions: vec![] };
    assert_eq!(dotr.link_entry(&src, &src_base(), &dst_base(), &probe), Ok(ignored.clone()));
    assert_eq!(dotr.unlink_entry(&src, &src_base(), &dst_base(), &probe), Ok(ignored.clone()));
    // the probe is not consulted: an unreadable source makes no difference
    let unreadable = Probe { source: None, source_target: None, destination: None, destination_target: None };
    assert_eq!(dotr.link_entry(&src, &src_base(), &dst_base(), &unreadable), Ok(ignored));
    // matching is on the whole relative path, not the name
    let nested = under(&src_base(), &["docs", "LICENSE"]);
    assert_eq!(
        dotr.link_entry(&nested, &src_base(), &dst_base(), &file_probe(None, None)).unwrap().outcome,
        Outcome::Created
    );
    opts.ignore = vec![];
    let dotr = Dotr::from_opts(opts);
    assert_eq!(
        dotr.link_entry(&src, &src_base(), &dst_base(), &file_probe(Some(FileKind::File), None)).unwrap().outcome,
        Outcome::Replaced
    );
}

#[test]
fn existing_file_is_kept() {
    let dotr = Dotr::new();
    let mut t = Tree::new();
    t.put(&under(&src_base(), &["a"]), Node::File);
    t.put(&under(&dst_base(), &["a"]), Node::File);
    let before = t.clone();
    assert_eq!(t.link(&dotr).unwrap(), vec![Outcome::Directory, Outcome::NotSymlink]);
    assert_eq!(t, before);
    assert_eq!(t.unlink(&dotr).unwrap(), vec![Outcome::Directory, Outcome::KeptFile]);
    assert_eq!(t, before);
}

#[test]
fn existing_directory_is_kept() {
    let dotr = Dotr::new();
    let src = under(&src_base(), &["a"]);
    let probe = file_probe(Some(FileKind::Directory), None);
    let l = dotr.link_entry(&src, &src_base(), &dst_base(), &probe).unwrap();
    assert_eq!(l, Plan { outcome: Outcome::NotSymlink, actions: vec![] });
    let u = dotr.unlink_entry(&src, &src_base(), &dst_base(), &probe).unwrap();
    assert_eq!(u, Plan { outcome: Outcome::KeptDirectory, actions: vec![] });
    let other = file_probe(Some(FileKind::Other), None);
    let u = dotr.unlink_entry(&src, &src_base(), &dst_base(), &other).unwrap();
    assert_eq!(u, Plan { outcome: Outcome::UnknownDestination, actions: vec![] });
}

#[test]
fn link_elsewhere_is_kept() {
    let dotr = Dotr::new();
    let src = under(&src_base(), &["a"]);
    let probe = file_probe(Some(FileKind::Symlink), Some(path(&["/", "elsewhere"])));
    let l = dotr.link_entry(&src, &src_base(), &dst_base(), &probe).unwrap();
    assert_eq!(l, Plan { outcome: Outcome::PointsElsewhere, actions: vec![] });
    let u = dotr.unlink_entry(&src, &src_base(), &dst_base(), &probe).unwrap();
    assert_eq!(u, Plan { outcome: Outcome::PointsElsewhere, actions: vec![] });
}

#[test]
fn force_replaces_file() {
    let dotr = Dotr::new().set_force();
    let mut t = Tree::new();
    t.put(&under(&src_base(), &["a"]), Node::File);
    t.put(&under(&dst_base(), &["a"]), Node::File);
    assert_eq!(t.link(&dotr).unwrap(), vec![Outcome::Directory, Outcome::Replaced]);
    assert_eq!(t.get(&under(&dst_base(), &["a"])), Some(&Node::Link(under(&src_base(), &["a"]))));
}

#[test]
fn force_replaces_directory() {
    let dotr = Dotr::new().set_force();
    let src = under(&src_base(), &["a"]);
    let dst = under(&dst_base(), &["a"]);
    let plan = dotr
        .link_entry(&src, &src_base(), &dst_base(), &file_probe(Some(FileKind::Directory), None))
        .unwrap();
    assert_eq!(
        plan,
        Plan {
            outcome: Outcome::Replaced,
            actions: vec![Action::RemoveDir(dst.clone()), Action::Symlink { target: src.clone(), link: dst.clone() }],
        }
    );
    let mut t = Tree::new();
    t.put(&src, Node::File);
    t.put(&dst, Node::Dir);
    t.put(&under(&dst, &["inner"]), Node::File);
    t.link(&dotr).unwrap();
    assert_eq!(t.get(&dst), Some(&Node::Link(src)));
    assert_eq!(t.get(&under(&dst, &["inner"])), None);
}

#[test]
fn force_replaces_link_elsewhere() {
    let dotr = Dotr::new().set_force();
    let mut t = Tree::new();
    let src = under(&src_base(), &["a"]);
    let dst = under(&dst_base(), &["a"]);
    t.put(&src, Node::File);
    t.put(&dst, Node::Link(path(&["/", "elsewhere"])));
    t.link(&dotr).unwrap();
    assert_eq!(t.get(&dst), Some(&Node::Link(src)));
}

#[test]
fn force_unlink_removes_anything() {
    let dotr = Dotr::new().set_force();
    let mut t = Tree::new();
    t.put(&under(&src_base(), &["a"]), Node::File);
    t.put(&under(&dst_base(), &["a"]), Node::File);
    assert_eq!(t.unlink(&dotr).unwrap(), vec![Outcome::Directory, Outcome::Removed]);
    assert_eq!(t.get(&under(&dst_base(), &["a"])), None);
}

#[test]
fn dry_run_changes_nothing() {
    for force in [false, true] {
        let live = if force { Dotr::new().set_force() } else { Dotr::new() };
        let dry = live.clone().set_dry_run();
        let mut t = Tree::new();
        t.put(&under(&src_base(), &["a"]), Node::File);
        t.put(&under(&src_base(), &["b"]), Node::File);
        t.put(&under(&src_base(), &["n"]), Node::Dir);
        t.put(&under(&src_base(), &["n", "c"]), Node::File);
        t.put(&under(&dst_base(), &["b"]), Node::File);
        let before = t.clone();
        let dry_outcomes = t.link(&dry).unwrap();
        assert_eq!(t, before);
        let dry_unlink = t.unlink(&dry).unwrap();
        assert_eq!(t, before);
        let mut copy = before.clone();
        assert_eq!(copy.link(&live).unwrap(), dry_outcomes);
        let mut copy = before.clone();
        assert_eq!(copy.unlink(&live).unwrap(), dry_unlink);
    }
}

#[test]
fn directory_and_unknown_sources_are_skipped() {
    let dotr = Dotr::new().set_force();
    let src = under(&src_base(), &["d"]);
    let dir = Probe { source: Some(FileKind::Directory), source_target: None, destination: Some(FileKind::File), destination_target: None };
    assert_eq!(dotr.link_entry(&src, &src_base(), &dst_base(), &dir), Ok(Plan { outcome: Outcome::Directory, actions: vec![] }));
    assert_eq!(dotr.unlink_entry(&src, &src_base(), &dst_base(), &dir), Ok(Plan { outcome: Outcome::Directory, actions: vec![] }));
    let other = Probe { source: Some(FileKind::Other), ..dir };
    assert_eq!(dotr.link_entry(&src, &src_base(), &dst_base(), &other), Ok(Plan { outcome: Outcome::UnknownSource, actions: vec![] }));
    assert_eq!(dotr.unlink_entry(&src, &src_base(), &dst_base(), &other), Ok(Plan { outcome: Outcome::UnknownSource, actions: vec![] }));
}

#[test]
fn unreadable_source_fails() {
    let dotr = Dotr::new();
    let src = under(&src_base(), &["a"]);
    let none = Probe { source: None, source_target: None, destination: None, destination_target: None };
    assert_eq!(dotr.link_entry(&src, &src_base(), &dst_base(), &none), Err(EntryError::SourceMetadata));
    assert_eq!(dotr.unlink_entry(&src, &src_base(), &dst_base(), &none), Err(EntryError::SourceMetadata));
    let link = Probe { source: Some(FileKind::Symlink), ..none };
    assert_eq!(dotr.link_entry(&src, &src_base(), &dst_base(), &link), Err(EntryError::SourceLink));
    assert_eq!(dotr.unlink_entry(&src, &src_base(), &dst_base(), &link), Err(EntryError::SourceLink));
}

#[test]
fn unreadable_destination_link() {
    let dotr = Dotr::new();
    let src = under(&src_base(), &["a"]);
    let probe = file_probe(Some(FileKind::Symlink), None);
    assert_eq!(dotr.link_entry(&src, &src_base(), &dst_base(), &probe), Err(EntryError::DestinationLink));
    assert_eq!(dotr.unlink_entry(&src, &src_base(), &dst_base(), &probe), Err(EntryError::DestinationLink));
    // a symbolic link source counts an unreadable destination link as pointing elsewhere
    let from_link = Probe { source: Some(FileKind::Symlink), source_target: Some(path(&["/", "etc", "a"])), ..probe };
    assert_eq!(
        dotr.link_entry(&src, &src_base(), &dst_base(), &from_link),
        Ok(Plan { outcome: Outcome::PointsElsewhere, actions: vec![] })
    );
}

#[test]
fn unlink_symlink_source_compares_targets() {
    let dotr = Dotr::new();
    let src = under(&src_base(), &["a.lnk"]);
    let dst = under(&dst_base(), &["a.lnk"]);
    let target = path(&["/", "etc", "a"]);
    let probe = Probe {
        source: Some(FileKind::Symlink),
        source_target: Some(target.clone()),
        destination: Some(FileKind::Symlink),
        destination_target: Some(target),
    };
    assert_eq!(
        dotr.unlink_entry(&src, &src_base(), &dst_base(), &probe),
        Ok(Plan { outcome: Outcome::Unlinked, actions: vec![Action::RemoveFile(dst)] })
    );
    // a link to the source path itself is not this entry's link
    let probe = Probe { destination_target: Some(src.clone()), ..probe };
    assert_eq!(
        dotr.unlink_entry(&src, &src_base(), &dst_base(), &probe),
        Ok(Plan { outcome: Outcome::PointsElsewhere, actions: vec![] })
    );
}

#[test]
fn unlink_without_destination_does_nothing() {
    let dotr = Dotr::new().set_force();
    let src = under(&src_base(), &["a"]);
    assert_eq!(
        dotr.unlink_entry(&src, &src_base(), &dst_base(), &file_probe(None, None)),
        Ok(Plan { outcome: Outcome::Absent, actions: vec![] })
    );
}

#[test]
fn default_matches_new() {
    let src = under(&src_base(), &["a"]);
    let probe = file_probe(Some(FileKind::File), None);
    let a = Dotr::default().link_entry(&src, &src_base(), &dst_base(), &probe);
    let b = Dotr::new().link_entry(&src, &src_base(), &dst_base(), &probe);
    assert_eq!(a, b);
    assert_eq!(a, Ok(Plan { outcome: Outcome::NotSymlink, actions: vec![] }));
}
