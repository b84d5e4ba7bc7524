use vstd::prelude::*;

use crate::entry::{
    as_plan, entry_decision, plan_result_view, removal, Action, ActionView, EntryError, FileKind,
    Outcome, Plan, PlanView, Probe, ProbeView,
};
use crate::opts::Options;
use crate::path::{is_absolute, is_prefix_of, FsPath};

verus! {

/// The settings that `link` and `unlink` run under.
#[derive(Clone, Debug)]
pub struct Dotr {
    ignore: Vec<FsPath>,
    dry_run: bool,
    force: bool,
}

pub ghost struct DotrView {
    /// Paths relative to the source root that are left out.
    pub ignore: Set<Seq<Seq<u8>>>,
    /// Report the decisions, change nothing.
    pub dry_run: bool,
    /// Remove what stands in the way at the destination.
    pub force: bool,
}

impl View for Dotr {
    type V = DotrView;

    closed spec fn view(&self) -> DotrView {
        DotrView {
            ignore: Set::new(|p: Seq<Seq<u8>>| exists|i: int| 0 <= i < self.ignore@.len() && #[trigger] self.ignore@[i]@ == p),
            dry_run: self.dry_run,
            force: self.force,
        }
    }
}

/// The path of `src` relative to the source root.
pub open spec fn relative(src: Seq<Seq<u8>>, src_base: Seq<Seq<u8>>) -> Seq<Seq<u8>> {
    src.skip(src_base.len() as int)
}

/// Where the source entry `src` is mirrored under the destination root.
pub open spec fn mirrored(
    src: Seq<Seq<u8>>,
    src_base: Seq<Seq<u8>>,
    dst_base: Seq<Seq<u8>>,
) -> Seq<Seq<u8>> {
    dst_base + relative(src, src_base)
}

/// The decision for the source entry `src`, before dry run is applied.
pub open spec fn decision(
    cfg: DotrView,
    linking: bool,
    src: Seq<Seq<u8>>,
    src_base: Seq<Seq<u8>>,
    dst_base: Seq<Seq<u8>>,
    p: ProbeView,
) -> Result<(Outcome, Seq<ActionView>), EntryError> {
    entry_decision(
        linking,
        cfg.force,
        cfg.ignore.contains(relative(src, src_base)),
        src,
        mirrored(src, src_base, dst_base),
        p,
    )
}

/// What `link` does for the source entry `src`.
pub open spec fn link_plan(
    cfg: DotrView,
    src: Seq<Seq<u8>>,
    src_base: Seq<Seq<u8>>,
    dst_base: Seq<Seq<u8>>,
    p: ProbeView,
) -> Result<PlanView, EntryError> {
    as_plan(decision(cfg, true, src, src_base, dst_base, p), cfg.dry_run)
}

/// What `unlink` does for the source entry `src`.
pub open spec fn unlink_plan(
    cfg: DotrView,
    src: Seq<Seq<u8>>,
    src_base: Seq<Seq<u8>>,
    dst_base: Seq<Seq<u8>>,
    p: ProbeView,
) -> Result<PlanView, EntryError> {
    as_plan(decision(cfg, false, src, src_base, dst_base, p), cfg.dry_run)
}

pub open spec fn actions_view(v: Vec<Action>) -> Seq<ActionView> {
    v@.map_values(|a: Action| a@)
}

pub open spec fn decision_view(r: Result<(Outcome, Vec<Action>), EntryError>) -> Result<
    (Outcome, Seq<ActionView>),
    EntryError,
> {
    match r {
        Ok((o, v)) => Ok((o, actions_view(v))),
        Err(e) => Err(e),
    }
}

/// The action that removes what stands at `dst`.
fn removal_of(kind: FileKind, dst: FsPath) -> (r: Action)
    ensures
        r@ == removal(kind, dst@),
{
    if kind == FileKind::Directory {
        Action::RemoveDir(dst)
    } else {
        Action::RemoveFile(dst)
    }
}

fn no_actions() -> (r: Vec<Action>)
    ensures
        actions_view(r) == Seq::<ActionView>::empty(),
{
    let r: Vec<Action> = Vec::new();
    assert(actions_view(r) =~= Seq::<ActionView>::empty());
    r
}

fn two_actions(a: Action, b: Action) -> (r: Vec<Action>)
    ensures
        actions_view(r) == seq![a@, b@],
{
    let mut r: Vec<Action> = Vec::new();
    r.push(a);
    r.push(b);
    assert(actions_view(r) =~= seq![a@, b@]);
    r
}

impl Dotr {
    /// Settings with nothing ignored, no force and no dry run.
    pub fn new() -> (r: Dotr)
        ensures
            r@.ignore == Set::<Seq<Seq<u8>>>::empty(),
            !r@.dry_run,
            !r@.force,
    {
        let r = Dotr { ignore: Vec::new(), dry_run: false, force: false };
        assert(r@.ignore =~= Set::<Seq<Seq<u8>>>::empty());
        r
    }

    /// The same settings with force on.
    pub fn set_force(self) -> (r: Dotr)
        ensures
            r@ == (DotrView { force: true, ..self@ }),
    {
        let r = Dotr { force: true, ..self };
        assert(r@.ignore =~= self@.ignore);
        r
    }

    /// The same settings with dry run on.
    pub fn set_dry_run(self) -> (r: Dotr)
        ensures
            r@ == (DotrView { dry_run: true, ..self@ }),
    {
        let r = Dotr { dry_run: true, ..self };
        assert(r@.ignore =~= self@.ignore);
        r
    }

    /// Settings taken from the options of an invocation.
    pub fn from_opts(opts: Options) -> (r: Dotr)
        ensures
            r@.ignore == opts.ignore@.map_values(|p: FsPath| p@).to_set(),
            r@.dry_run == opts.dry_run,
            r@.force == opts.force,
    {
        let r = Dotr { ignore: opts.ignore, dry_run: opts.dry_run, force: opts.force };
        assert(r@.ignore =~= opts.ignore@.map_values(|p: FsPath| p@).to_set()) by {
            let s = opts.ignore@.map_values(|p: FsPath| p@);
            assert forall|p: Seq<Seq<u8>>| r@.ignore.contains(p) implies s.contains(p) by {
                let i = choose|i: int| 0 <= i < r.ignore@.len() && #[trigger] r.ignore@[i]@ == p;
                assert(s[i] == p);
            }
            assert forall|p: Seq<Seq<u8>>| s.contains(p) implies r@.ignore.contains(p) by {
                let i = choose|i: int| 0 <= i < s.len() && s[i] == p;
                assert(r.ignore@[i]@ == p);
            }
        }
        r
    }

    /// Whether the relative path `rel` is in the ignore set.
    pub fn is_ignored(&self, rel: &FsPath) -> (r: bool)
        ensures
            r == self@.ignore.contains(rel@),
    {
        let mut i: usize = 0;
        while i < self.ignore.len()
            invariant
                i <= self.ignore@.len(),
                forall|j: int| 0 <= j < i ==> #[trigger] self.ignore@[j]@ != rel@,
            decreases self.ignore@.len() - i,
        {
            if self.ignore[i].same_as(rel) {
                assert(self.ignore@[i as int]@ == rel@);
                return true;
            }
            i = i + 1;
        }
        false
    }

    /// The decision for one source entry, before dry run is applied.
    fn decide(
        &self,
        linking: bool,
        src: &FsPath,
        src_base: &FsPath,
        dst_base: &FsPath,
        probe: &Probe,
    ) -> (r: Result<(Outcome, Vec<Action>), EntryError>)
        requires
            is_prefix_of(src_base@, src@),
            is_absolute(dst_base@),
        ensures
            decision_view(r) == decision(self@, linking, src@, src_base@, dst_base@, probe@),
    {
        let rel = src.strip_prefix(src_base);
        if self.is_ignored(&rel) {
            return Ok((Outcome::Ignored, no_actions()));
        }
        let kind = match probe.source {
            None => {
                return Err(EntryError::SourceMetadata);
            },
            Some(k) => k,
        };
        match kind {
            FileKind::Directory => {
                return Ok((Outcome::Directory, no_actions()));
            },
            FileKind::Other => {
                return Ok((Outcome::UnknownSource, no_actions()));
            },
            _ => {},
        }
        let file_source = kind == FileKind::File;
        let target = if file_source {
            src.copy()
        } else {
            match &probe.source_target {
                Some(t) => t.copy(),
                None => {
                    return Err(EntryError::SourceLink);
                },
            }
        };
        let dst = dst_base.join(&rel);
        assert(dst@ == mirrored(src@, src_base@, dst_base@));
        assert(dst@.len() > 0);
        match probe.destination {
            None => {
                if linking {
                    let parent = dst.parent();
                    Ok((
                        Outcome::Created,
                        two_actions(Action::CreateDirAll(parent), Action::Symlink { target, link: dst }),
                    ))
                } else {
                    Ok((Outcome::Absent, no_actions()))
                }
            },
            Some(dkind) => {
                if self.force {
                    if linking {
                        let link = dst.copy();
                        Ok((
                            Outcome::Replaced,
                            two_actions(removal_of(dkind, dst), Action::Symlink { target, link }),
                        ))
                    } else {
                        let mut v: Vec<Action> = Vec::new();
                        v.push(removal_of(dkind, dst));
                        assert(actions_view(v) =~= seq![v@[0]@]);
                        Ok((Outcome::Removed, v))
                    }
                } else if dkind == FileKind::Symlink {
                    match &probe.destination_target {
                        Some(d) => {
                            if d.same_as(&target) {
                                if linking {
                                    Ok((Outcome::AlreadyLinked, no_actions()))
                                } else {
                                    let mut v: Vec<Action> = Vec::new();
                                    v.push(Action::RemoveFile(dst));
                                    assert(actions_view(v) =~= seq![v@[0]@]);
                                    Ok((Outcome::Unlinked, v))
                                }
                            } else {
                                Ok((Outcome::PointsElsewhere, no_actions()))
                            }
                        },
                        None => {
                            if linking && !file_source {
                                Ok((Outcome::PointsElsewhere, no_actions()))
                            } else {
                                Err(EntryError::DestinationLink)
                            }
                        },
                    }
                } else if linking {
                    Ok((Outcome::NotSymlink, no_actions()))
                } else {
                    match dkind {
                        FileKind::File => Ok((Outcome::KeptFile, no_actions())),
                        FileKind::Directory => Ok((Outcome::KeptDirectory, no_actions())),
                        _ => Ok((Outcome::UnknownDestination, no_actions())),
                    }
                }
            },
        }
    }

    /// Turns a decision into a plan: under dry run its actions are dropped.
    fn to_plan(&self, d: Result<(Outcome, Vec<Action>), EntryError>) -> (r: Result<Plan, EntryError>)
        ensures
            plan_result_view(r) == as_plan(decision_view(d), self@.dry_run),
    {
        match d {
            Ok((outcome, actions)) => {
                if self.dry_run {
                    Ok(Plan { outcome, actions: no_actions() })
                } else {
                    Ok(Plan { outcome, actions })
                }
            },
            Err(e) => Err(e),
        }
    }

    /// What `link` does for the source entry `src`, found under the source
    /// root `src_base`, given what was read of it and of its destination
    /// under `dst_base`.
    pub fn link_entry(
        &self,
        src: &FsPath,
        src_base: &FsPath,
        dst_base: &FsPath,
        probe: &Probe,
    ) -> (r: Result<Plan, EntryError>)
        requires
            is_prefix_of(src_base@, src@),
            is_absolute(dst_base@),
        ensures
            plan_result_view(r) == link_plan(self@, src@, src_base@, dst_base@, probe@),
    {
        let d = self.decide(true, src, src_base, dst_base, probe);
        self.to_plan(d)
    }

    /// What `unlink` does for the source entry `src`, found under the source
    /// root `src_base`, given what was read of it and of its destination
    /// under `dst_base`.
    pub fn unlink_entry(
        &self,
        src: &FsPath,
        src_base: &FsPath,
        dst_base: &FsPath,
        probe: &Probe,
    ) -> (r: Result<Plan, EntryError>)
        requires
            is_prefix_of(src_base@, src@),
            is_absolute(dst_base@),
        ensures
            plan_result_view(r) == unlink_plan(self@, src@, src_base@, dst_base@, probe@),
    {
        let d = self.decide(false, src, src_base, dst_base, probe);
        self.to_plan(d)
    }
}

impl Default for Dotr {
    /// The same as `Dotr::new`.
    fn default() -> (r: Dotr)
        ensures
            r@.ignore == Set::<Seq<Seq<u8>>>::empty(),
            !r@.dry_run,
            !r@.force,
    {
        Dotr::new()
    }
}

} // verus!
