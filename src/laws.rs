//! What `link` and `unlink` do to a destination tree, and the guarantees that
//! follow from their decisions.
use vstd::prelude::*;

use crate::dotr::{link_plan, mirrored, relative, unlink_plan, DotrView};
use crate::entry::{link_target, ActionView, EntryError, FileKind, Outcome, PlanView, ProbeView};
use crate::path::{is_absolute, is_prefix_of};
use crate::walk::{admits, metadata_dir_name, reached};

verus! {

/// One object of a destination tree.
pub ghost enum Node {
    Directory,
    File,
    Symlink(Seq<Seq<u8>>),
    Other,
}

pub open spec fn kind_of(n: Node) -> FileKind {
    match n {
        Node::Directory => FileKind::Directory,
        Node::File => FileKind::File,
        Node::Symlink(_) => FileKind::Symlink,
        Node::Other => FileKind::Other,
    }
}

/// What a probe reads at `dst` in the tree `t`, the source side taken from `p`.
pub open spec fn observe(p: ProbeView, t: Map<Seq<Seq<u8>>, Node>, dst: Seq<Seq<u8>>) -> ProbeView {
    ProbeView {
        destination: if t.contains_key(dst) {
            Some(kind_of(t[dst]))
        } else {
            None
        },
        destination_target: if t.contains_key(dst) {
            match t[dst] {
                Node::Symlink(target) => Some(target),
                _ => None,
            }
        } else {
            None
        },
        ..p
    }
}

/// The tree after one action.
pub open spec fn apply(t: Map<Seq<Seq<u8>>, Node>, a: ActionView) -> Map<Seq<Seq<u8>>, Node> {
    match a {
        ActionView::RemoveFile(p) => t.remove(p),
        ActionView::RemoveDir(p) => t.restrict(t.dom().filter(|k: Seq<Seq<u8>>| !is_prefix_of(p, k))),
        ActionView::CreateDirAll(p) => Map::new(
            |k: Seq<Seq<u8>>| t.contains_key(k) || (k.len() > 0 && is_prefix_of(k, p)),
            |k: Seq<Seq<u8>>|
                if t.contains_key(k) {
                    t[k]
                } else {
                    Node::Directory
                },
        ),
        ActionView::Symlink { target, link } => t.insert(link, Node::Symlink(target)),
    }
}

/// The tree after a run of actions, in order.
pub open spec fn apply_all(t: Map<Seq<Seq<u8>>, Node>, s: Seq<ActionView>) -> Map<
    Seq<Seq<u8>>,
    Node,
>
    decreases s.len(),
{
    if s.len() == 0 {
        t
    } else {
        apply_all(apply(t, s[0]), s.skip(1))
    }
}

/// The tree after a plan is carried out; a failed decision changes nothing.
pub open spec fn after(t: Map<Seq<Seq<u8>>, Node>, r: Result<PlanView, EntryError>) -> Map<
    Seq<Seq<u8>>,
    Node,
> {
    match r {
        Ok(plan) => apply_all(t, plan.actions),
        Err(_) => t,
    }
}

pub open spec fn no_change(r: Result<PlanView, EntryError>) -> bool {
    match r {
        Ok(plan) => plan.actions.len() == 0,
        Err(_) => true,
    }
}

proof fn lemma_apply_none(t: Map<Seq<Seq<u8>>, Node>)
    ensures
        apply_all(t, seq![]) == t,
{
}

proof fn lemma_apply_one(t: Map<Seq<Seq<u8>>, Node>, a: ActionView)
    ensures
        apply_all(t, seq![a]) == apply(t, a),
{
    assert(seq![a].skip(1) =~= Seq::<ActionView>::empty());
    assert(apply_all(apply(t, a), Seq::<ActionView>::empty()) == apply(t, a));
}

proof fn lemma_apply_two(t: Map<Seq<Seq<u8>>, Node>, a: ActionView, b: ActionView)
    ensures
        apply_all(t, seq![a, b]) == apply(apply(t, a), b),
{
    assert(seq![a, b].skip(1) =~= seq![b]);
    lemma_apply_one(apply(t, a), b);
}

/// Running `link` a second time leaves the destination as the first run
/// left it, and without force the second run has nothing to do: every entry
/// is already satisfied.
pub proof fn lemma_link_idempotent(
    cfg: DotrView,
    src: Seq<Seq<u8>>,
    src_base: Seq<Seq<u8>>,
    dst_base: Seq<Seq<u8>>,
    p: ProbeView,
    t: Map<Seq<Seq<u8>>, Node>,
)
    requires
        link_plan(cfg, src, src_base, dst_base, observe(p, t, mirrored(src, src_base, dst_base))) is Ok,
    ensures
        ({
            let dst = mirrored(src, src_base, dst_base);
            let t1 = after(t, link_plan(cfg, src, src_base, dst_base, observe(p, t, dst)));
            let second = link_plan(cfg, src, src_base, dst_base, observe(p, t1, dst));
            &&& second is Ok
            &&& after(t1, second) == t1
            &&& !cfg.force ==> no_change(second)
        }),
{
    let dst = mirrored(src, src_base, dst_base);
    let t1 = after(t, link_plan(cfg, src, src_base, dst_base, observe(p, t, dst)));
    lemma_link_stable(cfg, src, src_base, dst_base, p, t, t1);
}

/// With nothing at an entry's destination, `link` followed by `unlink`
/// leaves nothing there, and everything that stood in the tree before
/// still stands; only the directories made to hold the link remain.
pub proof fn lemma_round_trip(
    cfg: DotrView,
    src: Seq<Seq<u8>>,
    src_base: Seq<Seq<u8>>,
    dst_base: Seq<Seq<u8>>,
    p: ProbeView,
    t: Map<Seq<Seq<u8>>, Node>,
)
    requires
        !t.contains_key(mirrored(src, src_base, dst_base)),
        link_plan(cfg, src, src_base, dst_base, observe(p, t, mirrored(src, src_base, dst_base))) is Ok,
    ensures
        ({
            let dst = mirrored(src, src_base, dst_base);
            let t1 = after(t, link_plan(cfg, src, src_base, dst_base, observe(p, t, dst)));
            let back = unlink_plan(cfg, src, src_base, dst_base, observe(p, t1, dst));
            let t2 = after(t1, back);
            &&& back is Ok
            &&& !t2.contains_key(dst)
            &&& forall|k: Seq<Seq<u8>>| #[trigger] t.contains_key(k) ==> t2.contains_key(k) && t2[k] == t[k]
        }),
{
    let dst = mirrored(src, src_base, dst_base);
    let first = link_plan(cfg, src, src_base, dst_base, observe(p, t, dst));
    let t1 = after(t, first);
    let back = unlink_plan(cfg, src, src_base, dst_base, observe(p, t1, dst));
    let plan = first->Ok_0;
    if plan.actions.len() == 0 {
        lemma_apply_none(t);
        assert(t1 == t);
        lemma_apply_none(t1);
    } else {
        let target = link_target(src, p)->Ok_0;
        let parent = dst.drop_last();
        let ghost t0 = apply(t, ActionView::CreateDirAll(parent));
        lemma_apply_two(t, plan.actions[0], plan.actions[1]);
        assert(t1 == t0.insert(dst, Node::Symlink(target)));
        assert(!t0.contains_key(dst)) by {
            if t0.contains_key(dst) {
                assert(is_prefix_of(dst, parent));
            }
        }
        lemma_apply_one(t1, ActionView::RemoveFile(dst));
        assert(after(t1, back) == t1.remove(dst));
        assert(t1.remove(dst) =~= t0);
    }
}

/// An ignored entry is neither created by `link` nor removed by `unlink`,
/// with or without force, and what stands at its destination is not looked at.
pub proof fn lemma_ignored_untouched(
    cfg: DotrView,
    src: Seq<Seq<u8>>,
    src_base: Seq<Seq<u8>>,
    dst_base: Seq<Seq<u8>>,
    p: ProbeView,
)
    requires
        cfg.ignore.contains(relative(src, src_base)),
    ensures
        link_plan(cfg, src, src_base, dst_base, p) == Ok::<PlanView, EntryError>(
            PlanView { outcome: Outcome::Ignored, actions: seq![] },
        ),
        unlink_plan(cfg, src, src_base, dst_base, p) == Ok::<PlanView, EntryError>(
            PlanView { outcome: Outcome::Ignored, actions: seq![] },
        ),
{
}

/// Without force, something other than a symbolic link at the destination
/// is left as it is by `link` and by `unlink`; `link` reports the conflict.
pub proof fn lemma_conflict_kept(
    cfg: DotrView,
    src: Seq<Seq<u8>>,
    src_base: Seq<Seq<u8>>,
    dst_base: Seq<Seq<u8>>,
    p: ProbeView,
)
    requires
        !cfg.force,
        p.destination is Some,
        p.destination != Some(FileKind::Symlink),
    ensures
        no_change(link_plan(cfg, src, src_base, dst_base, p)),
        no_change(unlink_plan(cfg, src, src_base, dst_base, p)),
        !cfg.ignore.contains(relative(src, src_base)) && link_target(src, p) is Ok && (p.source
            == Some(FileKind::File) || p.source == Some(FileKind::Symlink)) ==> link_plan(
            cfg,
            src,
            src_base,
            dst_base,
            p,
        ) == Ok::<PlanView, EntryError>(PlanView { outcome: Outcome::NotSymlink, actions: seq![] }),
{
}

/// With force and without dry run, `link` replaces whatever stands at the
/// destination of a file or readable symbolic link with the right link.
pub proof fn lemma_force_replaces(
    cfg: DotrView,
    src: Seq<Seq<u8>>,
    src_base: Seq<Seq<u8>>,
    dst_base: Seq<Seq<u8>>,
    p: ProbeView,
    t: Map<Seq<Seq<u8>>, Node>,
)
    requires
        cfg.force,
        !cfg.dry_run,
        !cfg.ignore.contains(relative(src, src_base)),
        p.source == Some(FileKind::File) || p.source == Some(FileKind::Symlink),
        link_target(src, p) is Ok,
        t.contains_key(mirrored(src, src_base, dst_base)),
    ensures
        ({
            let dst = mirrored(src, src_base, dst_base);
            let r = link_plan(cfg, src, src_base, dst_base, observe(p, t, dst));
            &&& r is Ok
            &&& r->Ok_0.outcome == Outcome::Replaced
            &&& after(t, r).contains_key(dst)
            &&& after(t, r)[dst] == Node::Symlink(link_target(src, p)->Ok_0)
        }),
{
    let dst = mirrored(src, src_base, dst_base);
    let r = link_plan(cfg, src, src_base, dst_base, observe(p, t, dst));
    let plan = r->Ok_0;
    lemma_apply_two(t, plan.actions[0], plan.actions[1]);
}

/// Under dry run `link` and `unlink` change nothing, and decide and report
/// exactly what a live run would.
pub proof fn lemma_dry_run_inert(
    cfg: DotrView,
    src: Seq<Seq<u8>>,
    src_base: Seq<Seq<u8>>,
    dst_base: Seq<Seq<u8>>,
    p: ProbeView,
)
    requires
        cfg.dry_run,
    ensures
        ({
            let live = DotrView { dry_run: false, ..cfg };
            &&& no_change(link_plan(cfg, src, src_base, dst_base, p))
            &&& no_change(unlink_plan(cfg, src, src_base, dst_base, p))
            &&& same_report(
                link_plan(cfg, src, src_base, dst_base, p),
                link_plan(live, src, src_base, dst_base, p),
            )
            &&& same_report(
                unlink_plan(cfg, src, src_base, dst_base, p),
                unlink_plan(live, src, src_base, dst_base, p),
            )
        }),
{
}

/// Whether two plans report the same decision, or fail the same way.
pub open spec fn same_report(a: Result<PlanView, EntryError>, b: Result<PlanView, EntryError>) -> bool {
    match (a, b) {
        (Ok(x), Ok(y)) => x.outcome == y.outcome,
        (Err(x), Err(y)) => x == y,
        _ => false,
    }
}

/// Nothing at or below a `.git` directory is reached by the walk, so no such
/// entry is linked or unlinked.
pub proof fn lemma_metadata_dir_skipped(rel: Seq<Seq<u8>>, is_dir: bool, i: int)
    requires
        0 <= i < rel.len(),
        rel[i] == metadata_dir_name(),
        i < rel.len() - 1 || is_dir,
    ensures
        !reached(rel, is_dir),
{
    if i < rel.len() - 1 {
        assert(!admits(true, Some(rel[i])));
    } else {
        assert(rel.last() == rel[i]);
    }
}

/// Whether two trees hold the same thing at `q`.
pub open spec fn agree_at(s1: Map<Seq<Seq<u8>>, Node>, s2: Map<Seq<Seq<u8>>, Node>, q: Seq<Seq<u8>>) -> bool {
    &&& s1.contains_key(q) == s2.contains_key(q)
    &&& s1.contains_key(q) ==> s1[q] == s2[q]
}

/// Whether two paths lie on one branch: one is a leading run of the other.
pub open spec fn related(a: Seq<Seq<u8>>, b: Seq<Seq<u8>>) -> bool {
    is_prefix_of(a, b) || is_prefix_of(b, a)
}

/// A run of `link` that reads the destination of the first run's result at
/// the same place leaves that result as it is, and has nothing to do
/// without force.
proof fn lemma_link_stable(
    cfg: DotrView,
    src: Seq<Seq<u8>>,
    src_base: Seq<Seq<u8>>,
    dst_base: Seq<Seq<u8>>,
    p: ProbeView,
    t: Map<Seq<Seq<u8>>, Node>,
    s: Map<Seq<Seq<u8>>, Node>,
)
    requires
        link_plan(cfg, src, src_base, dst_base, observe(p, t, mirrored(src, src_base, dst_base))) is Ok,
        agree_at(
            s,
            after(t, link_plan(cfg, src, src_base, dst_base, observe(p, t, mirrored(src, src_base, dst_base)))),
            mirrored(src, src_base, dst_base),
        ),
    ensures
        ({
            let second = link_plan(cfg, src, src_base, dst_base, observe(p, s, mirrored(src, src_base, dst_base)));
            &&& second is Ok
            &&& after(s, second) == s
            &&& !cfg.force ==> no_change(second)
        }),
{
    let dst = mirrored(src, src_base, dst_base);
    let first = link_plan(cfg, src, src_base, dst_base, observe(p, t, dst));
    let t1 = after(t, first);
    let second = link_plan(cfg, src, src_base, dst_base, observe(p, s, dst));
    assert(observe(p, s, dst) == observe(p, t1, dst));
    let plan = first->Ok_0;
    if plan.actions.len() == 0 {
        lemma_apply_none(t);
        lemma_apply_none(s);
        assert(t1 == t);
        assert(second == first);
    } else {
        let target = link_target(src, p)->Ok_0;
        let ghost t0 = apply(t, plan.actions[0]);
        lemma_apply_two(t, plan.actions[0], plan.actions[1]);
        assert(t1 == t0.insert(dst, Node::Symlink(target)));
        assert(s.contains_key(dst) && s[dst] == Node::Symlink(target));
        if cfg.force {
            let plan2 = second->Ok_0;
            lemma_apply_two(s, plan2.actions[0], plan2.actions[1]);
            assert(s.remove(dst).insert(dst, Node::Symlink(target)) =~= s);
        } else {
            lemma_apply_none(s);
        }
    }
}

/// One entry of a walk of the source tree: its path and what was read of
/// it on the source side.
pub ghost struct Visit {
    pub path: Seq<Seq<u8>>,
    pub probe: ProbeView,
}

/// The plan for the entry `e` when the destination tree is `s`.
pub open spec fn plan_for(
    cfg: DotrView,
    linking: bool,
    e: Visit,
    src_base: Seq<Seq<u8>>,
    dst_base: Seq<Seq<u8>>,
    s: Map<Seq<Seq<u8>>, Node>,
) -> Result<PlanView, EntryError> {
    let dst = mirrored(e.path, src_base, dst_base);
    if linking {
        link_plan(cfg, e.path, src_base, dst_base, observe(e.probe, s, dst))
    } else {
        unlink_plan(cfg, e.path, src_base, dst_base, observe(e.probe, s, dst))
    }
}

/// The destination tree after the first `k` entries of a walk, each planned
/// on the tree that the ones before it left; `None` once one fails.
pub open spec fn run_upto(
    cfg: DotrView,
    linking: bool,
    es: Seq<Visit>,
    src_base: Seq<Seq<u8>>,
    dst_base: Seq<Seq<u8>>,
    t: Map<Seq<Seq<u8>>, Node>,
    k: nat,
) -> Option<Map<Seq<Seq<u8>>, Node>>
    decreases k,
{
    if k == 0 {
        Some(t)
    } else {
        match run_upto(cfg, linking, es, src_base, dst_base, t, (k - 1) as nat) {
            Some(s) => match plan_for(cfg, linking, es[k - 1], src_base, dst_base, s) {
                Ok(plan) => Some(apply_all(s, plan.actions)),
                Err(_) => None,
            },
            None => None,
        }
    }
}

/// The destination tree after a whole walk.
pub open spec fn run(
    cfg: DotrView,
    linking: bool,
    es: Seq<Visit>,
    src_base: Seq<Seq<u8>>,
    dst_base: Seq<Seq<u8>>,
    t: Map<Seq<Seq<u8>>, Node>,
) -> Option<Map<Seq<Seq<u8>>, Node>> {
    run_upto(cfg, linking, es, src_base, dst_base, t, es.len())
}

/// Whether the entries of a walk form a tree: each relative path is visited
/// once, and only a directory has entries below it.
pub open spec fn tree_shaped(es: Seq<Visit>, src_base: Seq<Seq<u8>>) -> bool {
    forall|i: int, j: int|
        #![trigger es[i], es[j]]
        0 <= i < es.len() && 0 <= j < es.len() && i != j ==> {
            &&& relative(es[i].path, src_base) != relative(es[j].path, src_base)
            &&& es[i].probe.source != Some(FileKind::Directory) ==> !is_prefix_of(
                relative(es[i].path, src_base),
                relative(es[j].path, src_base),
            )
        }
}

proof fn lemma_prefix_shift(d: Seq<Seq<u8>>, a: Seq<Seq<u8>>, b: Seq<Seq<u8>>)
    ensures
        is_prefix_of(d + a, d + b) == is_prefix_of(a, b),
{
    if is_prefix_of(a, b) {
        assert((d + b).subrange(0, (d + a).len() as int) =~= d + a);
    }
    if is_prefix_of(d + a, d + b) {
        assert(b.subrange(0, a.len() as int) =~= (d + b).subrange(0, (d + a).len() as int).skip(d.len() as int));
        assert((d + a).skip(d.len() as int) =~= a);
    }
}

/// A plan touches the tree only on the branch of its own destination.
proof fn lemma_plan_frame(
    cfg: DotrView,
    linking: bool,
    e: Visit,
    src_base: Seq<Seq<u8>>,
    dst_base: Seq<Seq<u8>>,
    s: Map<Seq<Seq<u8>>, Node>,
    q: Seq<Seq<u8>>,
)
    requires
        is_absolute(dst_base),
        plan_for(cfg, linking, e, src_base, dst_base, s) is Ok,
        !related(q, mirrored(e.path, src_base, dst_base)),
    ensures
        agree_at(s, apply_all(s, plan_for(cfg, linking, e, src_base, dst_base, s)->Ok_0.actions), q),
{
    let dst = mirrored(e.path, src_base, dst_base);
    let actions = plan_for(cfg, linking, e, src_base, dst_base, s)->Ok_0.actions;
    assert(q.subrange(0, q.len() as int) =~= q);
    if actions.len() == 0 {
        lemma_apply_none(s);
    } else if actions.len() == 1 {
        lemma_apply_one(s, actions[0]);
    } else {
        lemma_apply_two(s, actions[0], actions[1]);
        let s0 = apply(s, actions[0]);
        if actions[0] == ActionView::CreateDirAll(dst.drop_last()) {
            if !s.contains_key(q) && s0.contains_key(q) {
                assert(dst.len() > 0);
                assert(is_prefix_of(q, dst.drop_last()));
                assert(dst.subrange(0, q.len() as int) =~= dst.drop_last().subrange(0, q.len() as int));
            }
        }
    }
}

proof fn lemma_run_prefix(
    cfg: DotrView,
    linking: bool,
    es: Seq<Visit>,
    src_base: Seq<Seq<u8>>,
    dst_base: Seq<Seq<u8>>,
    t: Map<Seq<Seq<u8>>, Node>,
    k: nat,
    i: nat,
)
    requires
        k <= i,
        run_upto(cfg, linking, es, src_base, dst_base, t, i) is Some,
    ensures
        run_upto(cfg, linking, es, src_base, dst_base, t, k) is Some,
    decreases i - k,
{
    if k < i {
        lemma_run_prefix(cfg, linking, es, src_base, dst_base, t, (k + 1) as nat, i);
    }
}

/// The steps from `lo` up to `hi` of a walk that does not take the
/// non-directory entry `m` among them leave its destination as it was.
proof fn lemma_steps_keep(
    cfg: DotrView,
    linking: bool,
    es: Seq<Visit>,
    src_base: Seq<Seq<u8>>,
    dst_base: Seq<Seq<u8>>,
    t: Map<Seq<Seq<u8>>, Node>,
    m: nat,
    lo: nat,
    hi: nat,
)
    requires
        is_absolute(dst_base),
        tree_shaped(es, src_base),
        m < es.len(),
        es[m as int].probe.source != Some(FileKind::Directory),
        lo <= hi <= es.len(),
        m < lo || hi <= m,
        run_upto(cfg, linking, es, src_base, dst_base, t, hi) is Some,
    ensures
        run_upto(cfg, linking, es, src_base, dst_base, t, lo) is Some,
        agree_at(
            run_upto(cfg, linking, es, src_base, dst_base, t, hi)->Some_0,
            run_upto(cfg, linking, es, src_base, dst_base, t, lo)->Some_0,
            mirrored(es[m as int].path, src_base, dst_base),
        ),
    decreases hi,
{
    lemma_run_prefix(cfg, linking, es, src_base, dst_base, t, lo, hi);
    if hi > lo {
        let j = (hi - 1) as nat;
        lemma_run_prefix(cfg, linking, es, src_base, dst_base, t, j, hi);
        lemma_steps_keep(cfg, linking, es, src_base, dst_base, t, m, lo, j);
        let s = run_upto(cfg, linking, es, src_base, dst_base, t, j)->Some_0;
        let plan = plan_for(cfg, linking, es[j as int], src_base, dst_base, s)->Ok_0;
        let dm = mirrored(es[m as int].path, src_base, dst_base);
        if plan.actions.len() == 0 {
            lemma_apply_none(s);
        } else {
            assert(es[j as int].probe.source != Some(FileKind::Directory));
            let rm = relative(es[m as int].path, src_base);
            let rj = relative(es[j as int].path, src_base);
            assert(rm != rj && !is_prefix_of(rm, rj) && !is_prefix_of(rj, rm)) by {
                assert(es[m as int] == es[m as int] && es[j as int] == es[j as int]);
            }
            lemma_prefix_shift(dst_base, rm, rj);
            lemma_prefix_shift(dst_base, rj, rm);
            lemma_plan_frame(cfg, linking, es[j as int], src_base, dst_base, s, dm);
        }
    }
}

/// Running `link` over a whole walk a second time leaves the destination
/// tree as the first run left it.
pub proof fn lemma_link_run_idempotent(
    cfg: DotrView,
    es: Seq<Visit>,
    src_base: Seq<Seq<u8>>,
    dst_base: Seq<Seq<u8>>,
    t: Map<Seq<Seq<u8>>, Node>,
)
    requires
        is_absolute(dst_base),
        tree_shaped(es, src_base),
        run(cfg, true, es, src_base, dst_base, t) is Some,
    ensures
        run(cfg, true, es, src_base, dst_base, run(cfg, true, es, src_base, dst_base, t)->Some_0)
            == run(cfg, true, es, src_base, dst_base, t),
{
    lemma_rerun_upto(cfg, es, src_base, dst_base, t, es.len());
}

proof fn lemma_rerun_upto(
    cfg: DotrView,
    es: Seq<Visit>,
    src_base: Seq<Seq<u8>>,
    dst_base: Seq<Seq<u8>>,
    t: Map<Seq<Seq<u8>>, Node>,
    k: nat,
)
    requires
        is_absolute(dst_base),
        tree_shaped(es, src_base),
        k <= es.len(),
        run(cfg, true, es, src_base, dst_base, t) is Some,
    ensures
        run_upto(cfg, true, es, src_base, dst_base, run(cfg, true, es, src_base, dst_base, t)->Some_0, k)
            == run(cfg, true, es, src_base, dst_base, t),
    decreases k,
{
    let t1 = run(cfg, true, es, src_base, dst_base, t)->Some_0;
    if k > 0 {
        let m = (k - 1) as nat;
        lemma_rerun_upto(cfg, es, src_base, dst_base, t, m);
        let e = es[m as int];
        let dst = mirrored(e.path, src_base, dst_base);
        lemma_run_prefix(cfg, true, es, src_base, dst_base, t, m, es.len());
        lemma_run_prefix(cfg, true, es, src_base, dst_base, t, k, es.len());
        let sm = run_upto(cfg, true, es, src_base, dst_base, t, m)->Some_0;
        let first = plan_for(cfg, true, e, src_base, dst_base, sm);
        let second = plan_for(cfg, true, e, src_base, dst_base, t1);
        if e.probe.source == Some(FileKind::Directory) {
            assert(second == first);
            lemma_apply_none(t1);
        } else {
            lemma_steps_keep(cfg, true, es, src_base, dst_base, t, m, k, es.len());
            lemma_link_stable(cfg, e.path, src_base, dst_base, e.probe, sm, t1);
        }
    }
}

/// Whether nothing stands at the destination of any entry of the walk
/// that is not a directory.
pub open spec fn no_conflicts(
    es: Seq<Visit>,
    src_base: Seq<Seq<u8>>,
    dst_base: Seq<Seq<u8>>,
    t: Map<Seq<Seq<u8>>, Node>,
) -> bool {
    forall|k: int|
        0 <= k < es.len() && #[trigger] es[k].probe.source != Some(FileKind::Directory)
            ==> !t.contains_key(mirrored(es[k].path, src_base, dst_base))
}

/// Whether `s` still holds everything that `t` holds.
pub open spec fn keeps(t: Map<Seq<Seq<u8>>, Node>, s: Map<Seq<Seq<u8>>, Node>) -> bool {
    forall|q: Seq<Seq<u8>>| #[trigger] t.contains_key(q) ==> s.contains_key(q) && s[q] == t[q]
}

/// `link` with nothing at the destination only adds to the tree.
proof fn lemma_link_on_absent(
    cfg: DotrView,
    src: Seq<Seq<u8>>,
    src_base: Seq<Seq<u8>>,
    dst_base: Seq<Seq<u8>>,
    p: ProbeView,
    s: Map<Seq<Seq<u8>>, Node>,
)
    requires
        !s.contains_key(mirrored(src, src_base, dst_base)),
        link_plan(cfg, src, src_base, dst_base, observe(p, s, mirrored(src, src_base, dst_base))) is Ok,
    ensures
        keeps(s, after(s, link_plan(cfg, src, src_base, dst_base, observe(p, s, mirrored(src, src_base, dst_base))))),
{
    let dst = mirrored(src, src_base, dst_base);
    let plan = link_plan(cfg, src, src_base, dst_base, observe(p, s, dst))->Ok_0;
    if plan.actions.len() == 0 {
        lemma_apply_none(s);
    } else {
        lemma_apply_two(s, plan.actions[0], plan.actions[1]);
    }
}

/// After `link` on a tree with nothing at the destination, `unlink` on a
/// tree that agrees with its result there removes exactly the destination.
proof fn lemma_unlink_after_link(
    cfg: DotrView,
    src: Seq<Seq<u8>>,
    src_base: Seq<Seq<u8>>,
    dst_base: Seq<Seq<u8>>,
    p: ProbeView,
    t: Map<Seq<Seq<u8>>, Node>,
    s: Map<Seq<Seq<u8>>, Node>,
)
    requires
        !t.contains_key(mirrored(src, src_base, dst_base)),
        link_plan(cfg, src, src_base, dst_base, observe(p, t, mirrored(src, src_base, dst_base))) is Ok,
        agree_at(
            s,
            after(t, link_plan(cfg, src, src_base, dst_base, observe(p, t, mirrored(src, src_base, dst_base)))),
            mirrored(src, src_base, dst_base),
        ),
    ensures
        ({
            let dst = mirrored(src, src_base, dst_base);
            let back = unlink_plan(cfg, src, src_base, dst_base, observe(p, s, dst));
            &&& back is Ok
            &&& after(s, back) == s.remove(dst)
        }),
{
    let dst = mirrored(src, src_base, dst_base);
    let first = link_plan(cfg, src, src_base, dst_base, observe(p, t, dst));
    let t1 = after(t, first);
    let back = unlink_plan(cfg, src, src_base, dst_base, observe(p, s, dst));
    assert(observe(p, s, dst) == observe(p, t1, dst));
    let plan = first->Ok_0;
    if plan.actions.len() == 0 {
        lemma_apply_none(t);
        assert(!s.contains_key(dst));
        lemma_apply_none(s);
        assert(s.remove(dst) =~= s);
    } else {
        let target = link_target(src, p)->Ok_0;
        let ghost t0 = apply(t, plan.actions[0]);
        lemma_apply_two(t, plan.actions[0], plan.actions[1]);
        assert(t1 == t0.insert(dst, Node::Symlink(target)));
        assert(s.contains_key(dst) && s[dst] == Node::Symlink(target));
        lemma_apply_one(s, ActionView::RemoveFile(dst));
    }
}

/// The steps of a `link` run over a walk with no conflicts only add to the tree.
proof fn lemma_link_run_keeps(
    cfg: DotrView,
    es: Seq<Visit>,
    src_base: Seq<Seq<u8>>,
    dst_base: Seq<Seq<u8>>,
    t: Map<Seq<Seq<u8>>, Node>,
    i: nat,
)
    requires
        is_absolute(dst_base),
        tree_shaped(es, src_base),
        no_conflicts(es, src_base, dst_base, t),
        i <= es.len(),
        run_upto(cfg, true, es, src_base, dst_base, t, i) is Some,
    ensures
        keeps(t, run_upto(cfg, true, es, src_base, dst_base, t, i)->Some_0),
    decreases i,
{
    if i > 0 {
        let j = (i - 1) as nat;
        lemma_run_prefix(cfg, true, es, src_base, dst_base, t, j, i);
        lemma_link_run_keeps(cfg, es, src_base, dst_base, t, j);
        let sj = run_upto(cfg, true, es, src_base, dst_base, t, j)->Some_0;
        let e = es[j as int];
        if e.probe.source == Some(FileKind::Directory) {
            lemma_apply_none(sj);
        } else {
            lemma_steps_keep(cfg, true, es, src_base, dst_base, t, j, 0, j);
            lemma_link_on_absent(cfg, e.path, src_base, dst_base, e.probe, sj);
        }
    }
}

/// An `unlink` run over the result of a `link` run on a walk with no
/// conflicts succeeds step by step, removes the destination of each
/// non-directory entry it has passed, and keeps what the tree held before
/// the `link` run.
proof fn lemma_unlink_run(
    cfg: DotrView,
    es: Seq<Visit>,
    src_base: Seq<Seq<u8>>,
    dst_base: Seq<Seq<u8>>,
    t: Map<Seq<Seq<u8>>, Node>,
    i: nat,
)
    requires
        is_absolute(dst_base),
        tree_shaped(es, src_base),
        no_conflicts(es, src_base, dst_base, t),
        i <= es.len(),
        run(cfg, true, es, src_base, dst_base, t) is Some,
    ensures
        ({
            let t1 = run(cfg, true, es, src_base, dst_base, t)->Some_0;
            let u = run_upto(cfg, false, es, src_base, dst_base, t1, i);
            &&& u is Some
            &&& keeps(t, u->Some_0)
            &&& forall|m: int|
                0 <= m < i && #[trigger] es[m].probe.source != Some(FileKind::Directory)
                    ==> !u->Some_0.contains_key(mirrored(es[m].path, src_base, dst_base))
        }),
    decreases i,
{
    let n = es.len();
    let t1 = run(cfg, true, es, src_base, dst_base, t)->Some_0;
    if i == 0 {
        lemma_link_run_keeps(cfg, es, src_base, dst_base, t, n);
    } else {
        let j = (i - 1) as nat;
        lemma_unlink_run(cfg, es, src_base, dst_base, t, j);
        let uj = run_upto(cfg, false, es, src_base, dst_base, t1, j)->Some_0;
        let e = es[j as int];
        let dst = mirrored(e.path, src_base, dst_base);
        if e.probe.source == Some(FileKind::Directory) {
            lemma_apply_none(uj);
        } else {
            lemma_run_prefix(cfg, true, es, src_base, dst_base, t, j, n);
            lemma_run_prefix(cfg, true, es, src_base, dst_base, t, i, n);
            let sj = run_upto(cfg, true, es, src_base, dst_base, t, j)->Some_0;
            let si = run_upto(cfg, true, es, src_base, dst_base, t, i)->Some_0;
            lemma_steps_keep(cfg, true, es, src_base, dst_base, t, j, 0, j);
            lemma_steps_keep(cfg, true, es, src_base, dst_base, t, j, i, n);
            lemma_steps_keep(cfg, false, es, src_base, dst_base, t1, j, 0, j);
            assert(agree_at(uj, si, dst));
            lemma_unlink_after_link(cfg, e.path, src_base, dst_base, e.probe, sj, uj);
            let ui = run_upto(cfg, false, es, src_base, dst_base, t1, i)->Some_0;
            assert(ui == uj.remove(dst));
        }
    }
}

/// With nothing at the destination of any non-directory entry of a walk,
/// `link` over the walk followed by `unlink` over it succeeds, leaves none
/// of the mirrored entries at the destination, and keeps everything the
/// tree held before.
pub proof fn lemma_run_round_trip(
    cfg: DotrView,
    es: Seq<Visit>,
    src_base: Seq<Seq<u8>>,
    dst_base: Seq<Seq<u8>>,
    t: Map<Seq<Seq<u8>>, Node>,
)
    requires
        is_absolute(dst_base),
        tree_shaped(es, src_base),
        no_conflicts(es, src_base, dst_base, t),
        run(cfg, true, es, src_base, dst_base, t) is Some,
    ensures
        ({
            let t1 = run(cfg, true, es, src_base, dst_base, t)->Some_0;
            let back = run(cfg, false, es, src_base, dst_base, t1);
            &&& back is Some
            &&& keeps(t, back->Some_0)
            &&& forall|m: int|
                0 <= m < es.len() && #[trigger] es[m].probe.source != Some(FileKind::Directory)
                    ==> !back->Some_0.contains_key(mirrored(es[m].path, src_base, dst_base))
        }),
{
    lemma_unlink_run(cfg, es, src_base, dst_base, t, es.len());
}

/// Under dry run a whole run of `link` or `unlink` over a walk leaves the
/// destination tree exactly as it was, or fails without changing it.
pub proof fn lemma_dry_run_walk(
    cfg: DotrView,
    linking: bool,
    es: Seq<Visit>,
    src_base: Seq<Seq<u8>>,
    dst_base: Seq<Seq<u8>>,
    t: Map<Seq<Seq<u8>>, Node>,
)
    requires
        cfg.dry_run,
    ensures
        run(cfg, linking, es, src_base, dst_base, t) is Some ==> run(cfg, linking, es, src_base, dst_base, t)
            == Some(t),
{
    lemma_dry_run_upto(cfg, linking, es, src_base, dst_base, t, es.len());
}

proof fn lemma_dry_run_upto(
    cfg: DotrView,
    linking: bool,
    es: Seq<Visit>,
    src_base: Seq<Seq<u8>>,
    dst_base: Seq<Seq<u8>>,
    t: Map<Seq<Seq<u8>>, Node>,
    k: nat,
)
    requires
        cfg.dry_run,
    ensures
        run_upto(cfg, linking, es, src_base, dst_base, t, k) is Some ==> run_upto(
            cfg,
            linking,
            es,
            src_base,
            dst_base,
            t,
            k,
        ) == Some(t),
    decreases k,
{
    if k > 0 {
        lemma_dry_run_upto(cfg, linking, es, src_base, dst_base, t, (k - 1) as nat);
        lemma_apply_none(t);
    }
}

} // verus!
