//! Which directories go when a storage location is abandoned: after a
//! migration, the previous location; after a failed one, the half-written
//! target.

use vstd::prelude::*;
use crate::paths::{components, components_spec, path_starts_with, path_starts_with_spec, strs_v, AppPaths};
use crate::text::same_text;

verus! {

/// How deep a path lies: its number of components.
pub open spec fn depth_spec(p: Seq<char>) -> nat {
    components_spec(p).len()
}

/// Two paths with the same components, as `==` on `PathBuf` compares them.
#[verifier::opaque]
pub open spec fn same_path(a: Seq<char>, b: Seq<char>) -> bool {
    components_spec(a) == components_spec(b)
}

/// `x` placed into `sorted` after every path no deeper than it.
pub open spec fn insert_by_depth(sorted: Seq<Seq<char>>, x: Seq<char>) -> Seq<Seq<char>>
    decreases sorted.len(),
{
    if sorted.len() == 0 {
        seq![x]
    } else if depth_spec(sorted.last()) <= depth_spec(x) {
        sorted.push(x)
    } else {
        insert_by_depth(sorted.drop_last(), x).push(sorted.last())
    }
}

/// The paths ordered by depth, paths of equal depth in their given order:
/// what a stable sort by component count gives.
pub open spec fn by_depth(s: Seq<Seq<char>>) -> Seq<Seq<char>>
    decreases s.len(),
{
    if s.len() == 0 {
        s
    } else {
        insert_by_depth(by_depth(s.drop_last()), s.last())
    }
}

/// The paths with repeats that follow each other dropped (`Vec::dedup`).
pub open spec fn dedup_paths(s: Seq<Seq<char>>) -> Seq<Seq<char>>
    decreases s.len(),
{
    if s.len() <= 1 {
        s
    } else if same_path(s.last(), s[s.len() - 2]) {
        dedup_paths(s.drop_last())
    } else {
        dedup_paths(s.drop_last()).push(s.last())
    }
}

/// Whether `d` lies in (or is) one of `roots`.
pub open spec fn under_any(d: Seq<char>, roots: Seq<Seq<char>>) -> bool
    decreases roots.len(),
{
    roots.len() > 0 && (path_starts_with_spec(d, roots.last()) || under_any(d, roots.drop_last()))
}

/// Whether `d` is one of `ps`.
pub open spec fn same_as_any(d: Seq<char>, ps: Seq<Seq<char>>) -> bool
    decreases ps.len(),
{
    ps.len() > 0 && (same_path(d, ps.last()) || same_as_any(d, ps.drop_last()))
}

/// The steps for `dirs` in turn, once the directories `removed` are gone: a
/// directory inside one already removed, or one of `keep`, is passed over;
/// the system's config directory only loses its contents (the storage index
/// stays); any other directory is removed.
pub open spec fn plan_spec(
    dirs: Seq<Seq<char>>,
    keep: Seq<Seq<char>>,
    default_config: Seq<char>,
    removed: Seq<Seq<char>>,
) -> Seq<(Seq<char>, bool)>
    decreases dirs.len(),
{
    if dirs.len() == 0 {
        Seq::empty()
    } else {
        let d = dirs[0];
        let rest = dirs.drop_first();
        if under_any(d, removed) || same_as_any(d, keep) {
            plan_spec(rest, keep, default_config, removed)
        } else if same_path(d, default_config) {
            seq![(d, true)] + plan_spec(rest, keep, default_config, removed)
        } else {
            seq![(d, false)] + plan_spec(rest, keep, default_config, removed.push(d))
        }
    }
}

/// The three directories of a location, shallowest first, and without
/// repeats when `dedup`.
pub open spec fn cleanup_order(paths: AppPaths, dedup: bool) -> Seq<Seq<char>> {
    let sorted = by_depth(seq![paths.config_dir@, paths.data_dir@, paths.log_dir@]);
    if dedup {
        dedup_paths(sorted)
    } else {
        sorted
    }
}

/// One step of removing a location: the directory, and whether only its
/// contents go, all but the storage index (`keep_index`), rather than the
/// whole directory. A directory to remove that does not exist is left
/// alone.
pub struct CleanupStep {
    pub path: String,
    pub keep_index: bool,
}

pub open spec fn steps_v(s: Seq<CleanupStep>) -> Seq<(Seq<char>, bool)> {
    Seq::new(s.len(), |i: int| (s[i].path@, s[i].keep_index))
}

fn depth(p: &String) -> (r: usize)
    ensures
        r == depth_spec(p@),
{
    let c = components(p.as_str());
    assert(strs_v(c@).len() == c@.len());
    c.len()
}

/// Whether two paths have the same components.
pub fn is_same_path(a: &str, b: &str) -> (r: bool)
    ensures
        r == same_path(a@, b@),
{
    proof {
        reveal(same_path);
    }
    let x = components(a);
    let y = components(b);
    assert(strs_v(x@).len() == x@.len());
    assert(strs_v(y@).len() == y@.len());
    if x.len() != y.len() {
        assert(components_spec(a@).len() != components_spec(b@).len());
        return false;
    }
    let mut i: usize = 0;
    while i < x.len()
        invariant
            x.len() == y.len(),
            i <= x.len(),
            strs_v(x@) == components_spec(a@),
            strs_v(y@) == components_spec(b@),
            strs_v(x@).len() == x@.len(),
            strs_v(y@).len() == y@.len(),
            forall|k: int| 0 <= k < i ==> strs_v(x@)[k] == strs_v(y@)[k],
        decreases x.len() - i,
    {
        if !same_text(x[i].as_str(), y[i].as_str()) {
            assert(strs_v(x@)[i as int] != strs_v(y@)[i as int]);
            assert(!same_path(a@, b@)) by {
                reveal(same_path);
            }
            return false;
        }
        i = i + 1;
    }
    assert(strs_v(x@) =~= strs_v(y@));
    true
}

proof fn lemma_strs_v_push(v: Seq<String>, x: String)
    ensures
        strs_v(v.push(x)) == strs_v(v).push(x@),
{
    assert(strs_v(v.push(x)) =~= strs_v(v).push(x@));
}

proof fn lemma_strs_v_drop_last(v: Seq<String>)
    requires
        v.len() > 0,
    ensures
        strs_v(v.drop_last()) == strs_v(v).drop_last(),
        strs_v(v).last() == v.last()@,
{
    assert(strs_v(v.drop_last()) =~= strs_v(v).drop_last());
}

/// Inserts `x` into paths ordered by depth; see `insert_by_depth`.
fn insert_sorted(sorted: Vec<String>, x: String) -> (r: Vec<String>)
    ensures
        strs_v(r@) == insert_by_depth(strs_v(sorted@), x@),
    decreases sorted.len(),
{
    let mut sorted = sorted;
    if sorted.len() == 0 {
        let mut v: Vec<String> = Vec::new();
        v.push(x);
        assert(strs_v(v@) =~= seq![x@]);
        return v;
    }
    let ghost before = sorted@;
    proof {
        lemma_strs_v_drop_last(before);
    }
    let last = sorted.pop().unwrap();
    assert(sorted@ == before.drop_last());
    if depth(&last) <= depth(&x) {
        sorted.push(last);
        assert(sorted@ == before);
        proof {
            lemma_strs_v_push(sorted@, x);
        }
        sorted.push(x);
        sorted
    } else {
        let mut r = insert_sorted(sorted, x);
        proof {
            lemma_strs_v_push(r@, last);
        }
        r.push(last);
        r
    }
}

/// Removes repeats that follow each other; see `dedup_paths`.
fn dedup_sorted(s: &Vec<String>) -> (r: Vec<String>)
    ensures
        strs_v(r@) == dedup_paths(strs_v(s@)),
{
    let mut out: Vec<String> = Vec::new();
    let mut i: usize = 0;
    while i < s.len()
        invariant
            i <= s.len(),
            strs_v(out@) == dedup_paths(strs_v(s@).take(i as int)),
        decreases s.len() - i,
    {
        let ghost t = strs_v(s@).take(i as int + 1);
        assert(t.drop_last() =~= strs_v(s@).take(i as int));
        assert(t.last() == s@[i as int]@);
        if i > 0 && is_same_path(s[i].as_str(), s[i - 1].as_str()) {
            assert(t[t.len() - 2] == s@[i - 1]@);
        } else {
            proof {
                if i == 0 {
                    assert(t =~= seq![s@[0]@]);
                    assert(strs_v(out@) =~= Seq::<Seq<char>>::empty());
                } else {
                    assert(t[t.len() - 2] == s@[i - 1]@);
                }
                lemma_strs_v_push(out@, s@[i as int]);
            }
            out.push(s[i].clone());
        }
        i = i + 1;
    }
    assert(strs_v(s@).take(s.len() as int) =~= strs_v(s@));
    out
}

/// Whether `d` lies in one of `roots`; see `under_any`.
fn is_under_any(d: &str, roots: &Vec<String>) -> (r: bool)
    ensures
        r == under_any(d@, strs_v(roots@)),
{
    let mut i: usize = 0;
    let mut found = false;
    while i < roots.len()
        invariant
            i <= roots.len(),
            found == under_any(d@, strs_v(roots@).take(i as int)),
        decreases roots.len() - i,
    {
        let ghost t = strs_v(roots@).take(i as int + 1);
        assert(t.drop_last() =~= strs_v(roots@).take(i as int));
        assert(t.last() == roots@[i as int]@);
        found = path_starts_with(d, roots[i].as_str()) || found;
        i = i + 1;
    }
    assert(strs_v(roots@).take(roots.len() as int) =~= strs_v(roots@));
    found
}

/// Whether `d` is one of `ps`; see `same_as_any`.
fn is_same_as_any(d: &str, ps: &Vec<String>) -> (r: bool)
    ensures
        r == same_as_any(d@, strs_v(ps@)),
{
    let mut i: usize = 0;
    let mut found = false;
    while i < ps.len()
        invariant
            i <= ps.len(),
            found == same_as_any(d@, strs_v(ps@).take(i as int)),
        decreases ps.len() - i,
    {
        let ghost t = strs_v(ps@).take(i as int + 1);
        assert(t.drop_last() =~= strs_v(ps@).take(i as int));
        assert(t.last() == ps@[i as int]@);
        found = is_same_path(d, ps[i].as_str()) || found;
        i = i + 1;
    }
    assert(strs_v(ps@).take(ps.len() as int) =~= strs_v(ps@));
    found
}

proof fn lemma_plan_step(
    dirs: Seq<Seq<char>>,
    i: int,
    keep: Seq<Seq<char>>,
    dc: Seq<char>,
    removed: Seq<Seq<char>>,
)
    requires
        0 <= i < dirs.len(),
    ensures
        plan_spec(dirs.subrange(i, dirs.len() as int), keep, dc, removed) == {
            let d = dirs[i];
            let rest = dirs.subrange(i + 1, dirs.len() as int);
            if under_any(d, removed) || same_as_any(d, keep) {
                plan_spec(rest, keep, dc, removed)
            } else if same_path(d, dc) {
                seq![(d, true)] + plan_spec(rest, keep, dc, removed)
            } else {
                seq![(d, false)] + plan_spec(rest, keep, dc, removed.push(d))
            }
        },
{
    let s = dirs.subrange(i, dirs.len() as int);
    assert(s[0] == dirs[i]);
    assert(s.drop_first() =~= dirs.subrange(i + 1, dirs.len() as int));
}

/// The steps that remove a storage location `paths`, shallowest directory
/// first, passing over the directories of `keep` (the location in use) and
/// without repeats when `dedup`; see `plan_spec` and `cleanup_order`.
pub fn cleanup_plan(paths: &AppPaths, keep: &Vec<String>, default_config: &str, dedup: bool) -> (r: Vec<CleanupStep>)
    ensures
        steps_v(r@) == plan_spec(cleanup_order(*paths, dedup), strs_v(keep@), default_config@, Seq::empty()),
{
    let mut sorted: Vec<String> = Vec::new();
    assert(strs_v(sorted@) =~= by_depth(Seq::<Seq<char>>::empty()));
    let ghost three = seq![paths.config_dir@, paths.data_dir@, paths.log_dir@];
    sorted = insert_sorted(sorted, paths.config_dir.clone());
    assert(three.take(1).drop_last() =~= Seq::<Seq<char>>::empty());
    assert(strs_v(sorted@) == by_depth(three.take(1)));
    sorted = insert_sorted(sorted, paths.data_dir.clone());
    assert(three.take(2).drop_last() =~= three.take(1));
    assert(strs_v(sorted@) == by_depth(three.take(2)));
    sorted = insert_sorted(sorted, paths.log_dir.clone());
    assert(three.take(3).drop_last() =~= three.take(2));
    assert(three.take(3) =~= three);
    assert(strs_v(sorted@) == by_depth(three));
    let order = if dedup {
        dedup_sorted(&sorted)
    } else {
        sorted
    };
    let ghost dirs = strs_v(order@);
    assert(dirs == cleanup_order(*paths, dedup));
    assert(dirs.len() == order@.len());
    let mut out: Vec<CleanupStep> = Vec::new();
    let mut removed: Vec<String> = Vec::new();
    let mut i: usize = 0;
    assert(dirs.subrange(0, dirs.len() as int) =~= dirs);
    assert(strs_v(removed@) =~= Seq::<Seq<char>>::empty());
    assert(steps_v(out@) =~= Seq::<(Seq<char>, bool)>::empty());
    while i < order.len()
        invariant
            i <= order.len(),
            dirs == strs_v(order@),
            dirs.len() == order@.len(),
            steps_v(out@) + plan_spec(
                dirs.subrange(i as int, dirs.len() as int),
                strs_v(keep@),
                default_config@,
                strs_v(removed@),
            ) == plan_spec(dirs, strs_v(keep@), default_config@, Seq::empty()),
        decreases order.len() - i,
    {
        proof {
            lemma_plan_step(dirs, i as int, strs_v(keep@), default_config@, strs_v(removed@));
        }
        let d = &order[i];
        assert(dirs[i as int] == d@);
        if is_under_any(d.as_str(), &removed) || is_same_as_any(d.as_str(), keep) {
        } else if is_same_path(d.as_str(), default_config) {
            let ghost prev = steps_v(out@);
            out.push(CleanupStep { path: d.clone(), keep_index: true });
            assert(steps_v(out@) =~= prev + seq![(d@, true)]);
            assert(steps_v(out@) + plan_spec(
                dirs.subrange(i + 1, dirs.len() as int),
                strs_v(keep@),
                default_config@,
                strs_v(removed@),
            ) =~= prev + (seq![(d@, true)] + plan_spec(
                dirs.subrange(i + 1, dirs.len() as int),
                strs_v(keep@),
                default_config@,
                strs_v(removed@),
            )));
        } else {
            let ghost prev = steps_v(out@);
            out.push(CleanupStep { path: d.clone(), keep_index: false });
            assert(steps_v(out@) =~= prev + seq![(d@, false)]);
            proof {
                lemma_strs_v_push(removed@, *d);
            }
            removed.push(d.clone());
            assert(steps_v(out@) + plan_spec(
                dirs.subrange(i + 1, dirs.len() as int),
                strs_v(keep@),
                default_config@,
                strs_v(removed@),
            ) =~= prev + (seq![(d@, false)] + plan_spec(
                dirs.subrange(i + 1, dirs.len() as int),
                strs_v(keep@),
                default_config@,
                strs_v(removed@),
            )));
        }
        i = i + 1;
    }
    assert(dirs.subrange(dirs.len() as int, dirs.len() as int) =~= Seq::<Seq<char>>::empty());
    assert(steps_v(out@) + Seq::<(Seq<char>, bool)>::empty() =~= steps_v(out@));
    out
}

/// Removing a location never touches the location in use (`keep`), and the
/// system's config directory, which holds the storage index, is only ever
/// emptied, never removed: every other step removes a whole directory.
pub proof fn lemma_plan_spares_current(
    dirs: Seq<Seq<char>>,
    keep: Seq<Seq<char>>,
    default_config: Seq<char>,
    removed: Seq<Seq<char>>,
)
    ensures
        forall|k: int|
            0 <= k < plan_spec(dirs, keep, default_config, removed).len() ==> {
                let step = #[trigger] plan_spec(dirs, keep, default_config, removed)[k];
                &&& !same_as_any(step.0, keep)
                &&& (step.1 <==> same_path(step.0, default_config))
            },
    decreases dirs.len(),
{
    if dirs.len() > 0 {
        let d = dirs[0];
        let rest = dirs.drop_first();
        let plan = plan_spec(dirs, keep, default_config, removed);
        if under_any(d, removed) || same_as_any(d, keep) {
            lemma_plan_spares_current(rest, keep, default_config, removed);
            assert(plan == plan_spec(rest, keep, default_config, removed));
        } else {
            let done = if same_path(d, default_config) {
                removed
            } else {
                removed.push(d)
            };
            lemma_plan_spares_current(rest, keep, default_config, done);
            let tail = plan_spec(rest, keep, default_config, done);
            assert(plan == seq![(d, same_path(d, default_config))] + tail);
            assert forall|k: int| 0 <= k < plan.len() implies {
                let step = #[trigger] plan[k];
                &&& !same_as_any(step.0, keep)
                &&& (step.1 <==> same_path(step.0, default_config))
            } by {
                if k > 0 {
                    assert(plan[k] == tail[k - 1]);
                }
            }
        }
    }
}

/// The parent of a path, by its components (`Path::parent`): none for a
/// path without components or the root.
pub open spec fn parent_spec(p: Seq<char>) -> Option<Seq<Seq<char>>> {
    let c = components_spec(p);
    if c.len() == 0 || c.last() == seq!['/'] {
        None
    } else {
        Some(c.drop_last())
    }
}

/// Whether the three directories share one parent, which then goes too
/// once it is empty.
pub open spec fn shared_root_spec(paths: AppPaths) -> bool {
    parent_spec(paths.config_dir@) is Some && parent_spec(paths.data_dir@) == parent_spec(paths.config_dir@)
        && parent_spec(paths.log_dir@) == parent_spec(paths.config_dir@)
}

fn parent_of(p: &str) -> (r: Option<Vec<String>>)
    ensures
        match r {
            Some(v) => parent_spec(p@) == Some(strs_v(v@)),
            None => parent_spec(p@) is None,
        },
{
    let mut c = components(p);
    assert(strs_v(c@).len() == c@.len());
    if c.len() == 0 {
        return None;
    }
    proof {
        reveal_strlit("/");
        assert("/"@ =~= seq!['/']);
        lemma_strs_v_drop_last(c@);
    }
    let last = c.pop().unwrap();
    if same_text(last.as_str(), "/") {
        None
    } else {
        Some(c)
    }
}

fn same_parts(a: &Vec<String>, b: &Vec<String>) -> (r: bool)
    ensures
        r == (strs_v(a@) == strs_v(b@)),
{
    assert(strs_v(a@).len() == a@.len());
    assert(strs_v(b@).len() == b@.len());
    if a.len() != b.len() {
        return false;
    }
    let mut i: usize = 0;
    while i < a.len()
        invariant
            a.len() == b.len(),
            i <= a.len(),
            strs_v(a@).len() == a@.len(),
            strs_v(b@).len() == b@.len(),
            forall|k: int| 0 <= k < i ==> strs_v(a@)[k] == strs_v(b@)[k],
        decreases a.len() - i,
    {
        if !same_text(a[i].as_str(), b[i].as_str()) {
            assert(strs_v(a@)[i as int] != strs_v(b@)[i as int]);
            return false;
        }
        i = i + 1;
    }
    assert(strs_v(a@) =~= strs_v(b@));
    true
}

/// Whether the location's directories share one parent; see
/// `shared_root_spec`.
pub fn shares_root(paths: &AppPaths) -> (r: bool)
    ensures
        r == shared_root_spec(*paths),
{
    let root = match parent_of(paths.config_dir.as_str()) {
        Some(r) => r,
        None => return false,
    };
    let data = parent_of(paths.data_dir.as_str());
    let log = parent_of(paths.log_dir.as_str());
    match (data, log) {
        (Some(d), Some(l)) => same_parts(&d, &root) && same_parts(&l, &root),
        _ => false,
    }
}

} // verus!
