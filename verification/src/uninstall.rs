//! What uninstalling the desktop application removes: its directories, the
//! storage index, portable data next to the program, and the program, each
//! path once, in path order.

use vstd::prelude::*;
use crate::cleanup::same_path;
use crate::json::{key_less, key_lt, lemma_key_lt_irreflexive, lemma_key_lt_total, lemma_key_lt_transitive};
use crate::paths::{
    components, components_spec, file_name, file_name_spec, join, join_spec, strs_v, StorageInfo,
    StorageMode, PORTABLE_DATA_DIR, PORTABLE_MARKER,
};
use crate::text::{owned, same_text};

verus! {

/// The kind of a component, in `std::path::Component` order: the root,
/// `.`, `..`, then names.
pub open spec fn rank(c: Seq<char>) -> int {
    if c == seq!['/'] {
        1
    } else if c == seq!['.'] {
        2
    } else if c == seq!['.', '.'] {
        3
    } else {
        4
    }
}

/// The order of components: by kind, names by their characters.
pub open spec fn component_lt(x: Seq<char>, y: Seq<char>) -> bool {
    rank(x) < rank(y) || (rank(x) == 4 && rank(y) == 4 && key_lt(x, y))
}

/// The order of component sequences: the first difference decides, and a
/// proper prefix comes first.
pub open spec fn components_lt(a: Seq<Seq<char>>, b: Seq<Seq<char>>) -> bool
    decreases a.len(),
{
    if a.len() == 0 {
        b.len() > 0
    } else if b.len() == 0 {
        false
    } else if component_lt(a[0], b[0]) {
        true
    } else if a[0] == b[0] {
        components_lt(a.drop_first(), b.drop_first())
    } else {
        false
    }
}

/// The order of paths (`Ord` on `Path`): by their components.
pub open spec fn path_lt(p: Seq<char>, q: Seq<char>) -> bool {
    components_lt(components_spec(p), components_spec(q))
}

proof fn lemma_component_lt_facts(x: Seq<char>, y: Seq<char>, z: Seq<char>)
    ensures
        !component_lt(x, x),
        x != y ==> component_lt(x, y) || component_lt(y, x),
        component_lt(x, y) && component_lt(y, z) ==> component_lt(x, z),
{
    lemma_key_lt_irreflexive(x);
    if x != y && rank(x) == 4 && rank(y) == 4 {
        lemma_key_lt_total(x, y);
    }
    if component_lt(x, y) && component_lt(y, z) && rank(x) == 4 && rank(y) == 4 && rank(z) == 4 {
        lemma_key_lt_transitive(x, y, z);
    }
}

proof fn lemma_components_lt_irreflexive(a: Seq<Seq<char>>)
    ensures
        !components_lt(a, a),
    decreases a.len(),
{
    if a.len() > 0 {
        lemma_component_lt_facts(a[0], a[0], a[0]);
        lemma_components_lt_irreflexive(a.drop_first());
    }
}

proof fn lemma_components_lt_total(a: Seq<Seq<char>>, b: Seq<Seq<char>>)
    requires
        a != b,
    ensures
        components_lt(a, b) || components_lt(b, a),
    decreases a.len(),
{
    if a.len() > 0 && b.len() > 0 {
        lemma_component_lt_facts(a[0], b[0], b[0]);
        if a[0] == b[0] {
            if a.drop_first() == b.drop_first() {
                assert(a =~= seq![a[0]] + a.drop_first());
                assert(b =~= seq![b[0]] + b.drop_first());
            }
            lemma_components_lt_total(a.drop_first(), b.drop_first());
        }
    } else if a.len() == 0 && b.len() == 0 {
        assert(a =~= b);
    }
}

proof fn lemma_components_lt_transitive(a: Seq<Seq<char>>, b: Seq<Seq<char>>, c: Seq<Seq<char>>)
    requires
        components_lt(a, b),
        components_lt(b, c),
    ensures
        components_lt(a, c),
    decreases a.len(),
{
    if a.len() > 0 && b.len() > 0 && c.len() > 0 {
        lemma_component_lt_facts(a[0], b[0], c[0]);
        lemma_component_lt_facts(b[0], a[0], c[0]);
        lemma_component_lt_facts(a[0], c[0], b[0]);
        if a[0] == b[0] && b[0] == c[0] {
            lemma_components_lt_transitive(a.drop_first(), b.drop_first(), c.drop_first());
        }
    }
}

/// Paths strictly increasing in path order, so no two with the same
/// components.
pub open spec fn path_sorted(s: Seq<Seq<char>>) -> bool {
    forall|i: int, j: int| 0 <= i < j < s.len() ==> path_lt(#[trigger] s[i], #[trigger] s[j])
}

/// Whether `s[i]` is the first of `s` with its components.
pub open spec fn first_of(s: Seq<Seq<char>>, i: int) -> bool {
    forall|j: int| 0 <= j < i ==> !#[trigger] same_path(s[j], s[i])
}

/// Whether `x` is the first given, among the first `n` paths of `s`, of the
/// paths with its components.
pub open spec fn picked(s: Seq<Seq<char>>, n: int, x: Seq<char>) -> bool {
    exists|i: int| 0 <= i < n && first_of(s, i) && x == #[trigger] s[i]
}

/// Whether some path of `r` has the components of `x`.
pub open spec fn covered(r: Seq<Seq<char>>, x: Seq<char>) -> bool {
    exists|k: int| 0 <= k < r.len() && #[trigger] same_path(r[k], x)
}

/// `r` holds each path of `s` once: in path order, the first given of the
/// paths with the same components (what a stable sort then `dedup` gives).
pub open spec fn sorted_once(s: Seq<Seq<char>>, r: Seq<Seq<char>>) -> bool {
    &&& path_sorted(r)
    &&& forall|k: int| 0 <= k < r.len() ==> #[trigger] picked(s, s.len() as int, r[k])
    &&& forall|i: int| 0 <= i < s.len() ==> #[trigger] covered(r, s[i])
}

fn rank_of(c: &str) -> (r: u8)
    ensures
        r == rank(c@),
{
    proof {
        reveal_strlit("/");
        reveal_strlit(".");
        reveal_strlit("..");
        assert("/"@ =~= seq!['/']);
        assert("."@ =~= seq!['.']);
        assert(".."@ =~= seq!['.', '.']);
    }
    if same_text(c, "/") {
        1
    } else if same_text(c, ".") {
        2
    } else if same_text(c, "..") {
        3
    } else {
        4
    }
}

fn component_less(x: &str, y: &str) -> (r: bool)
    ensures
        r == component_lt(x@, y@),
{
    let a = rank_of(x);
    let b = rank_of(y);
    a < b || (a == 4 && b == 4 && key_less(x, y))
}

/// Whether `p` comes before `q` in path order.
pub fn path_less(p: &str, q: &str) -> (r: bool)
    ensures
        r == path_lt(p@, q@),
{
    let a = components(p);
    let b = components(q);
    let ghost av = strs_v(a@);
    let ghost bv = strs_v(b@);
    assert(av.len() == a@.len() && bv.len() == b@.len());
    let mut i: usize = 0;
    assert(av.skip(0) =~= av && bv.skip(0) =~= bv);
    while i < a.len() && i < b.len()
        invariant
            av == strs_v(a@),
            bv == strs_v(b@),
            av.len() == a@.len(),
            bv.len() == b@.len(),
            av == components_spec(p@),
            bv == components_spec(q@),
            i <= a.len(),
            i <= b.len(),
            components_lt(av, bv) == components_lt(av.skip(i as int), bv.skip(i as int)),
        decreases a.len() - i,
    {
        let ghost x = av.skip(i as int);
        let ghost y = bv.skip(i as int);
        assert(x[0] == a@[i as int]@ && y[0] == b@[i as int]@);
        assert(x.drop_first() =~= av.skip(i + 1) && y.drop_first() =~= bv.skip(i + 1));
        if component_less(a[i].as_str(), b[i].as_str()) {
            return true;
        }
        if !same_text(a[i].as_str(), b[i].as_str()) {
            return false;
        }
        i = i + 1;
    }
    let ghost x = av.skip(i as int);
    let ghost y = bv.skip(i as int);
    assert(x.len() == av.len() - i && y.len() == bv.len() - i);
    i < b.len()
}

proof fn lemma_same_path_no_order(p: Seq<char>, q: Seq<char>)
    ensures
        same_path(p, q) ==> !path_lt(p, q) && !path_lt(q, p),
        !path_lt(p, q) && !path_lt(q, p) ==> same_path(p, q),
{
    reveal(same_path);
    lemma_components_lt_irreflexive(components_spec(p));
    if !same_path(p, q) {
        lemma_components_lt_total(components_spec(p), components_spec(q));
    }
}

/// Adds `e` to paths strictly sorted in path order, unless a path with the
/// same components is there; returns whether it was added.
fn insert_path(v: &mut Vec<String>, e: &str) -> (added: bool)
    requires
        path_sorted(strs_v(old(v)@)),
    ensures
        path_sorted(strs_v(final(v)@)),
        added <==> !covered(strs_v(old(v)@), e@),
        added ==> exists|i: int|
            0 <= i <= old(v)@.len() && strs_v(final(v)@) == strs_v(old(v)@).insert(i, e@),
        !added ==> final(v)@ == old(v)@,
{
    let ghost s0 = strs_v(v@);
    let mut i: usize = 0;
    while i < v.len() && path_less(v[i].as_str(), e)
        invariant
            i <= v.len(),
            s0 == strs_v(v@),
            s0.len() == v@.len(),
            path_sorted(s0),
            forall|a: int| 0 <= a < i ==> path_lt(#[trigger] s0[a], e@),
        decreases v.len() - i,
    {
        i = i + 1;
    }
    proof {
        assert forall|a: int| 0 <= a < i implies !same_path(#[trigger] s0[a], e@) by {
            lemma_same_path_no_order(s0[a], e@);
        }
    }
    if i < v.len() && !path_less(e, v[i].as_str()) {
        proof {
            assert(s0[i as int] == v@[i as int]@);
            lemma_same_path_no_order(s0[i as int], e@);
        }
        return false;
    }
    proof {
        assert forall|a: int| i <= a < s0.len() implies path_lt(e@, #[trigger] s0[a]) by {
            assert(s0[i as int] == v@[i as int]@);
            if a > i {
                lemma_components_lt_transitive(
                    components_spec(e@),
                    components_spec(s0[i as int]),
                    components_spec(s0[a]),
                );
            }
        }
        assert forall|a: int| 0 <= a < s0.len() implies !same_path(#[trigger] s0[a], e@) by {
            lemma_same_path_no_order(s0[a], e@);
        }
    }
    v.insert(i, owned(e));
    let ghost s1 = strs_v(v@);
    assert(s1 =~= s0.insert(i as int, e@));
    assert forall|a: int, b: int| 0 <= a < b < s1.len() implies path_lt(#[trigger] s1[a], #[trigger] s1[b]) by {
        if b < i {
        } else if b == i {
        } else if a < i {
            assert(s1[b] == s0[b - 1]);
            lemma_components_lt_transitive(components_spec(s1[a]), components_spec(e@), components_spec(s1[b]));
        } else if a == i {
        } else {
            assert(s1[a] == s0[a - 1] && s1[b] == s0[b - 1]);
        }
    }
    true
}

proof fn lemma_same_path_equivalence(p: Seq<char>, q: Seq<char>, r: Seq<char>)
    ensures
        same_path(p, p),
        same_path(p, q) ==> same_path(q, p),
        same_path(p, q) && same_path(q, r) ==> same_path(p, r),
{
    reveal(same_path);
}

/// `o` holds each of the first `i` paths of `s` once (the first of those
/// with the same components).
spec fn once_each(sv: Seq<Seq<char>>, i: int, o: Seq<Seq<char>>) -> bool {
    &&& forall|k: int| 0 <= k < o.len() ==> #[trigger] picked(sv, i, o[k])
    &&& forall|j: int| 0 <= j < i ==> #[trigger] covered(o, sv[j])
}

proof fn lemma_step_added(sv: Seq<Seq<char>>, i: int, before: Seq<Seq<char>>, pos: int)
    requires
        0 <= i < sv.len(),
        0 <= pos <= before.len(),
        once_each(sv, i, before),
        forall|k: int| 0 <= k < before.len() ==> !#[trigger] same_path(before[k], sv[i]),
    ensures
        once_each(sv, i + 1, before.insert(pos, sv[i])),
{
    let after = before.insert(pos, sv[i]);
    assert(first_of(sv, i)) by {
        assert forall|j: int| 0 <= j < i implies !#[trigger] same_path(sv[j], sv[i]) by {
            assert(covered(before, sv[j]));
            let k = choose|k: int| 0 <= k < before.len() && #[trigger] same_path(before[k], sv[j]);
            lemma_same_path_equivalence(before[k], sv[j], sv[i]);
        }
    }
    assert forall|k: int| 0 <= k < after.len() implies #[trigger] picked(sv, i + 1, after[k]) by {
        if k < pos {
            assert(after[k] == before[k]);
            assert(picked(sv, i, before[k]));
        } else if k == pos {
            assert(after[k] == sv[i]);
        } else {
            assert(after[k] == before[k - 1]);
            assert(picked(sv, i, before[k - 1]));
        }
    }
    assert forall|j: int| 0 <= j < i + 1 implies #[trigger] covered(after, sv[j]) by {
        if j == i {
            assert(after[pos] == sv[j]);
            lemma_same_path_equivalence(after[pos], sv[j], sv[j]);
        } else {
            assert(covered(before, sv[j]));
            let k = choose|k: int| 0 <= k < before.len() && #[trigger] same_path(before[k], sv[j]);
            if k < pos {
                assert(after[k] == before[k]);
            } else {
                assert(after[k + 1] == before[k]);
            }
        }
    }
}

proof fn lemma_step_kept(sv: Seq<Seq<char>>, i: int, before: Seq<Seq<char>>)
    requires
        0 <= i < sv.len(),
        once_each(sv, i, before),
        covered(before, sv[i]),
    ensures
        once_each(sv, i + 1, before),
{
    assert forall|j: int| 0 <= j < i + 1 implies #[trigger] covered(before, sv[j]) by {
        if j < i {
            assert(covered(before, sv[j]));
        }
    }
    assert forall|k: int| 0 <= k < before.len() implies #[trigger] picked(sv, i + 1, before[k]) by {
        assert(picked(sv, i, before[k]));
    }
}

/// Each path of `s` once, in path order; see `sorted_once`.
pub fn sort_paths(s: &Vec<String>) -> (r: Vec<String>)
    ensures
        sorted_once(strs_v(s@), strs_v(r@)),
{
    let ghost sv = strs_v(s@);
    let mut out: Vec<String> = Vec::new();
    let mut i: usize = 0;
    assert(strs_v(out@) =~= Seq::<Seq<char>>::empty());
    assert(once_each(sv, 0, strs_v(out@)));
    while i < s.len()
        invariant
            i <= s.len(),
            sv == strs_v(s@),
            sv.len() == s@.len(),
            once_each(sv, i as int, strs_v(out@)),
            path_sorted(strs_v(out@)),
        decreases s.len() - i,
    {
        let ghost before = strs_v(out@);
        let e = &s[i];
        assert(sv[i as int] == e@);
        let added = insert_path(&mut out, e.as_str());
        proof {
            if added {
                let pos = choose|p: int| 0 <= p <= before.len() && strs_v(out@) == before.insert(p, e@);
                assert forall|k: int| 0 <= k < before.len() implies !#[trigger] same_path(before[k], sv[i as int]) by {
                    if same_path(before[k], sv[i as int]) {
                        assert(covered(before, e@));
                    }
                }
                lemma_step_added(sv, i as int, before, pos);
            } else {
                assert(strs_v(out@) == before);
                lemma_step_kept(sv, i as int, before);
            }
        }
        i = i + 1;
    }
    out
}

/// The text of a path with components `c`: each joined onto the ones
/// before it.
pub open spec fn comps_text(c: Seq<Seq<char>>) -> Seq<char>
    decreases c.len(),
{
    if c.len() == 0 {
        Seq::empty()
    } else {
        join_spec(comps_text(c.drop_last()), c.last())
    }
}

/// The portable storage marker next to the data root `root`: in the root's
/// parent directory.
pub open spec fn marker_beside(root: Seq<char>) -> Seq<char> {
    join_spec(comps_text(components_spec(root).drop_last()), PORTABLE_MARKER@)
}

/// Portable data next to the program, and its marker: only for a portable
/// location whose root is the program's own data directory.
pub open spec fn portable_targets(storage: StorageInfo) -> Seq<Seq<char>> {
    if storage.mode == StorageMode::Portable && file_name_spec(storage.root@) == Some(PORTABLE_DATA_DIR@) {
        seq![storage.root@, marker_beside(storage.root@)]
    } else {
        Seq::empty()
    }
}

/// What uninstalling removes, before ordering: the location's directories
/// and storage index, the desktop shell's own application directories
/// (`app_dirs`), portable data next to the program, and the program itself
/// when its path is known.
pub open spec fn targets_spec(storage: StorageInfo, app_dirs: Seq<Seq<char>>, binary: Option<Seq<char>>) -> Seq<
    Seq<char>,
> {
    seq![storage.config_dir@, storage.data_dir@, storage.log_dir@, storage.locator_file@] + app_dirs
        + portable_targets(storage) + match binary {
        Some(b) => seq![b],
        None => Seq::empty(),
    }
}

fn text_of(c: &Vec<String>) -> (r: String)
    ensures
        r@ == comps_text(strs_v(c@)),
{
    let mut t = String::new();
    let mut i: usize = 0;
    assert(strs_v(c@).take(0) =~= Seq::<Seq<char>>::empty());
    while i < c.len()
        invariant
            i <= c.len(),
            t@ == comps_text(strs_v(c@).take(i as int)),
        decreases c.len() - i,
    {
        let ghost p = strs_v(c@).take(i as int + 1);
        assert(p.drop_last() =~= strs_v(c@).take(i as int));
        assert(p.last() == c@[i as int]@);
        t = join(t.as_str(), c[i].as_str());
        i = i + 1;
    }
    assert(strs_v(c@).take(c.len() as int) =~= strs_v(c@));
    t
}

fn push_all(out: &mut Vec<String>, items: &Vec<String>)
    ensures
        strs_v(final(out)@) == strs_v(old(out)@) + strs_v(items@),
{
    let ghost start = strs_v(out@);
    let mut i: usize = 0;
    while i < items.len()
        invariant
            i <= items.len(),
            strs_v(out@) == start + strs_v(items@).take(i as int),
        decreases items.len() - i,
    {
        let ghost before = strs_v(out@);
        out.push(items[i].clone());
        assert(strs_v(out@) =~= before.push(items@[i as int]@));
        assert(strs_v(items@).take(i as int + 1) =~= strs_v(items@).take(i as int).push(items@[i as int]@));
        i = i + 1;
    }
    assert(strs_v(items@).take(items.len() as int) =~= strs_v(items@));
}

/// The paths that uninstalling removes, each once, in path order; see
/// `targets_spec` and `sorted_once`.
pub fn uninstall_targets(storage: &StorageInfo, app_dirs: &Vec<String>, binary: Option<&str>) -> (r: Vec<String>)
    ensures
        sorted_once(
            targets_spec(
                *storage,
                strs_v(app_dirs@),
                match binary {
                    Some(b) => Some(b@),
                    None => None,
                },
            ),
            strs_v(r@),
        ),
{
    let mut targets: Vec<String> = Vec::new();
    targets.push(storage.config_dir.clone());
    targets.push(storage.data_dir.clone());
    targets.push(storage.log_dir.clone());
    targets.push(storage.locator_file.clone());
    let ghost fixed = strs_v(targets@);
    assert(fixed =~= seq![storage.config_dir@, storage.data_dir@, storage.log_dir@, storage.locator_file@]);
    push_all(&mut targets, app_dirs);
    let ghost with_apps = strs_v(targets@);
    let mut portable: Vec<String> = Vec::new();
    if storage.mode == StorageMode::Portable {
        match file_name(storage.root.as_str()) {
            Some(name) => {
                if same_text(name.as_str(), PORTABLE_DATA_DIR) {
                    let mut parent = components(storage.root.as_str());
                    assert(strs_v(parent@).len() == parent@.len());
                    let ghost all = strs_v(parent@);
                    if parent.len() > 0 {
                        parent.pop();
                        assert(strs_v(parent@) =~= all.drop_last());
                    }
                    let base = text_of(&parent);
                    portable.push(storage.root.clone());
                    portable.push(join(base.as_str(), PORTABLE_MARKER));
                }
            },
            None => {},
        }
    }
    assert(strs_v(portable@) =~= portable_targets(*storage));
    push_all(&mut targets, &portable);
    let mut last: Vec<String> = Vec::new();
    match binary {
        Some(b) => {
            last.push(owned(b));
        },
        None => {},
    }
    push_all(&mut targets, &last);
    assert(strs_v(targets@) =~= targets_spec(
        *storage,
        strs_v(app_dirs@),
        match binary {
            Some(b) => Some(b@),
            None => None,
        },
    ));
    sort_paths(&targets)
}

} // verus!
