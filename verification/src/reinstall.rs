//! Installing the hook again changes nothing: "install / repair" may be run
//! any number of times.

use vstd::prelude::*;
use crate::hooks::{
    add_group, doc_removed, doc_sites, entries_removed, entry_sites, group_sites, groups_removed,
    handler_sites, lemma_install_installs, lemma_install_keeps_other_hooks, lemma_uninstall_keeps_other_hooks,
    lemma_uninstall_removes_ours, other_hooks, doc_ready, hooks_of, input_group, install_spec, kept_handlers, lemma_handler_is_ours,
    lemma_lookup_insert, lemma_lookup_set_entry, ours_spec, plain_group, set_entry, strip_doc,
    strip_entries, strip_group, strip_groups, strip_value, with_hooks, handler_spec,
};
use crate::json::{array_of, get_v, insert_spec, key_lt, lookup, JsonV};

verus! {

/// The entry for `k` made sure to exist: an empty list is inserted when
/// there is none.
spec fn ensured(e: Seq<(Seq<char>, JsonV)>, k: Seq<char>) -> Seq<(Seq<char>, JsonV)> {
    match lookup(e, k) {
        None => insert_spec(e, k, JsonV::Array(Seq::empty())),
        Some(_) => e,
    }
}

/// The groups listed for `k`: none when there is no list.
spec fn groups_at(e: Seq<(Seq<char>, JsonV)>, k: Seq<char>) -> Seq<JsonV> {
    match lookup(e, k) {
        Some(JsonV::Array(gs)) => gs,
        _ => Seq::empty(),
    }
}

/// Whether the entry for `k` is missing or a list, so that a group can be
/// appended.
spec fn addable(e: Seq<(Seq<char>, JsonV)>, k: Seq<char>) -> bool {
    match lookup(e, k) {
        None => true,
        Some(JsonV::Array(_)) => true,
        Some(_) => false,
    }
}

proof fn lemma_kept_idempotent(hs: Seq<JsonV>)
    ensures
        kept_handlers(kept_handlers(hs)) == kept_handlers(hs),
    decreases hs.len(),
{
    if hs.len() > 0 {
        lemma_kept_idempotent(hs.drop_last());
        let k = kept_handlers(hs.drop_last());
        if !ours_spec(hs.last()) {
            assert(k.push(hs.last()).drop_last() =~= k);
        }
    }
}

proof fn lemma_set_twice(e: Seq<(Seq<char>, JsonV)>, k: Seq<char>, v1: JsonV, v2: JsonV)
    ensures
        set_entry(set_entry(e, k, v1), k, v2) == set_entry(e, k, v2),
    decreases e.len(),
{
    if e.len() > 0 {
        if e[0].0 == k {
            let x = seq![(k, v1)] + e.drop_first();
            assert(x[0].0 == k);
            assert(x.drop_first() =~= e.drop_first());
        } else {
            lemma_set_twice(e.drop_first(), k, v1, v2);
            let x = seq![e[0]] + set_entry(e.drop_first(), k, v1);
            assert(x[0] == e[0]);
            assert(x.drop_first() =~= set_entry(e.drop_first(), k, v1));
        }
    }
}

proof fn lemma_set_same(e: Seq<(Seq<char>, JsonV)>, k: Seq<char>, v: JsonV)
    requires
        lookup(e, k) == Some(v),
    ensures
        set_entry(e, k, v) == e,
    decreases e.len(),
{
    if e[0].0 == k {
        assert(seq![(k, v)] + e.drop_first() =~= e);
    } else {
        lemma_set_same(e.drop_first(), k, v);
        assert(seq![e[0]] + e.drop_first() =~= e);
    }
}

proof fn lemma_strip_group_stable(g: JsonV)
    ensures
        strip_group(g) matches Some(x) ==> strip_group(x) == Some(x),
{
    if let JsonV::Object(e) = g {
        if let Some(JsonV::Array(hs)) = lookup(e, "hooks"@) {
            let k = kept_handlers(hs);
            if k.len() > 0 {
                lemma_lookup_set_entry(e, "hooks"@, JsonV::Array(k));
                lemma_kept_idempotent(hs);
                lemma_set_twice(e, "hooks"@, JsonV::Array(k), JsonV::Array(k));
            }
        }
    }
}

proof fn lemma_strip_groups_idempotent(gs: Seq<JsonV>)
    ensures
        strip_groups(strip_groups(gs)) == strip_groups(gs),
    decreases gs.len(),
{
    if gs.len() > 0 {
        lemma_strip_groups_idempotent(gs.drop_last());
        let x = strip_groups(gs.drop_last());
        lemma_strip_group_stable(gs.last());
        if let Some(g) = strip_group(gs.last()) {
            assert(x.push(g).drop_last() =~= x);
            assert(x.push(g).last() == g);
        }
    }
}

proof fn lemma_strip_value_idempotent(v: JsonV)
    ensures
        strip_value(strip_value(v)) == strip_value(v),
{
    if let JsonV::Array(gs) = v {
        lemma_strip_groups_idempotent(gs);
    }
}

proof fn lemma_strip_entries_idempotent(e: Seq<(Seq<char>, JsonV)>)
    ensures
        strip_entries(strip_entries(e)) == strip_entries(e),
{
    assert forall|i: int| 0 <= i < e.len() implies strip_value(strip_value(e[i].1)) == strip_value(e[i].1) by {
        lemma_strip_value_idempotent(e[i].1);
    }
    assert(strip_entries(strip_entries(e)) =~= strip_entries(e));
}

/// Our groups go entirely when stripped.
proof fn lemma_our_groups_go(b: Seq<char>)
    ensures
        strip_group(plain_group(b)) is None,
        strip_group(input_group(b)) is None,
{
    lemma_handler_is_ours(b);
    let hs = seq![handler_spec(b)];
    assert(hs.drop_last() =~= Seq::<JsonV>::empty());
    assert(hs.last() == handler_spec(b));
    assert(kept_handlers(hs) == kept_handlers(Seq::<JsonV>::empty()));
    assert(kept_handlers(hs).len() == 0);
    let p = plain_group(b)->Object_0;
    assert(p[0].0 == "hooks"@);
    let q = input_group(b)->Object_0;
    assert(q[0].0 == "hooks"@);
}

proof fn lemma_strip_groups_push_gone(gs: Seq<JsonV>, g: JsonV)
    requires
        strip_group(g) is None,
    ensures
        strip_groups(gs.push(g)) == strip_groups(gs),
{
    assert(gs.push(g).drop_last() =~= gs);
}

proof fn lemma_strip_entries_cons(x: (Seq<char>, JsonV), rest: Seq<(Seq<char>, JsonV)>)
    ensures
        strip_entries(seq![x] + rest) == seq![(x.0, strip_value(x.1))] + strip_entries(rest),
{
    assert(strip_entries(seq![x] + rest) =~= seq![(x.0, strip_value(x.1))] + strip_entries(rest));
}

proof fn lemma_strip_entries_first(e: Seq<(Seq<char>, JsonV)>)
    requires
        e.len() > 0,
    ensures
        strip_entries(e)[0] == (e[0].0, strip_value(e[0].1)),
        strip_entries(e).drop_first() == strip_entries(e.drop_first()),
{
    assert(strip_entries(e).drop_first() =~= strip_entries(e.drop_first()));
}

proof fn lemma_strip_set(e: Seq<(Seq<char>, JsonV)>, k: Seq<char>, v: JsonV)
    ensures
        strip_entries(set_entry(e, k, v)) == set_entry(strip_entries(e), k, strip_value(v)),
    decreases e.len(),
{
    if e.len() == 0 {
        assert(strip_entries(e) =~= e);
    } else {
        lemma_strip_entries_first(e);
        if e[0].0 == k {
            lemma_strip_entries_cons((k, v), e.drop_first());
        } else {
            lemma_strip_set(e.drop_first(), k, v);
            lemma_strip_entries_cons(e[0], set_entry(e.drop_first(), k, v));
        }
    }
}

proof fn lemma_strip_insert(e: Seq<(Seq<char>, JsonV)>, k: Seq<char>, v: JsonV)
    ensures
        strip_entries(insert_spec(e, k, v)) == insert_spec(strip_entries(e), k, strip_value(v)),
    decreases e.len(),
{
    if e.len() == 0 {
        assert(strip_entries(e) =~= e);
        assert(strip_entries(seq![(k, v)]) =~= seq![(k, strip_value(v))]);
    } else {
        lemma_strip_entries_first(e);
        if e[0].0 == k {
            lemma_strip_entries_cons((k, v), e.drop_first());
        } else if key_lt(k, e[0].0) {
            lemma_strip_entries_cons((k, v), e);
        } else {
            lemma_strip_insert(e.drop_first(), k, v);
            lemma_strip_entries_cons(e[0], insert_spec(e.drop_first(), k, v));
        }
    }
}

proof fn lemma_lookup_strip(e: Seq<(Seq<char>, JsonV)>, k: Seq<char>)
    ensures
        lookup(strip_entries(e), k) == match lookup(e, k) {
            Some(v) => Some(strip_value(v)),
            None => None,
        },
    decreases e.len(),
{
    if e.len() > 0 {
        lemma_strip_entries_first(e);
        if e[0].0 != k {
            lemma_lookup_strip(e.drop_first(), k);
        }
    }
}

proof fn lemma_lookup_set_other(e: Seq<(Seq<char>, JsonV)>, k1: Seq<char>, v: JsonV, k2: Seq<char>)
    requires
        k1 != k2,
    ensures
        lookup(set_entry(e, k1, v), k2) == lookup(e, k2),
    decreases e.len(),
{
    if e.len() > 0 {
        if e[0].0 == k1 {
            assert((seq![(k1, v)] + e.drop_first()).drop_first() =~= e.drop_first());
        } else {
            lemma_lookup_set_other(e.drop_first(), k1, v, k2);
            assert((seq![e[0]] + set_entry(e.drop_first(), k1, v)).drop_first() =~= set_entry(
                e.drop_first(),
                k1,
                v,
            ));
        }
    }
}

proof fn lemma_lookup_insert_other(e: Seq<(Seq<char>, JsonV)>, k1: Seq<char>, v: JsonV, k2: Seq<char>)
    requires
        k1 != k2,
    ensures
        lookup(insert_spec(e, k1, v), k2) == lookup(e, k2),
    decreases e.len(),
{
    if e.len() == 0 {
        assert(seq![(k1, v)].drop_first() =~= e);
    } else {
        if e[0].0 == k1 {
            assert((seq![(k1, v)] + e.drop_first()).drop_first() =~= e.drop_first());
        } else if key_lt(k1, e[0].0) {
            assert((seq![(k1, v)] + e).drop_first() =~= e);
        } else {
            lemma_lookup_insert_other(e.drop_first(), k1, v, k2);
            assert((seq![e[0]] + insert_spec(e.drop_first(), k1, v)).drop_first() =~= insert_spec(
                e.drop_first(),
                k1,
                v,
            ));
        }
    }
}

proof fn lemma_lookup_ensured_other(e: Seq<(Seq<char>, JsonV)>, k1: Seq<char>, k2: Seq<char>)
    requires
        k1 != k2,
    ensures
        lookup(ensured(e, k1), k2) == lookup(e, k2),
{
    if lookup(e, k1) is None {
        lemma_lookup_insert_other(e, k1, JsonV::Array(Seq::empty()), k2);
    }
}

/// Setting one entry and inserting another commute.
proof fn lemma_insert_set_commute(
    e: Seq<(Seq<char>, JsonV)>,
    k1: Seq<char>,
    v: JsonV,
    k2: Seq<char>,
    w: JsonV,
)
    requires
        k1 != k2,
    ensures
        insert_spec(set_entry(e, k1, v), k2, w) == set_entry(insert_spec(e, k2, w), k1, v),
    decreases e.len(),
{
    if e.len() == 0 {
        let x = seq![(k2, w)];
        assert(x[0].0 != k1);
        assert(x.drop_first() =~= e);
        assert(seq![x[0]] + e =~= x);
    } else {
        let rest = e.drop_first();
        if e[0].0 == k1 {
            let s = seq![(k1, v)] + rest;
            assert(s[0].0 == k1 && s.drop_first() =~= rest);
            if key_lt(k2, k1) {
                let i = seq![(k2, w)] + e;
                assert(i[0].0 == k2 && i.drop_first() =~= e);
                assert(seq![i[0]] + set_entry(e, k1, v) =~= seq![(k2, w)] + s);
            } else {
                let i = seq![e[0]] + insert_spec(rest, k2, w);
                assert(i[0].0 == k1 && i.drop_first() =~= insert_spec(rest, k2, w));
            }
        } else if e[0].0 == k2 {
            let s = seq![e[0]] + set_entry(rest, k1, v);
            assert(s[0].0 == k2 && s.drop_first() =~= set_entry(rest, k1, v));
            let i = seq![(k2, w)] + rest;
            assert(i[0].0 == k2 && i.drop_first() =~= rest);
        } else {
            let s = seq![e[0]] + set_entry(rest, k1, v);
            assert(s[0] == e[0] && s.drop_first() =~= set_entry(rest, k1, v));
            if key_lt(k2, e[0].0) {
                let i = seq![(k2, w)] + e;
                assert(i[0].0 == k2 && i.drop_first() =~= e);
                assert(seq![i[0]] + set_entry(e, k1, v) =~= seq![(k2, w)] + s);
            } else {
                lemma_insert_set_commute(rest, k1, v, k2, w);
                let i = seq![e[0]] + insert_spec(rest, k2, w);
                assert(i[0] == e[0] && i.drop_first() =~= insert_spec(rest, k2, w));
            }
        }
    }
}

proof fn lemma_ensured_set_commute(e: Seq<(Seq<char>, JsonV)>, k1: Seq<char>, v: JsonV, k2: Seq<char>)
    requires
        k1 != k2,
    ensures
        ensured(set_entry(e, k1, v), k2) == set_entry(ensured(e, k2), k1, v),
{
    lemma_lookup_set_other(e, k1, v, k2);
    if lookup(e, k2) is None {
        lemma_insert_set_commute(e, k1, v, k2, JsonV::Array(Seq::empty()));
    }
}

/// Setting the entry just inserted is inserting the new value.
proof fn lemma_set_inserted(e: Seq<(Seq<char>, JsonV)>, k: Seq<char>, w1: JsonV, w2: JsonV)
    ensures
        set_entry(insert_spec(e, k, w1), k, w2) == insert_spec(e, k, w2),
    decreases e.len(),
{
    if e.len() == 0 {
        let x = seq![(k, w1)];
        assert(x[0].0 == k && x.drop_first() =~= e);
        assert(seq![(k, w2)] + e =~= seq![(k, w2)]);
    } else if e[0].0 == k {
        let x = seq![(k, w1)] + e.drop_first();
        assert(x[0].0 == k && x.drop_first() =~= e.drop_first());
    } else if key_lt(k, e[0].0) {
        let x = seq![(k, w1)] + e;
        assert(x[0].0 == k && x.drop_first() =~= e);
    } else {
        lemma_set_inserted(e.drop_first(), k, w1, w2);
        let x = seq![e[0]] + insert_spec(e.drop_first(), k, w1);
        assert(x[0] == e[0] && x.drop_first() =~= insert_spec(e.drop_first(), k, w1));
    }
}

/// Appending a group is setting the list, once the entry exists.
proof fn lemma_add_is_set(h: Seq<(Seq<char>, JsonV)>, k: Seq<char>, g: JsonV)
    requires
        addable(h, k),
    ensures
        add_group(h, k, g) == Some(set_entry(ensured(h, k), k, JsonV::Array(groups_at(h, k).push(g)))),
        lookup(ensured(h, k), k) == Some(JsonV::Array(groups_at(h, k))),
{
    match lookup(h, k) {
        None => {
            lemma_set_inserted(h, k, JsonV::Array(Seq::empty()), JsonV::Array(seq![g]));
            assert(Seq::<JsonV>::empty().push(g) =~= seq![g]);
            lemma_lookup_insert(h, k, JsonV::Array(Seq::empty()));
        },
        Some(_) => {},
    }
}

/// Stripping after appending one of our groups leaves the entry made sure
/// to exist, and everything else as stripping left it before.
proof fn lemma_strip_after_add(h: Seq<(Seq<char>, JsonV)>, k: Seq<char>, g: JsonV)
    requires
        addable(h, k),
        strip_group(g) is None,
    ensures
        strip_entries(add_group(h, k, g)->Some_0) == ensured(strip_entries(h), k),
{
    lemma_add_is_set(h, k, g);
    let gs = groups_at(h, k);
    lemma_strip_groups_push_gone(gs, g);
    lemma_lookup_strip(h, k);
    match lookup(h, k) {
        None => {
            lemma_strip_set(insert_spec(h, k, JsonV::Array(Seq::empty())), k, JsonV::Array(gs.push(g)));
            lemma_strip_insert(h, k, JsonV::Array(Seq::empty()));
            assert(strip_groups(Seq::<JsonV>::empty()) =~= Seq::<JsonV>::empty());
            lemma_set_inserted(strip_entries(h), k, JsonV::Array(Seq::empty()), JsonV::Array(Seq::empty()));
        },
        Some(_) => {
            lemma_strip_set(h, k, JsonV::Array(gs.push(g)));
            lemma_set_same(strip_entries(h), k, JsonV::Array(strip_groups(gs)));
        },
    }
}

proof fn lemma_event_names_differ()
    ensures
        "Stop"@ != "PermissionRequest"@,
        "Stop"@ != "PreToolUse"@,
        "PermissionRequest"@ != "PreToolUse"@,
{
    reveal_strlit("Stop");
    reveal_strlit("PermissionRequest");
    reveal_strlit("PreToolUse");
    assert("Stop"@.len() != "PermissionRequest"@.len());
    assert("Stop"@.len() != "PreToolUse"@.len());
    assert("PermissionRequest"@.len() != "PreToolUse"@.len());
}

/// Installing again changes nothing: installing into a document that was
/// just installed into, for the same binary, gives the same document.
pub proof fn lemma_install_idempotent(doc: JsonV, b: Seq<char>)
    requires
        doc_ready(doc),
        install_spec(doc, b) is Ok,
    ensures
        install_spec(install_spec(doc, b)->Ok_0, b) == install_spec(doc, b),
{
    lemma_event_names_differ();
    lemma_our_groups_go(b);
    let stop = "Stop"@;
    let perm = "PermissionRequest"@;
    let pre = "PreToolUse"@;
    let p = plain_group(b);
    let q = input_group(b);
    let ed = doc->Object_0;
    let he0 = lookup(ed, "hooks"@)->Some_0->Object_0;
    let he = strip_entries(he0);
    let es = set_entry(ed, "hooks"@, JsonV::Object(he));
    let s = strip_doc(doc);
    assert(s == JsonV::Object(es));
    lemma_lookup_set_entry(ed, "hooks"@, JsonV::Object(he));
    assert(hooks_of(s) == he);
    lemma_strip_entries_idempotent(he0);

    let h1 = add_group(he, stop, p)->Some_0;
    let h2 = add_group(h1, perm, p)->Some_0;
    let h3 = add_group(h2, pre, q)->Some_0;
    let x = with_hooks(s, h3);
    assert(install_spec(doc, b) == Ok::<JsonV, Seq<char>>(x));
    assert(addable(he, stop));
    assert(addable(h1, perm));
    assert(addable(h2, pre));

    // The first installation, step by step.
    lemma_add_is_set(he, stop, p);
    let e1 = ensured(he, stop);
    let a1 = JsonV::Array(groups_at(he, stop).push(p));
    assert(h1 == set_entry(e1, stop, a1));
    lemma_lookup_set_other(e1, stop, a1, perm);
    lemma_lookup_ensured_other(he, stop, perm);
    lemma_add_is_set(h1, perm, p);
    lemma_ensured_set_commute(e1, stop, a1, perm);
    let e2 = ensured(e1, perm);
    let a2 = JsonV::Array(groups_at(h1, perm).push(p));
    assert(h2 == set_entry(set_entry(e2, stop, a1), perm, a2));
    lemma_lookup_set_other(set_entry(e2, stop, a1), perm, a2, pre);
    lemma_lookup_set_other(e2, stop, a1, pre);
    lemma_lookup_ensured_other(e1, perm, pre);
    lemma_lookup_ensured_other(he, stop, pre);
    lemma_add_is_set(h2, pre, q);
    lemma_ensured_set_commute(set_entry(e2, stop, a1), perm, a2, pre);
    lemma_ensured_set_commute(e2, stop, a1, pre);
    let e3 = ensured(e2, pre);
    let a3 = JsonV::Array(groups_at(h2, pre).push(q));
    assert(h3 == set_entry(set_entry(set_entry(e3, stop, a1), perm, a2), pre, a3));

    // What stripping the installed hooks leaves: the three entries exist.
    lemma_strip_after_add(he, stop, p);
    lemma_strip_after_add(h1, perm, p);
    lemma_strip_after_add(h2, pre, q);
    assert(strip_entries(h3) == e3);

    // The stripped document.
    let ex = set_entry(es, "hooks"@, JsonV::Object(h3));
    assert(x == JsonV::Object(ex));
    lemma_lookup_set_entry(es, "hooks"@, JsonV::Object(h3));
    lemma_set_twice(es, "hooks"@, JsonV::Object(h3), JsonV::Object(e3));
    let s2 = strip_doc(x);
    assert(s2 == JsonV::Object(set_entry(es, "hooks"@, JsonV::Object(e3))));
    lemma_lookup_set_entry(es, "hooks"@, JsonV::Object(e3));
    assert(hooks_of(s2) == e3);

    // The second installation sets the three lists again, to the same values.
    lemma_lookup_ensured_other(e2, pre, stop);
    lemma_lookup_ensured_other(e1, perm, stop);
    assert(lookup(e3, stop) == Some(JsonV::Array(groups_at(he, stop))));
    lemma_add_is_set(e3, stop, p);
    let f1 = set_entry(e3, stop, a1);
    assert(add_group(e3, stop, p) == Some(f1));
    lemma_lookup_set_other(e3, stop, a1, perm);
    lemma_lookup_ensured_other(e2, pre, perm);
    assert(lookup(h1, perm) == lookup(e1, perm));
    lemma_add_is_set(e1, perm, p);
    assert(lookup(f1, perm) == Some(JsonV::Array(groups_at(h1, perm))));
    lemma_add_is_set(f1, perm, p);
    let f2 = set_entry(f1, perm, a2);
    assert(add_group(f1, perm, p) == Some(f2));
    lemma_lookup_set_other(f1, perm, a2, pre);
    lemma_lookup_set_other(e3, stop, a1, pre);
    lemma_lookup_set_other(set_entry(e2, stop, a1), perm, a2, pre);
    lemma_lookup_set_other(e2, stop, a1, pre);
    lemma_add_is_set(e2, pre, q);
    assert(lookup(f2, pre) == Some(JsonV::Array(groups_at(h2, pre))));
    lemma_add_is_set(f2, pre, q);
    assert(add_group(f2, pre, q) == Some(h3));
    lemma_set_twice(es, "hooks"@, JsonV::Object(e3), JsonV::Object(h3));
    assert(install_spec(x, b) == Ok::<JsonV, Seq<char>>(with_hooks(s2, h3)));
}

proof fn lemma_handler_sites_count(event: Seq<char>, g: int, hs: Seq<JsonV>)
    ensures
        handler_sites(event, g, hs, true).len() == hs.len() - kept_handlers(hs).len(),
    decreases hs.len(),
{
    if hs.len() > 0 {
        lemma_handler_sites_count(event, g, hs.drop_last());
    }
}

proof fn lemma_group_sites_count(event: Seq<char>, gs: Seq<JsonV>)
    ensures
        group_sites(event, gs, true).len() == groups_removed(gs),
    decreases gs.len(),
{
    if gs.len() > 0 {
        lemma_group_sites_count(event, gs.drop_last());
        if let Some(hs) = array_of(get_v(gs.last(), "hooks"@)) {
            lemma_handler_sites_count(event, gs.len() - 1, hs);
        }
    }
}

proof fn lemma_entry_sites_count(e: Seq<(Seq<char>, JsonV)>)
    ensures
        entry_sites(e, true).len() == entries_removed(e),
    decreases e.len(),
{
    if e.len() > 0 {
        lemma_entry_sites_count(e.drop_last());
        if let JsonV::Array(gs) = e.last().1 {
            lemma_group_sites_count(e.last().0, gs);
        }
    }
}

/// Uninstalling right after installing takes out exactly the three handlers
/// just installed, leaves none of this application's, and keeps every other
/// handler of the document installed into, with its event and in order.
pub proof fn lemma_install_then_uninstall(doc: JsonV, b: Seq<char>)
    requires
        doc_ready(doc),
        install_spec(doc, b) is Ok,
    ensures
        doc_removed(install_spec(doc, b)->Ok_0) == 3,
        doc_sites(strip_doc(install_spec(doc, b)->Ok_0)).len() == 0,
        other_hooks(strip_doc(install_spec(doc, b)->Ok_0)) == other_hooks(doc),
{
    let x = install_spec(doc, b)->Ok_0;
    lemma_install_installs(doc, b);
    lemma_install_keeps_other_hooks(doc, b);
    lemma_uninstall_keeps_other_hooks(x);
    lemma_uninstall_removes_ours(x);
    let e = x->Object_0;
    let he = lookup(e, "hooks"@)->Some_0->Object_0;
    lemma_entry_sites_count(he);
}

} // verus!
