use vstd::prelude::*;
use crate::merge::del_at;
use crate::merge::get_at;
use crate::merge::mmerge;
use crate::merge::mod_at;
use crate::merge::mmerge_tables;
use crate::merge::parent_exists;
use crate::merge::set_at;
use crate::value::lemma_tdel_unique;
use crate::value::lemma_tfind;
use crate::value::tfind;
use crate::value::lemma_tfind_absent;
use crate::value::lemma_tset_other;
use crate::value::lemma_tset_same;
use crate::value::tdel;
use crate::value::tget;
use crate::value::thas;
use crate::value::tset;
use crate::value::wf;
use crate::value::Val;

verus! {

/// Law: binding a path whose parent chain exists always goes through, and
/// reading the path back afterwards yields exactly the value written.
pub proof fn lemma_set_round_trip(v: Val, p: Seq<Seq<char>>, x: Val)
    requires
        p.len() > 0,
        parent_exists(v, p),
    ensures
        set_at(v, p, x) is Some,
        get_at(set_at(v, p, x)->Some_0, p) == Some(x),
    decreases p.len(),
{
    match v {
        Val::Table(es) => {
            if p.len() == 1 {
                lemma_tset_same(es, p[0], x);
                let es2 = tset(es, p[0], x);
                assert(set_at(v, p, x) == Some(Val::Table(es2)));
                assert(p.skip(1) =~= Seq::<Seq<char>>::empty());
                assert(get_at(x, p.skip(1)) == Some(x));
                assert(get_at(Val::Table(es2), p) == Some(x));
            } else {
                let sub = tget(es, p[0]);
                lemma_set_round_trip(sub, p.skip(1), x);
                let nv = set_at(sub, p.skip(1), x)->Some_0;
                lemma_tset_same(es, p[0], nv);
            }
        },
        _ => {},
    }
}

/// `Set` creates missing intermediate tables, so it also goes through (and
/// round-trips) wherever only table nodes stand in the way.
pub proof fn lemma_set_then_get(v: Val, p: Seq<Seq<char>>, x: Val)
    requires
        p.len() > 0,
        set_at(v, p, x) is Some,
    ensures
        get_at(set_at(v, p, x)->Some_0, p) == Some(x),
    decreases p.len(),
{
    match v {
        Val::Table(es) => {
            if p.len() == 1 {
                lemma_tset_same(es, p[0], x);
                let es2 = tset(es, p[0], x);
                assert(set_at(v, p, x) == Some(Val::Table(es2)));
                assert(p.skip(1) =~= Seq::<Seq<char>>::empty());
                assert(get_at(x, p.skip(1)) == Some(x));
                assert(thas(es2, p[0]) && tget(es2, p[0]) == x);
                assert(get_at(Val::Table(es2), p) == Some(x));
            } else {
                let sub = if thas(es, p[0]) {
                    tget(es, p[0])
                } else {
                    Val::Table(Seq::empty())
                };
                lemma_set_then_get(sub, p.skip(1), x);
                let nv = set_at(sub, p.skip(1), x)->Some_0;
                lemma_tset_same(es, p[0], nv);
            }
        },
        _ => {},
    }
}

/// Law: deleting a path twice is the same as deleting it once — the second
/// deletion finds nothing to remove and leaves the tree as it was; neither
/// walk fails.
pub proof fn lemma_delete_idempotent(v: Val, p: Seq<Seq<char>>)
    requires
        p.len() > 0,
        wf(v),
        del_at(v, p) is Some,
    ensures
        del_at(del_at(v, p)->Some_0, p) == Some(del_at(v, p)->Some_0),
    decreases p.len(),
{
    match v {
        Val::Table(es) => {
            if p.len() == 1 {
                crate::value::lemma_wf_table(es);
                lemma_tdel_unique(es, p[0]);
            } else {
                let sub = tget(es, p[0]);
                lemma_tfind(es, p[0]);
                assert(thas(es, p[0]));
                assert(0 <= tfind(es, p[0]) < es.len());
                crate::value::lemma_wf_table(es);
                assert(wf(sub));
                lemma_delete_idempotent(sub, p.skip(1));
                let nv = del_at(sub, p.skip(1))->Some_0;
                lemma_tset_same(es, p[0], nv);
                let es2 = tset(es, p[0], nv);
                assert(tset(es2, p[0], nv) =~= es2);
            }
        },
        _ => {},
    }
}

/// Law: merging a table into a table never destroys sibling keys that the
/// merged-in table does not mention; they stay bound to their old values.
pub proof fn lemma_modify_preserves_siblings(
    t1: Seq<(Seq<char>, Val)>,
    t2: Seq<(Seq<char>, Val)>,
    k: Seq<char>,
)
    requires
        thas(t1, k),
        !thas(t2, k),
    ensures
        thas(mmerge_tables(t1, t2).0, k),
        tget(mmerge_tables(t1, t2).0, k) == tget(t1, k),
    decreases t2.len(),
{
    if t2.len() == 0 {
    } else {
        let k2 = t2[0].0;
        let v2 = t2[0].1;
        lemma_tfind(t2, k);
        if k2 == k {
            crate::value::lemma_tfind_found(t2, k, 0);
        }
        let t1a = if thas(t1, k2) {
            tset(t1, k2, mmerge(tget(t1, k2), v2).0)
        } else {
            tset(t1, k2, v2)
        };
        if thas(t1, k2) {
            lemma_tset_other(t1, k2, mmerge(tget(t1, k2), v2).0, k);
        } else {
            lemma_tset_other(t1, k2, v2, k);
        }
        assert forall|j: int|
            0 <= j < t2.skip(1).len() implies (#[trigger] t2.skip(1)[j]).0 != k by {
            assert(t2.skip(1)[j] == t2[j + 1]);
        }
        lemma_tfind_absent(t2.skip(1), k);
        lemma_modify_preserves_siblings(t1a, t2.skip(1), k);
    }
}

/// Binding a key to a well-formed value keeps a table well formed: the keys
/// stay pairwise distinct and every entry's value stays well formed.
pub proof fn lemma_tset_keeps_wf(t: Seq<(Seq<char>, Val)>, k: Seq<char>, x: Val)
    requires
        crate::value::keys_distinct(t),
        crate::value::wf_entries(t),
        wf(x),
    ensures
        crate::value::keys_distinct(tset(t, k, x)),
        crate::value::wf_entries(tset(t, k, x)),
        wf(Val::Table(tset(t, k, x))),
{
    lemma_tfind(t, k);
    let t2 = tset(t, k, x);
    if thas(t, k) {
        let i = tfind(t, k);
        assert(t2 =~= t.update(i, (k, x)));
        assert forall|a: int, b: int| 0 <= a < b < t2.len() implies t2[a].0 != t2[b].0 by {
            assert(t2[a].0 == t[a].0 && t2[b].0 == t[b].0) by {
                assert(t[i].0 == k);
            }
        }
        assert forall|j: int| 0 <= j < t2.len() implies wf((#[trigger] t2[j]).1) by {
            if j == i {
            } else {
                crate::value::lemma_wf_entries_index(t, j);
            }
        }
        crate::value::lemma_wf_entries_intro(t2);
    } else {
        assert(t2 =~= t.push((k, x)));
        assert forall|a: int, b: int| 0 <= a < b < t2.len() implies t2[a].0 != t2[b].0 by {
            if b == t.len() {
                assert(t2[a].0 == t[a].0);
                assert(t[a].0 != k);
            }
        }
        assert forall|j: int| 0 <= j < t2.len() implies wf((#[trigger] t2[j]).1) by {
            if j < t.len() {
                crate::value::lemma_wf_entries_index(t, j);
            }
        }
        crate::value::lemma_wf_entries_intro(t2);
    }
}

/// Law: binding a well-formed value at a path keeps the tree well formed —
/// no table in it loses the uniqueness of its keys.
pub proof fn lemma_set_at_keeps_wf(v: Val, p: Seq<Seq<char>>, x: Val)
    requires
        p.len() > 0,
        wf(v),
        wf(x),
        set_at(v, p, x) is Some,
    ensures
        wf(set_at(v, p, x)->Some_0),
    decreases p.len(),
{
    match v {
        Val::Table(es) => {
            crate::value::lemma_wf_table(es);
            if p.len() == 1 {
                lemma_tset_keeps_wf(es, p[0], x);
            } else {
                let sub = if thas(es, p[0]) {
                    tget(es, p[0])
                } else {
                    Val::Table(Seq::empty())
                };
                lemma_tfind(es, p[0]);
                if thas(es, p[0]) {
                    crate::value::lemma_wf_entries_index(es, tfind(es, p[0]));
                } else {
                    assert(wf(sub)) by {
                        assert(crate::value::wf_entries(Seq::<(Seq<char>, Val)>::empty()));
                    }
                }
                lemma_set_at_keeps_wf(sub, p.skip(1), x);
                lemma_tset_keeps_wf(es, p[0], set_at(sub, p.skip(1), x)->Some_0);
            }
        },
        _ => {},
    }
}

/// Law: deleting a path keeps the tree well formed.
pub proof fn lemma_del_at_keeps_wf(v: Val, p: Seq<Seq<char>>)
    requires
        p.len() > 0,
        wf(v),
        del_at(v, p) is Some,
    ensures
        wf(del_at(v, p)->Some_0),
    decreases p.len(),
{
    match v {
        Val::Table(es) => {
            crate::value::lemma_wf_table(es);
            lemma_tfind(es, p[0]);
            if p.len() == 1 {
                let t2 = tdel(es, p[0]);
                if thas(es, p[0]) {
                    let i = tfind(es, p[0]);
                    assert(t2 =~= es.remove(i));
                    assert forall|a: int, b: int| 0 <= a < b < t2.len() implies t2[a].0
                        != t2[b].0 by {
                        assert(t2[a] == if a < i {
                            es[a]
                        } else {
                            es[a + 1]
                        });
                        assert(t2[b] == if b < i {
                            es[b]
                        } else {
                            es[b + 1]
                        });
                    }
                    assert forall|j: int| 0 <= j < t2.len() implies wf((#[trigger] t2[j]).1) by {
                        if j < i {
                            crate::value::lemma_wf_entries_index(es, j);
                        } else {
                            crate::value::lemma_wf_entries_index(es, j + 1);
                        }
                    }
                    crate::value::lemma_wf_entries_intro(t2);
                }
            } else {
                let sub = tget(es, p[0]);
                crate::value::lemma_wf_entries_index(es, tfind(es, p[0]));
                lemma_del_at_keeps_wf(sub, p.skip(1));
                lemma_tset_keeps_wf(es, p[0], del_at(sub, p.skip(1))->Some_0);
            }
        },
        _ => {},
    }
}

/// Law: a structural merge of well-formed trees is well formed.
pub proof fn lemma_mmerge_keeps_wf(old: Val, new: Val)
    requires
        wf(old),
        wf(new),
    ensures
        wf(mmerge(old, new).0),
    decreases new,
{
    match (old, new) {
        (Val::Table(t1), Val::Table(t2)) => {
            crate::value::lemma_wf_table(t1);
            crate::value::lemma_wf_table(t2);
            lemma_mmerge_tables_keeps_wf(t1, t2);
        },
        (_, _) => {},
    }
}

proof fn lemma_mmerge_tables_keeps_wf(t1: Seq<(Seq<char>, Val)>, t2: Seq<(Seq<char>, Val)>)
    requires
        crate::value::keys_distinct(t1),
        crate::value::wf_entries(t1),
        crate::value::wf_entries(t2),
    ensures
        crate::value::keys_distinct(mmerge_tables(t1, t2).0),
        crate::value::wf_entries(mmerge_tables(t1, t2).0),
    decreases t2,
{
    if t2.len() == 0 {
    } else {
        let k = t2[0].0;
        let v2 = t2[0].1;
        crate::value::lemma_wf_entries_index(t2, 0);
        lemma_tfind(t1, k);
        let t1a = if thas(t1, k) {
            crate::value::lemma_wf_entries_index(t1, tfind(t1, k));
            lemma_mmerge_keeps_wf(tget(t1, k), v2);
            lemma_tset_keeps_wf(t1, k, mmerge(tget(t1, k), v2).0);
            tset(t1, k, mmerge(tget(t1, k), v2).0)
        } else {
            lemma_tset_keeps_wf(t1, k, v2);
            tset(t1, k, v2)
        };
        assert(crate::value::wf_entries(t2.skip(1))) by {
            assert forall|j: int| 0 <= j < t2.skip(1).len() implies wf(
                (#[trigger] t2.skip(1)[j]).1,
            ) by {
                assert(t2.skip(1)[j] == t2[j + 1]);
                crate::value::lemma_wf_entries_index(t2, j + 1);
            }
            crate::value::lemma_wf_entries_intro(t2.skip(1));
        }
        lemma_mmerge_tables_keeps_wf(t1a, t2.skip(1));
    }
}

/// Law: merging at a path keeps the tree well formed.
pub proof fn lemma_mod_at_keeps_wf(v: Val, p: Seq<Seq<char>>, x: Val)
    requires
        p.len() > 0,
        wf(v),
        wf(x),
        mod_at(v, p, x) is Some,
    ensures
        wf(mod_at(v, p, x)->Some_0.0),
    decreases p.len(),
{
    match v {
        Val::Table(es) => {
            crate::value::lemma_wf_table(es);
            lemma_tfind(es, p[0]);
            crate::value::lemma_wf_entries_index(es, tfind(es, p[0]));
            if p.len() == 1 {
                lemma_mmerge_keeps_wf(tget(es, p[0]), x);
                lemma_tset_keeps_wf(es, p[0], mmerge(tget(es, p[0]), x).0);
            } else {
                lemma_mod_at_keeps_wf(tget(es, p[0]), p.skip(1), x);
                lemma_tset_keeps_wf(es, p[0], mod_at(tget(es, p[0]), p.skip(1), x)->Some_0.0);
            }
        },
        _ => {},
    }
}

/// Law: splicing a well-formed replacement at a valid address — as every
/// resolver firing does — keeps the tree well formed.
pub proof fn lemma_replace_at_keeps_wf(v: Val, loc: Seq<int>, x: Val)
    requires
        wf(v),
        wf(x),
        crate::resolve::loc_valid(v, loc),
    ensures
        wf(crate::resolve::replace_at(v, loc, x)),
    decreases loc.len(),
{
    if loc.len() == 0 {
    } else {
        match v {
            Val::Table(es) => {
                let i = loc[0];
                crate::value::lemma_wf_table(es);
                lemma_replace_at_keeps_wf(es[i].1, loc.skip(1), x);
                let nv = crate::resolve::replace_at(es[i].1, loc.skip(1), x);
                let t2 = es.update(i, (es[i].0, nv));
                assert forall|a: int, b: int| 0 <= a < b < t2.len() implies t2[a].0
                    != t2[b].0 by {
                    assert(t2[a].0 == es[a].0 && t2[b].0 == es[b].0);
                }
                assert forall|j: int| 0 <= j < t2.len() implies wf((#[trigger] t2[j]).1) by {
                    if j != i {
                        crate::value::lemma_wf_entries_index(es, j);
                    }
                }
                crate::value::lemma_wf_entries_intro(t2);
            },
            Val::Sequence(xs) => {
                let i = loc[0];
                crate::value::lemma_wf_seq_index(xs, i);
                lemma_replace_at_keeps_wf(xs[i], loc.skip(1), x);
                let nv = crate::resolve::replace_at(xs[i], loc.skip(1), x);
                let t2 = xs.update(i, nv);
                assert forall|j: int| 0 <= j < t2.len() implies wf(#[trigger] t2[j]) by {
                    if j != i {
                        crate::value::lemma_wf_seq_index(xs, j);
                    }
                }
                crate::value::lemma_wf_seq_intro(t2);
            },
            _ => {},
        }
    }
}

/// The same law, read at the level of whole values: a structural merge of
/// one table into another keeps every unmentioned key.
pub proof fn lemma_mmerge_preserves_siblings(
    t1: Seq<(Seq<char>, Val)>,
    t2: Seq<(Seq<char>, Val)>,
    k: Seq<char>,
)
    requires
        thas(t1, k),
        !thas(t2, k),
    ensures
        mmerge(Val::Table(t1), Val::Table(t2)).0 matches Val::Table(m) && thas(m, k) && tget(m, k)
            == tget(t1, k),
{
    lemma_modify_preserves_siblings(t1, t2, k);
}

} // verus!
