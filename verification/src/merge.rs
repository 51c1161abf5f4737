use vstd::prelude::*;
use crate::path::ActModel;
use crate::path::Operation;
use crate::path::TomlPath;
use crate::value::clone_string;
use crate::value::entries_model;
use crate::value::lemma_tfind;
use crate::value::tbl_find;
use crate::value::tfind;
use crate::value::tget;
use crate::value::thas;
use crate::value::tset;
use crate::value::tdel;
use crate::value::value_model;
use crate::value::Val;
use crate::value::Node;

verus! {

/// A structural merge can postpone part of an amendment: the value, to be
/// re-applied later at the carried path.
pub type Deferred = Seq<(Seq<Seq<char>>, Val)>;

/// The node of `v` addressed by `p`; `None` when the walk leaves the tables.
pub open spec fn get_at(v: Val, p: Seq<Seq<char>>) -> Option<Val>
    decreases p.len(),
{
    if p.len() == 0 {
        Some(v)
    } else {
        match v {
            Val::Table(es) => {
                if thas(es, p[0]) {
                    get_at(tget(es, p[0]), p.skip(1))
                } else {
                    None
                }
            },
            _ => None,
        }
    }
}

/// Every proper prefix of `p` leads through existing table entries, and the
/// parent of the target is a table.
pub open spec fn parent_exists(v: Val, p: Seq<Seq<char>>) -> bool
    decreases p.len(),
{
    if p.len() == 0 {
        false
    } else {
        match v {
            Val::Table(es) => {
                if p.len() == 1 {
                    true
                } else {
                    thas(es, p[0]) && parent_exists(tget(es, p[0]), p.skip(1))
                }
            },
            _ => false,
        }
    }
}

/// Bind the node addressed by `p` to `x`, overwriting whatever was there.
/// Missing keys on the way are created as empty tables; a non-table in the
/// way yields `None`, deferring the amendment.
pub open spec fn set_at(v: Val, p: Seq<Seq<char>>, x: Val) -> Option<Val>
    decreases p.len(),
{
    if p.len() == 0 {
        None
    } else {
        match v {
            Val::Table(es) => {
                if p.len() == 1 {
                    Some(Val::Table(tset(es, p[0], x)))
                } else {
                    let sub = if thas(es, p[0]) {
                        tget(es, p[0])
                    } else {
                        Val::Table(Seq::empty())
                    };
                    match set_at(sub, p.skip(1), x) {
                        Some(nv) => Some(Val::Table(tset(es, p[0], nv))),
                        None => None,
                    }
                }
            },
            _ => None,
        }
    }
}

/// Remove the node addressed by `p`. An absent target key is a no-op;
/// a missing intermediate key or a non-table in the way yields `None`,
/// deferring the amendment.
pub open spec fn del_at(v: Val, p: Seq<Seq<char>>) -> Option<Val>
    decreases p.len(),
{
    if p.len() == 0 {
        None
    } else {
        match v {
            Val::Table(es) => {
                if p.len() == 1 {
                    Some(Val::Table(tdel(es, p[0])))
                } else if thas(es, p[0]) {
                    match del_at(tget(es, p[0]), p.skip(1)) {
                        Some(nv) => Some(Val::Table(tset(es, p[0], nv))),
                        None => None,
                    }
                } else {
                    None
                }
            },
            _ => None,
        }
    }
}

/// Prepend `k` to the path of every deferred part.
pub open spec fn prefix_defs(d: Deferred, k: Seq<char>) -> Deferred {
    Seq::new(d.len(), |i: int| (seq![k] + d[i].0, d[i].1))
}

/// Structural merge of `new` into `old`: matching scalar kinds and sequences
/// are replaced, tables merge key by key (keys only in `new` are inserted),
/// and any other pairing keeps `old` and defers `new` at the relative path
/// where the shapes disagreed.
pub open spec fn mmerge(old: Val, new: Val) -> (Val, Deferred)
    decreases new,
{
    match (old, new) {
        (Val::Int(_), Val::Int(_)) => (new, Seq::empty()),
        (Val::Float(_), Val::Float(_)) => (new, Seq::empty()),
        (Val::Bool(_), Val::Bool(_)) => (new, Seq::empty()),
        (Val::Text(_), Val::Text(_)) => (new, Seq::empty()),
        (Val::Timestamp(_), Val::Timestamp(_)) => (new, Seq::empty()),
        (Val::Sequence(_), Val::Sequence(_)) => (new, Seq::empty()),
        (Val::Table(t1), Val::Table(t2)) => {
            let r = mmerge_tables(t1, t2);
            (Val::Table(r.0), r.1)
        },
        (_, _) => (old, seq![(Seq::<Seq<char>>::empty(), new)]),
    }
}

/// Merge the entries of `t2` into `t1`, left to right.
pub open spec fn mmerge_tables(t1: Seq<(Seq<char>, Val)>, t2: Seq<(Seq<char>, Val)>) -> (
    Seq<(Seq<char>, Val)>,
    Deferred,
)
    decreases t2,
{
    if t2.len() == 0 {
        (t1, Seq::empty())
    } else {
        let k = t2[0].0;
        let v2 = t2[0].1;
        if thas(t1, k) {
            let md = mmerge(tget(t1, k), v2);
            let rest = mmerge_tables(tset(t1, k, md.0), t2.skip(1));
            (rest.0, prefix_defs(md.1, k) + rest.1)
        } else {
            let rest = mmerge_tables(tset(t1, k, v2), t2.skip(1));
            (rest.0, rest.1)
        }
    }
}

/// Merge `x` into the node addressed by `p`. `None` defers the whole
/// amendment: the walk left the tables, or the target key is absent.
/// Deferred parts carry paths rooted at `v`.
pub open spec fn mod_at(v: Val, p: Seq<Seq<char>>, x: Val) -> Option<(Val, Deferred)>
    decreases p.len(),
{
    if p.len() == 0 {
        None
    } else {
        match v {
            Val::Table(es) => {
                if !thas(es, p[0]) {
                    None
                } else if p.len() == 1 {
                    let md = mmerge(tget(es, p[0]), x);
                    Some((Val::Table(tset(es, p[0], md.0)), prefix_defs(md.1, p[0])))
                } else {
                    match mod_at(tget(es, p[0]), p.skip(1), x) {
                        Some(r) => Some(
                            (Val::Table(tset(es, p[0], r.0)), prefix_defs(r.1, p[0])),
                        ),
                        None => None,
                    }
                }
            },
            _ => None,
        }
    }
}

/// Deferred merge parts become pending `Modify` amendments.
pub open spec fn defs_to_actions(d: Deferred) -> Seq<ActModel> {
    Seq::new(
        d.len(),
        |i: int| ActModel { path: d[i].0, op: Operation::Modify, val: Some(d[i].1) },
    )
}

/// Apply one amendment to `t`: the new tree, and what was deferred —
/// either the amendment itself, unchanged, or re-rooted parts of a merge.
/// A modify or delete whose target has not materialized is always deferred,
/// never an immediate missing-key failure: a template may still create the
/// target in a later pass, and one that never does ends the run stuck.
pub open spec fn apply_one(t: Val, a: ActModel) -> (Val, Seq<ActModel>) {
    match a.op {
        Operation::Assign => {
            match a.val {
                Some(x) => {
                    match set_at(t, a.path, x) {
                        Some(nv) => (nv, Seq::empty()),
                        None => (t, seq![a]),
                    }
                },
                None => (t, Seq::empty()),
            }
        },
        Operation::Modify => {
            match a.val {
                Some(x) => {
                    match mod_at(t, a.path, x) {
                        Some(r) => (r.0, defs_to_actions(r.1)),
                        None => (t, seq![a]),
                    }
                },
                None => (t, Seq::empty()),
            }
        },
        Operation::Delete => {
            match del_at(t, a.path) {
                Some(nv) => (nv, Seq::empty()),
                None => (t, seq![a]),
            }
        },
    }
}

/// Apply a whole round of amendments in first-in-first-out order; deferred
/// amendments keep their relative order.
pub open spec fn apply_all(t: Val, acts: Seq<ActModel>) -> (Val, Seq<ActModel>)
    decreases acts.len(),
{
    if acts.len() == 0 {
        (t, Seq::empty())
    } else {
        let fst = apply_one(t, acts[0]);
        let rest = apply_all(fst.0, acts.skip(1));
        (rest.0, fst.1 + rest.1)
    }
}

/// Flat merge for whole documents: `b` wins on matching shapes, table
/// entries of `b` replace or extend those of `a` key by key (no recursion
/// into values); incompatible shapes fail.
pub open spec fn merge_second(a: Val, b: Val) -> Option<Val> {
    match (a, b) {
        (Val::Int(_), Val::Int(_)) => Some(b),
        (Val::Float(_), Val::Float(_)) => Some(b),
        (Val::Bool(_), Val::Bool(_)) => Some(b),
        (Val::Text(_), Val::Text(_)) => Some(b),
        (Val::Timestamp(_), Val::Timestamp(_)) => Some(b),
        (Val::Sequence(_), Val::Sequence(_)) => Some(b),
        (Val::Table(t1), Val::Table(t2)) => Some(Val::Table(flat_merge_tables(t1, t2))),
        (_, _) => None,
    }
}

/// Insert every entry of `t2` into `t1`, left to right.
pub open spec fn flat_merge_tables(
    t1: Seq<(Seq<char>, Val)>,
    t2: Seq<(Seq<char>, Val)>,
) -> Seq<(Seq<char>, Val)>
    decreases t2.len(),
{
    if t2.len() == 0 {
        t1
    } else {
        flat_merge_tables(tset(t1, t2[0].0, t2[0].1), t2.skip(1))
    }
}

/// Runtime form of `get_at`, from segment `i` of the path on.
fn get_at_exec<'a>(v: &'a Node, p: &TomlPath, i: usize) -> (r: Option<&'a Node>)
    requires
        i <= p@.len(),
    ensures
        match get_at(value_model(*v), p@.skip(i as int)) {
            Some(n) => r matches Some(f) && value_model(*f) == n,
            None => r is None,
        },
    decreases p@.len() - i,
{
    let ghost pseq = p@.skip(i as int);
    if i == p.len() {
        proof {
            assert(pseq.len() == 0);
        }
        Some(v)
    } else {
        let seg = p.segment(i);
        proof {
            assert(pseq[0] == seg@);
            assert(pseq.skip(1) =~= p@.skip(i as int + 1));
        }
        match v {
            Node::Table(es) => {
                proof {
                    lemma_tfind(entries_model(es@), seg@);
                }
                match tbl_find(es, seg) {
                    Some(idx) => {
                        proof {
                            assert(value_model(es@[idx as int].1) == tget(
                                entries_model(es@),
                                seg@,
                            ));
                        }
                        get_at_exec(&es[idx].1, p, i + 1)
                    },
                    None => None,
                }
            },
            _ => None,
        }
    }
}

impl Node {
    /// The node a path addresses, if the walk stays inside existing table
    /// entries.
    pub fn get_path<'a>(&'a self, p: &TomlPath) -> (r: Option<&'a Node>)
        ensures
            match get_at(value_model(*self), p@) {
                Some(n) => r matches Some(f) && value_model(*f) == n,
                None => r is None,
            },
    {
        proof {
            assert(p@.skip(0) =~= p@);
        }
        get_at_exec(self, p, 0)
    }
}

/// Replace the value at `idx`, keeping the stored key.
fn tbl_replace_at(es: &mut Vec<(String, Node)>, idx: usize, x: Node)
    requires
        idx < old(es)@.len(),
    ensures
        final(es)@.len() == old(es)@.len(),
        entries_model(final(es)@) == entries_model(old(es)@).update(
            idx as int,
            (entries_model(old(es)@)[idx as int].0, value_model(x)),
        ),
{
    let ghost es0 = es@;
    let (k0, _old_val) = es.remove(idx);
    es.insert(idx, (k0, x));
    proof {
        assert forall|j: int| 0 <= j < es@.len() implies #[trigger] es@[j] == (if j == idx {
            (es0[idx as int].0, x)
        } else {
            es0[j]
        }) by {
            if j < idx {
                assert(es0.remove(idx as int)[j] == es0[j]);
            } else if j > idx {
                assert(es0.remove(idx as int)[j - 1] == es0[j]);
            }
        }
        assert(entries_model(es@) =~= entries_model(es0).update(
            idx as int,
            (entries_model(es0)[idx as int].0, value_model(x)),
        ));
    }
}

/// Outcome of walking an amendment into a tree: either it went through, or
/// the tree is unchanged and the payload comes back for re-queuing.
pub enum Walked {
    Applied(Node),
    Deferred(Node, Option<Node>),
}

/// Runtime form of `set_at`, from segment `i` of the path on.
fn set_at_exec(v: Node, p: &TomlPath, i: usize, x: Node) -> (r: Walked)
    requires
        i < p@.len(),
    ensures
        match set_at(value_model(v), p@.skip(i as int), value_model(x)) {
            Some(nv) => r matches Walked::Applied(t) && value_model(t) == nv,
            None => r matches Walked::Deferred(t, b) && value_model(t) == value_model(v)
                && (b matches Some(bx) && value_model(bx) == value_model(x)),
        },
    decreases p@.len() - i,
{
    let ghost pseq = p@.skip(i as int);
    match v {
        Node::Table(mut es) => {
            let ghost es0 = entries_model(es@);
            let seg = p.segment(i);
            proof {
                assert(pseq[0] == seg@);
                lemma_tfind(es0, seg@);
            }
            let found = tbl_find(&es, seg);
            if p.len() - i == 1 {
                match found {
                    Some(idx) => {
                        tbl_replace_at(&mut es, idx, x);
                        proof {
                            assert(entries_model(es@) =~= tset(es0, seg@, value_model(x)));
                        }
                        Walked::Applied(Node::Table(es))
                    },
                    None => {
                        let key = clone_string(seg);
                        es.push((key, x));
                        proof {
                            assert(entries_model(es@) =~= tset(es0, seg@, value_model(x)));
                        }
                        Walked::Applied(Node::Table(es))
                    },
                }
            } else {
                proof {
                    assert(pseq.skip(1) =~= p@.skip(i as int + 1));
                }
                match found {
                    Some(idx) => {
                        let (k0, sub) = es.remove(idx);
                        proof {
                            assert(value_model(sub) == tget(es0, seg@));
                        }
                        match set_at_exec(sub, p, i + 1, x) {
                            Walked::Applied(nv) => {
                                es.insert(idx, (k0, nv));
                                proof {
                                    assert forall|j: int|
                                        0 <= j < es@.len() implies #[trigger] entries_model(
                                        es@,
                                    )[j] == tset(
                                        es0,
                                        seg@,
                                        set_at(
                                            tget(es0, seg@),
                                            pseq.skip(1),
                                            value_model(x),
                                        )->Some_0,
                                    )[j] by {}
                                    assert(entries_model(es@) =~= tset(
                                        es0,
                                        seg@,
                                        set_at(tget(es0, seg@), pseq.skip(1), value_model(x))->Some_0,
                                    ));
                                }
                                Walked::Applied(Node::Table(es))
                            },
                            Walked::Deferred(sub_back, xb) => {
                                es.insert(idx, (k0, sub_back));
                                proof {
                                    assert(entries_model(es@) =~= es0);
                                }
                                Walked::Deferred(Node::Table(es), xb)
                            },
                        }
                    },
                    None => {
                        let sub = Node::Table(Vec::new());
                        proof {
                            assert(entries_model(Seq::<(String, Node)>::empty()) =~= Seq::<
                                (Seq<char>, Val),
                            >::empty());
                        }
                        match set_at_exec(sub, p, i + 1, x) {
                            Walked::Applied(nv) => {
                                let key = clone_string(seg);
                                es.push((key, nv));
                                proof {
                                    assert(entries_model(es@) =~= tset(
                                        es0,
                                        seg@,
                                        set_at(
                                            Val::Table(Seq::empty()),
                                            pseq.skip(1),
                                            value_model(x),
                                        )->Some_0,
                                    ));
                                }
                                Walked::Applied(Node::Table(es))
                            },
                            Walked::Deferred(_empty_back, xb) => {
                                Walked::Deferred(Node::Table(es), xb)
                            },
                        }
                    },
                }
            }
        },
        other => Walked::Deferred(other, Some(x)),
    }
}

/// Runtime form of `del_at`, from segment `i` of the path on.
fn del_at_exec(v: Node, p: &TomlPath, i: usize) -> (r: Walked)
    requires
        i < p@.len(),
    ensures
        match del_at(value_model(v), p@.skip(i as int)) {
            Some(nv) => r matches Walked::Applied(t) && value_model(t) == nv,
            None => r matches Walked::Deferred(t, b) && value_model(t) == value_model(v)
                && b is None,
        },
    decreases p@.len() - i,
{
    let ghost pseq = p@.skip(i as int);
    match v {
        Node::Table(mut es) => {
            let ghost es0 = entries_model(es@);
            let seg = p.segment(i);
            proof {
                assert(pseq[0] == seg@);
                lemma_tfind(es0, seg@);
            }
            let found = tbl_find(&es, seg);
            if p.len() - i == 1 {
                match found {
                    Some(idx) => {
                        let _removed = es.remove(idx);
                        proof {
                            assert(entries_model(es@) =~= tdel(es0, seg@));
                        }
                        Walked::Applied(Node::Table(es))
                    },
                    None => {
                        proof {
                            assert(entries_model(es@) =~= tdel(es0, seg@));
                        }
                        Walked::Applied(Node::Table(es))
                    },
                }
            } else {
                proof {
                    assert(pseq.skip(1) =~= p@.skip(i as int + 1));
                }
                match found {
                    Some(idx) => {
                        let (k0, sub) = es.remove(idx);
                        proof {
                            assert(value_model(sub) == tget(es0, seg@));
                        }
                        match del_at_exec(sub, p, i + 1) {
                            Walked::Applied(nv) => {
                                es.insert(idx, (k0, nv));
                                proof {
                                    assert(entries_model(es@) =~= tset(
                                        es0,
                                        seg@,
                                        del_at(tget(es0, seg@), pseq.skip(1))->Some_0,
                                    ));
                                }
                                Walked::Applied(Node::Table(es))
                            },
                            Walked::Deferred(sub_back, _none) => {
                                es.insert(idx, (k0, sub_back));
                                proof {
                                    assert(entries_model(es@) =~= es0);
                                }
                                Walked::Deferred(Node::Table(es), None)
                            },
                        }
                    },
                    None => Walked::Deferred(Node::Table(es), None),
                }
            }
        },
        other => Walked::Deferred(other, None),
    }
}

/// The deferred parts denoted by their runtime carrier.
pub open spec fn defs_model(d: Seq<(Vec<String>, Node)>) -> Deferred {
    Seq::new(
        d.len(),
        |i: int| (crate::text::texts_model(d[i].0@), value_model(d[i].1)),
    )
}

/// Prepend `k` to the path of every carried deferred part.
fn prefix_defs_exec(defs: Vec<(Vec<String>, Node)>, k: &String) -> (r: Vec<(Vec<String>, Node)>)
    ensures
        defs_model(r@) == prefix_defs(defs_model(defs@), k@),
{
    let ghost d0 = defs@;
    let mut dd = defs;
    let mut out: Vec<(Vec<String>, Node)> = Vec::new();
    while dd.len() > 0
        invariant
            out@.len() + dd@.len() == d0.len(),
            dd@ == d0.skip(out@.len() as int),
            defs_model(out@) == prefix_defs(defs_model(d0), k@).take(out@.len() as int),
        decreases dd@.len(),
    {
        let ghost done = out@.len() as int;
        let (mut pathv, val) = dd.remove(0);
        pathv.insert(0, clone_string(k));
        proof {
            assert(crate::text::texts_model(pathv@) =~= seq![k@] + crate::text::texts_model(
                d0[done].0@,
            ));
        }
        out.push((pathv, val));
        proof {
            assert(dd@ =~= d0.skip(done + 1));
            assert(defs_model(out@) =~= prefix_defs(defs_model(d0), k@).take(done + 1));
        }
    }
    proof {
        assert(defs_model(out@) =~= prefix_defs(defs_model(d0), k@));
    }
    out
}

/// Runtime form of `mmerge`.
#[verifier::loop_isolation(false)]
fn mmerge_exec(old_v: Node, new_v: Node) -> (r: (Node, Vec<(Vec<String>, Node)>))
    ensures
        value_model(r.0) == mmerge(value_model(old_v), value_model(new_v)).0,
        defs_model(r.1@) == mmerge(value_model(old_v), value_model(new_v)).1,
    decreases new_v,
{
    match (old_v, new_v) {
        (Node::Int(_), Node::Int(b)) => (Node::Int(b), Vec::new()),
        (Node::Float(_), Node::Float(b)) => (Node::Float(b), Vec::new()),
        (Node::Bool(_), Node::Bool(b)) => (Node::Bool(b), Vec::new()),
        (Node::Text(_), Node::Text(b)) => (Node::Text(b), Vec::new()),
        (Node::Timestamp(_), Node::Timestamp(b)) => (Node::Timestamp(b), Vec::new()),
        (Node::Sequence(_), Node::Sequence(b)) => (Node::Sequence(b), Vec::new()),
        (Node::Table(t1), Node::Table(t2)) => {
            let ghost t1m = entries_model(t1@);
            let ghost t2seq = t2@;
            let ghost full = mmerge_tables(t1m, entries_model(t2seq));
            let mut cur = t1;
            let mut rem = t2;
            let mut defs: Vec<(Vec<String>, Node)> = Vec::new();
            proof {
                assert(rem@ =~= t2seq.skip(0));
                assert(defs_model(defs@) + mmerge_tables(
                    entries_model(cur@),
                    entries_model(rem@),
                ).1 =~= full.1);
            }
            while rem.len() > 0
                invariant
                    rem@.len() <= t2seq.len(),
                    rem@ == t2seq.skip(t2seq.len() - rem@.len()),
                    mmerge_tables(entries_model(cur@), entries_model(rem@)).0 == full.0,
                    defs_model(defs@) + mmerge_tables(
                        entries_model(cur@),
                        entries_model(rem@),
                    ).1 == full.1,
                decreases rem@.len(),
            {
                let ghost j = t2seq.len() - rem@.len();
                let ghost curm = entries_model(cur@);
                let ghost remm = entries_model(rem@);
                let (k, v2) = rem.remove(0);
                proof {
                    assert((k, v2) == t2seq[j]);
                    assert(rem@ =~= t2seq.skip(j + 1));
                    assert(entries_model(rem@) =~= remm.skip(1));
                    assert(remm[0] == (k@, value_model(v2)));
                    lemma_tfind(curm, k@);
                }
                let found = tbl_find(&cur, &k);
                match found {
                    Some(idx) => {
                        let (k0, v1) = cur.remove(idx);
                        proof {
                            assert(value_model(v1) == tget(curm, k@));
                            broadcast use vstd::std_specs::vec::axiom_vec_decreases_to_view;

                            assert(decreases_to!(new_v => new_v->Table_0));
                            assert(decreases_to!(new_v->Table_0 => t2seq));
                            assert(decreases_to!(t2seq => t2seq[j]));
                            assert(decreases_to!(t2seq[j] => t2seq[j].1));
                        }
                        let (m, d) = mmerge_exec(v1, v2);
                        cur.insert(idx, (k0, m));
                        proof {
                            assert(entries_model(cur@) =~= tset(
                                curm,
                                k@,
                                mmerge(tget(curm, k@), remm[0].1).0,
                            ));
                        }
                        let mut prefixed = prefix_defs_exec(d, &k);
                        let ghost defs_before = defs@;
                        defs.append(&mut prefixed);
                        proof {
                            assert(defs_model(defs@) =~= defs_model(defs_before) + prefix_defs(
                                mmerge(tget(curm, k@), remm[0].1).1,
                                k@,
                            ));
                            assert(defs_model(defs@) + mmerge_tables(
                                entries_model(cur@),
                                entries_model(rem@),
                            ).1 =~= full.1);
                        }
                    },
                    None => {
                        cur.push((k, v2));
                        proof {
                            assert(entries_model(cur@) =~= tset(curm, k@, remm[0].1));
                        }
                    },
                }
            }
            proof {
                assert(entries_model(rem@) =~= Seq::<(Seq<char>, Val)>::empty());
                assert(defs_model(defs@) =~= full.1);
            }
            (Node::Table(cur), defs)
        },
        (a, b) => {
            let ghost bm = value_model(b);
            let mut defs: Vec<(Vec<String>, Node)> = Vec::new();
            defs.push((Vec::new(), b));
            proof {
                assert(crate::text::texts_model(Seq::<String>::empty()) =~= Seq::<
                    Seq<char>,
                >::empty());
                assert(defs_model(defs@) =~= seq![(Seq::<Seq<char>>::empty(), bm)]);
            }
            (a, defs)
        },
    }
}

/// Runtime form of `mod_at`, from segment `i` of the path on. The third
/// component carries the payload back when the whole amendment is deferred.
fn mod_at_exec(v: Node, p: &TomlPath, i: usize, x: Node) -> (r: (
    Node,
    Vec<(Vec<String>, Node)>,
    Option<Node>,
))
    requires
        i < p@.len(),
    ensures
        match mod_at(value_model(v), p@.skip(i as int), value_model(x)) {
            Some(pr) => value_model(r.0) == pr.0 && defs_model(r.1@) == pr.1 && r.2 is None,
            None => value_model(r.0) == value_model(v) && r.1@.len() == 0 && (r.2 matches Some(b)
                && value_model(b) == value_model(x)),
        },
    decreases p@.len() - i,
{
    let ghost pseq = p@.skip(i as int);
    match v {
        Node::Table(mut es) => {
            let ghost es0 = entries_model(es@);
            let seg = p.segment(i);
            proof {
                assert(pseq[0] == seg@);
                lemma_tfind(es0, seg@);
            }
            let found = tbl_find(&es, seg);
            match found {
                None => (Node::Table(es), Vec::new(), Some(x)),
                Some(idx) => {
                    if p.len() - i == 1 {
                        let (k0, v1) = es.remove(idx);
                        proof {
                            assert(value_model(v1) == tget(es0, seg@));
                        }
                        let (m, d) = mmerge_exec(v1, x);
                        es.insert(idx, (k0, m));
                        let prefixed = prefix_defs_exec(d, seg);
                        proof {
                            assert(entries_model(es@) =~= tset(
                                es0,
                                seg@,
                                mmerge(tget(es0, seg@), value_model(x)).0,
                            ));
                        }
                        (Node::Table(es), prefixed, None)
                    } else {
                        proof {
                            assert(pseq.skip(1) =~= p@.skip(i as int + 1));
                        }
                        let (k0, v1) = es.remove(idx);
                        proof {
                            assert(value_model(v1) == tget(es0, seg@));
                        }
                        let (nv, d, back) = mod_at_exec(v1, p, i + 1, x);
                        es.insert(idx, (k0, nv));
                        match back {
                            None => {
                                let prefixed = prefix_defs_exec(d, seg);
                                proof {
                                    assert(entries_model(es@) =~= tset(
                                        es0,
                                        seg@,
                                        mod_at(
                                            tget(es0, seg@),
                                            pseq.skip(1),
                                            value_model(x),
                                        )->Some_0.0,
                                    ));
                                }
                                (Node::Table(es), prefixed, None)
                            },
                            Some(xb) => {
                                proof {
                                    assert(entries_model(es@) =~= es0);
                                }
                                (Node::Table(es), d, Some(xb))
                            },
                        }
                    }
                },
            }
        },
        other => (other, Vec::new(), Some(x)),
    }
}

/// The amendments denoted by a runtime list.
pub open spec fn actions_model(v: Seq<crate::path::Action>) -> Seq<ActModel> {
    Seq::new(v.len(), |i: int| v[i]@)
}

/// Apply one amendment to an owned tree. The deferred list is either empty,
/// the amendment itself (its target has not materialized yet), or the
/// re-rooted parts of a structural merge.
pub fn apply_action(tree: Node, a: crate::path::Action) -> (r: (Node, Vec<crate::path::Action>))
    requires
        a@.wf(),
    ensures
        value_model(r.0) == apply_one(value_model(tree), a@).0,
        actions_model(r.1@) == apply_one(value_model(tree), a@).1,
        forall|i: int| 0 <= i < r.1@.len() ==> (#[trigger] r.1@[i])@.wf(),
{
    let ghost tm = value_model(tree);
    let ghost am = a@;
    let crate::path::Action { path, op, value } = a;
    proof {
        assert(path@.skip(0) =~= path@);
    }
    match op {
        Operation::Assign => {
            match value {
                Some(x) => {
                    match set_at_exec(tree, &path, 0, x) {
                        Walked::Applied(nv) => {
                            let r = (nv, Vec::<crate::path::Action>::new());
                            proof {
                                assert(actions_model(r.1@) =~= apply_one(tm, am).1);
                            }
                            r
                        },
                        Walked::Deferred(t0, xb) => {
                            let mut pending: Vec<crate::path::Action> = Vec::new();
                            pending.push(
                                crate::path::Action { path, op: Operation::Assign, value: xb },
                            );
                            proof {
                                assert(actions_model(pending@) =~= seq![am]);
                            }
                            (t0, pending)
                        },
                    }
                },
                None => {
                    let r = (tree, Vec::<crate::path::Action>::new());
                    proof {
                        assert(actions_model(r.1@) =~= apply_one(tm, am).1);
                    }
                    r
                },
            }
        },
        Operation::Modify => {
            match value {
                Some(x) => {
                    let (nv, d, back) = mod_at_exec(tree, &path, 0, x);
                    match back {
                        None => {
                            let ghost dm = defs_model(d@);
                            let mut pending: Vec<crate::path::Action> = Vec::new();
                            let mut dd = d;
                            proof {
                                assert forall|ii: int|
                                    0 <= ii < dm.len() implies (#[trigger] dm[ii]).0.len()
                                    >= 1 by {
                                    assert(mod_at(tm, path@, value_model(x))->Some_0.1[ii]
                                        == dm[ii]);
                                }
                                assert(dd@ =~= dd@.skip(0));
                            }
                            while dd.len() > 0
                                invariant
                                    pending@.len() + dd@.len() == dm.len(),
                                    defs_model(dd@) =~= dm.skip(pending@.len() as int),
                                    actions_model(pending@) == defs_to_actions(dm).take(
                                        pending@.len() as int,
                                    ),
                                    forall|ii: int|
                                        0 <= ii < dm.len() ==> (#[trigger] dm[ii]).0.len() >= 1,
                                    forall|ii: int|
                                        0 <= ii < pending@.len()
                                            ==> (#[trigger] pending@[ii])@.wf(),
                                decreases dd@.len(),
                            {
                                let ghost done = pending@.len() as int;
                                let ghost dd0 = dd@;
                                let (segs, dval) = dd.remove(0);
                                proof {
                                    assert(defs_model(dd0)[0] == dm.skip(done)[0]);
                                    assert((segs, dval) == dd0[0]);
                                    assert(crate::text::texts_model(segs@) == dm[done].0);
                                    assert(value_model(dval) == dm[done].1);
                                    assert forall|j: int|
                                        0 <= j < dd@.len() implies #[trigger] defs_model(dd@)[j]
                                        == dm.skip(done + 1)[j] by {
                                        assert(dd@[j] == dd0[j + 1]);
                                        assert(defs_model(dd0)[j + 1] == dm.skip(done)[j + 1]);
                                    }
                                    assert(defs_model(dd@) =~= dm.skip(done + 1));
                                    assert(segs@.len() > 0);
                                }
                                let dpath = TomlPath::from_segments(segs);
                                let act = crate::path::Action::modify(dpath, dval);
                                pending.push(act);
                                proof {
                                    assert(actions_model(pending@) =~= defs_to_actions(dm).take(
                                        done + 1,
                                    ));
                                }
                            }
                            proof {
                                assert(actions_model(pending@) =~= defs_to_actions(dm));
                            }
                            (nv, pending)
                        },
                        Some(xb) => {
                            let mut pending: Vec<crate::path::Action> = Vec::new();
                            pending.push(
                                crate::path::Action {
                                    path,
                                    op: Operation::Modify,
                                    value: Some(xb),
                                },
                            );
                            proof {
                                assert(actions_model(pending@) =~= seq![am]);
                            }
                            (nv, pending)
                        },
                    }
                },
                None => {
                    let r = (tree, Vec::<crate::path::Action>::new());
                    proof {
                        assert(actions_model(r.1@) =~= apply_one(tm, am).1);
                    }
                    r
                },
            }
        },
        Operation::Delete => {
            match del_at_exec(tree, &path, 0) {
                Walked::Applied(nv) => {
                    let r = (nv, Vec::<crate::path::Action>::new());
                    proof {
                        assert(actions_model(r.1@) =~= apply_one(tm, am).1);
                    }
                    r
                },
                Walked::Deferred(t0, _none) => {
                    let mut pending: Vec<crate::path::Action> = Vec::new();
                    pending.push(crate::path::Action { path, op: Operation::Delete, value: None });
                    proof {
                        assert(actions_model(pending@) =~= seq![am]);
                    }
                    (t0, pending)
                },
            }
        },
    }
}

/// Merge two whole documents, the second winning: matching shapes are
/// replaced, table entries of the second replace or extend those of the
/// first; incompatible shapes fail.
pub fn merge_use_second(a: Node, b: Node) -> (r: Result<Node, crate::error::Error>)
    ensures
        match merge_second(value_model(a), value_model(b)) {
            Some(m) => r matches Ok(v) && value_model(v) == m,
            None => r matches Err(e) && e is MergeFailed,
        },
{
    match (a, b) {
        (Node::Int(_), Node::Int(y)) => Ok(Node::Int(y)),
        (Node::Float(_), Node::Float(y)) => Ok(Node::Float(y)),
        (Node::Bool(_), Node::Bool(y)) => Ok(Node::Bool(y)),
        (Node::Text(_), Node::Text(y)) => Ok(Node::Text(y)),
        (Node::Timestamp(_), Node::Timestamp(y)) => Ok(Node::Timestamp(y)),
        (Node::Sequence(_), Node::Sequence(y)) => Ok(Node::Sequence(y)),
        (Node::Table(t1), Node::Table(t2)) => {
            let ghost t1m = entries_model(t1@);
            let ghost t2seq = t2@;
            let ghost full = flat_merge_tables(t1m, entries_model(t2seq));
            let mut cur = t1;
            let mut rem = t2;
            proof {
                assert(rem@ =~= t2seq.skip(0));
            }
            while rem.len() > 0
                invariant
                    rem@.len() <= t2seq.len(),
                    rem@ == t2seq.skip(t2seq.len() - rem@.len()),
                    flat_merge_tables(entries_model(cur@), entries_model(rem@)) == full,
                decreases rem@.len(),
            {
                let ghost j = t2seq.len() - rem@.len();
                let ghost curm = entries_model(cur@);
                let ghost remm = entries_model(rem@);
                let (k, v2) = rem.remove(0);
                proof {
                    assert((k, v2) == t2seq[j]);
                    assert(rem@ =~= t2seq.skip(j + 1));
                    assert(entries_model(rem@) =~= remm.skip(1));
                    assert(remm[0] == (k@, value_model(v2)));
                    lemma_tfind(curm, k@);
                }
                match tbl_find(&cur, &k) {
                    Some(idx) => {
                        tbl_replace_at(&mut cur, idx, v2);
                        proof {
                            assert(entries_model(cur@) =~= tset(curm, k@, remm[0].1));
                        }
                    },
                    None => {
                        cur.push((k, v2));
                        proof {
                            assert(entries_model(cur@) =~= tset(curm, k@, remm[0].1));
                        }
                    },
                }
            }
            proof {
                assert(entries_model(rem@) =~= Seq::<(Seq<char>, Val)>::empty());
            }
            Ok(Node::Table(cur))
        },
        (_, _) => Err(crate::error::Error::MergeFailed),
    }
}

} // verus!
