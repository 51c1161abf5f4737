use vstd::prelude::*;

verus! {

/// Mathematical model of a document tree: scalars, ordered sequences, and
/// tables of uniquely keyed entries. Floats are carried as their raw bit
/// pattern, timestamps as their textual form; the engine never computes
/// with either, it only stores and moves them.
pub enum Val {
    Int(int),
    Float(u64),
    Bool(bool),
    Text(Seq<char>),
    Timestamp(Seq<char>),
    Sequence(Seq<Val>),
    Table(Seq<(Seq<char>, Val)>),
}

/// A node of a document tree, as held at run time.
#[derive(Debug, PartialEq)]
pub enum Node {
    Int(i64),
    Float(u64),
    Bool(bool),
    Text(String),
    Timestamp(String),
    Sequence(Vec<Node>),
    Table(Vec<(String, Node)>),
}

/// The tree denoted by a run-time node.
pub open spec fn value_model(v: Node) -> Val
    decreases v,
{
    match v {
        Node::Int(i) => Val::Int(i as int),
        Node::Float(bits) => Val::Float(bits),
        Node::Bool(b) => Val::Bool(b),
        Node::Text(s) => Val::Text(s@),
        Node::Timestamp(s) => Val::Timestamp(s@),
        Node::Sequence(xs) => Val::Sequence(seq_model(xs@)),
        Node::Table(es) => Val::Table(entries_model(es@)),
    }
}

/// Pointwise model of a run-time sequence of nodes.
pub open spec fn seq_model(xs: Seq<Node>) -> Seq<Val>
    decreases xs,
{
    Seq::new(
        xs.len(),
        |i: int|
            if 0 <= i < xs.len() {
                value_model(xs[i])
            } else {
                Val::Bool(false)
            },
    )
}

/// Pointwise model of run-time table entries.
pub open spec fn entries_model(es: Seq<(String, Node)>) -> Seq<(Seq<char>, Val)>
    decreases es,
{
    Seq::new(
        es.len(),
        |i: int|
            if 0 <= i < es.len() {
                (es[i].0@, value_model(es[i].1))
            } else {
                (Seq::empty(), Val::Bool(false))
            },
    )
}

impl View for Node {
    type V = Val;

    open spec fn view(&self) -> Val {
        value_model(*self)
    }
}

/// All keys of a table are pairwise distinct.
pub open spec fn keys_distinct(es: Seq<(Seq<char>, Val)>) -> bool {
    forall|i: int, j: int| 0 <= i < j < es.len() ==> es[i].0 != es[j].0
}

/// A tree is well formed when every table in it has pairwise distinct keys.
pub open spec fn wf(v: Val) -> bool
    decreases v,
{
    match v {
        Val::Sequence(xs) => wf_seq(xs),
        Val::Table(es) => keys_distinct(es) && wf_entries(es),
        _ => true,
    }
}

/// Every element of the sequence is well formed.
pub open spec fn wf_seq(xs: Seq<Val>) -> bool
    decreases xs,
{
    if xs.len() == 0 {
        true
    } else {
        wf(xs[0]) && wf_seq(xs.skip(1))
    }
}

/// Every entry's value is well formed.
pub open spec fn wf_entries(es: Seq<(Seq<char>, Val)>) -> bool
    decreases es,
{
    if es.len() == 0 {
        true
    } else {
        wf(es[0].1) && wf_entries(es.skip(1))
    }
}

/// Pointwise reading of `wf_seq`.
pub proof fn lemma_wf_seq_index(xs: Seq<Val>, i: int)
    requires
        wf_seq(xs),
        0 <= i < xs.len(),
    ensures
        wf(xs[i]),
    decreases xs.len(),
{
    if i > 0 {
        lemma_wf_seq_index(xs.skip(1), i - 1);
        assert(xs.skip(1)[i - 1] == xs[i]);
    }
}

/// Pointwise reading of `wf_entries`.
pub proof fn lemma_wf_entries_index(es: Seq<(Seq<char>, Val)>, i: int)
    requires
        wf_entries(es),
        0 <= i < es.len(),
    ensures
        wf(es[i].1),
    decreases es.len(),
{
    if i > 0 {
        lemma_wf_entries_index(es.skip(1), i - 1);
        assert(es.skip(1)[i - 1] == es[i]);
    }
}

/// Pointwise well-formedness suffices for `wf_entries`.
pub proof fn lemma_wf_entries_intro(es: Seq<(Seq<char>, Val)>)
    requires
        forall|i: int| 0 <= i < es.len() ==> wf((#[trigger] es[i]).1),
    ensures
        wf_entries(es),
    decreases es.len(),
{
    if es.len() > 0 {
        assert forall|i: int| 0 <= i < es.skip(1).len() implies wf(
            (#[trigger] es.skip(1)[i]).1,
        ) by {
            assert(es.skip(1)[i] == es[i + 1]);
        }
        lemma_wf_entries_intro(es.skip(1));
    }
}

/// Pointwise well-formedness suffices for `wf_seq`.
pub proof fn lemma_wf_seq_intro(xs: Seq<Val>)
    requires
        forall|i: int| 0 <= i < xs.len() ==> wf(#[trigger] xs[i]),
    ensures
        wf_seq(xs),
    decreases xs.len(),
{
    if xs.len() > 0 {
        assert forall|i: int| 0 <= i < xs.skip(1).len() implies wf(#[trigger] xs.skip(1)[i]) by {
            assert(xs.skip(1)[i] == xs[i + 1]);
        }
        lemma_wf_seq_intro(xs.skip(1));
    }
}

impl Node {
    /// Structural copy; the copy denotes the same tree.
    #[verifier::loop_isolation(false)]
    pub fn dup(&self) -> (r: Node)
        ensures
            r@ == self@,
        decreases self,
    {
        match self {
            Node::Int(i) => Node::Int(*i),
            Node::Float(bits) => Node::Float(*bits),
            Node::Bool(b) => Node::Bool(*b),
            Node::Text(s) => Node::Text(clone_string(s)),
            Node::Timestamp(s) => Node::Timestamp(clone_string(s)),
            Node::Sequence(xs) => {
                let mut out: Vec<Node> = Vec::new();
                let mut k: usize = 0;
                while k < xs.len()
                    invariant
                        k <= xs.len(),
                        out@.len() == k,
                        forall|i: int|
                            0 <= i < k ==> value_model(out@[i]) == value_model(#[trigger] xs@[i]),
                    decreases xs.len() - k,
                {
                    proof {
                        broadcast use vstd::std_specs::vec::axiom_vec_decreases_to_view;

                        assert(decreases_to!(*self => self->Sequence_0));
                        assert(decreases_to!(self->Sequence_0 => self->Sequence_0@));
                        assert(decreases_to!(xs@ => xs@[k as int]));
                    }
                    out.push(xs[k].dup());
                    k = k + 1;
                }
                assert(seq_model(out@) =~= seq_model(xs@));
                Node::Sequence(out)
            },
            Node::Table(es) => {
                let mut out: Vec<(String, Node)> = Vec::new();
                let mut k: usize = 0;
                while k < es.len()
                    invariant
                        k <= es.len(),
                        out@.len() == k,
                        forall|i: int|
                            0 <= i < k ==> out@[i].0@ == (#[trigger] es@[i]).0@ && value_model(
                                out@[i].1,
                            ) == value_model(es@[i].1),
                    decreases es.len() - k,
                {
                    proof {
                        broadcast use vstd::std_specs::vec::axiom_vec_decreases_to_view;

                        assert(decreases_to!(*self => self->Table_0));
                        assert(decreases_to!(self->Table_0 => self->Table_0@));
                        assert(decreases_to!(es@ => es@[k as int]));
                        assert(decreases_to!(es@[k as int] => es@[k as int].1));
                    }
                    let key = clone_string(&es[k].0);
                    let v = es[k].1.dup();
                    out.push((key, v));
                    k = k + 1;
                }
                assert(entries_model(out@) =~= entries_model(es@));
                Node::Table(out)
            },
        }
    }
}

pub fn clone_string(s: &String) -> (r: String)
    ensures
        r@ == s@,
{
    s.clone()
}

/// Index of the first entry with key `k`, or -1 when no entry has it.
pub open spec fn tfind(es: Seq<(Seq<char>, Val)>, k: Seq<char>) -> int
    decreases es.len(),
{
    if es.len() == 0 {
        -1
    } else if es[0].0 == k {
        0
    } else {
        let r = tfind(es.drop_first(), k);
        if r < 0 {
            -1
        } else {
            r + 1
        }
    }
}

pub open spec fn thas(es: Seq<(Seq<char>, Val)>, k: Seq<char>) -> bool {
    tfind(es, k) >= 0
}

/// The value bound to `k` (meaningful only when `thas(es, k)`).
pub open spec fn tget(es: Seq<(Seq<char>, Val)>, k: Seq<char>) -> Val {
    es[tfind(es, k)].1
}

/// Bind `k` to `v`: replace the first entry with key `k` in place, or append
/// a new entry when the key is absent.
pub open spec fn tset(es: Seq<(Seq<char>, Val)>, k: Seq<char>, v: Val) -> Seq<(Seq<char>, Val)> {
    if thas(es, k) {
        es.update(tfind(es, k), (k, v))
    } else {
        es.push((k, v))
    }
}

/// Remove the first entry with key `k`; identity when the key is absent.
pub open spec fn tdel(es: Seq<(Seq<char>, Val)>, k: Seq<char>) -> Seq<(Seq<char>, Val)> {
    if thas(es, k) {
        es.remove(tfind(es, k))
    } else {
        es
    }
}

/// `tfind` returns the position of the first entry with key `k`, and -1
/// exactly when no entry has that key.
pub proof fn lemma_tfind(es: Seq<(Seq<char>, Val)>, k: Seq<char>)
    ensures
        tfind(es, k) == -1 || (0 <= tfind(es, k) < es.len()),
        tfind(es, k) == -1 ==> forall|i: int| 0 <= i < es.len() ==> es[i].0 != k,
        tfind(es, k) >= 0 ==> es[tfind(es, k)].0 == k,
        tfind(es, k) >= 0 ==> forall|i: int| 0 <= i < tfind(es, k) ==> es[i].0 != k,
    decreases es.len(),
{
    if es.len() == 0 {
    } else if es[0].0 == k {
    } else {
        lemma_tfind(es.drop_first(), k);
        assert forall|i: int| 1 <= i < es.len() implies es.drop_first()[i - 1] == es[i] by {}
    }
}

/// Find the first entry of a run-time table whose key is `k`.
pub fn tbl_find(es: &Vec<(String, Node)>, k: &String) -> (r: Option<usize>)
    ensures
        match r {
            Some(i) => tfind(entries_model(es@), k@) == i,
            None => tfind(entries_model(es@), k@) == -1,
        },
{
    proof {
        lemma_tfind(entries_model(es@), k@);
    }
    let mut i: usize = 0;
    while i < es.len()
        invariant
            i <= es.len(),
            forall|j: int| 0 <= j < i ==> entries_model(es@)[j].0 != k@,
        decreases es.len() - i,
    {
        if es[i].0 == *k {
            proof {
                lemma_tfind_found(entries_model(es@), k@, i as int);
            }
            return Some(i);
        }
        i = i + 1;
    }
    proof {
        lemma_tfind(entries_model(es@), k@);
        if tfind(entries_model(es@), k@) >= 0 {
            assert(entries_model(es@)[tfind(entries_model(es@), k@)].0 == k@);
        }
    }
    None
}

/// A table without `k` anywhere has `tfind` equal to -1.
pub proof fn lemma_tfind_absent(es: Seq<(Seq<char>, Val)>, k: Seq<char>)
    requires
        forall|i: int| 0 <= i < es.len() ==> (#[trigger] es[i]).0 != k,
    ensures
        tfind(es, k) == -1,
{
    lemma_tfind(es, k);
    if tfind(es, k) >= 0 {
        assert(es[tfind(es, k)].0 == k);
    }
}

/// After binding `k`, the table holds `v` at `k`, found where `k` was found
/// before (or appended when it was absent).
pub proof fn lemma_tset_same(es: Seq<(Seq<char>, Val)>, k: Seq<char>, v: Val)
    ensures
        thas(tset(es, k, v), k),
        tget(tset(es, k, v), k) == v,
        thas(es, k) ==> tfind(tset(es, k, v), k) == tfind(es, k),
        !thas(es, k) ==> tfind(tset(es, k, v), k) == es.len(),
{
    lemma_tfind(es, k);
    let es2 = tset(es, k, v);
    if thas(es, k) {
        let i = tfind(es, k);
        assert forall|j: int| 0 <= j < i implies es2[j].0 != k by {
            assert(es2[j] == es[j]);
        }
        lemma_tfind_found(es2, k, i);
    } else {
        assert forall|j: int| 0 <= j < es.len() implies es2[j].0 != k by {
            assert(es2[j] == es[j]);
        }
        lemma_tfind_found(es2, k, es.len() as int);
    }
}

/// Binding one key leaves every other key bound as before.
pub proof fn lemma_tset_other(es: Seq<(Seq<char>, Val)>, k2: Seq<char>, v: Val, k: Seq<char>)
    requires
        k != k2,
    ensures
        tfind(tset(es, k2, v), k) == tfind(es, k),
        thas(tset(es, k2, v), k) == thas(es, k),
        thas(es, k) ==> tget(tset(es, k2, v), k) == tget(es, k),
{
    lemma_tfind(es, k);
    lemma_tfind(es, k2);
    let es2 = tset(es, k2, v);
    if thas(es, k) {
        let i = tfind(es, k);
        assert(es2[i] == es[i]);
        assert forall|j: int| 0 <= j < i implies es2[j].0 != k by {
            if thas(es, k2) && j == tfind(es, k2) {
                assert(es2[j].0 == k2);
            } else {
                assert(es2[j] == es[j]);
            }
        }
        lemma_tfind_found(es2, k, i);
    } else {
        assert forall|j: int| 0 <= j < es2.len() implies (#[trigger] es2[j]).0 != k by {
            if thas(es, k2) && j == tfind(es, k2) {
                assert(es2[j].0 == k2);
            } else if j < es.len() {
                assert(es2[j] == es[j]);
            } else {
                assert(es2[j].0 == k2);
            }
        }
        lemma_tfind_absent(es2, k);
    }
}

/// In a table with pairwise distinct keys, removing `k` removes it entirely.
pub proof fn lemma_tdel_unique(es: Seq<(Seq<char>, Val)>, k: Seq<char>)
    requires
        forall|i: int, j: int| 0 <= i < j < es.len() ==> es[i].0 != es[j].0,
    ensures
        !thas(tdel(es, k), k),
        tdel(tdel(es, k), k) == tdel(es, k),
{
    lemma_tfind(es, k);
    let es2 = tdel(es, k);
    if thas(es, k) {
        let i = tfind(es, k);
        assert forall|j: int| 0 <= j < es2.len() implies (#[trigger] es2[j]).0 != k by {
            if j < i {
                assert(es2[j] == es[j]);
            } else {
                assert(es2[j] == es[j + 1]);
                assert(es[i].0 == k);
            }
        }
        lemma_tfind_absent(es2, k);
    } else {
        lemma_tfind_absent(es2, k);
    }
}

/// In a well-formed table every entry's value is well formed, and keys are
/// pairwise distinct.
pub proof fn lemma_wf_table(es: Seq<(Seq<char>, Val)>)
    requires
        wf(Val::Table(es)),
    ensures
        forall|i: int| 0 <= i < es.len() ==> wf((#[trigger] es[i]).1),
        keys_distinct(es),
{
    assert forall|i: int| 0 <= i < es.len() implies wf((#[trigger] es[i]).1) by {
        lemma_wf_entries_index(es, i);
    }
}

/// If position `i` holds key `k` and no earlier position does, `tfind` is `i`.
pub proof fn lemma_tfind_found(es: Seq<(Seq<char>, Val)>, k: Seq<char>, i: int)
    requires
        0 <= i < es.len(),
        es[i].0 == k,
        forall|j: int| 0 <= j < i ==> es[j].0 != k,
    ensures
        tfind(es, k) == i,
    decreases es.len(),
{
    if i == 0 {
    } else {
        assert forall|j: int| 0 <= j < i - 1 implies es.drop_first()[j].0 != k by {
            assert(es.drop_first()[j] == es[j + 1]);
        }
        assert(es.drop_first()[i - 1] == es[i]);
        lemma_tfind_found(es.drop_first(), k, i - 1);
    }
}

} // verus!
