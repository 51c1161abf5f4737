use vstd::prelude::*;
use crate::value::clone_string;
use crate::value::entries_model;
use crate::value::lemma_tfind;
use crate::value::seq_model;
use crate::value::tbl_find;
use crate::value::tget;
use crate::value::thas;
use crate::value::value_model;
use crate::value::Val;
use crate::value::Node;
use crate::text::texts_model;

verus! {

/// An address inside a tree: at each level the position of the child to
/// descend into — of the entry for tables, of the element for sequences.
pub open spec fn loc_model(l: Seq<usize>) -> Seq<int> {
    Seq::new(l.len(), |i: int| l[i] as int)
}

/// The address leads through in-range positions.
pub open spec fn loc_valid(v: Val, loc: Seq<int>) -> bool
    decreases loc.len(),
{
    if loc.len() == 0 {
        true
    } else {
        match v {
            Val::Table(es) => 0 <= loc[0] < es.len() && loc_valid(es[loc[0]].1, loc.skip(1)),
            Val::Sequence(xs) => 0 <= loc[0] < xs.len() && loc_valid(xs[loc[0]], loc.skip(1)),
            _ => false,
        }
    }
}

/// The node the address points at.
pub open spec fn node_at(v: Val, loc: Seq<int>) -> Val
    decreases loc.len(),
{
    if loc.len() == 0 {
        v
    } else {
        match v {
            Val::Table(es) => node_at(es[loc[0]].1, loc.skip(1)),
            Val::Sequence(xs) => node_at(xs[loc[0]], loc.skip(1)),
            _ => v,
        }
    }
}

/// The tree with the node at the address replaced by `x`; a table entry
/// keeps its key (meaningful only for valid addresses).
pub open spec fn replace_at(v: Val, loc: Seq<int>, x: Val) -> Val
    decreases loc.len(),
{
    if loc.len() == 0 {
        x
    } else {
        match v {
            Val::Table(es) => Val::Table(
                es.update(loc[0], (es[loc[0]].0, replace_at(es[loc[0]].1, loc.skip(1), x))),
            ),
            Val::Sequence(xs) => Val::Sequence(
                xs.update(loc[0], replace_at(xs[loc[0]], loc.skip(1), x)),
            ),
            _ => v,
        }
    }
}

/// The first registered key, in registration order, present in the table.
pub open spec fn first_key(es: Seq<(Seq<char>, Val)>, keys: Seq<Seq<char>>) -> Option<Seq<char>>
    decreases keys.len(),
{
    if keys.len() == 0 {
        None
    } else if thas(es, keys[0]) {
        Some(keys[0])
    } else {
        first_key(es, keys.skip(1))
    }
}

/// The first directive site in the tree, in document order: at each table,
/// the registered keys are checked first, then the children in entry order;
/// sequences are searched element by element.
pub open spec fn first_site(v: Val, keys: Seq<Seq<char>>) -> Option<(Seq<int>, Seq<char>)>
    decreases v, 0int,
{
    match v {
        Val::Table(es) => {
            match first_key(es, keys) {
                Some(k) => Some((Seq::empty(), k)),
                None => first_site_entries(es, keys, 0),
            }
        },
        Val::Sequence(xs) => first_site_elems(xs, keys, 0),
        _ => None,
    }
}

/// The first directive site under any entry of `es` from position `j` on.
pub open spec fn first_site_entries(
    es: Seq<(Seq<char>, Val)>,
    keys: Seq<Seq<char>>,
    j: int,
) -> Option<(Seq<int>, Seq<char>)>
    decreases es, es.len() - j,
{
    if j < 0 || j >= es.len() {
        None
    } else {
        match first_site(es[j].1, keys) {
            Some(r) => Some((seq![j] + r.0, r.1)),
            None => first_site_entries(es, keys, j + 1),
        }
    }
}

/// The first directive site under any element of `xs` from position `j` on.
pub open spec fn first_site_elems(xs: Seq<Val>, keys: Seq<Seq<char>>, j: int) -> Option<
    (Seq<int>, Seq<char>),
>
    decreases xs, xs.len() - j,
{
    if j < 0 || j >= xs.len() {
        None
    } else {
        match first_site(xs[j], keys) {
            Some(r) => Some((seq![j] + r.0, r.1)),
            None => first_site_elems(xs, keys, j + 1),
        }
    }
}

/// Some table in the tree holds a registered key as a direct child.
pub open spec fn has_dir(v: Val, keys: Seq<Seq<char>>) -> bool
    decreases v, 0int,
{
    match v {
        Val::Table(es) => first_key(es, keys) is Some || has_dir_entries(es, keys, 0),
        Val::Sequence(xs) => has_dir_elems(xs, keys, 0),
        _ => false,
    }
}

pub open spec fn has_dir_entries(es: Seq<(Seq<char>, Val)>, keys: Seq<Seq<char>>, j: int) -> bool
    decreases es, es.len() - j,
{
    if j < 0 || j >= es.len() {
        false
    } else {
        has_dir(es[j].1, keys) || has_dir_entries(es, keys, j + 1)
    }
}

pub open spec fn has_dir_elems(xs: Seq<Val>, keys: Seq<Seq<char>>, j: int) -> bool
    decreases xs, xs.len() - j,
{
    if j < 0 || j >= xs.len() {
        false
    } else {
        has_dir(xs[j], keys) || has_dir_elems(xs, keys, j + 1)
    }
}

/// Law: the search finds a site exactly in the trees that hold a reserved
/// directive key — so a resolve pass fires a resolver, and reports a change,
/// exactly on such trees, and is a no-op on all others.
pub proof fn lemma_site_iff_directive(v: Val, keys: Seq<Seq<char>>)
    ensures
        first_site(v, keys) is Some <==> has_dir(v, keys),
    decreases v, 0int,
{
    match v {
        Val::Table(es) => {
            if first_key(es, keys) is Some {
            } else {
                lemma_site_iff_directive_entries(es, keys, 0);
            }
        },
        Val::Sequence(xs) => {
            lemma_site_iff_directive_elems(xs, keys, 0);
        },
        _ => {},
    }
}

proof fn lemma_site_iff_directive_entries(es: Seq<(Seq<char>, Val)>, keys: Seq<Seq<char>>, j: int)
    ensures
        first_site_entries(es, keys, j) is Some <==> has_dir_entries(es, keys, j),
    decreases es, es.len() - j,
{
    if 0 <= j < es.len() {
        lemma_site_iff_directive(es[j].1, keys);
        lemma_site_iff_directive_entries(es, keys, j + 1);
    }
}

proof fn lemma_site_iff_directive_elems(xs: Seq<Val>, keys: Seq<Seq<char>>, j: int)
    ensures
        first_site_elems(xs, keys, j) is Some <==> has_dir_elems(xs, keys, j),
    decreases xs, xs.len() - j,
{
    if 0 <= j < xs.len() {
        lemma_site_iff_directive(xs[j], keys);
        lemma_site_iff_directive_elems(xs, keys, j + 1);
    }
}

/// A found directive: where its enclosing table stands, which registered key
/// fired, and the directive's value.
pub struct Site {
    pub loc: Vec<usize>,
    pub key: String,
    pub directive: Node,
}

impl Site {
    /// The found site is the first one, its address is valid, and the
    /// carried directive value is the one stored at the site.
    pub open spec fn describes(&self, v: Val, keys: Seq<Seq<char>>) -> bool {
        &&& first_site(v, keys) == Some((loc_model(self.loc@), self.key@))
        &&& loc_valid(v, loc_model(self.loc@))
        &&& (node_at(v, loc_model(self.loc@)) matches Val::Table(es) && thas(es, self.key@)
            && value_model(self.directive) == tget(es, self.key@))
        &&& exists|i: int| 0 <= i < keys.len() && keys[i] == self.key@
    }
}

/// Find the first directive site, if any.
#[verifier::loop_isolation(false)]
pub fn find_directive(v: &Node, keys: &Vec<String>) -> (r: Option<Site>)
    ensures
        match r {
            Some(site) => site.describes(value_model(*v), texts_model(keys@)),
            None => first_site(value_model(*v), texts_model(keys@)) is None,
        },
    decreases v,
{
    let ghost vm = value_model(*v);
    let ghost km = texts_model(keys@);
    match v {
        Node::Table(es) => {
            let ghost esm = entries_model(es@);
            proof {
                assert(km.skip(0) =~= km);
            }
            let mut j: usize = 0;
            while j < keys.len()
                invariant
                    j <= keys@.len(),
                    first_key(esm, km) == first_key(esm, km.skip(j as int)),
                decreases keys@.len() - j,
            {
                proof {
                    assert(km.skip(j as int)[0] == keys@[j as int]@);
                    assert(km.skip(j as int).skip(1) =~= km.skip(j as int + 1));
                    lemma_tfind(esm, keys@[j as int]@);
                }
                match tbl_find(es, &keys[j]) {
                    Some(idx) => {
                        let site = Site {
                            loc: Vec::new(),
                            key: clone_string(&keys[j]),
                            directive: es[idx].1.dup(),
                        };
                        proof {
                            assert(loc_model(site.loc@) =~= Seq::<int>::empty());
                            assert(first_key(esm, km) == Some(keys@[j as int]@));
                            assert(node_at(vm, loc_model(site.loc@)) == vm);
                            assert(value_model(site.directive) == esm[
                                crate::value::tfind(esm, site.key@)
                            ].1);
                        }
                        return Some(site);
                    },
                    None => {},
                }
                j = j + 1;
            }
            proof {
                assert(km.skip(keys@.len() as int) =~= Seq::<Seq<char>>::empty());
                assert(first_key(esm, km) is None);
            }
            let mut k: usize = 0;
            while k < es.len()
                invariant
                    k <= es@.len(),
                    first_site_entries(esm, km, 0) == first_site_entries(esm, km, k as int),
                decreases es@.len() - k,
            {
                proof {
                    broadcast use vstd::std_specs::vec::axiom_vec_decreases_to_view;

                    assert(decreases_to!(*v => v->Table_0));
                    assert(decreases_to!(v->Table_0 => v->Table_0@));
                    assert(decreases_to!(es@ => es@[k as int]));
                    assert(decreases_to!(es@[k as int] => es@[k as int].1));
                }
                match find_directive(&es[k].1, keys) {
                    Some(site) => {
                        let Site { loc, key, directive } = site;
                        let ghost loc0 = loc@;
                        let mut loc2 = loc;
                        loc2.insert(0, k);
                        proof {
                            assert(loc_model(loc2@) =~= seq![k as int] + loc_model(loc0));
                            assert(esm[k as int].1 == value_model(es@[k as int].1));
                            assert(first_site_entries(esm, km, k as int) == Some(
                                (loc_model(loc2@), key@),
                            ));
                            assert(loc_model(loc2@).skip(1) =~= loc_model(loc0));
                        }
                        return Some(Site { loc: loc2, key, directive });
                    },
                    None => {},
                }
                k = k + 1;
            }
            proof {
                assert(first_site_entries(esm, km, es@.len() as int) is None);
            }
            None
        },
        Node::Sequence(xs) => {
            let ghost xsm = seq_model(xs@);
            let mut k: usize = 0;
            while k < xs.len()
                invariant
                    k <= xs@.len(),
                    first_site_elems(xsm, km, 0) == first_site_elems(xsm, km, k as int),
                decreases xs@.len() - k,
            {
                proof {
                    broadcast use vstd::std_specs::vec::axiom_vec_decreases_to_view;

                    assert(decreases_to!(*v => v->Sequence_0));
                    assert(decreases_to!(v->Sequence_0 => v->Sequence_0@));
                    assert(decreases_to!(xs@ => xs@[k as int]));
                }
                match find_directive(&xs[k], keys) {
                    Some(site) => {
                        let Site { loc, key, directive } = site;
                        let ghost loc0 = loc@;
                        let mut loc2 = loc;
                        loc2.insert(0, k);
                        proof {
                            assert(loc_model(loc2@) =~= seq![k as int] + loc_model(loc0));
                            assert(xsm[k as int] == value_model(xs@[k as int]));
                            assert(first_site_elems(xsm, km, k as int) == Some(
                                (loc_model(loc2@), key@),
                            ));
                            assert(loc_model(loc2@).skip(1) =~= loc_model(loc0));
                        }
                        return Some(Site { loc: loc2, key, directive });
                    },
                    None => {},
                }
                k = k + 1;
            }
            proof {
                assert(first_site_elems(xsm, km, xs@.len() as int) is None);
            }
            None
        },
        _ => None,
    }
}

/// Replace the node at a valid address, keeping a table entry's key.
#[verifier::loop_isolation(false)]
pub fn replace_at_exec(v: Node, loc: &Vec<usize>, i: usize, x: Node) -> (r: Node)
    requires
        i <= loc@.len(),
        loc_valid(value_model(v), loc_model(loc@).skip(i as int)),
    ensures
        value_model(r) == replace_at(value_model(v), loc_model(loc@).skip(i as int), value_model(x)),
    decreases loc@.len() - i,
{
    let ghost locs = loc_model(loc@).skip(i as int);
    if i == loc.len() {
        x
    } else {
        proof {
            assert(locs[0] == loc@[i as int] as int);
            assert(locs.skip(1) =~= loc_model(loc@).skip(i as int + 1));
        }
        let j = loc[i];
        match v {
            Node::Table(mut es) => {
                let ghost esm = entries_model(es@);
                let (k0, sub) = es.remove(j);
                let nv = replace_at_exec(sub, loc, i + 1, x);
                es.insert(j, (k0, nv));
                proof {
                    assert(entries_model(es@) =~= esm.update(
                        j as int,
                        (esm[j as int].0, value_model(nv)),
                    ));
                }
                Node::Table(es)
            },
            Node::Sequence(mut xs) => {
                let ghost xsm = seq_model(xs@);
                let sub = xs.remove(j);
                let nv = replace_at_exec(sub, loc, i + 1, x);
                xs.insert(j, nv);
                proof {
                    assert(seq_model(xs@) =~= xsm.update(j as int, value_model(nv)));
                }
                Node::Sequence(xs)
            },
            other => other,
        }
    }
}

} // verus!
