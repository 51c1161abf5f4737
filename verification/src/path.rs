use vstd::prelude::*;
use crate::text;
use crate::value::clone_string;
use crate::value::value_model;
use crate::value::Val;
use crate::value::Node;

verus! {

/// A dotted path addressing a node in a document tree: a non-empty list of
/// key segments. A path never changes once built; deferral builds new paths
/// with `with_prefix`.
pub struct TomlPath {
    segs: Vec<String>,
}

impl View for TomlPath {
    type V = Seq<Seq<char>>;

    closed spec fn view(&self) -> Seq<Seq<char>> {
        text::texts_model(self.segs@)
    }
}

impl TomlPath {
    /// Paths are non-empty: even the empty text parses to one empty segment.
    pub open spec fn wf(&self) -> bool {
        self@.len() > 0
    }

    /// Split `text` on dots; never fails, empty segments are kept.
    pub fn parse(text_in: &str) -> (r: TomlPath)
        ensures
            r@ == text::split_char(text_in@, '.'),
            r.wf(),
    {
        let segs = text::split_by(text_in, '.');
        TomlPath { segs }
    }

    /// A path from explicit segments.
    pub fn from_segments(segs: Vec<String>) -> (r: TomlPath)
        requires
            segs@.len() > 0,
        ensures
            r@ == text::texts_model(segs@),
            r.wf(),
    {
        TomlPath { segs }
    }

    /// The dotted text form: segments joined with dots.
    pub fn to_text(&self) -> (r: String)
        ensures
            r@ == text::join_char(self@, '.'),
    {
        text::join_dots(&self.segs)
    }

    /// A new path with `pre` prepended; the receiver is unchanged.
    pub fn with_prefix(&self, pre: &Vec<String>) -> (r: TomlPath)
        ensures
            r@ == text::texts_model(pre@) + self@,
    {
        let mut segs: Vec<String> = Vec::new();
        let mut i: usize = 0;
        while i < pre.len()
            invariant
                i <= pre@.len(),
                segs@.len() == i,
                forall|j: int| 0 <= j < i ==> segs@[j]@ == #[trigger] pre@[j]@,
            decreases pre@.len() - i,
        {
            segs.push(clone_string(&pre[i]));
            i = i + 1;
        }
        let mut k: usize = 0;
        while k < self.segs.len()
            invariant
                k <= self.segs@.len(),
                segs@.len() == pre@.len() + k,
                forall|j: int| 0 <= j < pre@.len() ==> segs@[j]@ == #[trigger] pre@[j]@,
                forall|j: int|
                    0 <= j < k ==> segs@[pre@.len() + j]@ == #[trigger] self.segs@[j]@,
            decreases self.segs@.len() - k,
        {
            segs.push(clone_string(&self.segs[k]));
            k = k + 1;
        }
        let r = TomlPath { segs };
        proof {
            assert(r@ =~= text::texts_model(pre@) + self@);
        }
        r
    }

    pub fn len(&self) -> (n: usize)
        ensures
            n == self@.len(),
    {
        self.segs.len()
    }

    /// The `i`-th segment.
    pub fn segment(&self, i: usize) -> (r: &String)
        requires
            i < self@.len(),
        ensures
            r@ == self@[i as int],
    {
        &self.segs[i]
    }

    /// Structural copy denoting the same path.
    pub fn dup(&self) -> (r: TomlPath)
        ensures
            r@ == self@,
    {
        let mut segs: Vec<String> = Vec::new();
        let mut i: usize = 0;
        while i < self.segs.len()
            invariant
                i <= self.segs@.len(),
                segs@.len() == i,
                forall|j: int| 0 <= j < i ==> segs@[j]@ == #[trigger] self.segs@[j]@,
            decreases self.segs@.len() - i,
        {
            segs.push(clone_string(&self.segs[i]));
            i = i + 1;
        }
        let r = TomlPath { segs };
        proof {
            assert(r@ =~= self@);
        }
        r
    }
}

/// What an amendment does at its path.
#[derive(Clone, Copy, PartialEq, Eq, Structural, Debug)]
pub enum Operation {
    Assign,
    Modify,
    Delete,
}

/// One pending amendment: an operation bound to a path, with a payload for
/// `Set` and `Modify`.
pub struct Action {
    pub path: TomlPath,
    pub op: Operation,
    pub value: Option<Node>,
}

/// Ghost form of an action.
pub struct ActModel {
    pub path: Seq<Seq<char>>,
    pub op: Operation,
    pub val: Option<Val>,
}

impl View for Action {
    type V = ActModel;

    open spec fn view(&self) -> ActModel {
        ActModel {
            path: self.path@,
            op: self.op,
            val: match self.value {
                Some(v) => Some(value_model(v)),
                None => None,
            },
        }
    }
}

impl ActModel {
    /// A payload accompanies exactly the operations that use one.
    pub open spec fn wf(self) -> bool {
        &&& self.path.len() > 0
        &&& (self.op is Delete <==> self.val is None)
    }
}

impl Action {
    pub fn assign(path: TomlPath, value: Node) -> (r: Action)
        requires
            path.wf(),
        ensures
            r@ == (ActModel { path: path@, op: Operation::Assign, val: Some(value@) }),
            r@.wf(),
    {
        Action { path, op: Operation::Assign, value: Some(value) }
    }

    pub fn modify(path: TomlPath, value: Node) -> (r: Action)
        requires
            path.wf(),
        ensures
            r@ == (ActModel { path: path@, op: Operation::Modify, val: Some(value@) }),
            r@.wf(),
    {
        Action { path, op: Operation::Modify, value: Some(value) }
    }

    pub fn delete(path: TomlPath) -> (r: Action)
        requires
            path.wf(),
        ensures
            r@ == (ActModel { path: path@, op: Operation::Delete, val: None }),
            r@.wf(),
    {
        Action { path, op: Operation::Delete, value: None }
    }
}

} // verus!
