use vstd::prelude::*;
use crate::text::sort_texts;
use crate::text::sorted_lex;
use crate::text::texts_model;
use crate::text::trim_trailing;
use crate::text::trim_trailing_ws;
use crate::value::clone_string;
use crate::value::seq_model;
use crate::value::value_model;
use crate::value::Val;
use crate::value::Node;

verus! {

/// Replaces its enclosing node with the trimmed standard output of a shell
/// command; the command itself runs outside the engine.
pub struct RunCommand;

/// Replaces its enclosing node with the sorted list of filesystem paths
/// matching a glob pattern.
pub struct GlobPattern;

/// Replaces its enclosing subtree with the parsed content of another
/// document file, found under a base path; remembers the base path seen for
/// each enclosing key so later overrides of the same key resolve against the
/// same directory.
pub struct FromFile {
    base_paths: Vec<(String, String)>,
}

/// What a registered resolver is, for dispatch.
#[derive(Clone, Copy, PartialEq, Eq, Structural, Debug)]
pub enum Kind {
    RunCommand,
    GlobPattern,
    FromFile,
}

/// A registered resolver with its state.
pub enum Resolver {
    RunCommand(RunCommand),
    GlobPattern(GlobPattern),
    FromFile(FromFile),
}

impl Resolver {
    pub open spec fn kind(&self) -> Kind {
        match self {
            Resolver::RunCommand(_) => Kind::RunCommand,
            Resolver::GlobPattern(_) => Kind::GlobPattern,
            Resolver::FromFile(_) => Kind::FromFile,
        }
    }

    /// The resolver's remembered base paths; only the include resolver
    /// remembers any.
    pub open spec fn state_cache(&self) -> Seq<(Seq<char>, Seq<char>)> {
        match self {
            Resolver::FromFile(ff) => ff.cache(),
            _ => Seq::empty(),
        }
    }
}

/// Position of the first include resolver, or -1 when none is registered.
pub open spec fn first_from_file(kinds: Seq<Kind>) -> int
    decreases kinds.len(),
{
    if kinds.len() == 0 {
        -1
    } else if kinds[0] is FromFile {
        0
    } else {
        let r = first_from_file(kinds.skip(1));
        if r < 0 {
            -1
        } else {
            r + 1
        }
    }
}

/// If position `i` holds the include kind and no earlier position does,
/// `first_from_file` is `i`.
pub proof fn lemma_first_from_file_found(kinds: Seq<Kind>, i: int)
    requires
        0 <= i < kinds.len(),
        kinds[i] is FromFile,
        forall|j: int| 0 <= j < i ==> !((#[trigger] kinds[j]) is FromFile),
    ensures
        first_from_file(kinds) == i,
    decreases kinds.len(),
{
    if i == 0 {
    } else {
        assert forall|j: int| 0 <= j < i - 1 implies !((#[trigger] kinds.skip(1)[j]) is FromFile) by {
            assert(kinds.skip(1)[j] == kinds[j + 1]);
        }
        assert(kinds.skip(1)[i - 1] == kinds[i]);
        lemma_first_from_file_found(kinds.skip(1), i - 1);
    }
}

/// Without the include kind anywhere, `first_from_file` is -1.
pub proof fn lemma_first_from_file_absent(kinds: Seq<Kind>)
    requires
        forall|j: int| 0 <= j < kinds.len() ==> !((#[trigger] kinds[j]) is FromFile),
    ensures
        first_from_file(kinds) == -1,
    decreases kinds.len(),
{
    if kinds.len() > 0 {
        assert forall|j: int|
            0 <= j < kinds.skip(1).len() implies !((#[trigger] kinds.skip(1)[j]) is FromFile) by {
            assert(kinds.skip(1)[j] == kinds[j + 1]);
        }
        lemma_first_from_file_absent(kinds.skip(1));
    }
}

/// `first_from_file` points at an include kind, and is -1 exactly when the
/// include kind occurs nowhere.
pub proof fn lemma_first_from_file(kinds: Seq<Kind>)
    ensures
        first_from_file(kinds) == -1 || (0 <= first_from_file(kinds) < kinds.len()),
        first_from_file(kinds) == -1 ==> forall|j: int|
            0 <= j < kinds.len() ==> !((#[trigger] kinds[j]) is FromFile),
        first_from_file(kinds) >= 0 ==> kinds[first_from_file(kinds)] is FromFile,
    decreases kinds.len(),
{
    if kinds.len() == 0 {
    } else if kinds[0] is FromFile {
    } else {
        lemma_first_from_file(kinds.skip(1));
        assert forall|j: int| 1 <= j < kinds.len() implies kinds.skip(1)[j - 1] == kinds[j] by {}
    }
}

/// The texts of a runtime list of string pairs.
pub open spec fn pairs_model(v: Seq<(String, String)>) -> Seq<(Seq<char>, Seq<char>)> {
    Seq::new(v.len(), |i: int| (v[i].0@, v[i].1@))
}

impl RunCommand {
    /// The value a captured command output becomes: the output with its
    /// trailing whitespace removed.
    pub fn replacement(stdout: &str) -> (r: Node)
        ensures
            value_model(r) == Val::Text(trim_trailing(stdout@)),
    {
        Node::Text(trim_trailing_ws(stdout))
    }
}

/// The texts, read as a sequence of string values.
pub open spec fn texts_to_vals(ts: Seq<Seq<char>>) -> Seq<Val> {
    Seq::new(ts.len(), |i: int| Val::Text(ts[i]))
}

impl GlobPattern {
    /// The value a set of matches becomes: the matched paths, sorted, as a
    /// sequence of strings.
    pub fn replacement(matches_in: Vec<String>) -> (r: Node)
        ensures
            value_model(r) matches Val::Sequence(vs) && (exists|ts: Seq<Seq<char>>|
                vs == texts_to_vals(ts) && sorted_lex(ts) && ts.to_multiset() == texts_model(
                    matches_in@,
                ).to_multiset()),
    {
        let sorted = sort_texts(matches_in);
        let ghost ts = texts_model(sorted@);
        let mut out: Vec<Node> = Vec::new();
        let mut i: usize = 0;
        while i < sorted.len()
            invariant
                i <= sorted@.len(),
                ts == texts_model(sorted@),
                out@.len() == i,
                forall|j: int|
                    0 <= j < i ==> value_model(#[trigger] out@[j]) == Val::Text(ts[j]),
            decreases sorted@.len() - i,
        {
            out.push(Node::Text(clone_string(&sorted[i])));
            i = i + 1;
        }
        proof {
            assert(seq_model(out@) =~= texts_to_vals(ts));
        }
        Node::Sequence(out)
    }
}

/// The file a directive names: `base`, a path separator, the default name,
/// and the document suffix.
pub open spec fn include_path_text(base: Seq<char>, default: Seq<char>) -> Seq<char> {
    base + seq!['/'] + default + seq!['.', 't', 'o', 'm', 'l']
}

impl FromFile {
    /// The path of the file to include.
    pub fn include_path(base: &String, default: &String) -> (r: String)
        ensures
            r@ == include_path_text(base@, default@),
    {
        let mut r = clone_string(base);
        r.append("/");
        r.append(default.as_str());
        r.append(".toml");
        proof {
            reveal_strlit("/");
            reveal_strlit(".toml");
            assert(r@ =~= include_path_text(base@, default@));
        }
        r
    }

    /// The base paths remembered so far, in the order they were seen.
    pub closed spec fn cache(&self) -> Seq<(Seq<char>, Seq<char>)> {
        Seq::new(self.base_paths@.len(), |i: int| (self.base_paths@[i].0@, self.base_paths@[i].1@))
    }

    /// Remember the base path used for an enclosing key; the latest entry
    /// for a key wins.
    pub fn remember(&mut self, key: String, base: String)
        ensures
            final(self).cache() == old(self).cache().push((key@, base@)),
    {
        let ghost c0 = self.cache();
        self.base_paths.push((key, base));
        proof {
            assert(self.cache() =~= c0.push((key@, base@)));
        }
    }

    /// The remembered base paths, as runtime pairs.
    pub fn remembered(&self) -> (r: Vec<(String, String)>)
        ensures
            pairs_model(r@) == self.cache(),
    {
        let mut out: Vec<(String, String)> = Vec::new();
        let mut i: usize = 0;
        while i < self.base_paths.len()
            invariant
                i <= self.base_paths@.len(),
                out@.len() == i,
                forall|j: int|
                    0 <= j < i ==> out@[j].0@ == (#[trigger] self.base_paths@[j]).0@
                        && out@[j].1@ == self.base_paths@[j].1@,
            decreases self.base_paths@.len() - i,
        {
            let k = clone_string(&self.base_paths[i].0);
            let b = clone_string(&self.base_paths[i].1);
            out.push((k, b));
            i = i + 1;
        }
        proof {
            assert(pairs_model(out@) =~= self.cache());
        }
        out
    }
}

impl Default for FromFile {
    /// A fresh include resolver with nothing remembered yet.
    fn default() -> (r: FromFile)
        ensures
            r.cache() == Seq::<(Seq<char>, Seq<char>)>::empty(),
    {
        let r = FromFile { base_paths: Vec::new() };
        proof {
            assert(r.cache() =~= Seq::<(Seq<char>, Seq<char>)>::empty());
        }
        r
    }
}

/// The registry: reserved keys, each bound to one resolver, in registration
/// order; a key is registered at most once.
pub struct Templates {
    entries: Vec<(String, Resolver)>,
}

impl Templates {
    /// The reserved keys, in registration order.
    pub closed spec fn keys(&self) -> Seq<Seq<char>> {
        Seq::new(self.entries@.len(), |i: int| self.entries@[i].0@)
    }

    /// What kind of resolver each key is bound to.
    pub closed spec fn kinds(&self) -> Seq<Kind> {
        Seq::new(self.entries@.len(), |i: int| self.entries@[i].1.kind())
    }

    /// The base paths the include resolver has remembered, in the order
    /// they were seen; empty when no include resolver is registered. The
    /// driver extends this on every include it resolves.
    pub closed spec fn cache(&self) -> Seq<(Seq<char>, Seq<char>)> {
        let i = first_from_file(self.kinds());
        if 0 <= i < self.entries@.len() {
            self.entries@[i].1.state_cache()
        } else {
            Seq::empty()
        }
    }

    /// No key is registered twice, and every key is bound to a kind.
    pub open spec fn wf(&self) -> bool {
        &&& self.keys().len() == self.kinds().len()
        &&& forall|i: int, j: int|
            0 <= i < j < self.keys().len() ==> self.keys()[i] != self.keys()[j]
    }

    /// An empty registry, with no reserved keys at all.
    pub fn new() -> (r: Templates)
        ensures
            r.keys() == Seq::<Seq<char>>::empty(),
            r.kinds() == Seq::<Kind>::empty(),
            r.cache() == Seq::<(Seq<char>, Seq<char>)>::empty(),
            r.wf(),
    {
        let r = Templates { entries: Vec::new() };
        proof {
            assert(r.keys() =~= Seq::<Seq<char>>::empty());
            assert(r.kinds() =~= Seq::<Kind>::empty());
        }
        r
    }

    /// Register a resolver under a reserved key: a new key is appended, a
    /// key already registered has its resolver replaced in place.
    pub fn register(&mut self, key: String, resolver: Resolver)
        requires
            old(self).wf(),
        ensures
            final(self).wf(),
            final(self).keys().len() == final(self).kinds().len(),
            (exists|i: int|
                0 <= i < old(self).keys().len() && old(self).keys()[i] == key@) ==> {
                let i = choose|i: int|
                    0 <= i < old(self).keys().len() && old(self).keys()[i] == key@;
                final(self).keys() == old(self).keys() && final(self).kinds() == old(
                    self,
                ).kinds().update(i, resolver.kind())
            },
            !(exists|i: int| 0 <= i < old(self).keys().len() && old(self).keys()[i] == key@)
                ==> final(self).keys() == old(self).keys().push(key@) && final(self).kinds()
                == old(self).kinds().push(resolver.kind()),
    {
        let ghost ks0 = self.keys();
        let ghost kd0 = self.kinds();
        let mut i: usize = 0;
        while i < self.entries.len()
            invariant
                i <= self.entries@.len(),
                self.keys() == ks0,
                self.kinds() == kd0,
                old(self).wf(),
                self == old(self),
                forall|j: int| 0 <= j < i ==> ks0[j] != key@,
            decreases self.entries@.len() - i,
        {
            if self.entries[i].0.eq(&key) {
                let ghost idx = i as int;
                let (k0, _old_r) = self.entries.remove(i);
                self.entries.insert(i, (k0, resolver));
                proof {
                    assert(self.keys() =~= ks0);
                    assert(self.kinds() =~= kd0.update(idx, self.entries@[idx].1.kind()));
                    assert(ks0[idx] == key@);
                    assert forall|j: int|
                        0 <= j < ks0.len() && ks0[j] == key@ implies j == idx by {
                        if j < idx {
                        } else if j > idx {
                            assert(ks0[idx] != ks0[j]);
                        }
                    }
                    assert((choose|j: int| 0 <= j < ks0.len() && ks0[j] == key@) == idx);
                }
                return ;
            }
            i = i + 1;
        }
        let ghost n = self.entries@.len() as int;
        self.entries.push((key, resolver));
        proof {
            assert(self.keys() =~= ks0.push(key@));
            assert(self.kinds() =~= kd0.push(self.entries@[n].1.kind()));
        }
    }

    /// The reserved keys as runtime strings, in registration order.
    pub fn key_list(&self) -> (r: Vec<String>)
        ensures
            texts_model(r@) == self.keys(),
    {
        let mut out: Vec<String> = Vec::new();
        let mut i: usize = 0;
        while i < self.entries.len()
            invariant
                i <= self.entries@.len(),
                out@.len() == i,
                forall|j: int| 0 <= j < i ==> out@[j]@ == self.keys()[j],
            decreases self.entries@.len() - i,
        {
            out.push(clone_string(&self.entries[i].0));
            i = i + 1;
        }
        proof {
            assert(texts_model(out@) =~= self.keys());
        }
        out
    }

    /// The kind registered under `key`, if any.
    pub fn kind_of(&self, key: &String) -> (r: Option<Kind>)
        ensures
            match r {
                Some(k) => exists|i: int|
                    0 <= i < self.keys().len() && self.keys()[i] == key@
                        && (#[trigger] self.kinds()[i]) == k,
                None => forall|i: int| 0 <= i < self.keys().len() ==> self.keys()[i] != key@,
            },
    {
        let mut i: usize = 0;
        while i < self.entries.len()
            invariant
                i <= self.entries@.len(),
                forall|j: int| 0 <= j < i ==> self.keys()[j] != key@,
            decreases self.entries@.len() - i,
        {
            if self.entries[i].0.eq(key) {
                let k = match &self.entries[i].1 {
                    Resolver::RunCommand(_) => Kind::RunCommand,
                    Resolver::GlobPattern(_) => Kind::GlobPattern,
                    Resolver::FromFile(_) => Kind::FromFile,
                };
                proof {
                    assert(self.keys()[i as int] == key@ && self.kinds()[i as int] == k);
                }
                return Some(k);
            }
            i = i + 1;
        }
        None
    }

    /// Record, on the first registered include resolver, the base path used
    /// for an enclosing key; without an include resolver this records
    /// nothing.
    pub fn remember_base(&mut self, key: String, base: String)
        ensures
            final(self).keys() == old(self).keys(),
            final(self).kinds() == old(self).kinds(),
            old(self).wf() ==> final(self).wf(),
            first_from_file(old(self).kinds()) >= 0 ==> final(self).cache() == old(
                self,
            ).cache().push((key@, base@)),
            first_from_file(old(self).kinds()) < 0 ==> final(self).cache() == old(self).cache(),
    {
        let ghost ks0 = self.keys();
        let ghost kd0 = self.kinds();
        let mut i: usize = 0;
        while i < self.entries.len()
            invariant
                i <= self.entries@.len(),
                self == old(self),
                self.keys() == ks0,
                self.kinds() == kd0,
                ks0 == old(self).keys(),
                kd0 == old(self).kinds(),
                forall|j: int| 0 <= j < i ==> !((#[trigger] kd0[j]) is FromFile),
            decreases self.entries@.len() - i,
        {
            let is_include = match &self.entries[i].1 {
                Resolver::FromFile(_) => true,
                _ => false,
            };
            if is_include {
                proof {
                    assert(kd0[i as int] is FromFile);
                    lemma_first_from_file_found(kd0, i as int);
                }
                let ghost idx = i as int;
                let ghost cache0 = self.cache();
                let (k0, r0) = self.entries.remove(i);
                proof {
                    assert(cache0 == r0.state_cache());
                }
                let mut ff = match r0 {
                    Resolver::FromFile(ff) => ff,
                    _ => FromFile { base_paths: Vec::new() },
                };
                ff.remember(key, base);
                self.entries.insert(i, (k0, Resolver::FromFile(ff)));
                proof {
                    assert(self.keys() =~= ks0);
                    assert(self.kinds() =~= kd0);
                    assert(self.entries@[idx].1.state_cache() == cache0.push((key@, base@)));
                    assert(self.cache() == cache0.push((key@, base@)));
                }
                return ;
            }
            i = i + 1;
        }
        proof {
            lemma_first_from_file_absent(kd0);
        }
    }
}

impl FromFile {
    /// Structural copy remembering the same base paths.
    pub fn dup(&self) -> (r: FromFile)
        ensures
            r.cache() == self.cache(),
    {
        let mut base_paths: Vec<(String, String)> = Vec::new();
        let mut i: usize = 0;
        while i < self.base_paths.len()
            invariant
                i <= self.base_paths@.len(),
                base_paths@.len() == i,
                forall|j: int|
                    0 <= j < i ==> base_paths@[j].0@ == (#[trigger] self.base_paths@[j]).0@
                        && base_paths@[j].1@ == self.base_paths@[j].1@,
            decreases self.base_paths@.len() - i,
        {
            let k = clone_string(&self.base_paths[i].0);
            let b = clone_string(&self.base_paths[i].1);
            base_paths.push((k, b));
            i = i + 1;
        }
        let r = FromFile { base_paths };
        proof {
            assert(r.cache() =~= self.cache());
        }
        r
    }
}

impl Resolver {
    /// Structural copy of the same kind, with the same state.
    pub fn dup(&self) -> (r: Resolver)
        ensures
            r.kind() == self.kind(),
            r.state_cache() == self.state_cache(),
    {
        match self {
            Resolver::RunCommand(_) => Resolver::RunCommand(RunCommand),
            Resolver::GlobPattern(_) => Resolver::GlobPattern(GlobPattern),
            Resolver::FromFile(ff) => Resolver::FromFile(ff.dup()),
        }
    }
}

impl Templates {
    /// Structural copy: the same keys bound to the same kinds of resolver,
    /// with the same remembered state.
    pub fn dup(&self) -> (r: Templates)
        ensures
            r.keys() == self.keys(),
            r.kinds() == self.kinds(),
            r.cache() == self.cache(),
    {
        let mut entries: Vec<(String, Resolver)> = Vec::new();
        let mut i: usize = 0;
        while i < self.entries.len()
            invariant
                i <= self.entries@.len(),
                entries@.len() == i,
                forall|j: int|
                    0 <= j < i ==> entries@[j].0@ == (#[trigger] self.entries@[j]).0@
                        && entries@[j].1.kind() == self.entries@[j].1.kind()
                        && entries@[j].1.state_cache() == self.entries@[j].1.state_cache(),
            decreases self.entries@.len() - i,
        {
            let k = clone_string(&self.entries[i].0);
            let r0 = self.entries[i].1.dup();
            entries.push((k, r0));
            i = i + 1;
        }
        let r = Templates { entries };
        proof {
            assert(r.keys() =~= self.keys());
            assert(r.kinds() =~= self.kinds());
            let fi = first_from_file(self.kinds());
            if 0 <= fi < self.entries@.len() {
                assert(r.entries@[fi].1.state_cache() == self.entries@[fi].1.state_cache());
            }
        }
        r
    }

    /// The base paths the include resolver has remembered, as runtime pairs.
    pub fn remembered_base_paths(&self) -> (r: Vec<(String, String)>)
        ensures
            pairs_model(r@) == self.cache(),
    {
        let ghost kd0 = self.kinds();
        let mut i: usize = 0;
        while i < self.entries.len()
            invariant
                i <= self.entries@.len(),
                kd0 == self.kinds(),
                forall|j: int| 0 <= j < i ==> !((#[trigger] kd0[j]) is FromFile),
            decreases self.entries@.len() - i,
        {
            match &self.entries[i].1 {
                Resolver::FromFile(ff) => {
                    proof {
                        assert(kd0[i as int] is FromFile);
                        lemma_first_from_file_found(kd0, i as int);
                    }
                    return ff.remembered();
                },
                _ => {},
            }
            i = i + 1;
        }
        proof {
            lemma_first_from_file_absent(kd0);
        }
        let r: Vec<(String, String)> = Vec::new();
        proof {
            assert(pairs_model(r@) =~= Seq::<(Seq<char>, Seq<char>)>::empty());
        }
        r
    }
}

impl Default for Templates {
    /// The stock registry: `from_file`, `cmd` and `glob`, in that order,
    /// with nothing remembered yet.
    fn default() -> (r: Templates)
        ensures
            r.keys() == seq!["from_file"@, "cmd"@, "glob"@],
            r.kinds() == seq![Kind::FromFile, Kind::RunCommand, Kind::GlobPattern],
            r.cache() == Seq::<(Seq<char>, Seq<char>)>::empty(),
            r.wf(),
    {
        let mut entries: Vec<(String, Resolver)> = Vec::new();
        entries.push(
            (String::from_str("from_file"), Resolver::FromFile(FromFile::default())),
        );
        entries.push((String::from_str("cmd"), Resolver::RunCommand(RunCommand)));
        entries.push((String::from_str("glob"), Resolver::GlobPattern(GlobPattern)));
        let r = Templates { entries };
        proof {
            reveal_strlit("from_file");
            reveal_strlit("cmd");
            reveal_strlit("glob");
            assert(r.keys() =~= seq!["from_file"@, "cmd"@, "glob"@]);
            assert(r.kinds() =~= seq![Kind::FromFile, Kind::RunCommand, Kind::GlobPattern]);
            assert(("from_file"@).len() == 9 && ("cmd"@).len() == 3 && ("glob"@).len() == 4);
        }
        r
    }
}

} // verus!
