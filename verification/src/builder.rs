use vstd::prelude::*;
use crate::args::parse_amendments;
use crate::args::parse_tokens;
use crate::args::TokParse;
use crate::engine::PhaseModel;
use crate::engine::Session;
use crate::engine::SessionModel;
use crate::error::Error;
use crate::error::ErrV;
use crate::merge::actions_model;
use crate::merge::merge_use_second;
use crate::merge::merge_second;
use crate::path::Action;
use crate::path::Operation;
use crate::templates::Kind;
use crate::templates::Templates;
use crate::text::texts_model;
use crate::trusted::parse_document;
use crate::trusted::parsed_doc;
use crate::value::value_model;
use crate::value::Val;
use crate::value::Node;

verus! {

/// A document: one tree, with the resolver registry that grew it. Loading
/// runs one resolve pass; amendments then run through the fixpoint driver.
pub struct TomlBuilder {
    pub root: Node,
    templates: Templates,
}

/// Ghost form of a document.
pub struct BuilderModel {
    pub root: Val,
    pub keys: Seq<Seq<char>>,
    pub kinds: Seq<Kind>,
    pub cache: Seq<(Seq<char>, Seq<char>)>,
}

impl View for TomlBuilder {
    type V = BuilderModel;

    closed spec fn view(&self) -> BuilderModel {
        BuilderModel {
            root: value_model(self.root),
            keys: self.templates.keys(),
            kinds: self.templates.kinds(),
            cache: self.templates.cache(),
        }
    }
}

impl TomlBuilder {
    /// The registry's keys are unique.
    pub closed spec fn wf(&self) -> bool {
        self.templates.wf()
    }

    /// Parse a document text and hand back the loader's single resolve
    /// pass over it, under the stock registry.
    pub fn from_text(content: &str) -> (r: Result<Session, Error>)
        ensures
            r is Ok <==> parsed_doc(content@) is Some,
            r matches Ok(s) ==> s.inv() && s@ == (SessionModel {
                tree: parsed_doc(content@)->Some_0,
                pending: Seq::empty(),
                keys: seq!["from_file"@, "cmd"@, "glob"@],
                kinds: seq![Kind::FromFile, Kind::RunCommand, Kind::GlobPattern],
                cache: Seq::empty(),
                prev_changed: true,
                fired: false,
                once: true,
                phase: PhaseModel::Resolve,
            }),
            r matches Err(e) ==> e is Parse,
    {
        match parse_document(content) {
            Ok(tree) => Ok(Session::resolve_once(tree, Templates::default())),
            Err(e) => Err(e),
        }
    }

    /// Rebuild a document from a finished session's parts.
    pub fn from_parts(root: Node, templates: Templates) -> (r: TomlBuilder)
        requires
            templates.wf(),
        ensures
            r@ == (BuilderModel {
                root: value_model(root),
                keys: templates.keys(),
                kinds: templates.kinds(),
                cache: templates.cache(),
            }),
            r.wf(),
    {
        TomlBuilder { root, templates }
    }

    /// Queue amendments against a copy of the document and hand back the
    /// fixpoint driver; the document itself is untouched until the caller
    /// rebuilds it from the finished session.
    pub fn apply(&self, actions: Vec<Action>) -> (s: Session)
        requires
            self.wf(),
            forall|i: int| 0 <= i < actions@.len() ==> (#[trigger] actions@[i])@.wf(),
        ensures
            s.inv(),
            s@ == (SessionModel {
                tree: self@.root,
                pending: actions_model(actions@),
                keys: self@.keys,
                kinds: self@.kinds,
                cache: self@.cache,
                prev_changed: true,
                fired: false,
                once: false,
                phase: PhaseModel::Apply,
            }),
    {
        Session::run(self.root.dup(), actions, self.templates.dup())
    }

    /// Read amendment tokens and queue them as `apply` does; the first
    /// malformed token aborts with it.
    pub fn amend_args(&self, args: &Vec<String>) -> (r: Result<Session, Error>)
        requires
            self.wf(),
        ensures
            match parse_tokens(texts_model(args@), Operation::Modify) {
                TokParse::Parsed(acts) => r matches Ok(s) && s.inv() && s@ == (SessionModel {
                    tree: self@.root,
                    pending: acts,
                    keys: self@.keys,
                    kinds: self@.kinds,
                    cache: self@.cache,
                    prev_changed: true,
                    fired: false,
                    once: false,
                    phase: PhaseModel::Apply,
                }),
                TokParse::Bad(b) => r matches Err(e) && e@ == ErrV::InvalidArg(b),
            },
    {
        match parse_amendments(args) {
            Ok(actions) => Ok(self.apply(actions)),
            Err(e) => Err(e),
        }
    }

    /// Merge a second, already resolved document tree into this one, the
    /// second winning key by key; incompatible shapes fail and the document
    /// is dropped rather than left half-merged.
    pub fn merge_resolved(self, other: Node) -> (r: Result<TomlBuilder, Error>)
        requires
            self.wf(),
        ensures
            match merge_second(self@.root, value_model(other)) {
                Some(m) => r matches Ok(b) && b@ == (BuilderModel { root: m, ..self@ }) && b.wf(),
                None => r matches Err(e) && e is MergeFailed,
            },
    {
        let TomlBuilder { root, templates } = self;
        match merge_use_second(root, other) {
            Ok(m) => Ok(TomlBuilder { root: m, templates }),
            Err(e) => Err(e),
        }
    }

    /// Give the final tree back to the caller.
    pub fn root(self) -> (r: Node)
        ensures
            value_model(r) == self@.root,
    {
        self.root
    }
}

impl Default for TomlBuilder {
    /// An empty document: a placeholder scalar root under the stock
    /// registry.
    fn default() -> (r: TomlBuilder)
        ensures
            r@ == (BuilderModel {
                root: Val::Int(0),
                keys: seq!["from_file"@, "cmd"@, "glob"@],
                kinds: seq![Kind::FromFile, Kind::RunCommand, Kind::GlobPattern],
                cache: Seq::empty(),
            }),
            r.wf(),
    {
        TomlBuilder { root: Node::Int(0), templates: Templates::default() }
    }
}

} // verus!
