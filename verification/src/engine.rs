use vstd::prelude::*;
use crate::error::Error;
use crate::error::ErrV;
use crate::merge::actions_model;
use crate::merge::apply_action;
use crate::merge::apply_all;
use crate::merge::apply_one;
use crate::path::ActModel;
use crate::path::Action;
use crate::resolve::find_directive;
use crate::resolve::first_site;
use crate::resolve::loc_model;
use crate::resolve::loc_valid;
use crate::resolve::node_at;
use crate::resolve::replace_at;
use crate::resolve::replace_at_exec;
use crate::resolve::Site;
use crate::templates::include_path_text;
use crate::templates::texts_to_vals;
use crate::templates::GlobPattern;
use crate::templates::Kind;
use crate::templates::RunCommand;
use crate::templates::Templates;
use crate::text::sorted_lex;
use crate::text::trim_trailing;
use crate::trusted::glob_matches;
use crate::trusted::parse_document;
use crate::trusted::parsed_doc;
use crate::value::tget;
use crate::value::thas;
use crate::value::value_model;
use crate::value::Val;
use crate::value::Node;

verus! {

/// Outside work the engine cannot do itself: run a shell command and hand
/// back its captured standard output, or read a file and hand back its text.
pub enum Work {
    RunCommand { command: String },
    ReadFile { path: String },
}

/// Ghost form of a work request.
pub enum WorkV {
    RunCommand(Seq<char>),
    ReadFile(Seq<char>),
}

impl View for Work {
    type V = WorkV;

    open spec fn view(&self) -> WorkV {
        match self {
            Work::RunCommand { command } => WorkV::RunCommand(command@),
            Work::ReadFile { path } => WorkV::ReadFile(path@),
        }
    }
}

/// Which reply an outstanding work request expects; an include carries the
/// base path to remember once the file resolves.
enum AwaitWork {
    Command,
    Include(String),
}

enum Phase {
    Apply,
    Resolve,
    Await(Vec<usize>, String, AwaitWork),
    Finished,
    Failed(Error),
}

/// Ghost form of an outstanding request's kind.
pub enum AwaitV {
    Command,
    Include(Seq<char>),
}

/// Ghost form of the driver's phase.
pub enum PhaseModel {
    Apply,
    Resolve,
    Await(Seq<int>, Seq<char>, AwaitV),
    Finished,
    Failed(ErrV),
}

/// Ghost form of a running session.
pub struct SessionModel {
    pub tree: Val,
    pub pending: Seq<ActModel>,
    pub keys: Seq<Seq<char>>,
    pub kinds: Seq<Kind>,
    pub cache: Seq<(Seq<char>, Seq<char>)>,
    pub prev_changed: bool,
    pub fired: bool,
    pub once: bool,
    pub phase: PhaseModel,
}

/// What one call of `step` asks of its caller.
pub enum Step {
    /// Keep stepping.
    Running,
    /// Perform the carried work, answer with `provide`, then keep stepping.
    NeedsWork(Work),
    /// The session reached its fixed point; `into_parts` has the tree.
    Done,
    /// The session failed; `into_error` has the failure.
    Failed,
}

/// The kind registered for `key` (meaningful when `key` is registered and
/// keys are unique).
pub open spec fn kind_at(keys: Seq<Seq<char>>, kinds: Seq<Kind>, key: Seq<char>) -> Kind {
    kinds[choose|i: int| 0 <= i < keys.len() && keys[i] == key]
}

/// The two strings an include directive names: the base path and the
/// default document name.
pub open spec fn include_parts(dir: Val) -> Option<(Seq<char>, Seq<char>)> {
    match dir {
        Val::Table(des) => {
            if thas(des, "base_path"@) && tget(des, "base_path"@) is Text && thas(
                des,
                "default"@,
            ) && tget(des, "default"@) is Text {
                Some((tget(des, "base_path"@)->Text_0, tget(des, "default"@)->Text_0))
            } else {
                None
            }
        },
        _ => None,
    }
}

/// The driver: it owns the tree, the pending amendments and the registry,
/// and alternates amendment rounds with resolve passes until no amendment is
/// pending (done) or a pass changes nothing while amendments remain (stuck).
/// Work that needs the outside world — running a command, reading a file —
/// is handed out through `Step::NeedsWork` and answered through `provide`.
pub struct Session {
    tree: Node,
    pending: Vec<Action>,
    templates: Templates,
    prev_changed: bool,
    fired: bool,
    once: bool,
    phase: Phase,
}

impl View for Session {
    type V = SessionModel;

    closed spec fn view(&self) -> SessionModel {
        SessionModel {
            tree: value_model(self.tree),
            pending: actions_model(self.pending@),
            keys: self.templates.keys(),
            kinds: self.templates.kinds(),
            cache: self.templates.cache(),
            prev_changed: self.prev_changed,
            fired: self.fired,
            once: self.once,
            phase: match &self.phase {
                Phase::Apply => PhaseModel::Apply,
                Phase::Resolve => PhaseModel::Resolve,
                Phase::Await(loc, key, kd) => PhaseModel::Await(
                    loc_model(loc@),
                    key@,
                    match kd {
                        AwaitWork::Command => AwaitV::Command,
                        AwaitWork::Include(base) => AwaitV::Include(base@),
                    },
                ),
                Phase::Finished => PhaseModel::Finished,
                Phase::Failed(e) => PhaseModel::Failed(e@),
            },
        }
    }
}

impl Session {
    /// The session's bookkeeping is sound: pending amendments are well
    /// formed, registered keys are unique, and an outstanding work request
    /// points at a valid address.
    pub closed spec fn inv(&self) -> bool {
        &&& forall|i: int|
            0 <= i < self.pending@.len() ==> (#[trigger] self.pending@[i])@.wf()
        &&& self.templates.wf()
        &&& match &self.phase {
            Phase::Await(loc, key, kd) => {
                &&& loc_valid(value_model(self.tree), loc_model(loc@))
                &&& (kd matches AwaitWork::Include(_)
                    ==> crate::templates::first_from_file(self.templates.kinds()) >= 0)
            },
            _ => true,
        }
    }

    pub open spec fn awaiting(&self) -> bool {
        self@.phase is Await
    }

    pub open spec fn is_finished(&self) -> bool {
        self@.phase is Finished
    }

    pub open spec fn is_failed(&self) -> bool {
        self@.phase is Failed
    }

    /// A fixpoint run: apply the amendments, resolve, and repeat until done
    /// or stuck.
    pub fn run(tree: Node, actions: Vec<Action>, templates: Templates) -> (r: Session)
        requires
            forall|i: int| 0 <= i < actions@.len() ==> (#[trigger] actions@[i])@.wf(),
            templates.wf(),
        ensures
            r.inv(),
            r@ == (SessionModel {
                tree: value_model(tree),
                pending: actions_model(actions@),
                keys: templates.keys(),
                kinds: templates.kinds(),
                cache: templates.cache(),
                prev_changed: true,
                fired: false,
                once: false,
                phase: PhaseModel::Apply,
            }),
    {
        Session {
            tree,
            pending: actions,
            templates,
            prev_changed: true,
            fired: false,
            once: false,
            phase: Phase::Apply,
        }
    }

    /// A single resolve pass over the tree, as the loader performs after
    /// parsing: no amendments, one pass, then done.
    pub fn resolve_once(tree: Node, templates: Templates) -> (r: Session)
        requires
            templates.wf(),
        ensures
            r.inv(),
            r@ == (SessionModel {
                tree: value_model(tree),
                pending: Seq::empty(),
                keys: templates.keys(),
                kinds: templates.kinds(),
                cache: templates.cache(),
                prev_changed: true,
                fired: false,
                once: true,
                phase: PhaseModel::Resolve,
            }),
    {
        let r = Session {
            tree,
            pending: Vec::new(),
            templates,
            prev_changed: true,
            fired: false,
            once: true,
            phase: Phase::Resolve,
        };
        proof {
            assert(actions_model(r.pending@) =~= Seq::<ActModel>::empty());
        }
        r
    }

    /// The final tree and the registry of a finished session.
    pub fn into_parts(self) -> (r: (Node, Templates))
        requires
            self.is_finished(),
            self.inv(),
        ensures
            value_model(r.0) == self@.tree,
            r.1.keys() == self@.keys,
            r.1.kinds() == self@.kinds,
            r.1.cache() == self@.cache,
            r.1.wf(),
    {
        let Session { tree, templates, .. } = self;
        (tree, templates)
    }

    /// Everything but the phase is as it was.
    pub open spec fn same_but_phase(pre: SessionModel, post: SessionModel) -> bool {
        post == (SessionModel { phase: post.phase, ..pre })
    }

    /// The session failed at directive `key` with a resolution failure.
    pub open spec fn failed_resolution(pre: SessionModel, post: SessionModel, key: Seq<char>) -> bool {
        &&& Self::same_but_phase(pre, post)
        &&& post.phase matches PhaseModel::Failed(e) && (e matches ErrV::Resolution(k, _) && k
            == key)
    }

    /// One transition of the driver. Amendment rounds and stuck detection
    /// follow the fixpoint rule: after a round, stop stuck when the previous
    /// pass changed nothing and amendments remain, stop done when none
    /// remain, else resolve. A resolve step fires the first directive —
    /// glob expansion immediately, command and include through `NeedsWork` —
    /// or, when no directive is left, closes the pass and records whether it
    /// changed anything.
    pub fn step(self) -> (r: (Session, Step))
        requires
            self.inv(),
            !self.awaiting(),
        ensures
            r.0.inv(),
            ({
                let pre = self@;
                let post = r.0@;
                match pre.phase {
                    PhaseModel::Finished => post == pre && r.1 is Done,
                    PhaseModel::Failed(_) => post == pre && r.1 is Failed,
                    PhaseModel::Await(_, _, _) => true,
                    PhaseModel::Apply => {
                        let ap = apply_all(pre.tree, pre.pending);
                        if !pre.prev_changed && ap.1.len() > 0 {
                            &&& post == (SessionModel {
                                tree: ap.0,
                                pending: ap.1,
                                phase: PhaseModel::Failed(ErrV::Stuck),
                                ..pre
                            })
                            &&& r.1 is Failed
                        } else if ap.1.len() == 0 {
                            &&& post == (SessionModel {
                                tree: ap.0,
                                pending: ap.1,
                                phase: PhaseModel::Finished,
                                ..pre
                            })
                            &&& r.1 is Done
                        } else {
                            &&& post == (SessionModel {
                                tree: ap.0,
                                pending: ap.1,
                                phase: PhaseModel::Resolve,
                                ..pre
                            })
                            &&& r.1 is Running
                        }
                    },
                    PhaseModel::Resolve => {
                        match first_site(pre.tree, pre.keys) {
                            None => {
                                if pre.once {
                                    post == (SessionModel { phase: PhaseModel::Finished, ..pre })
                                        && r.1 is Done
                                } else {
                                    post == (SessionModel {
                                        prev_changed: pre.fired,
                                        fired: false,
                                        phase: PhaseModel::Apply,
                                        ..pre
                                    }) && r.1 is Running
                                }
                            },
                            Some(site) => {
                                let loc = site.0;
                                let key = site.1;
                                let dir = tget(node_at(pre.tree, loc)->Table_0, key);
                                match kind_at(pre.keys, pre.kinds, key) {
                                    Kind::GlobPattern => {
                                        if dir is Text && crate::trusted::glob_pattern_ok(
                                            dir->Text_0,
                                        ) {
                                            &&& r.1 is Running
                                            &&& (exists|ts: Seq<Seq<char>>|
                                                sorted_lex(ts) && post == (SessionModel {
                                                    tree: replace_at(
                                                        pre.tree,
                                                        loc,
                                                        Val::Sequence(texts_to_vals(ts)),
                                                    ),
                                                    fired: true,
                                                    ..pre
                                                }))
                                        } else {
                                            r.1 is Failed && Self::failed_resolution(
                                                pre,
                                                post,
                                                key,
                                            )
                                        }
                                    },
                                    Kind::RunCommand => {
                                        if dir is Text {
                                            &&& r.1 matches Step::NeedsWork(w) && w@
                                                == WorkV::RunCommand(dir->Text_0)
                                            &&& post == (SessionModel {
                                                phase: PhaseModel::Await(
                                                    loc,
                                                    key,
                                                    AwaitV::Command,
                                                ),
                                                ..pre
                                            })
                                        } else {
                                            r.1 is Failed && Self::failed_resolution(
                                                pre,
                                                post,
                                                key,
                                            )
                                        }
                                    },
                                    Kind::FromFile => {
                                        match include_parts(dir) {
                                            Some(bd) => {
                                                &&& r.1 matches Step::NeedsWork(w) && w@
                                                    == WorkV::ReadFile(
                                                    include_path_text(bd.0, bd.1),
                                                )
                                                &&& post == (SessionModel {
                                                    phase: PhaseModel::Await(
                                                        loc,
                                                        key,
                                                        AwaitV::Include(bd.0),
                                                    ),
                                                    ..pre
                                                })
                                            },
                                            None => r.1 is Failed && Self::failed_resolution(
                                                pre,
                                                post,
                                                key,
                                            ),
                                        }
                                    },
                                }
                            },
                        }
                    },
                }
            }),
    {
        let Session { tree, pending, mut templates, prev_changed, fired, once, phase } = self;
        let ghost pre = self@;
        match phase {
            Phase::Finished => {
                (
                    Session {
                        tree,
                        pending,
                        templates,
                        prev_changed,
                        fired,
                        once,
                        phase: Phase::Finished,
                    },
                    Step::Done,
                )
            },
            Phase::Failed(e) => {
                (
                    Session {
                        tree,
                        pending,
                        templates,
                        prev_changed,
                        fired,
                        once,
                        phase: Phase::Failed(e),
                    },
                    Step::Failed,
                )
            },
            Phase::Await(loc, key, kd) => {
                proof {
                    assert(false);
                }
                (
                    Session {
                        tree,
                        pending,
                        templates,
                        prev_changed,
                        fired,
                        once,
                        phase: Phase::Await(loc, key, kd),
                    },
                    Step::Running,
                )
            },
            Phase::Apply => {
                let ghost full = apply_all(pre.tree, pre.pending);
                let mut queue = pending;
                let mut cur = tree;
                let mut kept: Vec<Action> = Vec::new();
                proof {
                    assert(actions_model(kept@) =~= Seq::<ActModel>::empty());
                    assert(actions_model(queue@).skip(0) =~= actions_model(queue@));
                }
                while queue.len() > 0
                    invariant
                        forall|i: int|
                            0 <= i < queue@.len() ==> (#[trigger] queue@[i])@.wf(),
                        forall|i: int| 0 <= i < kept@.len() ==> (#[trigger] kept@[i])@.wf(),
                        apply_all(value_model(cur), actions_model(queue@)).0 == full.0,
                        actions_model(kept@) + apply_all(
                            value_model(cur),
                            actions_model(queue@),
                        ).1 == full.1,
                    decreases queue@.len(),
                {
                    let ghost q0 = actions_model(queue@);
                    let ghost k0 = actions_model(kept@);
                    let act = queue.remove(0);
                    proof {
                        assert(actions_model(queue@) =~= q0.skip(1));
                        assert(act@ == q0[0]);
                    }
                    let (t2, mut defs) = apply_action(cur, act);
                    cur = t2;
                    let ghost d0 = actions_model(defs@);
                    let ghost kept_before = actions_model(kept@);
                    kept.append(&mut defs);
                    proof {
                        assert(actions_model(kept@) =~= kept_before + d0);
                        assert((kept_before + d0) + apply_all(
                            value_model(cur),
                            actions_model(queue@),
                        ).1 =~= kept_before + (d0 + apply_all(
                            value_model(cur),
                            actions_model(queue@),
                        ).1));
                    }
                }
                proof {
                    assert(actions_model(queue@) =~= Seq::<ActModel>::empty());
                    assert(actions_model(kept@) + Seq::<ActModel>::empty() =~= actions_model(
                        kept@,
                    ));
                }
                if !prev_changed && kept.len() > 0 {
                    (
                        Session {
                            tree: cur,
                            pending: kept,
                            templates,
                            prev_changed,
                            fired,
                            once,
                            phase: Phase::Failed(Error::Stuck),
                        },
                        Step::Failed,
                    )
                } else if kept.len() == 0 {
                    (
                        Session {
                            tree: cur,
                            pending: kept,
                            templates,
                            prev_changed,
                            fired,
                            once,
                            phase: Phase::Finished,
                        },
                        Step::Done,
                    )
                } else {
                    (
                        Session {
                            tree: cur,
                            pending: kept,
                            templates,
                            prev_changed,
                            fired,
                            once,
                            phase: Phase::Resolve,
                        },
                        Step::Running,
                    )
                }
            },
            Phase::Resolve => {
                let keys = templates.key_list();
                match find_directive(&tree, &keys) {
                    None => {
                        if once {
                            (
                                Session {
                                    tree,
                                    pending,
                                    templates,
                                    prev_changed,
                                    fired,
                                    once,
                                    phase: Phase::Finished,
                                },
                                Step::Done,
                            )
                        } else {
                            (
                                Session {
                                    tree,
                                    pending,
                                    templates,
                                    prev_changed: fired,
                                    fired: false,
                                    once,
                                    phase: Phase::Apply,
                                },
                                Step::Running,
                            )
                        }
                    },
                    Some(site) => {
                        let kind_found = templates.kind_of(&site.key);
                        let ghost locm = loc_model(site.loc@);
                        let ghost keym = site.key@;
                        let ghost dirm = value_model(site.directive);
                        proof {
                            let iw = choose|i: int|
                                0 <= i < pre.keys.len() && pre.keys[i] == keym;
                            assert(pre.keys[iw] == keym);
                        }
                        let kind = match kind_found {
                            Some(k) => k,
                            None => {
                                proof {
                                    let iw = choose|i: int|
                                        0 <= i < pre.keys.len() && pre.keys[i] == keym;
                                    assert(pre.keys[iw] == keym);
                                    assert(false);
                                }
                                Kind::RunCommand
                            },
                        };
                        proof {
                            let iw = choose|i: int|
                                0 <= i < pre.keys.len() && pre.keys[i] == keym && pre.kinds[i]
                                    == kind;
                            let i0 = choose|i: int|
                                0 <= i < pre.keys.len() && pre.keys[i] == keym;
                            assert(pre.keys[iw] == keym && pre.kinds[iw] == kind);
                            assert(pre.keys[i0] == keym);
                            assert(iw == i0);
                            assert(kind_at(pre.keys, pre.kinds, keym) == kind);
                        }
                        match kind {
                            Kind::GlobPattern => {
                                match site.directive {
                                    Node::Text(pattern) => {
                                        match glob_matches(pattern.as_str()) {
                                            Some(found) => {
                                                let repl = GlobPattern::replacement(found);
                                                proof {
                                                    assert(locm.skip(0) =~= locm);
                                                }
                                                let t2 = replace_at_exec(tree, &site.loc, 0, repl);
                                                (
                                                    Session {
                                                        tree: t2,
                                                        pending,
                                                        templates,
                                                        prev_changed,
                                                        fired: true,
                                                        once,
                                                        phase: Phase::Resolve,
                                                    },
                                                    Step::Running,
                                                )
                                            },
                                            None => {
                                                (
                                                    Session {
                                                        tree,
                                                        pending,
                                                        templates,
                                                        prev_changed,
                                                        fired,
                                                        once,
                                                        phase: Phase::Failed(
                                                            Error::Resolution(
                                                                site.key,
                                                                String::from_str(
                                                                    "the pattern cannot be read",
                                                                ),
                                                            ),
                                                        ),
                                                    },
                                                    Step::Failed,
                                                )
                                            },
                                        }
                                    },
                                    _ => {
                                        (
                                            Session {
                                                tree,
                                                pending,
                                                templates,
                                                prev_changed,
                                                fired,
                                                once,
                                                phase: Phase::Failed(
                                                    Error::Resolution(
                                                        site.key,
                                                        String::from_str(
                                                            "the pattern is not a string",
                                                        ),
                                                    ),
                                                ),
                                            },
                                            Step::Failed,
                                        )
                                    },
                                }
                            },
                            Kind::RunCommand => {
                                match site.directive {
                                    Node::Text(command) => {
                                        (
                                            Session {
                                                tree,
                                                pending,
                                                templates,
                                                prev_changed,
                                                fired,
                                                once,
                                                phase: Phase::Await(
                                                    site.loc,
                                                    site.key,
                                                    AwaitWork::Command,
                                                ),
                                            },
                                            Step::NeedsWork(Work::RunCommand { command }),
                                        )
                                    },
                                    _ => {
                                        (
                                            Session {
                                                tree,
                                                pending,
                                                templates,
                                                prev_changed,
                                                fired,
                                                once,
                                                phase: Phase::Failed(
                                                    Error::Resolution(
                                                        site.key,
                                                        String::from_str(
                                                            "the command is not a string",
                                                        ),
                                                    ),
                                                ),
                                            },
                                            Step::Failed,
                                        )
                                    },
                                }
                            },
                            Kind::FromFile => {
                                match site.directive {
                                    Node::Table(des) => {
                                        proof {
                                            reveal_strlit("base_path");
                                            reveal_strlit("default");
                                            crate::value::lemma_tfind(
                                                crate::value::entries_model(des@),
                                                "base_path"@,
                                            );
                                            crate::value::lemma_tfind(
                                                crate::value::entries_model(des@),
                                                "default"@,
                                            );
                                        }
                                        let key_base = String::from_str("base_path");
                                        let key_default = String::from_str("default");
                                        let base_found = crate::value::tbl_find(&des, &key_base);
                                        let default_found = crate::value::tbl_find(
                                            &des,
                                            &key_default,
                                        );
                                        let parts: Option<(String, String)> = match (
                                            base_found,
                                            default_found,
                                        ) {
                                            (Some(bi), Some(di)) => {
                                                match (&des[bi].1, &des[di].1) {
                                                    (Node::Text(b), Node::Text(d)) => Some(
                                                        (
                                                            crate::value::clone_string(b),
                                                            crate::value::clone_string(d),
                                                        ),
                                                    ),
                                                    _ => None,
                                                }
                                            },
                                            _ => None,
                                        };
                                        match parts {
                                            Some((base, default)) => {
                                                let path = crate::templates::FromFile::include_path(
                                                    &base,
                                                    &default,
                                                );
                                                proof {
                                                    crate::templates::lemma_first_from_file(
                                                        pre.kinds,
                                                    );
                                                    if crate::templates::first_from_file(pre.kinds)
                                                        < 0 {
                                                        let iw = choose|i: int|
                                                            0 <= i < pre.keys.len() && pre.keys[i]
                                                                == keym && pre.kinds[i] == kind;
                                                        assert(0 <= iw < pre.keys.len()
                                                            && pre.keys[iw] == keym
                                                            && pre.kinds[iw] == kind);
                                                        assert(pre.kinds[iw] is FromFile);
                                                        assert(iw < pre.kinds.len());
                                                    }
                                                    assert(templates.kinds() == pre.kinds);
                                                    assert(crate::templates::first_from_file(
                                                        templates.kinds(),
                                                    ) >= 0);
                                                }
                                                (
                                                    Session {
                                                        tree,
                                                        pending,
                                                        templates,
                                                        prev_changed,
                                                        fired,
                                                        once,
                                                        phase: Phase::Await(
                                                            site.loc,
                                                            site.key,
                                                            AwaitWork::Include(base),
                                                        ),
                                                    },
                                                    Step::NeedsWork(Work::ReadFile { path }),
                                                )
                                            },
                                            None => {
                                                (
                                                    Session {
                                                        tree,
                                                        pending,
                                                        templates,
                                                        prev_changed,
                                                        fired,
                                                        once,
                                                        phase: Phase::Failed(
                                                            Error::Resolution(
                                                                site.key,
                                                                String::from_str(
                                                                    "the directive lacks base_path or default",
                                                                ),
                                                            ),
                                                        ),
                                                    },
                                                    Step::Failed,
                                                )
                                            },
                                        }
                                    },
                                    _ => {
                                        (
                                            Session {
                                                tree,
                                                pending,
                                                templates,
                                                prev_changed,
                                                fired,
                                                once,
                                                phase: Phase::Failed(
                                                    Error::Resolution(
                                                        site.key,
                                                        String::from_str(
                                                            "the directive is not a table",
                                                        ),
                                                    ),
                                                ),
                                            },
                                            Step::Failed,
                                        )
                                    },
                                }
                            },
                        }
                    },
                }
            },
        }
    }

    /// Answer an outstanding work request: the captured standard output of
    /// the command, or the text of the included file; `Err` reports that the
    /// work itself failed. A command's output replaces the node with its
    /// trailing whitespace trimmed; a file's text is parsed as a document
    /// that replaces the node — and only then is the include's base path
    /// remembered, under the empty context key. A text that does not parse,
    /// or failed work, fails the session and leaves the remembered base
    /// paths as they were.
    pub fn provide(self, outcome: Result<String, String>) -> (r: Session)
        requires
            self.inv(),
            self.awaiting(),
        ensures
            r.inv(),
            ({
                let pre = self@;
                let post = r@;
                pre.phase matches PhaseModel::Await(loc, key, kd) && match outcome {
                    Err(m) => post == (SessionModel {
                        phase: PhaseModel::Failed(ErrV::Resolution(key, m@)),
                        ..pre
                    }),
                    Ok(payload) => match kd {
                        AwaitV::Command => post == (SessionModel {
                            tree: replace_at(pre.tree, loc, Val::Text(trim_trailing(payload@))),
                            fired: true,
                            phase: PhaseModel::Resolve,
                            ..pre
                        }),
                        AwaitV::Include(base) => match parsed_doc(payload@) {
                            Some(doc) => post == (SessionModel {
                                tree: replace_at(pre.tree, loc, doc),
                                cache: pre.cache.push((Seq::<char>::empty(), base)),
                                fired: true,
                                phase: PhaseModel::Resolve,
                                ..pre
                            }),
                            None => Self::failed_resolution(pre, post, key),
                        },
                    },
                }
            }),
    {
        let Session { tree, pending, mut templates, prev_changed, fired, once, phase } = self;
        let ghost pre = self@;
        match phase {
            Phase::Await(loc, key, kd) => {
                match outcome {
                    Err(m) => Session {
                        tree,
                        pending,
                        templates,
                        prev_changed,
                        fired,
                        once,
                        phase: Phase::Failed(Error::Resolution(key, m)),
                    },
                    Ok(payload) => {
                        match kd {
                            AwaitWork::Command => {
                                let repl = RunCommand::replacement(payload.as_str());
                                proof {
                                    assert(loc_model(loc@).skip(0) =~= loc_model(loc@));
                                }
                                let t2 = replace_at_exec(tree, &loc, 0, repl);
                                Session {
                                    tree: t2,
                                    pending,
                                    templates,
                                    prev_changed,
                                    fired: true,
                                    once,
                                    phase: Phase::Resolve,
                                }
                            },
                            AwaitWork::Include(base) => {
                                match parse_document(payload.as_str()) {
                                    Ok(doc) => {
                                        proof {
                                            assert(loc_model(loc@).skip(0) =~= loc_model(loc@));
                                        }
                                        let t2 = replace_at_exec(tree, &loc, 0, doc);
                                        templates.remember_base(String::new(), base);
                                        Session {
                                            tree: t2,
                                            pending,
                                            templates,
                                            prev_changed,
                                            fired: true,
                                            once,
                                            phase: Phase::Resolve,
                                        }
                                    },
                                    Err(e) => {
                                        let message = match e {
                                            Error::Parse(m) => m,
                                            _ => String::new(),
                                        };
                                        Session {
                                            tree,
                                            pending,
                                            templates,
                                            prev_changed,
                                            fired,
                                            once,
                                            phase: Phase::Failed(
                                                Error::Resolution(key, message),
                                            ),
                                        }
                                    },
                                }
                            },
                        }
                    },
                }
            },
            other => {
                proof {
                    assert(false);
                }
                Session {
                    tree,
                    pending,
                    templates,
                    prev_changed,
                    fired,
                    once,
                    phase: other,
                }
            },
        }
    }

    /// The failure of a failed session.
    pub fn into_error(self) -> (r: Error)
        requires
            self.is_failed(),
        ensures
            self@.phase matches PhaseModel::Failed(e) && r@ == e,
    {
        let Session { phase, .. } = self;
        match phase {
            Phase::Failed(e) => e,
            _ => {
                proof {
                    assert(false);
                }
                Error::Stuck
            },
        }
    }
}

} // verus!
