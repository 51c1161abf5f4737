use tsap::Action;
use tsap::Error;
use tsap::Node;
use tsap::Session;
use tsap::Step;
use tsap::Templates;
use tsap::TomlBuilder;
use tsap::TomlPath;
use tsap::Work;

/// Drive a session that must never ask for outside work.
fn drive(mut s: Session) -> Result<(Node, Templates), Error> {
    loop {
        let (s2, step) = s.step();
        s = s2;
        match step {
            Step::Running => {}
            Step::NeedsWork(_) => panic!("no outside work expected"),
            Step::Done => return Ok(s.into_parts()),
            Step::Failed => return Err(s.into_error()),
        }
    }
}

fn load(content: &str) -> TomlBuilder {
    let session = TomlBuilder::from_text(content).unwrap();
    let (root, templates) = drive(session).unwrap();
    TomlBuilder::from_parts(root, templates)
}

fn lookup<'a>(root: &'a Node, path: &str) -> Option<&'a Node> {
    root.get_path(&TomlPath::parse(path))
}

#[test]
fn test_default() {
    let _builder = TomlBuilder::default();
}

#[test]
fn test_from_string() {
    let content = r#"seed = 10
[dataset]
path = 'data/cifar10/'
"#;
    let builder = load(content);
    let root = builder.root();
    assert_eq!(lookup(&root, "seed"), Some(&Node::Int(10)));
    assert_eq!(
        lookup(&root, "dataset.path"),
        Some(&Node::Text("data/cifar10/".to_string()))
    );
}

#[test]
fn set_then_read_back() {
    let builder = load("[outer]\nx = 1\n");
    let path = TomlPath::parse("outer.x");
    let session = builder.apply(vec![Action::assign(path, Node::Int(42))]);
    let (root, _) = drive(session).unwrap();
    assert_eq!(lookup(&root, "outer.x"), Some(&Node::Int(42)));
}

#[test]
fn delete_twice_is_harmless() {
    let builder = load("a = 1\nb = 2\n");
    let first = drive(builder.apply(vec![Action::delete(TomlPath::parse("a"))])).unwrap().0;
    let again = TomlBuilder::from_parts(first, Templates::default());
    let second = drive(again.apply(vec![Action::delete(TomlPath::parse("a"))])).unwrap().0;
    assert_eq!(lookup(&second, "a"), None);
    assert_eq!(lookup(&second, "b"), Some(&Node::Int(2)));
}

#[test]
fn modify_keeps_siblings() {
    let builder = load("[outer]\na = 1\nb = 2\n");
    let patch = Node::Table(vec![("a".to_string(), Node::Int(5))]);
    let session = builder.apply(vec![Action::modify(TomlPath::parse("outer"), patch)]);
    let (root, _) = drive(session).unwrap();
    assert_eq!(lookup(&root, "outer.a"), Some(&Node::Int(5)));
    assert_eq!(lookup(&root, "outer.b"), Some(&Node::Int(2)));
}

#[test]
fn resolve_pass_without_directives_changes_nothing() {
    let session = TomlBuilder::from_text("seed = 10\n").unwrap();
    // the single loader pass finishes at once: nothing to resolve
    let (s2, step) = session.step();
    assert!(matches!(step, Step::Done));
    let (root, _) = s2.into_parts();
    assert_eq!(lookup(&root, "seed"), Some(&Node::Int(10)));
}

#[test]
fn unreachable_target_ends_stuck() {
    let builder = load("seed = 1\n");
    let session = builder
        .amend_args(&vec!["-m".to_string(), "ghost.key=1".to_string()])
        .unwrap();
    match drive(session) {
        Err(Error::Stuck) => {}
        other => panic!("expected the stuck failure, got {:?}", other.map(|_| ())),
    }
}

#[test]
fn set_overrides_one_leaf() {
    let builder = load("seed = 10\n[dataset]\npath = \"data/x\"\n");
    let session = builder
        .amend_args(&vec!["-a".to_string(), "dataset.path=data/y".to_string()])
        .unwrap();
    let (root, _) = drive(session).unwrap();
    assert_eq!(
        lookup(&root, "dataset.path"),
        Some(&Node::Text("data/y".to_string()))
    );
    assert_eq!(lookup(&root, "seed"), Some(&Node::Int(10)));
}

#[test]
fn command_output_is_trimmed_into_place() {
    let session = TomlBuilder::from_text("greeting = { cmd = \"echo hi\" }\n").unwrap();
    let (s2, step) = session.step();
    let command = match &step {
        Step::NeedsWork(Work::RunCommand { command }) => command.clone(),
        other => panic!("expected a command request, got {:?}", matches!(other, Step::Done)),
    };
    assert_eq!(command, "echo hi");
    let s3 = s2.provide(Ok("hi\n".to_string()));
    let (root, _) = drive(s3).unwrap();
    assert_eq!(lookup(&root, "greeting"), Some(&Node::Text("hi".to_string())));
}

#[test]
fn command_failure_fails_resolution() {
    let session = TomlBuilder::from_text("greeting = { cmd = \"echo hi\" }\n").unwrap();
    let (s2, step) = session.step();
    assert!(matches!(step, Step::NeedsWork(Work::RunCommand { .. })));
    let s3 = s2.provide(Err("cannot spawn".to_string()));
    match drive(s3) {
        Err(Error::Resolution(key, message)) => {
            assert_eq!(key, "cmd");
            assert_eq!(message, "cannot spawn");
        }
        other => panic!("expected a resolution failure, got {:?}", other.map(|_| ())),
    }
}

#[test]
fn command_directive_must_be_a_string() {
    let session = TomlBuilder::from_text("x = { cmd = 5 }\n").unwrap();
    match drive(session) {
        Err(Error::Resolution(key, _)) => assert_eq!(key, "cmd"),
        other => panic!("expected a resolution failure, got {:?}", other.map(|_| ())),
    }
}

#[test]
fn include_reads_and_parses_a_file() {
    let content = "[model]\nfrom_file = { base_path = \"config/models\", default = \"forest\" }\n";
    let session = TomlBuilder::from_text(content).unwrap();
    let (s2, step) = session.step();
    let path = match &step {
        Step::NeedsWork(Work::ReadFile { path }) => path.clone(),
        _ => panic!("expected a file request"),
    };
    assert_eq!(path, "config/models/forest.toml");
    let s3 = s2.provide(Ok("ntrees = 100\n".to_string()));
    let (root, templates) = drive(s3).unwrap();
    assert_eq!(lookup(&root, "model.ntrees"), Some(&Node::Int(100)));
    // the resolved include remembered its base path, under the empty
    // context key
    assert_eq!(
        templates.remembered_base_paths(),
        vec![("".to_string(), "config/models".to_string())]
    );
}

#[test]
fn each_resolved_include_extends_the_remembered_paths() {
    let content = "[a]\nfrom_file = { base_path = \"p\", default = \"x\" }\n\
                   [b]\nfrom_file = { base_path = \"q\", default = \"y\" }\n";
    let mut session = TomlBuilder::from_text(content).unwrap();
    loop {
        let (s2, step) = session.step();
        session = s2;
        match step {
            Step::Running => {}
            Step::NeedsWork(Work::ReadFile { .. }) => {
                session = session.provide(Ok("k = 1\n".to_string()));
            }
            Step::NeedsWork(_) => panic!("only file requests expected"),
            Step::Done => break,
            Step::Failed => panic!("{:?}", session.into_error()),
        }
    }
    let (_, templates) = session.into_parts();
    assert_eq!(
        templates.remembered_base_paths(),
        vec![
            ("".to_string(), "p".to_string()),
            ("".to_string(), "q".to_string()),
        ]
    );
}

#[test]
fn malformed_glob_pattern_fails_resolution() {
    // an unclosed character class is not a glob pattern
    let session = TomlBuilder::from_text("files = { glob = \"[\" }\n").unwrap();
    match drive(session) {
        Err(Error::Resolution(key, _)) => assert_eq!(key, "glob"),
        other => panic!("expected a resolution failure, got {:?}", other.map(|_| ())),
    }
}

#[test]
fn include_of_unparsable_file_fails_resolution() {
    let content = "[model]\nfrom_file = { base_path = \"c\", default = \"d\" }\n";
    let session = TomlBuilder::from_text(content).unwrap();
    let (s2, step) = session.step();
    assert!(matches!(step, Step::NeedsWork(Work::ReadFile { .. })));
    let s3 = s2.provide(Ok("= broken =".to_string()));
    match drive(s3) {
        Err(Error::Resolution(key, _)) => assert_eq!(key, "from_file"),
        other => panic!("expected a resolution failure, got {:?}", other.map(|_| ())),
    }
}

#[test]
fn assignment_creates_missing_structure_then_modify_lands() {
    let builder = load("[outer]\n");
    let session = builder
        .amend_args(&vec![
            "-a".to_string(),
            "outer.inner.x=5".to_string(),
            "-m".to_string(),
            "outer.inner.x=7".to_string(),
        ])
        .unwrap();
    let (root, _) = drive(session).unwrap();
    assert_eq!(lookup(&root, "outer.inner.x"), Some(&Node::Int(7)));
}

#[test]
fn empty_amendment_round_changes_nothing() {
    let builder = load("seed = 3\n");
    let (root, _) = drive(builder.apply(Vec::new())).unwrap();
    assert_eq!(lookup(&root, "seed"), Some(&Node::Int(3)));
}
