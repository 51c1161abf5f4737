use tsap::merge_use_second;
use tsap::Action;
use tsap::Call;
use tsap::Error;
use tsap::GlobPattern;
use tsap::Node;
use tsap::Operation;
use tsap::ParamGuard;
use tsap::Session;
use tsap::Step;
use tsap::Templates;
use tsap::TomlBuilder;
use tsap::TomlPath;
use tsap::TryCall;
use tsap::args::parse_amendments;
use tsap::calls::Param;
use tsap::templates::Resolver;
use tsap::templates::RunCommand;

fn drive(mut s: Session) -> Result<(Node, Templates), Error> {
    loop {
        let (s2, step) = s.step();
        s = s2;
        match step {
            Step::Running => {}
            Step::NeedsWork(_) => panic!("no outside work expected"),
            Step::Done => return Ok(s.into_parts()),
            Step::Failed => return Err(s.into_error()),
        }
    }
}

#[test]
fn paths_round_trip_their_text() {
    let p = TomlPath::parse("a.b.c");
    assert_eq!(p.to_text(), "a.b.c");
    assert_eq!(p.len(), 3);
    let empty = TomlPath::parse("");
    assert_eq!(empty.len(), 1);
    assert_eq!(empty.to_text(), "");
    let pre = p.with_prefix(&vec!["root".to_string()]);
    assert_eq!(pre.to_text(), "root.a.b.c");
}

#[test]
fn amendment_tokens_build_actions() {
    let tokens = vec![
        "-a".to_string(),
        "x=12".to_string(),
        "y=-5".to_string(),
        "-m".to_string(),
        "z=hello".to_string(),
        "-d".to_string(),
        "gone".to_string(),
    ];
    let actions = parse_amendments(&tokens).unwrap();
    assert_eq!(actions.len(), 4);
    assert!(matches!(actions[0].op, Operation::Assign));
    assert_eq!(actions[0].value, Some(Node::Int(12)));
    assert_eq!(actions[1].value, Some(Node::Int(-5)));
    assert!(matches!(actions[2].op, Operation::Modify));
    assert_eq!(actions[2].value, Some(Node::Text("hello".to_string())));
    assert!(matches!(actions[3].op, Operation::Delete));
    assert_eq!(actions[3].value, None);
}

#[test]
fn oversized_and_odd_numbers_stay_text() {
    let tokens = vec![
        "big=99999999999999999999".to_string(),
        "odd=12x".to_string(),
        "min=-9223372036854775808".to_string(),
        "max=9223372036854775807".to_string(),
    ];
    let actions = parse_amendments(&tokens).unwrap();
    assert_eq!(
        actions[0].value,
        Some(Node::Text("99999999999999999999".to_string()))
    );
    assert_eq!(actions[1].value, Some(Node::Text("12x".to_string())));
    assert_eq!(actions[2].value, Some(Node::Int(i64::MIN)));
    assert_eq!(actions[3].value, Some(Node::Int(i64::MAX)));
}

#[test]
fn malformed_tokens_are_rejected() {
    match parse_amendments(&vec!["bare_path".to_string()]) {
        Err(Error::InvalidArg(t)) => assert_eq!(t, "bare_path"),
        _ => panic!("a token without '=' outside delete mode must be rejected"),
    }
    match parse_amendments(&vec!["-d".to_string(), "a=b".to_string()]) {
        Err(Error::InvalidArg(t)) => assert_eq!(t, "a=b"),
        _ => panic!("a token with '=' in delete mode must be rejected"),
    }
    match parse_amendments(&vec!["a=b=c".to_string()]) {
        Err(Error::InvalidArg(t)) => assert_eq!(t, "a=b=c"),
        _ => panic!("a token with two '=' must be rejected"),
    }
}

#[test]
fn merging_prefers_the_second_document() {
    let a = Node::Table(vec![
        ("keep".to_string(), Node::Int(1)),
        ("swap".to_string(), Node::Int(2)),
    ]);
    let b = Node::Table(vec![
        ("swap".to_string(), Node::Int(20)),
        ("new".to_string(), Node::Int(30)),
    ]);
    let merged = merge_use_second(a, b).unwrap();
    let get = |key: &str| -> Option<Node> {
        match &merged {
            Node::Table(es) => es.iter().find(|e| e.0 == key).map(|e| e.1.dup()),
            _ => None,
        }
    };
    assert_eq!(get("keep"), Some(Node::Int(1)));
    assert_eq!(get("swap"), Some(Node::Int(20)));
    assert_eq!(get("new"), Some(Node::Int(30)));
}

#[test]
fn merging_incompatible_shapes_fails() {
    match merge_use_second(Node::Int(1), Node::Text("x".to_string())) {
        Err(Error::MergeFailed) => {}
        _ => panic!("an integer cannot merge with a string"),
    }
}

#[test]
fn glob_replacement_sorts_its_matches() {
    let matches_in = vec!["b.toml".to_string(), "a.toml".to_string(), "c.toml".to_string()];
    let node = GlobPattern::replacement(matches_in);
    assert_eq!(
        node,
        Node::Sequence(vec![
            Node::Text("a.toml".to_string()),
            Node::Text("b.toml".to_string()),
            Node::Text("c.toml".to_string()),
        ])
    );
}

#[test]
fn glob_directive_expands_from_disk() {
    // a path every Linux process can see
    let session = TomlBuilder::from_text("files = { glob = \"/proc/self/statu*\" }\n").unwrap();
    let (root, _) = drive(session).unwrap();
    let p = TomlPath::parse("files");
    match root.get_path(&p) {
        Some(Node::Sequence(items)) => {
            assert_eq!(items.len(), 1);
            assert_eq!(items[0], Node::Text("/proc/self/status".to_string()));
        }
        other => panic!("expected a sequence of matches, got {:?}", other),
    }
}

#[test]
fn glob_without_matches_is_an_empty_sequence() {
    let session =
        TomlBuilder::from_text("files = { glob = \"no_such_file_anywhere_*\" }\n").unwrap();
    let (root, _) = drive(session).unwrap();
    match root.get_path(&TomlPath::parse("files")) {
        Some(Node::Sequence(items)) => assert_eq!(items.len(), 0),
        other => panic!("expected an empty sequence, got {:?}", other),
    }
}

#[test]
fn scalars_come_through_the_parser_faithfully() {
    let content = "f = 1.5\nt = 1979-05-27T07:32:00Z\nflag = true\narr = [1, 2]\n";
    let session = TomlBuilder::from_text(content).unwrap();
    let (root, _) = drive(session).unwrap();
    match root.get_path(&TomlPath::parse("f")) {
        Some(Node::Float(bits)) => assert_eq!(f64::from_bits(*bits), 1.5),
        other => panic!("expected a float, got {:?}", other),
    }
    match root.get_path(&TomlPath::parse("t")) {
        Some(Node::Timestamp(text)) => assert!(text.starts_with("1979-05-27")),
        other => panic!("expected a timestamp, got {:?}", other),
    }
    assert_eq!(root.get_path(&TomlPath::parse("flag")), Some(&Node::Bool(true)));
    assert_eq!(
        root.get_path(&TomlPath::parse("arr")),
        Some(&Node::Sequence(vec![Node::Int(1), Node::Int(2)]))
    );
}

#[test]
fn unparsable_document_is_a_parse_error() {
    match TomlBuilder::from_text("= broken =") {
        Err(Error::Parse(_)) => {}
        _ => panic!("broken text must fail to parse"),
    }
}

#[test]
fn merge_resolved_amends_a_document() {
    let base = TomlBuilder::from_text("seed = 1\nkeep = true\n").unwrap();
    let (root, templates) = drive(base).unwrap();
    let builder = TomlBuilder::from_parts(root, templates);
    let patch_session = TomlBuilder::from_text("seed = 2\n").unwrap();
    let (patch, _) = drive(patch_session).unwrap();
    let merged = builder.merge_resolved(patch).unwrap();
    let root = merged.root();
    assert_eq!(root.get_path(&TomlPath::parse("seed")), Some(&Node::Int(2)));
    assert_eq!(root.get_path(&TomlPath::parse("keep")), Some(&Node::Bool(true)));
}

#[test]
fn registering_a_key_extends_the_registry() {
    let mut templates = Templates::default();
    assert_eq!(templates.key_list(), vec!["from_file", "cmd", "glob"]);
    templates.register("shell".to_string(), Resolver::RunCommand(RunCommand));
    assert_eq!(templates.key_list(), vec!["from_file", "cmd", "glob", "shell"]);
    templates.register("cmd".to_string(), Resolver::RunCommand(RunCommand));
    assert_eq!(templates.key_list(), vec!["from_file", "cmd", "glob", "shell"]);
}

#[test]
fn call_applies_the_wrapped_operation() {
    let call = Call::from(|x: i64| x + 1);
    assert_eq!(call.call(41), 42);
    let try_call = TryCall::from(|x: i64| {
        if x > 0 {
            Ok(x * 2)
        } else {
            Err(Error::InvalidParam("not positive".to_string()))
        }
    });
    assert_eq!(try_call.call(21).unwrap(), 42);
}

#[test]
fn params_pass_their_guard() {
    let p: Param<true, i64> = Param::default();
    assert_eq!(p.seed, 0);
    assert!(p.check().is_ok());
}

#[test]
fn errors_describe_themselves() {
    assert_eq!(Error::Stuck.describe(), "no progress on pending amendments");
    assert_eq!(Error::MergeFailed.describe(), "merging dictionaries failed");
    assert_eq!(
        Error::KeyNotExists("k".to_string(), "p".to_string()).describe(),
        "key does not exist"
    );
    assert_eq!(Error::Io("f".to_string()).describe(), "input/output error");
    assert_eq!(
        Error::InvalidParam("x".to_string()).describe(),
        "parameter violates constraint"
    );
}

#[test]
fn deferred_actions_wait_for_their_template() {
    // the amendment lands only after the include brings `inner` into being
    let content = "[outer]\nfrom_file = { base_path = \"c\", default = \"d\" }\n";
    let session = TomlBuilder::from_text(content).unwrap();
    let (s2, step) = session.step();
    assert!(matches!(step, Step::NeedsWork(_)));
    let s3 = s2.provide(Ok("inner = 1\n".to_string()));
    let (root, templates) = drive(s3).unwrap();
    let builder = TomlBuilder::from_parts(root, templates);
    let run = builder
        .amend_args(&vec!["-m".to_string(), "outer.inner=2".to_string()])
        .unwrap();
    let (root, _) = drive(run).unwrap();
    assert_eq!(root.get_path(&TomlPath::parse("outer.inner")), Some(&Node::Int(2)));
}

#[test]
fn action_views_match_their_builders() {
    let a = Action::assign(TomlPath::parse("x"), Node::Bool(true));
    assert!(matches!(a.op, Operation::Assign));
    let d = Action::delete(TomlPath::parse("x"));
    assert!(d.value.is_none());
}
