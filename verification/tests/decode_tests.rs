//! Decoding documents into command trees, through the TOML data model.

use clap_serde::error::DeError;
use clap_serde::node::Node;
use clap_serde::tree::{ArgWrap, CommandWrap};

/// Rebuild a decoded TOML value as the crate's self-describing node tree.
fn node_of_toml(v: toml::Value) -> Node {
    match v {
        toml::Value::String(s) => Node::Scalar(s),
        toml::Value::Array(items) => Node::Sequence(items.into_iter().map(node_of_toml).collect()),
        toml::Value::Table(t) => {
            Node::Mapping(t.into_iter().map(|(k, val)| (k, node_of_toml(val))).collect())
        }
        _ => Node::Other,
    }
}

fn parse_toml(doc: &str) -> Result<CommandWrap, DeError> {
    let table: toml::Table = toml::from_str(doc).expect("the document is not valid TOML");
    CommandWrap::deserialize(&node_of_toml(toml::Value::Table(table)))
}

#[test]
fn info_toml() {
    const CLAP_TOML: &str = r#"
after_help = "help"
name = "other"
version = "1.0"
author = "erikareads"
about = "test-clap-serde"
[subcommands]
sub1 = { about = "subcommand_1" }
[subcommands.sub2]
about = "subcommand_2"
"#;
    let app: CommandWrap = parse_toml(CLAP_TOML).unwrap();
    assert_eq!(app.get_name().as_str(), "other");
    assert_eq!(app.get_version().as_deref(), Some("1.0"));
    assert_eq!(app.get_author().as_deref(), Some("erikareads"));
    assert_eq!(app.get_about().as_deref(), Some("test-clap-serde"));
    assert_eq!(app.get_after_help().as_deref(), Some("help"));
    let subs = app.get_subcommands();
    assert_eq!(subs.len(), 2);
    assert_eq!(subs[0].get_name().as_str(), "sub1");
    assert_eq!(subs[0].get_about().as_deref(), Some("subcommand_1"));
    assert_eq!(subs[1].get_name().as_str(), "sub2");
    assert_eq!(subs[1].get_about().as_deref(), Some("subcommand_2"));
}

#[test]
fn info_toml2() {
    const CLAP_TOML: &str = r#"
name = "app_clap_serde"
version = "1.0"
author = "toml_tester"
about = "test-clap-serde"
[subcommands]
sub1 = { about = "subcommand_1" }
[subcommands.sub2]
about = "subcommand_2"
[args]
apple = { short = "a" }
banana = { short = "b", long = "banana", aliases = ["musa_spp"] }
"#;
    let app: CommandWrap = parse_toml(CLAP_TOML).unwrap();
    assert_eq!(app.get_name().as_str(), "app_clap_serde");
    assert_eq!(app.get_subcommands().len(), 2);
    let args = app.get_arguments();
    assert_eq!(args.len(), 2);
    assert_eq!(args[0].get_name().as_str(), "apple");
    assert_eq!(args[0].get_short(), Some('a'));
    assert_eq!(args[1].get_name().as_str(), "banana");
    assert_eq!(args[1].get_short(), Some('b'));
    assert_eq!(args[1].get_long().as_deref(), Some("banana"));
    assert_eq!(args[1].get_aliases(), &vec!["musa_spp".to_string()]);
}

#[test]
fn basic_command() {
    const CLAP_TOML: &str = r#"
name = "app_clap_serde"
"#;
    let app: CommandWrap = parse_toml(CLAP_TOML).unwrap();
    let builder = CommandWrap::new("app_clap_serde".to_string());
    assert_eq!(app.get_name(), builder.get_name());
}

#[test]
fn command_with_args() {
    const CLAP_TOML: &str = r#"
name = "app_clap_serde"
[args]
apple = { short = "a" }
banana = { short = "b", long = "banana", aliases = ["musa_spp"] }
"#;
    let app: CommandWrap = parse_toml(CLAP_TOML).unwrap();
    let builder = CommandWrap::new("app_clap_serde".to_string())
        .arg(ArgWrap::new("apple".to_string()).short('a'))
        .arg(ArgWrap::new("banana".to_string()).short('b').long("banana".to_string()));
    assert_eq!(app.get_name(), builder.get_name());
    let app_args = app.get_arguments();
    let builder_args = builder.get_arguments();
    assert_eq!(app_args.len(), builder_args.len());
    for (arg1, arg2) in std::iter::zip(app_args.iter(), builder_args.iter()) {
        assert_eq!(arg1.get_name(), arg2.get_name());
    }
}

#[test]
fn name_only_document_yields_empty_command() {
    let app = parse_toml("name = \"app\"\n").unwrap();
    assert_eq!(app.get_name().as_str(), "app");
    assert_eq!(app.get_about(), &None);
    assert_eq!(app.get_after_help(), &None);
    assert_eq!(app.get_author(), &None);
    assert_eq!(app.get_version(), &None);
    assert!(app.get_subcommands().is_empty());
    assert!(app.get_arguments().is_empty());
}

#[test]
fn single_argument_with_short() {
    const CLAP_TOML: &str = r#"
name = "app"
[args]
apple = { short = "a" }
"#;
    let app = parse_toml(CLAP_TOML).unwrap();
    let args = app.get_arguments();
    assert_eq!(args.len(), 1);
    assert_eq!(args[0].get_name().as_str(), "apple");
    assert_eq!(args[0].get_short(), Some('a'));
    assert_eq!(args[0].get_long(), &None);
    assert!(args[0].get_aliases().is_empty());
}

#[test]
fn subcommand_sequence_and_map_forms_agree() {
    const SEQUENCE_FORM: &str = r#"
name = "app"
subcommands = [ { sub2 = { about = "s2" } } ]
"#;
    const MAP_FORM: &str = r#"
name = "app"
[subcommands.sub2]
about = "s2"
"#;
    let a = parse_toml(SEQUENCE_FORM).unwrap();
    let b = parse_toml(MAP_FORM).unwrap();
    assert_eq!(a.get_name(), b.get_name());
    let subs_a = a.get_subcommands();
    let subs_b = b.get_subcommands();
    assert_eq!(subs_a.len(), 1);
    assert_eq!(subs_b.len(), 1);
    assert_eq!(subs_a[0].get_name(), subs_b[0].get_name());
    assert_eq!(subs_a[0].get_name().as_str(), "sub2");
    assert_eq!(subs_a[0].get_about(), subs_b[0].get_about());
    assert_eq!(subs_a[0].get_about().as_deref(), Some("s2"));
}

#[test]
fn arg_sequence_and_map_forms_agree() {
    const SEQUENCE_FORM: &str = r#"
name = "app"
args = [ { apple = { short = "a" } } ]
"#;
    const MAP_FORM: &str = r#"
name = "app"
[args]
apple = { short = "a" }
"#;
    let a = parse_toml(SEQUENCE_FORM).unwrap();
    let b = parse_toml(MAP_FORM).unwrap();
    let args_a = a.get_arguments();
    let args_b = b.get_arguments();
    assert_eq!(args_a.len(), 1);
    assert_eq!(args_b.len(), 1);
    assert_eq!(args_a[0].get_name(), args_b[0].get_name());
    assert_eq!(args_a[0].get_short(), args_b[0].get_short());
}

#[test]
fn name_is_seeded_from_the_container_key() {
    const CLAP_TOML: &str = r#"
[subcommands.sub1]
about = "x"
"#;
    let app = parse_toml(CLAP_TOML).unwrap();
    let subs = app.get_subcommands();
    assert_eq!(subs.len(), 1);
    assert_eq!(subs[0].get_name().as_str(), "sub1");
    assert_eq!(subs[0].get_about().as_deref(), Some("x"));
}

#[test]
fn unknown_key_is_rejected() {
    let r = parse_toml("foo = 1\n");
    match r {
        Err(DeError::UnknownField(k)) => assert_eq!(k.as_str(), "foo"),
        other => panic!("expected an unknown-field error, got {:?}", other),
    }
}

#[test]
fn unknown_arg_key_is_rejected() {
    const CLAP_TOML: &str = r#"
name = "app"
[args]
apple = { flavor = "sweet" }
"#;
    let r = parse_toml(CLAP_TOML);
    match r {
        Err(DeError::UnknownField(k)) => assert_eq!(k.as_str(), "flavor"),
        other => panic!("expected an unknown-field error, got {:?}", other),
    }
}

#[test]
fn two_key_sequence_element_is_an_arity_error() {
    const CLAP_TOML: &str = r#"
name = "app"
subcommands = [ { a = {}, b = {} } ]
"#;
    let r = parse_toml(CLAP_TOML);
    assert!(matches!(r, Err(DeError::ArityError)));
}

#[test]
fn empty_sequence_element_is_a_missing_field() {
    const CLAP_TOML: &str = r#"
name = "app"
subcommands = [ {} ]
"#;
    let r = parse_toml(CLAP_TOML);
    assert!(matches!(r, Err(DeError::MissingField)));
}

#[test]
fn non_string_attribute_is_a_type_mismatch() {
    let r = parse_toml("about = 1\n");
    assert!(matches!(r, Err(DeError::TypeMismatch)));
}

#[test]
fn long_short_value_is_a_type_mismatch() {
    const CLAP_TOML: &str = r#"
name = "app"
[args]
apple = { short = "ab" }
"#;
    let r = parse_toml(CLAP_TOML);
    assert!(matches!(r, Err(DeError::TypeMismatch)));
}

#[test]
fn scalar_collection_value_is_a_wrong_shape() {
    let r = parse_toml("subcommands = \"x\"\n");
    assert!(matches!(r, Err(DeError::WrongShape)));
}

#[test]
fn scalar_document_is_a_wrong_shape() {
    let r = CommandWrap::deserialize(&Node::Scalar("app".to_string()));
    assert!(matches!(r, Err(DeError::WrongShape)));
}

#[test]
fn placeholder_name_without_name_key() {
    let app = CommandWrap::deserialize(&Node::Mapping(Vec::new())).unwrap();
    assert_eq!(app.get_name().as_str(), "tmp_name");
}

#[test]
fn later_name_key_overwrites_the_seeded_name() {
    let doc = Node::Mapping(vec![
        ("about".to_string(), Node::Scalar("first".to_string())),
        ("name".to_string(), Node::Scalar("real".to_string())),
    ]);
    let app = CommandWrap::deserialize(&doc).unwrap();
    assert_eq!(app.get_name().as_str(), "real");
    assert_eq!(app.get_about().as_deref(), Some("first"));
}

#[test]
fn last_write_wins_on_repeated_keys() {
    let doc = Node::Mapping(vec![
        ("about".to_string(), Node::Scalar("first".to_string())),
        ("about".to_string(), Node::Scalar("second".to_string())),
    ]);
    let app = CommandWrap::deserialize(&doc).unwrap();
    assert_eq!(app.get_about().as_deref(), Some("second"));
}

#[test]
fn nested_subcommands_decode_depth_first() {
    const CLAP_TOML: &str = r#"
name = "root"
[subcommands.child.subcommands.grandchild]
about = "deepest"
"#;
    let app = parse_toml(CLAP_TOML).unwrap();
    let child = &app.get_subcommands()[0];
    assert_eq!(child.get_name().as_str(), "child");
    let grandchild = &child.get_subcommands()[0];
    assert_eq!(grandchild.get_name().as_str(), "grandchild");
    assert_eq!(grandchild.get_about().as_deref(), Some("deepest"));
}
