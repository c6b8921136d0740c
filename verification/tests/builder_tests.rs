//! Building trees directly through the builder mutators, and the agreement
//! between a directly built tree and the decoded form of its document.

use clap_serde::decode::{visit_args, visit_command, visit_subcommands, InnerSubCommand};
use clap_serde::node::Node;
use clap_serde::tree::{ArgWrap, CommandWrap};

#[test]
fn builder_sets_every_attribute() {
    let cmd = CommandWrap::new("app".to_string())
        .about("a".to_string())
        .after_help("b".to_string())
        .author("c".to_string())
        .version("d".to_string())
        .subcommand(CommandWrap::new("sub".to_string()))
        .arg(ArgWrap::new("apple".to_string()));
    assert_eq!(cmd.get_name().as_str(), "app");
    assert_eq!(cmd.get_about().as_deref(), Some("a"));
    assert_eq!(cmd.get_after_help().as_deref(), Some("b"));
    assert_eq!(cmd.get_author().as_deref(), Some("c"));
    assert_eq!(cmd.get_version().as_deref(), Some("d"));
    assert_eq!(cmd.get_subcommands().len(), 1);
    assert_eq!(cmd.get_subcommands()[0].get_name().as_str(), "sub");
    assert_eq!(cmd.get_arguments().len(), 1);
    assert_eq!(cmd.get_arguments()[0].get_name().as_str(), "apple");
}

#[test]
fn argument_builder_sets_every_attribute() {
    let arg = ArgWrap::new("banana".to_string())
        .short('b')
        .long("banana".to_string())
        .aliases(vec!["musa_spp".to_string(), "plantain".to_string()]);
    assert_eq!(arg.get_name().as_str(), "banana");
    assert_eq!(arg.get_short(), Some('b'));
    assert_eq!(arg.get_long().as_deref(), Some("banana"));
    assert_eq!(arg.get_aliases().len(), 2);
    assert_eq!(arg.get_aliases()[0].as_str(), "musa_spp");
    assert_eq!(arg.get_aliases()[1].as_str(), "plantain");
}

#[test]
fn decoded_document_matches_directly_built_tree() {
    // The canonical document of the tree below, written out by hand.
    let doc = Node::Mapping(vec![
        ("name".to_string(), Node::Scalar("app".to_string())),
        ("about".to_string(), Node::Scalar("x".to_string())),
        (
            "subcommands".to_string(),
            Node::Mapping(vec![(
                "sub".to_string(),
                Node::Mapping(vec![("version".to_string(), Node::Scalar("1".to_string()))]),
            )]),
        ),
        (
            "args".to_string(),
            Node::Mapping(vec![(
                "apple".to_string(),
                Node::Mapping(vec![
                    ("short".to_string(), Node::Scalar("a".to_string())),
                    (
                        "aliases".to_string(),
                        Node::Sequence(vec![Node::Scalar("al".to_string())]),
                    ),
                ]),
            )]),
        ),
    ]);
    let decoded = CommandWrap::deserialize(&doc).unwrap();
    let built = CommandWrap::new("app".to_string())
        .about("x".to_string())
        .subcommand(CommandWrap::new("sub".to_string()).version("1".to_string()))
        .arg(
            ArgWrap::new("apple".to_string()).short('a').aliases(vec!["al".to_string()]),
        );
    assert_eq!(decoded.get_name(), built.get_name());
    assert_eq!(decoded.get_about(), built.get_about());
    assert_eq!(decoded.get_subcommands().len(), built.get_subcommands().len());
    assert_eq!(
        decoded.get_subcommands()[0].get_name(),
        built.get_subcommands()[0].get_name(),
    );
    assert_eq!(
        decoded.get_subcommands()[0].get_version(),
        built.get_subcommands()[0].get_version(),
    );
    assert_eq!(decoded.get_arguments().len(), built.get_arguments().len());
    assert_eq!(
        decoded.get_arguments()[0].get_name(),
        built.get_arguments()[0].get_name(),
    );
    assert_eq!(
        decoded.get_arguments()[0].get_short(),
        built.get_arguments()[0].get_short(),
    );
    assert_eq!(
        decoded.get_arguments()[0].get_aliases(),
        built.get_arguments()[0].get_aliases(),
    );
}

#[test]
fn inner_subcommand_decodes_a_single_entry_record() {
    let record = Node::Mapping(vec![(
        "sub".to_string(),
        Node::Mapping(vec![("about".to_string(), Node::Scalar("s".to_string()))]),
    )]);
    let sub = InnerSubCommand::deserialize(&record).unwrap();
    assert_eq!(sub.get_name().as_str(), "sub");
    assert_eq!(sub.get_about().as_deref(), Some("s"));
}

#[test]
fn collection_visitors_append_to_the_seed() {
    let seeded = CommandWrap::new("app".to_string())
        .subcommand(CommandWrap::new("first".to_string()));
    let more = Node::Mapping(vec![("second".to_string(), Node::Mapping(Vec::new()))]);
    let grown = visit_subcommands(seeded, &more).unwrap();
    assert_eq!(grown.get_subcommands().len(), 2);
    assert_eq!(grown.get_subcommands()[0].get_name().as_str(), "first");
    assert_eq!(grown.get_subcommands()[1].get_name().as_str(), "second");

    let seeded_args = CommandWrap::new("app".to_string())
        .arg(ArgWrap::new("first".to_string()));
    let more_args = Node::Sequence(vec![Node::Mapping(vec![(
        "second".to_string(),
        Node::Mapping(Vec::new()),
    )])]);
    let grown_args = visit_args(seeded_args, &more_args).unwrap();
    assert_eq!(grown_args.get_arguments().len(), 2);
    assert_eq!(grown_args.get_arguments()[0].get_name().as_str(), "first");
    assert_eq!(grown_args.get_arguments()[1].get_name().as_str(), "second");
}

#[test]
fn seeded_visit_keeps_the_seed_name() {
    let seed = CommandWrap::new("seeded".to_string());
    let body = Node::Mapping(vec![("about".to_string(), Node::Scalar("x".to_string()))]);
    let out = visit_command(seed, &body).unwrap();
    assert_eq!(out.get_name().as_str(), "seeded");
    assert_eq!(out.get_about().as_deref(), Some("x"));
}
