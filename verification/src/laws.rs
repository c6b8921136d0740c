//! Laws of the decoder: facts that relate several visitors, stated over the
//! specification functions of [`crate::decode`] and proved once for all
//! documents.

use vstd::prelude::*;

use crate::decode::{
    is_arg_key, is_command_key, is_scalar_command_key, spec_arg_elems, spec_arg_entries, spec_args,
    spec_argument, spec_argument_entries, spec_argument_entry, spec_command, spec_command_entries,
    spec_command_entry, spec_inner_arg, spec_inner_command, spec_string_list, spec_sub_elems,
    spec_sub_entries, spec_subcommands,
};
use crate::error::ErrorView;
use crate::node::NodeView;
use crate::tree::{fresh_arg, fresh_command, ArgView, CommandView};

verus! {

/// The sequence of single-entry records that carries the same data as the
/// mapping `kvs`, element `i` being the record `{ kvs[i].0: kvs[i].1 }`.
pub open spec fn singleton_records(kvs: Seq<(Seq<char>, NodeView)>) -> Seq<NodeView> {
    Seq::new(kvs.len(), |i: int| NodeView::Mapping(seq![kvs[i]]))
}

/// The mapping shape and the sequence-of-single-entry shape of a
/// `subcommands` value with the same names, bodies and order yield the same
/// result: the same subcommand list on success and the same first error
/// otherwise.
pub proof fn lemma_subcommand_shapes_agree(seed: CommandView, kvs: Seq<(Seq<char>, NodeView)>)
    ensures
        spec_subcommands(seed, NodeView::Mapping(kvs)) == spec_subcommands(
            seed,
            NodeView::Sequence(singleton_records(kvs)),
        ),
    decreases kvs.len(),
{
    let elems = singleton_records(kvs);
    if kvs.len() == 0 {
        assert(elems =~= Seq::<NodeView>::empty());
    } else {
        assert(elems[0] == NodeView::Mapping(seq![kvs[0]]));
        assert(seq![kvs[0]].len() == 1);
        assert(seq![kvs[0]][0] == kvs[0]);
        assert(spec_inner_command(elems[0]) == spec_command(fresh_command(kvs[0].0), kvs[0].1));
        match spec_command(fresh_command(kvs[0].0), kvs[0].1) {
            Ok(sub) => {
                let seed2 = CommandView { subcommands: seed.subcommands.push(sub), ..seed };
                lemma_subcommand_shapes_agree(seed2, kvs.drop_first());
                assert(elems.drop_first() =~= singleton_records(kvs.drop_first()));
            },
            Err(e) => {},
        }
    }
}

/// The mapping shape and the sequence-of-single-entry shape of an `args`
/// value with the same names, bodies and order yield the same result.
pub proof fn lemma_arg_shapes_agree(seed: CommandView, kvs: Seq<(Seq<char>, NodeView)>)
    ensures
        spec_args(seed, NodeView::Mapping(kvs)) == spec_args(
            seed,
            NodeView::Sequence(singleton_records(kvs)),
        ),
    decreases kvs.len(),
{
    let elems = singleton_records(kvs);
    if kvs.len() == 0 {
        assert(elems =~= Seq::<NodeView>::empty());
    } else {
        assert(elems[0] == NodeView::Mapping(seq![kvs[0]]));
        assert(seq![kvs[0]].len() == 1);
        assert(seq![kvs[0]][0] == kvs[0]);
        assert(spec_inner_arg(elems[0]) == spec_argument(fresh_arg(kvs[0].0), kvs[0].1));
        match spec_argument(fresh_arg(kvs[0].0), kvs[0].1) {
            Ok(a) => {
                let seed2 = CommandView { args: seed.args.push(a), ..seed };
                lemma_arg_shapes_agree(seed2, kvs.drop_first());
                assert(elems.drop_first() =~= singleton_records(kvs.drop_first()));
            },
            Err(e) => {},
        }
    }
}

/// Decoding a `subcommands` value changes nothing of the command but its
/// subcommand list, and only ever extends that list.
pub proof fn lemma_subcommands_extend_only(seed: CommandView, n: NodeView)
    ensures
        spec_subcommands(seed, n) matches Ok(c) ==> c == (CommandView {
            subcommands: c.subcommands,
            ..seed
        }) && c.subcommands.len() >= seed.subcommands.len() && c.subcommands.take(
            seed.subcommands.len() as int,
        ) == seed.subcommands,
{
    match n {
        NodeView::Mapping(kvs) => {
            lemma_sub_entries_extend_only(seed, kvs);
        },
        NodeView::Sequence(items) => {
            lemma_sub_elems_extend_only(seed, items);
        },
        _ => {},
    }
}

proof fn lemma_sub_entries_extend_only(seed: CommandView, kvs: Seq<(Seq<char>, NodeView)>)
    ensures
        spec_sub_entries(seed, kvs) matches Ok(c) ==> c == (CommandView {
            subcommands: c.subcommands,
            ..seed
        }) && c.subcommands.len() >= seed.subcommands.len() && c.subcommands.take(
            seed.subcommands.len() as int,
        ) == seed.subcommands,
    decreases kvs.len(),
{
    if kvs.len() == 0 {
        assert(seed.subcommands.take(seed.subcommands.len() as int) =~= seed.subcommands);
    } else {
        match spec_command(fresh_command(kvs[0].0), kvs[0].1) {
            Ok(sub) => {
                let seed2 = CommandView { subcommands: seed.subcommands.push(sub), ..seed };
                lemma_sub_entries_extend_only(seed2, kvs.drop_first());
                if spec_sub_entries(seed2, kvs.drop_first()) is Ok {
                    let c = spec_sub_entries(seed2, kvs.drop_first())->Ok_0;
                    assert(c.subcommands.take(seed2.subcommands.len() as int)
                        == seed2.subcommands);
                    assert(c.subcommands.take(seed.subcommands.len() as int)
                        =~= seed.subcommands);
                }
            },
            Err(e) => {},
        }
    }
}

proof fn lemma_sub_elems_extend_only(seed: CommandView, items: Seq<NodeView>)
    ensures
        spec_sub_elems(seed, items) matches Ok(c) ==> c == (CommandView {
            subcommands: c.subcommands,
            ..seed
        }) && c.subcommands.len() >= seed.subcommands.len() && c.subcommands.take(
            seed.subcommands.len() as int,
        ) == seed.subcommands,
    decreases items.len(),
{
    if items.len() == 0 {
        assert(seed.subcommands.take(seed.subcommands.len() as int) =~= seed.subcommands);
    } else {
        match spec_inner_command(items[0]) {
            Ok(sub) => {
                let seed2 = CommandView { subcommands: seed.subcommands.push(sub), ..seed };
                lemma_sub_elems_extend_only(seed2, items.drop_first());
                if spec_sub_elems(seed2, items.drop_first()) is Ok {
                    let c = spec_sub_elems(seed2, items.drop_first())->Ok_0;
                    assert(c.subcommands.take(seed2.subcommands.len() as int)
                        == seed2.subcommands);
                    assert(c.subcommands.take(seed.subcommands.len() as int)
                        =~= seed.subcommands);
                }
            },
            Err(e) => {},
        }
    }
}

/// Decoding an `args` value changes nothing of the command but its argument
/// list, and only ever extends that list.
pub proof fn lemma_args_extend_only(seed: CommandView, n: NodeView)
    ensures
        spec_args(seed, n) matches Ok(c) ==> c == (CommandView { args: c.args, ..seed })
            && c.args.len() >= seed.args.len() && c.args.take(seed.args.len() as int)
            == seed.args,
{
    match n {
        NodeView::Mapping(kvs) => {
            lemma_arg_entries_extend_only(seed, kvs);
        },
        NodeView::Sequence(items) => {
            lemma_arg_elems_extend_only(seed, items);
        },
        _ => {},
    }
}

proof fn lemma_arg_entries_extend_only(seed: CommandView, kvs: Seq<(Seq<char>, NodeView)>)
    ensures
        spec_arg_entries(seed, kvs) matches Ok(c) ==> c == (CommandView { args: c.args, ..seed })
            && c.args.len() >= seed.args.len() && c.args.take(seed.args.len() as int)
            == seed.args,
    decreases kvs.len(),
{
    if kvs.len() == 0 {
        assert(seed.args.take(seed.args.len() as int) =~= seed.args);
    } else {
        match spec_argument(fresh_arg(kvs[0].0), kvs[0].1) {
            Ok(a) => {
                let seed2 = CommandView { args: seed.args.push(a), ..seed };
                lemma_arg_entries_extend_only(seed2, kvs.drop_first());
                if spec_arg_entries(seed2, kvs.drop_first()) is Ok {
                    let c = spec_arg_entries(seed2, kvs.drop_first())->Ok_0;
                    assert(c.args.take(seed2.args.len() as int) == seed2.args);
                    assert(c.args.take(seed.args.len() as int) =~= seed.args);
                }
            },
            Err(e) => {},
        }
    }
}

proof fn lemma_arg_elems_extend_only(seed: CommandView, items: Seq<NodeView>)
    ensures
        spec_arg_elems(seed, items) matches Ok(c) ==> c == (CommandView { args: c.args, ..seed })
            && c.args.len() >= seed.args.len() && c.args.take(seed.args.len() as int)
            == seed.args,
    decreases items.len(),
{
    if items.len() == 0 {
        assert(seed.args.take(seed.args.len() as int) =~= seed.args);
    } else {
        match spec_inner_arg(items[0]) {
            Ok(a) => {
                let seed2 = CommandView { args: seed.args.push(a), ..seed };
                lemma_arg_elems_extend_only(seed2, items.drop_first());
                if spec_arg_elems(seed2, items.drop_first()) is Ok {
                    let c = spec_arg_elems(seed2, items.drop_first())->Ok_0;
                    assert(c.args.take(seed2.args.len() as int) == seed2.args);
                    assert(c.args.take(seed.args.len() as int) =~= seed.args);
                }
            },
            Err(e) => {},
        }
    }
}

/// An entry whose key is a scalar command attribute and whose value is a
/// scalar string.
pub open spec fn is_scalar_attr_entry(e: (Seq<char>, NodeView)) -> bool {
    is_scalar_command_key(e.0) && e.1 is Scalar
}

/// A command body whose entries are all well-formed scalar attributes — in
/// particular one with no `subcommands` and no `args` key — never errors,
/// and leaves the seed's subcommand and argument lists unchanged.
pub proof fn lemma_scalar_body_never_errs(seed: CommandView, kvs: Seq<(Seq<char>, NodeView)>)
    requires
        forall|i: int| 0 <= i < kvs.len() ==> is_scalar_attr_entry(#[trigger] kvs[i]),
    ensures
        spec_command(seed, NodeView::Mapping(kvs)) is Ok,
        spec_command(seed, NodeView::Mapping(kvs))->Ok_0.subcommands == seed.subcommands,
        spec_command(seed, NodeView::Mapping(kvs))->Ok_0.args == seed.args,
    decreases kvs.len(),
{
    if kvs.len() > 0 {
        assert(is_scalar_attr_entry(kvs[0]));
        let step = spec_command_entry(seed, kvs[0].0, kvs[0].1);
        assert(step is Ok && step->Ok_0.subcommands == seed.subcommands && step->Ok_0.args
            == seed.args);
        assert(forall|i: int|
            0 <= i < kvs.drop_first().len() ==> is_scalar_attr_entry(
                #[trigger] kvs.drop_first()[i],
            ));
        lemma_scalar_body_never_errs(step->Ok_0, kvs.drop_first());
    }
}

/// A successful decode of a command body accepted only recognized keys: an
/// unknown key is never silently ignored.
pub proof fn lemma_ok_keys_recognized(seed: CommandView, kvs: Seq<(Seq<char>, NodeView)>)
    requires
        spec_command(seed, NodeView::Mapping(kvs)) is Ok,
    ensures
        forall|i: int| 0 <= i < kvs.len() ==> is_command_key(#[trigger] kvs[i].0),
    decreases kvs.len(),
{
    if kvs.len() > 0 {
        let step = spec_command_entry(seed, kvs[0].0, kvs[0].1);
        assert(step is Ok);
        assert(is_command_key(kvs[0].0));
        lemma_ok_keys_recognized(step->Ok_0, kvs.drop_first());
        assert forall|i: int| 0 <= i < kvs.len() implies is_command_key(#[trigger] kvs[i].0) by {
            if i > 0 {
                assert(kvs.drop_first()[i - 1] == kvs[i]);
            }
        }
    }
}

/// A successful decode of an argument body accepted only recognized keys: an
/// unknown attribute key is never silently ignored.
pub proof fn lemma_ok_arg_keys_recognized(seed: ArgView, kvs: Seq<(Seq<char>, NodeView)>)
    requires
        spec_argument(seed, NodeView::Mapping(kvs)) is Ok,
    ensures
        forall|i: int| 0 <= i < kvs.len() ==> is_arg_key(#[trigger] kvs[i].0),
    decreases kvs.len(),
{
    if kvs.len() > 0 {
        let step = spec_argument_entry(seed, kvs[0].0, kvs[0].1);
        assert(step is Ok);
        assert(is_arg_key(kvs[0].0));
        lemma_ok_arg_keys_recognized(step->Ok_0, kvs.drop_first());
        assert forall|i: int| 0 <= i < kvs.len() implies is_arg_key(#[trigger] kvs[i].0) by {
            if i > 0 {
                assert(kvs.drop_first()[i - 1] == kvs[i]);
            }
        }
    }
}

/// A command body whose entries are well-formed scalar attributes up to an
/// unrecognized key fails with `UnknownField` naming that key.
pub proof fn lemma_unknown_key_fails(seed: CommandView, kvs: Seq<(Seq<char>, NodeView)>, j: int)
    requires
        0 <= j < kvs.len(),
        forall|i: int| 0 <= i < j ==> is_scalar_attr_entry(#[trigger] kvs[i]),
        !is_command_key(kvs[j].0),
    ensures
        spec_command(seed, NodeView::Mapping(kvs)) == Err::<CommandView, ErrorView>(
            ErrorView::UnknownField(kvs[j].0),
        ),
    decreases j,
{
    if j == 0 {
        assert(spec_command_entry(seed, kvs[0].0, kvs[0].1) == Err::<CommandView, ErrorView>(
            ErrorView::UnknownField(kvs[0].0),
        ));
    } else {
        assert(is_scalar_attr_entry(kvs[0]));
        let step = spec_command_entry(seed, kvs[0].0, kvs[0].1);
        assert(step is Ok);
        assert(forall|i: int|
            0 <= i < j - 1 ==> is_scalar_attr_entry(#[trigger] kvs.drop_first()[i]));
        assert(kvs.drop_first()[j - 1] == kvs[j]);
        lemma_unknown_key_fails(step->Ok_0, kvs.drop_first(), j - 1);
    }
}

/// Name-seeding: when a command body holds no `name` key, the decoded
/// command keeps the name it was seeded with — in the collection shapes,
/// the name taken from the mapping key or the single-entry record's key.
pub proof fn lemma_seeded_name_kept(seed: CommandView, kvs: Seq<(Seq<char>, NodeView)>)
    requires
        forall|i: int| 0 <= i < kvs.len() ==> (#[trigger] kvs[i].0) != "name"@,
        spec_command(seed, NodeView::Mapping(kvs)) is Ok,
    ensures
        spec_command(seed, NodeView::Mapping(kvs))->Ok_0.name == seed.name,
    decreases kvs.len(),
{
    if kvs.len() > 0 {
        let step = spec_command_entry(seed, kvs[0].0, kvs[0].1);
        assert(step is Ok);
        assert(step->Ok_0.name == seed.name) by {
            lemma_subcommands_extend_only(seed, kvs[0].1);
            lemma_args_extend_only(seed, kvs[0].1);
        }
        assert(forall|i: int|
            0 <= i < kvs.drop_first().len() ==> (#[trigger] kvs.drop_first()[i].0) != "name"@);
        lemma_seeded_name_kept(step->Ok_0, kvs.drop_first());
    }
}

/// One optional scalar attribute entry of a canonical document: nothing when
/// the attribute is unset, one scalar entry when it is set.
pub open spec fn opt_entry(k: Seq<char>, v: Option<Seq<char>>) -> Seq<(Seq<char>, NodeView)> {
    match v {
        Some(s) => seq![(k, NodeView::Scalar(s))],
        None => Seq::empty(),
    }
}

/// The canonical sequence of scalar nodes carrying an alias list.
pub open spec fn encoded_aliases(aliases: Seq<Seq<char>>) -> Seq<NodeView> {
    Seq::new(aliases.len(), |i: int| NodeView::Scalar(aliases[i]))
}

/// The canonical document body of an argument.
pub open spec fn encoded_arg_entries(a: ArgView) -> Seq<(Seq<char>, NodeView)> {
    (match a.short {
        Some(c) => seq![("short"@, NodeView::Scalar(seq![c]))],
        None => Seq::empty(),
    }) + opt_entry("long"@, a.long) + seq![
        ("aliases"@, NodeView::Sequence(encoded_aliases(a.aliases))),
    ]
}

/// The canonical entries of an argument collection, in mapping shape.
pub open spec fn encoded_args(args: Seq<ArgView>) -> Seq<(Seq<char>, NodeView)> {
    Seq::new(
        args.len(),
        |i: int| (args[i].name, NodeView::Mapping(encoded_arg_entries(args[i]))),
    )
}

/// The canonical document body of a command, its name included.
pub open spec fn encoded_command_entries(c: CommandView) -> Seq<(Seq<char>, NodeView)>
    decreases c,
{
    seq![("name"@, NodeView::Scalar(c.name))] + opt_entry("about"@, c.about) + opt_entry(
        "after_help"@,
        c.after_help,
    ) + opt_entry("author"@, c.author) + opt_entry("version"@, c.version) + seq![
        ("subcommands"@, NodeView::Mapping(encoded_subcommands(c.subcommands))),
    ] + seq![("args"@, NodeView::Mapping(encoded_args(c.args)))]
}

/// The canonical entries of a subcommand collection, in mapping shape.
pub open spec fn encoded_subcommands(subs: Seq<CommandView>) -> Seq<(Seq<char>, NodeView)>
    decreases subs,
{
    if subs.len() == 0 {
        Seq::empty()
    } else {
        seq![(subs[0].name, NodeView::Mapping(encoded_command_entries(subs[0])))]
            + encoded_subcommands(subs.drop_first())
    }
}

/// The canonical document of a command tree.
pub open spec fn encoded_command(c: CommandView) -> NodeView {
    NodeView::Mapping(encoded_command_entries(c))
}

/// The recognized keys are pairwise distinct literals.
proof fn lemma_keys_distinct()
    ensures
        "about"@ != "after_help"@,
        "author"@ != "after_help"@,
        "author"@ != "about"@,
        "name"@ != "after_help"@,
        "name"@ != "about"@,
        "name"@ != "author"@,
        "version"@ != "after_help"@,
        "version"@ != "about"@,
        "version"@ != "author"@,
        "version"@ != "name"@,
        "subcommands"@ != "after_help"@,
        "subcommands"@ != "about"@,
        "subcommands"@ != "author"@,
        "subcommands"@ != "name"@,
        "subcommands"@ != "version"@,
        "args"@ != "after_help"@,
        "args"@ != "about"@,
        "args"@ != "author"@,
        "args"@ != "name"@,
        "args"@ != "version"@,
        "args"@ != "subcommands"@,
        "long"@ != "short"@,
        "aliases"@ != "short"@,
        "aliases"@ != "long"@,
{
    reveal_strlit("after_help");
    reveal_strlit("about");
    reveal_strlit("author");
    reveal_strlit("name");
    reveal_strlit("version");
    reveal_strlit("subcommands");
    reveal_strlit("args");
    reveal_strlit("short");
    reveal_strlit("long");
    reveal_strlit("aliases");
    assert("after_help"@.len() == 10);
    assert("about"@.len() == 5);
    assert("author"@.len() == 6);
    assert("name"@.len() == 4);
    assert("version"@.len() == 7);
    assert("subcommands"@.len() == 11);
    assert("args"@.len() == 4);
    assert("short"@.len() == 5);
    assert("long"@.len() == 4);
    assert("aliases"@.len() == 7);
    assert("name"@[0] == 'n');
    assert("args"@[0] == 'a');
    assert("long"@[0] == 'l');
}

/// Folding a command body over concatenated entries is folding over the first
/// part, then over the second.
proof fn lemma_command_entries_append(
    seed: CommandView,
    a: Seq<(Seq<char>, NodeView)>,
    b: Seq<(Seq<char>, NodeView)>,
)
    ensures
        spec_command_entries(seed, a + b) == (match spec_command_entries(seed, a) {
            Ok(s2) => spec_command_entries(s2, b),
            Err(e) => Err(e),
        }),
    decreases a.len(),
{
    if a.len() == 0 {
        assert(a + b =~= b);
    } else {
        assert((a + b)[0] == a[0]);
        assert((a + b).drop_first() =~= a.drop_first() + b);
        match spec_command_entry(seed, a[0].0, a[0].1) {
            Ok(s2) => {
                lemma_command_entries_append(s2, a.drop_first(), b);
            },
            Err(e) => {},
        }
    }
}

/// Folding a command body over a single entry is applying that entry.
proof fn lemma_command_single(seed: CommandView, e: (Seq<char>, NodeView))
    ensures
        spec_command_entries(seed, seq![e]) == spec_command_entry(seed, e.0, e.1),
{
    reveal_with_fuel(spec_command_entries, 2);
    assert(seq![e].len() == 1);
    assert(seq![e][0] == e);
    assert(seq![e].drop_first() =~= Seq::<(Seq<char>, NodeView)>::empty());
}

/// Folding an argument body over a single entry is applying that entry.
proof fn lemma_argument_single(seed: ArgView, e: (Seq<char>, NodeView))
    ensures
        spec_argument_entries(seed, seq![e]) == spec_argument_entry(seed, e.0, e.1),
{
    reveal_with_fuel(spec_argument_entries, 2);
    assert(seq![e].len() == 1);
    assert(seq![e][0] == e);
    assert(seq![e].drop_first() =~= Seq::<(Seq<char>, NodeView)>::empty());
}

/// Folding an argument body over concatenated entries is folding over the
/// first part, then over the second.
proof fn lemma_argument_entries_append(
    seed: ArgView,
    a: Seq<(Seq<char>, NodeView)>,
    b: Seq<(Seq<char>, NodeView)>,
)
    ensures
        spec_argument_entries(seed, a + b) == (match spec_argument_entries(seed, a) {
            Ok(s2) => spec_argument_entries(s2, b),
            Err(e) => Err(e),
        }),
    decreases a.len(),
{
    if a.len() == 0 {
        assert(a + b =~= b);
    } else {
        assert((a + b)[0] == a[0]);
        assert((a + b).drop_first() =~= a.drop_first() + b);
        match spec_argument_entry(seed, a[0].0, a[0].1) {
            Ok(s2) => {
                lemma_argument_entries_append(s2, a.drop_first(), b);
            },
            Err(e) => {},
        }
    }
}

/// Decoding the canonical body of an argument, seeded with its name, rebuilds
/// exactly that argument.
pub proof fn lemma_arg_round_trip(a: ArgView)
    ensures
        spec_argument(fresh_arg(a.name), NodeView::Mapping(encoded_arg_entries(a))) == Ok::<
            ArgView,
            ErrorView,
        >(a),
{
    let s0 = fresh_arg(a.name);
    let p1 = (match a.short {
        Some(c) => seq![("short"@, NodeView::Scalar(seq![c]))],
        None => Seq::<(Seq<char>, NodeView)>::empty(),
    });
    let p2 = opt_entry("long"@, a.long);
    let aliases_node = NodeView::Sequence(encoded_aliases(a.aliases));
    let p3 = seq![("aliases"@, aliases_node)];
    assert(encoded_arg_entries(a) == p1 + p2 + p3);

    let s1 = ArgView { short: a.short, ..s0 };
    assert(spec_argument_entries(s0, p1) == Ok::<ArgView, ErrorView>(s1)) by {
        match a.short {
            Some(c) => {
                lemma_keys_distinct();
                lemma_argument_single(s0, ("short"@, NodeView::Scalar(seq![c])));
                assert(seq![c].len() == 1);
                assert(seq![c][0] == c);
            },
            None => {
                assert(p1 =~= Seq::<(Seq<char>, NodeView)>::empty());
                assert(s1 == s0);
            },
        }
    }
    let s2 = ArgView { long: a.long, ..s1 };
    assert(spec_argument_entries(s1, p2) == Ok::<ArgView, ErrorView>(s2)) by {
        match a.long {
            Some(l) => {
                lemma_keys_distinct();
                lemma_argument_single(s1, ("long"@, NodeView::Scalar(l)));
            },
            None => {
                assert(p2 =~= Seq::<(Seq<char>, NodeView)>::empty());
                assert(s2 == s1);
            },
        }
    }
    let s3 = ArgView { aliases: a.aliases, ..s2 };
    assert(spec_argument_entries(s2, p3) == Ok::<ArgView, ErrorView>(s3)) by {
        lemma_keys_distinct();
        lemma_argument_single(s2, ("aliases"@, aliases_node));
        assert(spec_string_list(aliases_node) == Ok::<Seq<Seq<char>>, ErrorView>(a.aliases)) by {
            assert(forall|j: int|
                0 <= j < a.aliases.len() ==> (#[trigger] encoded_aliases(a.aliases)[j]) is Scalar);
            assert(Seq::new(
                encoded_aliases(a.aliases).len(),
                |j: int| encoded_aliases(a.aliases)[j]->Scalar_0,
            ) =~= a.aliases);
        }
    }
    lemma_argument_entries_append(s0, p1, p2);
    lemma_argument_entries_append(s0, p1 + p2, p3);
    assert(s3 == a);
}

/// Decoding the canonical entries of a subcommand collection appends exactly
/// those subcommands.
proof fn lemma_sub_collection_round(seed: CommandView, subs: Seq<CommandView>)
    ensures
        spec_sub_entries(seed, encoded_subcommands(subs)) == Ok::<CommandView, ErrorView>(
            CommandView { subcommands: seed.subcommands + subs, ..seed },
        ),
    decreases subs,
{
    if subs.len() == 0 {
        assert(seed.subcommands + subs =~= seed.subcommands);
        assert((CommandView { subcommands: seed.subcommands + subs, ..seed }) == seed);
    } else {
        let sub0 = subs[0];
        let es = encoded_subcommands(subs);
        assert(es[0] == (sub0.name, NodeView::Mapping(encoded_command_entries(sub0))));
        assert(es.drop_first() =~= encoded_subcommands(subs.drop_first()));
        lemma_round_trip(sub0, sub0.name);
        let seed2 = CommandView { subcommands: seed.subcommands.push(sub0), ..seed };
        lemma_sub_collection_round(seed2, subs.drop_first());
        assert(seed.subcommands.push(sub0) + subs.drop_first() =~= seed.subcommands + subs);
    }
}

/// Decoding the canonical entries of an argument collection appends exactly
/// those arguments.
proof fn lemma_arg_collection_round(seed: CommandView, args: Seq<ArgView>)
    ensures
        spec_arg_entries(seed, encoded_args(args)) == Ok::<CommandView, ErrorView>(
            CommandView { args: seed.args + args, ..seed },
        ),
    decreases args.len(),
{
    if args.len() == 0 {
        assert(encoded_args(args) =~= Seq::<(Seq<char>, NodeView)>::empty());
        assert(seed.args + args =~= seed.args);
        assert((CommandView { args: seed.args + args, ..seed }) == seed);
    } else {
        let a0 = args[0];
        let es = encoded_args(args);
        assert(es[0] == (a0.name, NodeView::Mapping(encoded_arg_entries(a0))));
        assert(es.drop_first() =~= encoded_args(args.drop_first()));
        lemma_arg_round_trip(a0);
        let seed2 = CommandView { args: seed.args.push(a0), ..seed };
        lemma_arg_collection_round(seed2, args.drop_first());
        assert(seed.args.push(a0) + args.drop_first() =~= seed.args + args);
    }
}

/// Round trip: decoding the canonical document of a command tree rebuilds
/// exactly that tree, whatever name the visitor was seeded with — the tree
/// built directly by the builder mutators and the tree built by decoding its
/// canonical document are equal, name and ordered lists included.
pub proof fn lemma_round_trip(c: CommandView, seed_name: Seq<char>)
    ensures
        spec_command(fresh_command(seed_name), encoded_command(c)) == Ok::<
            CommandView,
            ErrorView,
        >(c),
    decreases c,
{
    let s0 = fresh_command(seed_name);
    let p1 = seq![("name"@, NodeView::Scalar(c.name))];
    let p2 = opt_entry("about"@, c.about);
    let p3 = opt_entry("after_help"@, c.after_help);
    let p4 = opt_entry("author"@, c.author);
    let p5 = opt_entry("version"@, c.version);
    let p6 = seq![("subcommands"@, NodeView::Mapping(encoded_subcommands(c.subcommands)))];
    let p7 = seq![("args"@, NodeView::Mapping(encoded_args(c.args)))];
    assert(encoded_command_entries(c) == p1 + p2 + p3 + p4 + p5 + p6 + p7);

    let s1 = CommandView { name: c.name, ..s0 };
    assert(spec_command_entries(s0, p1) == Ok::<CommandView, ErrorView>(s1)) by {
        lemma_keys_distinct();
        lemma_command_single(s0, ("name"@, NodeView::Scalar(c.name)));
    }
    let s2 = CommandView { about: c.about, ..s1 };
    assert(spec_command_entries(s1, p2) == Ok::<CommandView, ErrorView>(s2)) by {
        match c.about {
            Some(s) => {
                lemma_keys_distinct();
                lemma_command_single(s1, ("about"@, NodeView::Scalar(s)));
            },
            None => {
                assert(p2 =~= Seq::<(Seq<char>, NodeView)>::empty());
                assert(s2 == s1);
            },
        }
    }
    let s3 = CommandView { after_help: c.after_help, ..s2 };
    assert(spec_command_entries(s2, p3) == Ok::<CommandView, ErrorView>(s3)) by {
        match c.after_help {
            Some(s) => {
                lemma_keys_distinct();
                lemma_command_single(s2, ("after_help"@, NodeView::Scalar(s)));
            },
            None => {
                assert(p3 =~= Seq::<(Seq<char>, NodeView)>::empty());
                assert(s3 == s2);
            },
        }
    }
    let s4 = CommandView { author: c.author, ..s3 };
    assert(spec_command_entries(s3, p4) == Ok::<CommandView, ErrorView>(s4)) by {
        match c.author {
            Some(s) => {
                lemma_keys_distinct();
                lemma_command_single(s3, ("author"@, NodeView::Scalar(s)));
            },
            None => {
                assert(p4 =~= Seq::<(Seq<char>, NodeView)>::empty());
                assert(s4 == s3);
            },
        }
    }
    let s5 = CommandView { version: c.version, ..s4 };
    assert(spec_command_entries(s4, p5) == Ok::<CommandView, ErrorView>(s5)) by {
        match c.version {
            Some(s) => {
                lemma_keys_distinct();
                lemma_command_single(s4, ("version"@, NodeView::Scalar(s)));
            },
            None => {
                assert(p5 =~= Seq::<(Seq<char>, NodeView)>::empty());
                assert(s5 == s4);
            },
        }
    }
    let s6 = CommandView { subcommands: c.subcommands, ..s5 };
    assert(spec_command_entries(s5, p6) == Ok::<CommandView, ErrorView>(s6)) by {
        lemma_keys_distinct();
        lemma_command_single(s5, ("subcommands"@, NodeView::Mapping(encoded_subcommands(
            c.subcommands,
        ))));
        lemma_sub_collection_round(s5, c.subcommands);
        assert(s5.subcommands + c.subcommands =~= c.subcommands);
    }
    let s7 = CommandView { args: c.args, ..s6 };
    assert(spec_command_entries(s6, p7) == Ok::<CommandView, ErrorView>(s7)) by {
        lemma_keys_distinct();
        lemma_command_single(s6, ("args"@, NodeView::Mapping(encoded_args(c.args))));
        lemma_arg_collection_round(s6, c.args);
        assert(s6.args + c.args =~= c.args);
    }
    lemma_command_entries_append(s0, p1, p2);
    lemma_command_entries_append(s0, p1 + p2, p3);
    lemma_command_entries_append(s0, p1 + p2 + p3, p4);
    lemma_command_entries_append(s0, p1 + p2 + p3 + p4, p5);
    lemma_command_entries_append(s0, p1 + p2 + p3 + p4 + p5, p6);
    lemma_command_entries_append(s0, p1 + p2 + p3 + p4 + p5 + p6, p7);
    assert(s7 == c);
}

} // verus!
