//! The recursive descent decoder: one visitor per syntactic role of the
//! schema (command body, subcommand collection, single-entry subcommand
//! record, argument collection, single-entry argument record, argument body).
//!
//! Each visitor accepts a self-describing [`Node`] and produces a typed node
//! of the schema tree or the first structural error.  The `spec_` functions
//! of this module say exactly what each visitor returns; the executable
//! visitors are proved against them.

use vstd::prelude::*;

use crate::error::{DeError, ErrorView};
use crate::node::{
    lemma_views_of_entries_index, lemma_views_of_entries_len, lemma_views_of_nodes_index,
    lemma_views_of_nodes_len, views_of_entries, views_of_nodes, Node, NodeView,
};
use crate::tree::{fresh_arg, fresh_command, ArgView, ArgWrap, CommandView, CommandWrap};

verus! {

/// The keys of a command body whose value is a plain string.
pub open spec fn is_scalar_command_key(k: Seq<char>) -> bool {
    ||| k == "after_help"@
    ||| k == "about"@
    ||| k == "author"@
    ||| k == "name"@
    ||| k == "version"@
}

/// The keys recognized inside a command body.
pub open spec fn is_command_key(k: Seq<char>) -> bool {
    ||| is_scalar_command_key(k)
    ||| k == "subcommands"@
    ||| k == "args"@
}

/// The keys recognized inside an argument body.
pub open spec fn is_arg_key(k: Seq<char>) -> bool {
    ||| k == "short"@
    ||| k == "long"@
    ||| k == "aliases"@
}

/// What reading an attribute value as a string yields.
pub open spec fn spec_string_value(n: NodeView) -> Result<Seq<char>, ErrorView> {
    match n {
        NodeView::Scalar(s) => Ok(s),
        _ => Err(ErrorView::TypeMismatch),
    }
}

/// What reading an attribute value as a single character yields.
pub open spec fn spec_char_value(n: NodeView) -> Result<char, ErrorView> {
    match n {
        NodeView::Scalar(s) => if s.len() == 1 {
            Ok(s[0])
        } else {
            Err(ErrorView::TypeMismatch)
        },
        _ => Err(ErrorView::TypeMismatch),
    }
}

/// What reading an attribute value as a list of strings yields.
pub open spec fn spec_string_list(n: NodeView) -> Result<Seq<Seq<char>>, ErrorView> {
    match n {
        NodeView::Sequence(items) => if forall|j: int| 0 <= j < items.len() ==> items[j] is Scalar {
            Ok(Seq::new(items.len(), |j: int| items[j]->Scalar_0))
        } else {
            Err(ErrorView::TypeMismatch)
        },
        _ => Err(ErrorView::TypeMismatch),
    }
}

/// What decoding a command body (a mapping of attribute keys) yields.
pub open spec fn spec_command(seed: CommandView, n: NodeView) -> Result<CommandView, ErrorView>
    decreases n, 2int,
{
    match n {
        NodeView::Mapping(kvs) => spec_command_entries(seed, kvs),
        _ => Err(ErrorView::WrongShape),
    }
}

/// The fold of [`spec_command_entry`] over the entries of a command body, in
/// document order, stopping at the first error.
pub open spec fn spec_command_entries(
    seed: CommandView,
    kvs: Seq<(Seq<char>, NodeView)>,
) -> Result<CommandView, ErrorView>
    decreases kvs, 1int,
{
    if kvs.len() == 0 {
        Ok(seed)
    } else {
        match spec_command_entry(seed, kvs[0].0, kvs[0].1) {
            Ok(cur) => spec_command_entries(cur, kvs.drop_first()),
            Err(e) => Err(e),
        }
    }
}

/// What one key/value entry of a command body does to the command built so
/// far.
pub open spec fn spec_command_entry(
    cur: CommandView,
    k: Seq<char>,
    v: NodeView,
) -> Result<CommandView, ErrorView>
    decreases v, 2int,
{
    if k == "after_help"@ {
        match spec_string_value(v) {
            Ok(s) => Ok(CommandView { after_help: Some(s), ..cur }),
            Err(e) => Err(e),
        }
    } else if k == "about"@ {
        match spec_string_value(v) {
            Ok(s) => Ok(CommandView { about: Some(s), ..cur }),
            Err(e) => Err(e),
        }
    } else if k == "author"@ {
        match spec_string_value(v) {
            Ok(s) => Ok(CommandView { author: Some(s), ..cur }),
            Err(e) => Err(e),
        }
    } else if k == "name"@ {
        match spec_string_value(v) {
            Ok(s) => Ok(CommandView { name: s, ..cur }),
            Err(e) => Err(e),
        }
    } else if k == "version"@ {
        match spec_string_value(v) {
            Ok(s) => Ok(CommandView { version: Some(s), ..cur }),
            Err(e) => Err(e),
        }
    } else if k == "subcommands"@ {
        spec_subcommands(cur, v)
    } else if k == "args"@ {
        spec_args(cur, v)
    } else {
        Err(ErrorView::UnknownField(k))
    }
}

/// What decoding a `subcommands` value yields: either a mapping of names to
/// command bodies, or a sequence of single-entry records.  Both shapes append
/// the subcommands, in encounter order, to the command built so far.
pub open spec fn spec_subcommands(seed: CommandView, n: NodeView) -> Result<CommandView, ErrorView>
    decreases n, 1int,
{
    match n {
        NodeView::Mapping(kvs) => spec_sub_entries(seed, kvs),
        NodeView::Sequence(items) => spec_sub_elems(seed, items),
        _ => Err(ErrorView::WrongShape),
    }
}

/// The mapping shape of `subcommands`: each key names a subcommand, each
/// value is its body.
pub open spec fn spec_sub_entries(
    seed: CommandView,
    kvs: Seq<(Seq<char>, NodeView)>,
) -> Result<CommandView, ErrorView>
    decreases kvs, 1int,
{
    if kvs.len() == 0 {
        Ok(seed)
    } else {
        match spec_command(fresh_command(kvs[0].0), kvs[0].1) {
            Ok(sub) => spec_sub_entries(
                CommandView { subcommands: seed.subcommands.push(sub), ..seed },
                kvs.drop_first(),
            ),
            Err(e) => Err(e),
        }
    }
}

/// The sequence shape of `subcommands`: each element is a single-entry
/// record.
pub open spec fn spec_sub_elems(seed: CommandView, items: Seq<NodeView>) -> Result<
    CommandView,
    ErrorView,
>
    decreases items, 1int,
{
    if items.len() == 0 {
        Ok(seed)
    } else {
        match spec_inner_command(items[0]) {
            Ok(sub) => spec_sub_elems(
                CommandView { subcommands: seed.subcommands.push(sub), ..seed },
                items.drop_first(),
            ),
            Err(e) => Err(e),
        }
    }
}

/// What decoding one single-entry record `{ name: body }` of the sequence
/// shape yields: the sole key seeds the subcommand's name.
pub open spec fn spec_inner_command(n: NodeView) -> Result<CommandView, ErrorView>
    decreases n, 2int,
{
    match n {
        NodeView::Mapping(kvs) => if kvs.len() == 0 {
            Err(ErrorView::MissingField)
        } else if kvs.len() > 1 {
            Err(ErrorView::ArityError)
        } else {
            spec_command(fresh_command(kvs[0].0), kvs[0].1)
        },
        _ => Err(ErrorView::WrongShape),
    }
}

/// What decoding an `args` value yields: the same two shapes as
/// `subcommands`, appending arguments instead.
pub open spec fn spec_args(seed: CommandView, n: NodeView) -> Result<CommandView, ErrorView>
    decreases n, 1int,
{
    match n {
        NodeView::Mapping(kvs) => spec_arg_entries(seed, kvs),
        NodeView::Sequence(items) => spec_arg_elems(seed, items),
        _ => Err(ErrorView::WrongShape),
    }
}

/// The mapping shape of `args`: each key names an argument, each value is
/// its attribute body.
pub open spec fn spec_arg_entries(
    seed: CommandView,
    kvs: Seq<(Seq<char>, NodeView)>,
) -> Result<CommandView, ErrorView>
    decreases kvs,
{
    if kvs.len() == 0 {
        Ok(seed)
    } else {
        match spec_argument(fresh_arg(kvs[0].0), kvs[0].1) {
            Ok(a) => spec_arg_entries(
                CommandView { args: seed.args.push(a), ..seed },
                kvs.drop_first(),
            ),
            Err(e) => Err(e),
        }
    }
}

/// The sequence shape of `args`: each element is a single-entry record.
pub open spec fn spec_arg_elems(seed: CommandView, items: Seq<NodeView>) -> Result<
    CommandView,
    ErrorView,
>
    decreases items,
{
    if items.len() == 0 {
        Ok(seed)
    } else {
        match spec_inner_arg(items[0]) {
            Ok(a) => spec_arg_elems(
                CommandView { args: seed.args.push(a), ..seed },
                items.drop_first(),
            ),
            Err(e) => Err(e),
        }
    }
}

/// What decoding one single-entry record `{ name: body }` of the sequence
/// shape of `args` yields.
pub open spec fn spec_inner_arg(n: NodeView) -> Result<ArgView, ErrorView> {
    match n {
        NodeView::Mapping(kvs) => if kvs.len() == 0 {
            Err(ErrorView::MissingField)
        } else if kvs.len() > 1 {
            Err(ErrorView::ArityError)
        } else {
            spec_argument(fresh_arg(kvs[0].0), kvs[0].1)
        },
        _ => Err(ErrorView::WrongShape),
    }
}

/// What decoding an argument body (a mapping of attribute keys) yields.
pub open spec fn spec_argument(seed: ArgView, n: NodeView) -> Result<ArgView, ErrorView> {
    match n {
        NodeView::Mapping(kvs) => spec_argument_entries(seed, kvs),
        _ => Err(ErrorView::WrongShape),
    }
}

/// The fold of [`spec_argument_entry`] over the entries of an argument body.
pub open spec fn spec_argument_entries(
    seed: ArgView,
    kvs: Seq<(Seq<char>, NodeView)>,
) -> Result<ArgView, ErrorView>
    decreases kvs,
{
    if kvs.len() == 0 {
        Ok(seed)
    } else {
        match spec_argument_entry(seed, kvs[0].0, kvs[0].1) {
            Ok(cur) => spec_argument_entries(cur, kvs.drop_first()),
            Err(e) => Err(e),
        }
    }
}

/// What one key/value entry of an argument body does to the argument built
/// so far.
pub open spec fn spec_argument_entry(cur: ArgView, k: Seq<char>, v: NodeView) -> Result<
    ArgView,
    ErrorView,
> {
    if k == "short"@ {
        match spec_char_value(v) {
            Ok(c) => Ok(ArgView { short: Some(c), ..cur }),
            Err(e) => Err(e),
        }
    } else if k == "long"@ {
        match spec_string_value(v) {
            Ok(s) => Ok(ArgView { long: Some(s), ..cur }),
            Err(e) => Err(e),
        }
    } else if k == "aliases"@ {
        match spec_string_list(v) {
            Ok(a) => Ok(ArgView { aliases: a, ..cur }),
            Err(e) => Err(e),
        }
    } else {
        Err(ErrorView::UnknownField(k))
    }
}

/// The placeholder name of a top-level command before a `name` key is seen.
pub open spec fn placeholder_name() -> Seq<char> {
    "tmp_name"@
}

/// What decoding a whole document yields: a command body seeded with the
/// placeholder name.
pub open spec fn spec_document(n: NodeView) -> Result<CommandView, ErrorView> {
    spec_command(fresh_command(placeholder_name()), n)
}

/// The view of a command decoding result.
pub open spec fn command_result_view(r: Result<CommandWrap, DeError>) -> Result<
    CommandView,
    ErrorView,
> {
    match r {
        Ok(c) => Ok(c@),
        Err(e) => Err(e@),
    }
}

/// The view of an argument decoding result.
pub open spec fn arg_result_view(r: Result<ArgWrap, DeError>) -> Result<ArgView, ErrorView> {
    match r {
        Ok(a) => Ok(a@),
        Err(e) => Err(e@),
    }
}

/// The view of a string attribute result.
pub open spec fn string_result_view(r: Result<String, DeError>) -> Result<Seq<char>, ErrorView> {
    match r {
        Ok(s) => Ok(s@),
        Err(e) => Err(e@),
    }
}

/// The view of a character attribute result.
pub open spec fn char_result_view(r: Result<char, DeError>) -> Result<char, ErrorView> {
    match r {
        Ok(c) => Ok(c),
        Err(e) => Err(e@),
    }
}

/// The view of a string list attribute result.
pub open spec fn string_list_result_view(r: Result<Vec<String>, DeError>) -> Result<
    Seq<Seq<char>>,
    ErrorView,
> {
    match r {
        Ok(v) => Ok(v.deep_view()),
        Err(e) => Err(e@),
    }
}

/// Whether the key equals the literal.
fn key_is(k: &String, lit: &str) -> (r: bool)
    ensures
        r == (k@ == lit@),
{
    let s: String = lit.to_owned();
    *k == s
}

/// Read an attribute value as a string.
fn as_string(n: &Node) -> (r: Result<String, DeError>)
    ensures
        string_result_view(r) == spec_string_value(n@),
{
    match n {
        Node::Scalar(s) => Ok(s.clone()),
        _ => Err(DeError::TypeMismatch),
    }
}

/// Read an attribute value as a single character.
fn as_char(n: &Node) -> (r: Result<char, DeError>)
    ensures
        char_result_view(r) == spec_char_value(n@),
{
    match n {
        Node::Scalar(s) => {
            let mut it = s.as_str().chars();
            match it.next() {
                None => Err(DeError::TypeMismatch),
                Some(c) => match it.next() {
                    None => Ok(c),
                    Some(_) => Err(DeError::TypeMismatch),
                },
            }
        },
        _ => Err(DeError::TypeMismatch),
    }
}

/// Read an attribute value as a list of strings.
fn as_string_list(n: &Node) -> (r: Result<Vec<String>, DeError>)
    ensures
        string_list_result_view(r) == spec_string_list(n@),
{
    match n {
        Node::Sequence(items) => {
            let ghost vs = views_of_nodes(items@);
            proof {
                lemma_views_of_nodes_len(items@);
                assert(n@ == NodeView::Sequence(vs));
            }
            let mut out: Vec<String> = Vec::new();
            let mut j: usize = 0;
            while j < items.len()
                invariant
                    0 <= j <= items.len(),
                    n@ == NodeView::Sequence(vs),
                    vs == views_of_nodes(items@),
                    vs.len() == items@.len(),
                    out@.len() == j,
                    forall|x: int| 0 <= x < j ==> vs[x] is Scalar,
                    forall|x: int| 0 <= x < j ==> #[trigger] out.deep_view()[x] == vs[x]->Scalar_0,
                decreases items.len() - j,
            {
                proof {
                    lemma_views_of_nodes_index(items@, j as int);
                }
                let ghost prev = out.deep_view();
                match &items[j] {
                    Node::Scalar(s) => {
                        let ghost sv = s@;
                        out.push(s.clone());
                        proof {
                            assert(vs[j as int] == NodeView::Scalar(sv));
                            assert(out.deep_view() =~= prev.push(sv));
                        }
                    },
                    _ => {
                        proof {
                            assert(!(vs[j as int] is Scalar));
                            assert(!(forall|x: int|
                                0 <= x < vs.len() ==> vs[x] is Scalar)) by {
                                assert(!(vs[j as int] is Scalar));
                            }
                        }
                        return Err(DeError::TypeMismatch);
                    },
                }
                j = j + 1;
            }
            proof {
                assert(out.deep_view() =~= Seq::new(vs.len(), |x: int| vs[x]->Scalar_0));
            }
            Ok(out)
        },
        _ => Err(DeError::TypeMismatch),
    }
}

/// Decode an argument body over the seeded argument: `short`, `long` and
/// `aliases` keys set the corresponding attribute, any other key is an
/// unknown field.
pub fn visit_argument(seed: ArgWrap, n: &Node) -> (r: Result<ArgWrap, DeError>)
    ensures
        arg_result_view(r) == spec_argument(seed@, n@),
{
    match n {
        Node::Mapping(kvs) => {
            let ghost es = views_of_entries(kvs@);
            let ghost seed0 = seed@;
            proof {
                lemma_views_of_entries_len(kvs@);
                assert(es.skip(0) =~= es);
            }
            let mut cur = seed;
            let mut i: usize = 0;
            while i < kvs.len()
                invariant
                    0 <= i <= kvs.len(),
                    seed0 == seed@,
                    n@ == NodeView::Mapping(es),
                    es == views_of_entries(kvs@),
                    es.len() == kvs@.len(),
                    spec_argument_entries(seed0, es) == spec_argument_entries(
                        cur@,
                        es.skip(i as int),
                    ),
                decreases kvs.len() - i,
            {
                proof {
                    lemma_views_of_entries_index(kvs@, i as int);
                    assert(es.skip(i as int)[0] == es[i as int]);
                    assert(es.skip(i as int).drop_first() =~= es.skip(i as int + 1));
                }
                let ghost prev = cur@;
                let key = &kvs[i].0;
                let value = &kvs[i].1;
                if key_is(key, "short") {
                    match as_char(value) {
                        Ok(c) => {
                            cur = cur.short(c);
                        },
                        Err(e) => {
                            return Err(e);
                        },
                    }
                } else if key_is(key, "long") {
                    match as_string(value) {
                        Ok(s) => {
                            cur = cur.long(s);
                        },
                        Err(e) => {
                            return Err(e);
                        },
                    }
                } else if key_is(key, "aliases") {
                    match as_string_list(value) {
                        Ok(a) => {
                            cur = cur.aliases(a);
                        },
                        Err(e) => {
                            return Err(e);
                        },
                    }
                } else {
                    return Err(DeError::UnknownField(key.clone()));
                }
                proof {
                    assert(spec_argument_entry(prev, es[i as int].0, es[i as int].1)
                        == Ok::<ArgView, ErrorView>(cur@));
                }
                i = i + 1;
            }
            proof {
                assert(es.skip(kvs@.len() as int) =~= Seq::<(Seq<char>, NodeView)>::empty());
            }
            Ok(cur)
        },
        _ => Err(DeError::WrongShape),
    }
}

/// Decode one single-entry record `{ name: body }` into an argument named by
/// its sole key.
fn visit_arg_record(n: &Node) -> (r: Result<ArgWrap, DeError>)
    ensures
        arg_result_view(r) == spec_inner_arg(n@),
{
    match n {
        Node::Mapping(kvs) => {
            proof {
                lemma_views_of_entries_len(kvs@);
            }
            if kvs.len() == 0 {
                Err(DeError::MissingField)
            } else if kvs.len() > 1 {
                Err(DeError::ArityError)
            } else {
                proof {
                    lemma_views_of_entries_index(kvs@, 0);
                }
                visit_argument(ArgWrap::new(kvs[0].0.clone()), &kvs[0].1)
            }
        },
        _ => Err(DeError::WrongShape),
    }
}

/// Decode an `args` value over the seeded command, in either of its two
/// shapes, appending each decoded argument in encounter order.
pub fn visit_args(seed: CommandWrap, n: &Node) -> (r: Result<CommandWrap, DeError>)
    ensures
        command_result_view(r) == spec_args(seed@, n@),
{
    match n {
        Node::Mapping(kvs) => {
            let ghost es = views_of_entries(kvs@);
            let ghost seed0 = seed@;
            proof {
                lemma_views_of_entries_len(kvs@);
                assert(es.skip(0) =~= es);
            }
            let mut cur = seed;
            let mut i: usize = 0;
            while i < kvs.len()
                invariant
                    0 <= i <= kvs.len(),
                    seed0 == seed@,
                    n@ == NodeView::Mapping(es),
                    es == views_of_entries(kvs@),
                    es.len() == kvs@.len(),
                    spec_arg_entries(seed0, es) == spec_arg_entries(cur@, es.skip(i as int)),
                decreases kvs.len() - i,
            {
                proof {
                    lemma_views_of_entries_index(kvs@, i as int);
                    assert(es.skip(i as int)[0] == es[i as int]);
                    assert(es.skip(i as int).drop_first() =~= es.skip(i as int + 1));
                }
                let ghost prev = cur@;
                let name = kvs[i].0.clone();
                match visit_argument(ArgWrap::new(name), &kvs[i].1) {
                    Ok(a) => {
                        cur = cur.arg(a);
                    },
                    Err(e) => {
                        return Err(e);
                    },
                }
                i = i + 1;
            }
            proof {
                assert(es.skip(kvs@.len() as int) =~= Seq::<(Seq<char>, NodeView)>::empty());
            }
            Ok(cur)
        },
        Node::Sequence(items) => {
            let ghost vs = views_of_nodes(items@);
            let ghost seed0 = seed@;
            proof {
                lemma_views_of_nodes_len(items@);
                assert(vs.skip(0) =~= vs);
            }
            let mut cur = seed;
            let mut j: usize = 0;
            while j < items.len()
                invariant
                    0 <= j <= items.len(),
                    seed0 == seed@,
                    n@ == NodeView::Sequence(vs),
                    vs == views_of_nodes(items@),
                    vs.len() == items@.len(),
                    spec_arg_elems(seed0, vs) == spec_arg_elems(cur@, vs.skip(j as int)),
                decreases items.len() - j,
            {
                proof {
                    lemma_views_of_nodes_index(items@, j as int);
                    assert(vs.skip(j as int)[0] == vs[j as int]);
                    assert(vs.skip(j as int).drop_first() =~= vs.skip(j as int + 1));
                }
                match visit_arg_record(&items[j]) {
                    Ok(a) => {
                        cur = cur.arg(a);
                    },
                    Err(e) => {
                        return Err(e);
                    },
                }
                j = j + 1;
            }
            proof {
                assert(vs.skip(items@.len() as int) =~= Seq::<NodeView>::empty());
            }
            Ok(cur)
        },
        _ => Err(DeError::WrongShape),
    }
}

/// Decode a command body over the seeded command.  Scalar keys set the
/// corresponding attribute (a later `name` key overwrites a seeded name);
/// `subcommands` and `args` delegate to the collection visitors; any other
/// key is an unknown field.
pub fn visit_command(seed: CommandWrap, n: &Node) -> (r: Result<CommandWrap, DeError>)
    ensures
        command_result_view(r) == spec_command(seed@, n@),
    decreases n,
{
    match n {
        Node::Mapping(kvs) => {
            let ghost es = views_of_entries(kvs@);
            let ghost seed0 = seed@;
            proof {
                lemma_views_of_entries_len(kvs@);
                assert(es.skip(0) =~= es);
            }
            let mut cur = seed;
            let mut i: usize = 0;
            while i < kvs.len()
                invariant
                    0 <= i <= kvs.len(),
                    seed0 == seed@,
                    *n == Node::Mapping(*kvs),
                    n@ == NodeView::Mapping(es),
                    es == views_of_entries(kvs@),
                    es.len() == kvs@.len(),
                    spec_command_entries(seed0, es) == spec_command_entries(
                        cur@,
                        es.skip(i as int),
                    ),
                decreases kvs.len() - i,
            {
                proof {
                    lemma_views_of_entries_index(kvs@, i as int);
                    assert(es.skip(i as int)[0] == es[i as int]);
                    assert(es.skip(i as int).drop_first() =~= es.skip(i as int + 1));
                }
                let ghost prev = cur@;
                let key = &kvs[i].0;
                let value = &kvs[i].1;
                if key_is(key, "after_help") {
                    match as_string(value) {
                        Ok(s) => {
                            cur = cur.after_help(s);
                        },
                        Err(e) => {
                            return Err(e);
                        },
                    }
                } else if key_is(key, "about") {
                    match as_string(value) {
                        Ok(s) => {
                            cur = cur.about(s);
                        },
                        Err(e) => {
                            return Err(e);
                        },
                    }
                } else if key_is(key, "author") {
                    match as_string(value) {
                        Ok(s) => {
                            cur = cur.author(s);
                        },
                        Err(e) => {
                            return Err(e);
                        },
                    }
                } else if key_is(key, "name") {
                    match as_string(value) {
                        Ok(s) => {
                            cur = cur.name(s);
                        },
                        Err(e) => {
                            return Err(e);
                        },
                    }
                } else if key_is(key, "version") {
                    match as_string(value) {
                        Ok(s) => {
                            cur = cur.version(s);
                        },
                        Err(e) => {
                            return Err(e);
                        },
                    }
                } else if key_is(key, "subcommands") {
                    match visit_subcommands(cur, value) {
                        Ok(c) => {
                            cur = c;
                        },
                        Err(e) => {
                            return Err(e);
                        },
                    }
                } else if key_is(key, "args") {
                    match visit_args(cur, value) {
                        Ok(c) => {
                            cur = c;
                        },
                        Err(e) => {
                            return Err(e);
                        },
                    }
                } else {
                    return Err(DeError::UnknownField(key.clone()));
                }
                proof {
                    assert(spec_command_entry(prev, es[i as int].0, es[i as int].1)
                        == Ok::<CommandView, ErrorView>(cur@));
                }
                i = i + 1;
            }
            proof {
                assert(es.skip(kvs@.len() as int) =~= Seq::<(Seq<char>, NodeView)>::empty());
            }
            Ok(cur)
        },
        _ => Err(DeError::WrongShape),
    }
}

/// Decode a `subcommands` value over the seeded command, in either of its
/// two shapes, appending each decoded subcommand in encounter order.
pub fn visit_subcommands(seed: CommandWrap, n: &Node) -> (r: Result<CommandWrap, DeError>)
    ensures
        command_result_view(r) == spec_subcommands(seed@, n@),
    decreases n,
{
    match n {
        Node::Mapping(kvs) => {
            let ghost es = views_of_entries(kvs@);
            let ghost seed0 = seed@;
            proof {
                lemma_views_of_entries_len(kvs@);
                assert(es.skip(0) =~= es);
            }
            let mut cur = seed;
            let mut i: usize = 0;
            while i < kvs.len()
                invariant
                    0 <= i <= kvs.len(),
                    seed0 == seed@,
                    *n == Node::Mapping(*kvs),
                    n@ == NodeView::Mapping(es),
                    es == views_of_entries(kvs@),
                    es.len() == kvs@.len(),
                    spec_sub_entries(seed0, es) == spec_sub_entries(cur@, es.skip(i as int)),
                decreases kvs.len() - i,
            {
                proof {
                    lemma_views_of_entries_index(kvs@, i as int);
                    assert(es.skip(i as int)[0] == es[i as int]);
                    assert(es.skip(i as int).drop_first() =~= es.skip(i as int + 1));
                }
                let name = kvs[i].0.clone();
                match visit_command(CommandWrap::new(name), &kvs[i].1) {
                    Ok(sub) => {
                        cur = cur.subcommand(sub);
                    },
                    Err(e) => {
                        return Err(e);
                    },
                }
                i = i + 1;
            }
            proof {
                assert(es.skip(kvs@.len() as int) =~= Seq::<(Seq<char>, NodeView)>::empty());
            }
            Ok(cur)
        },
        Node::Sequence(items) => {
            let ghost vs = views_of_nodes(items@);
            let ghost seed0 = seed@;
            proof {
                lemma_views_of_nodes_len(items@);
                assert(vs.skip(0) =~= vs);
            }
            let mut cur = seed;
            let mut j: usize = 0;
            while j < items.len()
                invariant
                    0 <= j <= items.len(),
                    seed0 == seed@,
                    *n == Node::Sequence(*items),
                    n@ == NodeView::Sequence(vs),
                    vs == views_of_nodes(items@),
                    vs.len() == items@.len(),
                    spec_sub_elems(seed0, vs) == spec_sub_elems(cur@, vs.skip(j as int)),
                decreases items.len() - j,
            {
                proof {
                    lemma_views_of_nodes_index(items@, j as int);
                    assert(vs.skip(j as int)[0] == vs[j as int]);
                    assert(vs.skip(j as int).drop_first() =~= vs.skip(j as int + 1));
                }
                match InnerSubCommand::deserialize(&items[j]) {
                    Ok(sub) => {
                        cur = cur.subcommand(sub);
                    },
                    Err(e) => {
                        return Err(e);
                    },
                }
                j = j + 1;
            }
            proof {
                assert(vs.skip(items@.len() as int) =~= Seq::<NodeView>::empty());
            }
            Ok(cur)
        },
        _ => Err(DeError::WrongShape),
    }
}

/// The sequence-form element of `subcommands`: a single-entry record
/// `{ name: body }` whose sole key names the subcommand.
pub struct InnerSubCommand;

impl InnerSubCommand {
    /// Decode one single-entry record into a command named by its sole key.
    pub fn deserialize(n: &Node) -> (r: Result<CommandWrap, DeError>)
        ensures
            command_result_view(r) == spec_inner_command(n@),
        decreases n,
    {
        match n {
            Node::Mapping(kvs) => {
                proof {
                    lemma_views_of_entries_len(kvs@);
                }
                if kvs.len() == 0 {
                    Err(DeError::MissingField)
                } else if kvs.len() > 1 {
                    Err(DeError::ArityError)
                } else {
                    proof {
                        lemma_views_of_entries_index(kvs@, 0);
                    }
                    visit_command(CommandWrap::new(kvs[0].0.clone()), &kvs[0].1)
                }
            },
            _ => Err(DeError::WrongShape),
        }
    }
}

impl CommandWrap {
    /// Decode a whole document: a command body seeded with the placeholder
    /// name, which a `name` key of the document overwrites.
    pub fn deserialize(n: &Node) -> (r: Result<CommandWrap, DeError>)
        ensures
            command_result_view(r) == spec_document(n@),
    {
        visit_command(CommandWrap::new("tmp_name".to_owned()), n)
    }
}

} // verus!
