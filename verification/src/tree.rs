//! The schema tree: the buildable representation of one command, its
//! arguments and its nested subcommands.  Every attribute setter consumes the
//! current node and yields a new one; nothing is mutated in place.

use vstd::prelude::*;

verus! {

/// One command-line argument: a name, an optional short flag, an optional
/// long flag and an ordered list of aliases.
#[derive(Debug, Clone)]
pub struct ArgWrap {
    name: String,
    short: Option<char>,
    long: Option<String>,
    aliases: Vec<String>,
}

/// The view of an [`ArgWrap`].
pub struct ArgView {
    pub name: Seq<char>,
    pub short: Option<char>,
    pub long: Option<Seq<char>>,
    pub aliases: Seq<Seq<char>>,
}

impl View for ArgWrap {
    type V = ArgView;

    closed spec fn view(&self) -> ArgView {
        ArgView {
            name: self.name.view(),
            short: self.short,
            long: self.long.deep_view(),
            aliases: self.aliases.deep_view(),
        }
    }
}

impl DeepView for ArgWrap {
    type V = ArgView;

    closed spec fn deep_view(&self) -> ArgView {
        self.view()
    }
}

/// An argument that has its name and nothing else.
pub open spec fn fresh_arg(name: Seq<char>) -> ArgView {
    ArgView { name, short: None, long: None, aliases: Seq::empty() }
}

impl ArgWrap {
    /// A new argument of the given name, with no other attribute set.
    pub fn new(name: String) -> (r: ArgWrap)
        ensures
            r.view() == fresh_arg(name.view()),
    {
        let r = ArgWrap { name, short: None, long: None, aliases: Vec::new() };
        proof {
            assert(r.view().aliases =~= fresh_arg(r.name.view()).aliases);
        }
        r
    }

    /// Replace the short flag.
    pub fn short(self, short: char) -> (r: ArgWrap)
        ensures
            r.view() == (ArgView { short: Some(short), ..self.view() }),
    {
        ArgWrap { short: Some(short), ..self }
    }

    /// Replace the long flag.
    pub fn long(self, long: String) -> (r: ArgWrap)
        ensures
            r.view() == (ArgView { long: Some(long.view()), ..self.view() }),
    {
        ArgWrap { long: Some(long), ..self }
    }

    /// Replace the alias list.
    pub fn aliases(self, aliases: Vec<String>) -> (r: ArgWrap)
        ensures
            r.view() == (ArgView { aliases: aliases.deep_view(), ..self.view() }),
    {
        ArgWrap { aliases, ..self }
    }

    /// The argument's name.
    pub fn get_name(&self) -> (r: &String)
        ensures
            r.view() == self.view().name,
    {
        &self.name
    }

    /// The short flag, if one was set.
    pub fn get_short(&self) -> (r: Option<char>)
        ensures
            r == self.view().short,
    {
        self.short
    }

    /// The long flag, if one was set.
    pub fn get_long(&self) -> (r: &Option<String>)
        ensures
            r.deep_view() == self.view().long,
    {
        &self.long
    }

    /// The alias list.
    pub fn get_aliases(&self) -> (r: &Vec<String>)
        ensures
            r.deep_view() == self.view().aliases,
    {
        &self.aliases
    }
}

/// One command: its name, its optional descriptive attributes, its ordered
/// subcommands and its ordered arguments.
#[derive(Debug)]
pub struct CommandWrap {
    name: String,
    about: Option<String>,
    after_help: Option<String>,
    author: Option<String>,
    version: Option<String>,
    subcommands: Vec<CommandWrap>,
    args: Vec<ArgWrap>,
}

/// The view of a [`CommandWrap`].
pub struct CommandView {
    pub name: Seq<char>,
    pub about: Option<Seq<char>>,
    pub after_help: Option<Seq<char>>,
    pub author: Option<Seq<char>>,
    pub version: Option<Seq<char>>,
    pub subcommands: Seq<CommandView>,
    pub args: Seq<ArgView>,
}

/// The views of the commands of `s`, in order.
pub open spec fn views_of_commands(s: Seq<CommandWrap>) -> Seq<CommandView>
    decreases s,
{
    if s.len() == 0 {
        Seq::empty()
    } else {
        views_of_commands(s.drop_last()).push(s.last().view())
    }
}

impl View for CommandWrap {
    type V = CommandView;

    closed spec fn view(&self) -> CommandView
        decreases self,
    {
        CommandView {
            name: self.name.view(),
            about: self.about.deep_view(),
            after_help: self.after_help.deep_view(),
            author: self.author.deep_view(),
            version: self.version.deep_view(),
            subcommands: views_of_commands(self.subcommands.view()),
            args: self.args.deep_view(),
        }
    }
}

pub broadcast proof fn lemma_views_of_commands_len(s: Seq<CommandWrap>)
    ensures
        (#[trigger] views_of_commands(s)).len() == s.len(),
    decreases s,
{
    if s.len() > 0 {
        lemma_views_of_commands_len(s.drop_last());
        assert(views_of_commands(s) == views_of_commands(s.drop_last()).push(s.last().view()));
    }
}

pub broadcast proof fn lemma_views_of_commands_index(s: Seq<CommandWrap>, i: int)
    requires
        0 <= i < s.len(),
    ensures
        #[trigger] views_of_commands(s)[i] == s[i].view(),
    decreases s,
{
    lemma_views_of_commands_len(s.drop_last());
    assert(views_of_commands(s) == views_of_commands(s.drop_last()).push(s.last().view()));
    if i < s.len() - 1 {
        lemma_views_of_commands_index(s.drop_last(), i);
        assert(s.drop_last()[i] == s[i]);
    } else {
        assert(s.last() == s[i]);
    }
}

pub broadcast proof fn lemma_views_of_commands_push(s: Seq<CommandWrap>, c: CommandWrap)
    ensures
        #[trigger] views_of_commands(s.push(c)) == views_of_commands(s).push(c.view()),
{
    assert(s.push(c).drop_last() =~= s);
    assert(views_of_commands(s.push(c)) == views_of_commands(s).push(c.view()));
}

/// A command that has its name and nothing else.
pub open spec fn fresh_command(name: Seq<char>) -> CommandView {
    CommandView {
        name,
        about: None,
        after_help: None,
        author: None,
        version: None,
        subcommands: Seq::empty(),
        args: Seq::empty(),
    }
}

impl CommandWrap {
    /// A new command of the given name, with no attributes, subcommands or
    /// arguments.
    pub fn new(name: String) -> (r: CommandWrap)
        ensures
            r.view() == fresh_command(name.view()),
    {
        let r = CommandWrap {
            name,
            about: None,
            after_help: None,
            author: None,
            version: None,
            subcommands: Vec::new(),
            args: Vec::new(),
        };
        proof {
            assert(r.view().subcommands =~= fresh_command(r.name.view()).subcommands);
            assert(r.view().args =~= fresh_command(r.name.view()).args);
        }
        r
    }

    /// Replace the name.
    pub fn name(self, name: String) -> (r: CommandWrap)
        ensures
            r.view() == (CommandView { name: name.view(), ..self.view() }),
    {
        CommandWrap { name, ..self }
    }

    /// Replace the about text.
    pub fn about(self, about: String) -> (r: CommandWrap)
        ensures
            r.view() == (CommandView { about: Some(about.view()), ..self.view() }),
    {
        CommandWrap { about: Some(about), ..self }
    }

    /// Replace the text shown after the generated help.
    pub fn after_help(self, after_help: String) -> (r: CommandWrap)
        ensures
            r.view() == (CommandView { after_help: Some(after_help.view()), ..self.view() }),
    {
        CommandWrap { after_help: Some(after_help), ..self }
    }

    /// Replace the author.
    pub fn author(self, author: String) -> (r: CommandWrap)
        ensures
            r.view() == (CommandView { author: Some(author.view()), ..self.view() }),
    {
        CommandWrap { author: Some(author), ..self }
    }

    /// Replace the version.
    pub fn version(self, version: String) -> (r: CommandWrap)
        ensures
            r.view() == (CommandView { version: Some(version.view()), ..self.view() }),
    {
        CommandWrap { version: Some(version), ..self }
    }

    /// Append a subcommand.
    pub fn subcommand(self, sub: CommandWrap) -> (r: CommandWrap)
        ensures
            r.view() == (CommandView {
                subcommands: self.view().subcommands.push(sub.view()),
                ..self.view()
            }),
    {
        let ghost old_subs = self.subcommands.view();
        let ghost sub_view = sub.view();
        let mut subcommands = self.subcommands;
        subcommands.push(sub);
        proof {
            lemma_views_of_commands_push(old_subs, subcommands[old_subs.len() as int]);
        }
        CommandWrap { subcommands, ..self }
    }

    /// Append an argument.
    pub fn arg(self, a: ArgWrap) -> (r: CommandWrap)
        ensures
            r.view() == (CommandView { args: self.view().args.push(a.view()), ..self.view() }),
    {
        let ghost old_args = self.args.deep_view();
        let mut args = self.args;
        args.push(a);
        proof {
            assert(args.deep_view() =~= old_args.push(args[args.len() - 1].view()));
        }
        CommandWrap { args, ..self }
    }

    /// The command's name.
    pub fn get_name(&self) -> (r: &String)
        ensures
            r.view() == self.view().name,
    {
        &self.name
    }

    /// The about text, if one was set.
    pub fn get_about(&self) -> (r: &Option<String>)
        ensures
            r.deep_view() == self.view().about,
    {
        &self.about
    }

    /// The text shown after the generated help, if one was set.
    pub fn get_after_help(&self) -> (r: &Option<String>)
        ensures
            r.deep_view() == self.view().after_help,
    {
        &self.after_help
    }

    /// The author, if one was set.
    pub fn get_author(&self) -> (r: &Option<String>)
        ensures
            r.deep_view() == self.view().author,
    {
        &self.author
    }

    /// The version, if one was set.
    pub fn get_version(&self) -> (r: &Option<String>)
        ensures
            r.deep_view() == self.view().version,
    {
        &self.version
    }

    /// The subcommands, in the order they were appended.
    pub fn get_subcommands(&self) -> (r: &Vec<CommandWrap>)
        ensures
            views_of_commands(r.view()) == self.view().subcommands,
    {
        &self.subcommands
    }

    /// The arguments, in the order they were appended.
    pub fn get_arguments(&self) -> (r: &Vec<ArgWrap>)
        ensures
            r.deep_view() == self.view().args,
    {
        &self.args
    }
}

} // verus!
