//! The command line of rad: which command the arguments ask for.
use vstd::prelude::*;
use crate::text::{copy_string, text_eq, views};

verus! {

/// The version of rad.
pub const VERSION: &'static str = "0.2.1";

/// The prefix under which packages are installed.
pub const PREFIX: &'static str = "/usr";

/// What the command line asks for.
#[derive(Debug, PartialEq, Eq)]
pub enum Command {
    /// `-h`, `--help`: print the usage.
    Help,
    /// `-I`, `--info`: print the configuration.
    Info,
    /// `-V`, `--version`: print the version.
    Version,
    /// `-i`, `--install <pkg>`: install a package.
    Install(String),
    /// `-r`, `--remove <pkg>`: remove a package.
    Remove(String),
    /// `-L`, `--list`: list the installed packages.
    List,
    /// `-P`, `--pkg-info <pkg>`: describe a package.
    PkgInfo(String),
    /// `--hello`: greet.
    Hello,
    /// No argument at all.
    NoArgument,
    /// A command that needs a package name, without one.
    MissingPackage,
    /// An argument that rad does not know.
    Unknown(String),
}

/// The model of a `Command`.
pub enum CommandView {
    Help,
    Info,
    Version,
    Install(Seq<char>),
    Remove(Seq<char>),
    List,
    PkgInfo(Seq<char>),
    Hello,
    NoArgument,
    MissingPackage,
    Unknown(Seq<char>),
}

impl View for Command {
    type V = CommandView;

    open spec fn view(&self) -> CommandView {
        match self {
            Command::Help => CommandView::Help,
            Command::Info => CommandView::Info,
            Command::Version => CommandView::Version,
            Command::Install(n) => CommandView::Install(n@),
            Command::Remove(n) => CommandView::Remove(n@),
            Command::List => CommandView::List,
            Command::PkgInfo(n) => CommandView::PkgInfo(n@),
            Command::Hello => CommandView::Hello,
            Command::NoArgument => CommandView::NoArgument,
            Command::MissingPackage => CommandView::MissingPackage,
            Command::Unknown(a) => CommandView::Unknown(a@),
        }
    }
}

/// A command on a package, if the package is named.
pub open spec fn with_package(name: Option<Seq<char>>, make: spec_fn(Seq<char>) -> CommandView) -> CommandView {
    match name {
        Some(n) => make(n),
        None => CommandView::MissingPackage,
    }
}

/// The command that the arguments ask for; the first argument is the
/// program, the second the option, the third the package where one is needed.
pub open spec fn spec_command(args: Seq<Seq<char>>) -> CommandView {
    if args.len() < 2 {
        CommandView::NoArgument
    } else {
        let a = args[1];
        let name = if args.len() > 2 {
            Some(args[2])
        } else {
            None
        };
        if a == "-h"@ || a == "--help"@ {
            CommandView::Help
        } else if a == "-I"@ || a == "--info"@ {
            CommandView::Info
        } else if a == "-V"@ || a == "--version"@ {
            CommandView::Version
        } else if a == "-i"@ || a == "--install"@ {
            with_package(name, |n: Seq<char>| CommandView::Install(n))
        } else if a == "-r"@ || a == "--remove"@ {
            with_package(name, |n: Seq<char>| CommandView::Remove(n))
        } else if a == "-L"@ || a == "--list"@ {
            CommandView::List
        } else if a == "-P"@ || a == "--pkg-info"@ {
            with_package(name, |n: Seq<char>| CommandView::PkgInfo(n))
        } else if a == "--hello"@ {
            CommandView::Hello
        } else {
            CommandView::Unknown(a)
        }
    }
}

fn is_option(a: &str, short: &str, long: &str) -> (r: bool)
    ensures
        r == (a@ == short@ || a@ == long@),
{
    text_eq(a, short) || text_eq(a, long)
}

/// The command that the command-line arguments ask for.
pub fn parse_args(args: &Vec<String>) -> (c: Command)
    ensures
        c@ == spec_command(views(args@)),
{
    if args.len() < 2 {
        return Command::NoArgument;
    }
    let a = args[1].as_str();
    assert(views(args@)[1] == a@);
    let name = if args.len() > 2 {
        assert(views(args@)[2] == args@[2]@);
        Some(copy_string(&args[2]))
    } else {
        None
    };
    if is_option(a, "-h", "--help") {
        Command::Help
    } else if is_option(a, "-I", "--info") {
        Command::Info
    } else if is_option(a, "-V", "--version") {
        Command::Version
    } else if is_option(a, "-i", "--install") {
        match name {
            Some(n) => Command::Install(n),
            None => Command::MissingPackage,
        }
    } else if is_option(a, "-r", "--remove") {
        match name {
            Some(n) => Command::Remove(n),
            None => Command::MissingPackage,
        }
    } else if is_option(a, "-L", "--list") {
        Command::List
    } else if is_option(a, "-P", "--pkg-info") {
        match name {
            Some(n) => Command::PkgInfo(n),
            None => Command::MissingPackage,
        }
    } else if text_eq(a, "--hello") {
        Command::Hello
    } else {
        Command::Unknown(copy_string(&args[1]))
    }
}

/// The short options, by number.
pub open spec fn short_option(i: int) -> Seq<char> {
    if i == 0 {
        "-h"@
    } else if i == 1 {
        "-I"@
    } else if i == 2 {
        "-V"@
    } else if i == 3 {
        "-i"@
    } else if i == 4 {
        "-r"@
    } else if i == 5 {
        "-L"@
    } else {
        "-P"@
    }
}

/// The long option that goes with each short one.
pub open spec fn long_option(i: int) -> Seq<char> {
    if i == 0 {
        "--help"@
    } else if i == 1 {
        "--info"@
    } else if i == 2 {
        "--version"@
    } else if i == 3 {
        "--install"@
    } else if i == 4 {
        "--remove"@
    } else if i == 5 {
        "--list"@
    } else {
        "--pkg-info"@
    }
}

/// Law: each short option and its long form ask for the same command,
/// whatever the other arguments are.
pub proof fn lemma_short_and_long_options_agree(args: Seq<Seq<char>>, i: int)
    requires
        args.len() >= 2,
        0 <= i < 7,
    ensures
        spec_command(args.update(1, short_option(i))) == spec_command(args.update(1, long_option(i))),
{
    reveal_strlit("-h");
    reveal_strlit("-I");
    reveal_strlit("-V");
    reveal_strlit("-i");
    reveal_strlit("-r");
    reveal_strlit("-L");
    reveal_strlit("-P");
    reveal_strlit("--help");
    reveal_strlit("--info");
    reveal_strlit("--version");
    reveal_strlit("--install");
    reveal_strlit("--remove");
    reveal_strlit("--list");
    reveal_strlit("--pkg-info");
    assert("-h"@.len() == 2 && "-h"@[1] == 'h');
    assert("-I"@.len() == 2 && "-I"@[1] == 'I');
    assert("-V"@.len() == 2 && "-V"@[1] == 'V');
    assert("-i"@.len() == 2 && "-i"@[1] == 'i');
    assert("-r"@.len() == 2 && "-r"@[1] == 'r');
    assert("-L"@.len() == 2 && "-L"@[1] == 'L');
    assert("-P"@.len() == 2 && "-P"@[1] == 'P');
    assert("--help"@.len() == 6 && "--help"@[2] == 'h');
    assert("--info"@.len() == 6 && "--info"@[2] == 'i');
    assert("--version"@.len() == 9 && "--version"@[2] == 'v');
    assert("--install"@.len() == 9 && "--install"@[2] == 'i');
    assert("--remove"@.len() == 8 && "--remove"@[2] == 'r');
    assert("--list"@.len() == 6 && "--list"@[2] == 'l');
    assert("--pkg-info"@.len() == 10 && "--pkg-info"@[2] == 'p');
    let a = args.update(1, short_option(i));
    let b = args.update(1, long_option(i));
    assert(a.len() > 2 ==> a[2] == b[2]);
}

} // verus!
