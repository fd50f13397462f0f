//! The command line: `qexp [PATH]`, `--version` and `--help`.
//!
//! This is qexp's contract with qdesk and with anyone who types it: a folder opens there, a file
//! opens its folder with the file selected, nothing opens the home folder, and a path that does
//! not exist is a one-line message and exit code 2 before any screen is drawn. Whether a path is
//! there is found on disk; what the arguments ask for is read here.

use vstd::prelude::*;
use vstd::string::StringSliceAdditionalSpecFns;

use crate::path::{is_absolute, join, join_path};
use crate::text::{push_range, same_bytes, views};

verus! {

/// Where the screen opens: a folder, and a name in it to select.
#[derive(Debug, Clone, PartialEq, Eq)]
pub struct Start {
    /// The folder shown, with every link resolved.
    pub folder: Vec<u8>,
    /// The name of the entry the cursor starts on, for a file given on the command line.
    pub select: Option<String>,
}

/// What the command line asks for, once the path it names has been looked at.
#[derive(Debug, Clone, PartialEq, Eq)]
pub enum Invocation {
    /// Open the screen here.
    Screen(Start),
    /// Print the version and leave.
    Version,
    /// Print how to use qexp and leave.
    Help,
    /// A path that does not exist.
    Missing(Vec<u8>),
    /// An option qexp does not know, or more than one path.
    Unknown(String),
}

/// What the arguments ask for, before anything is looked at on disk.
#[derive(Debug, Clone, PartialEq, Eq)]
pub enum Asked {
    /// Open the screen at this path, absolute when the arguments and the folders given are.
    Open(Vec<u8>),
    /// Print the version and leave.
    Version,
    /// Print how to use qexp and leave.
    Help,
    /// This argument is an option qexp does not know, or a second path.
    Unknown(Vec<u8>),
}

/// What the arguments ask for, as bytes.
pub enum Request {
    /// Open the screen at this path.
    Open(Seq<u8>),
    /// Print the version and leave.
    Version,
    /// Print how to use qexp and leave.
    Help,
    /// This argument is not understood.
    Unknown(Seq<u8>),
}

impl View for Asked {
    type V = Request;

    open spec fn view(&self) -> Request {
        match self {
            Asked::Open(p) => Request::Open(p@),
            Asked::Version => Request::Version,
            Asked::Help => Request::Help,
            Asked::Unknown(a) => Request::Unknown(a@),
        }
    }
}

/// Whether `arg` reads as an option: a `-` and something after it.
pub open spec fn is_option(arg: Seq<u8>) -> bool {
    arg.len() > 1 && arg[0] == 45u8
}

/// What the arguments from `k` on ask for, with `path` the path given so far and `only_paths` true
/// once `--` has said that everything after it is a path. `home` is where nothing opens, and a
/// relative path is read from `cwd`.
pub open spec fn request_from(
    args: Seq<Seq<u8>>,
    k: int,
    path: Option<Seq<u8>>,
    only_paths: bool,
    home: Seq<u8>,
    cwd: Seq<u8>,
) -> Request
    decreases args.len() - k,
{
    if k >= args.len() || k < 0 {
        match path {
            None => Request::Open(home),
            Some(p) => Request::Open(join(cwd, p)),
        }
    } else {
        let arg = args[k];
        if !only_paths && is_option(arg) {
            if arg == "--version".spec_bytes() || arg == "-V".spec_bytes() {
                Request::Version
            } else if arg == "--help".spec_bytes() || arg == "-h".spec_bytes() {
                Request::Help
            } else if arg == "--".spec_bytes() {
                request_from(args, k + 1, path, true, home, cwd)
            } else {
                Request::Unknown(arg)
            }
        } else if path is Some {
            Request::Unknown(arg)
        } else {
            request_from(args, k + 1, Some(arg), only_paths, home, cwd)
        }
    }
}

fn copy(b: &[u8]) -> (r: Vec<u8>)
    ensures
        r@ == b@,
{
    let mut out: Vec<u8> = Vec::new();
    push_range(&mut out, b, 0, b.len());
    assert(b@.subrange(0, b@.len() as int) =~= b@);
    out
}

/// Reads the arguments after the program name, each as the bytes it was given. `home` is where
/// nothing opens, and relative paths are read from `cwd`.
///
/// `--version` or `-V` asks for the version, `--help` or `-h` for the help; `--` makes everything
/// after it a path, even one that starts with `-`; any other option, and a second path, is not
/// understood. An option qexp knows is spelled in ASCII, so an argument that is not valid text is
/// never one.
pub fn parse(args: &Vec<Vec<u8>>, home: &[u8], cwd: &[u8]) -> (r: Asked)
    ensures
        r@ == request_from(views(args@), 0, None, false, home@, cwd@),
{
    let ghost all = views(args@);
    let mut path: Option<Vec<u8>> = None;
    let mut only_paths = false;
    let mut k: usize = 0;
    while k < args.len()
        invariant
            all == views(args@),
            k <= args@.len(),
            request_from(all, 0, None, false, home@, cwd@) == request_from(
                all,
                k as int,
                match path {
                    Some(p) => Some(p@),
                    None => None,
                },
                only_paths,
                home@,
                cwd@,
            ),
        decreases args@.len() - k,
    {
        let arg = &args[k];
        assert(arg@ == all[k as int]);
        if !only_paths && arg.len() > 1 && arg[0] == 45u8 {
            if same_bytes(arg, "--version".as_bytes()) || same_bytes(arg, "-V".as_bytes()) {
                return Asked::Version;
            }
            if same_bytes(arg, "--help".as_bytes()) || same_bytes(arg, "-h".as_bytes()) {
                return Asked::Help;
            }
            if same_bytes(arg, "--".as_bytes()) {
                only_paths = true;
            } else {
                return Asked::Unknown(copy(arg));
            }
        } else {
            if path.is_some() {
                return Asked::Unknown(copy(arg));
            }
            path = Some(copy(arg));
        }
        k += 1;
    }
    match path {
        None => Asked::Open(copy(home)),
        Some(p) => Asked::Open(join_path(cwd, &p)),
    }
}

/// The exit code of an invocation that opens no screen, and of one that did and was quit: 0 for
/// the screen, the version and the help, 2 for a path that is not there or an unknown option.
pub fn exit_code(invocation: &Invocation) -> (r: u8)
    ensures
        r == match invocation {
            Invocation::Missing(_) | Invocation::Unknown(_) => 2u8,
            _ => 0u8,
        },
{
    match invocation {
        Invocation::Missing(_) | Invocation::Unknown(_) => 2,
        _ => 0,
    }
}

/// What the option `arg` asks for on its own: the version, the help, or nothing qexp knows.
pub open spec fn option_answer(arg: Seq<u8>) -> Request {
    if arg == "--version".spec_bytes() || arg == "-V".spec_bytes() {
        Request::Version
    } else if arg == "--help".spec_bytes() || arg == "-h".spec_bytes() {
        Request::Help
    } else {
        Request::Unknown(arg)
    }
}

/// What the arguments ask for, from the start, with `home` where nothing opens and relative paths
/// read from `cwd`.
pub open spec fn asked(args: Seq<Seq<u8>>, home: Seq<u8>, cwd: Seq<u8>) -> Request {
    request_from(args, 0, None, false, home, cwd)
}

/// Reading the command line:
/// - an option other than `--` asks for what it names, or is not understood, whether it comes
///   first or after one path, and whatever follows it;
/// - a second path is not understood;
/// - one path opens there, read from `cwd` when it is relative, and no argument opens `home`;
/// - after `--` a path that starts with `-` is still a path.
pub proof fn options_decide_and_a_second_path_is_refused(
    option: Seq<u8>,
    path: Seq<u8>,
    other: Seq<u8>,
    rest: Seq<Seq<u8>>,
    home: Seq<u8>,
    cwd: Seq<u8>,
)
    requires
        is_option(option),
        option != "--".spec_bytes(),
        !is_option(path),
        !is_option(other),
    ensures
        asked(seq![option] + rest, home, cwd) == option_answer(option),
        asked(seq![path, option] + rest, home, cwd) == option_answer(option),
        asked(seq![path, other] + rest, home, cwd) == Request::Unknown(other),
        asked(seq![path], home, cwd) == Request::Open(join(cwd, path)),
        asked(Seq::empty(), home, cwd) == Request::Open(home),
        asked(seq!["--".spec_bytes(), option], home, cwd) == Request::Open(join(cwd, option)),
{
    let a = seq![option] + rest;
    assert(a[0] == option);
    let b = seq![path, option] + rest;
    assert(b[0] == path && b[1] == option);
    assert(request_from(b, 0, None, false, home, cwd) == request_from(b, 1, Some(path), false, home, cwd));
    let c = seq![path, other] + rest;
    assert(c[0] == path && c[1] == other);
    assert(request_from(c, 0, None, false, home, cwd) == request_from(c, 1, Some(path), false, home, cwd));
    let e = seq![path];
    assert(request_from(e, 0, None, false, home, cwd) == request_from(e, 1, Some(path), false, home, cwd));
    let d = seq!["--".spec_bytes(), option];
    assert("--".spec_bytes() =~= seq![45u8, 45u8] && "-V".spec_bytes() =~= seq![45u8, 86u8] && "-h".spec_bytes() =~= seq![45u8, 104u8]
        && "--version".spec_bytes().len() == 9 && "--help".spec_bytes().len() == 6) by {
        broadcast use vstd::string::is_ascii_spec_bytes;

        reveal_strlit("--");
        reveal_strlit("-V");
        reveal_strlit("-h");
        reveal_strlit("--version");
        reveal_strlit("--help");
        assert(vstd::string::is_ascii("--"));
        assert(vstd::string::is_ascii("-V"));
        assert(vstd::string::is_ascii("-h"));
        assert(vstd::string::is_ascii("--version"));
        assert(vstd::string::is_ascii("--help"));
    }
    assert("--".spec_bytes()[1] != "-V".spec_bytes()[1]);
    assert("--".spec_bytes()[1] != "-h".spec_bytes()[1]);
    assert(d[0] == "--".spec_bytes() && d[1] == option);
    assert(is_option(d[0]));
    assert(request_from(d, 0, None, false, home, cwd) == request_from(d, 1, None, true, home, cwd));
    assert(request_from(d, 1, None, true, home, cwd) == request_from(d, 2, Some(option), true, home, cwd));
    assert(request_from(d, 2, Some(option), true, home, cwd) == Request::Open(join(cwd, option)));
}

} // verus!
