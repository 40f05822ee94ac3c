//! The command line: files to open, or a request for help or the version.
use vstd::prelude::*;
use crate::text::chars_of;

verus! {

/// What the command line asks for.
#[derive(Debug, Clone, PartialEq, Eq)]
pub enum CommandLine {
    /// Open these arguments (by position) as files, each in a tab.
    Open(Vec<usize>),
    /// Print the usage text and stop.
    Help,
    /// Print the version and stop.
    Version,
    /// An option that is not known: report it and stop with an error.
    Unrecognized(String),
}

/// How one argument reads while options are still recognised.
pub ghost enum ArgKind {
    EndOfOptions,
    Help,
    Version,
    BadOption,
    File,
}

/// How `arg` reads while options are recognised; `None` stands for an
/// argument that is not valid Unicode, always a file.
pub open spec fn arg_kind(arg: Option<Seq<char>>) -> ArgKind {
    match arg {
        Some(a) => if a == seq!['-', '-'] {
            ArgKind::EndOfOptions
        } else if a == seq!['-', 'h'] || a == seq!['-', '-', 'h', 'e', 'l', 'p'] {
            ArgKind::Help
        } else if a == seq!['-', 'V'] || a == seq!['-', '-', 'v', 'e', 'r', 's', 'i', 'o', 'n'] {
            ArgKind::Version
        } else if a.len() > 1 && a[0] == '-' {
            ArgKind::BadOption
        } else {
            ArgKind::File
        },
        None => ArgKind::File,
    }
}

pub open spec fn opt_chars(a: Option<String>) -> Option<Seq<char>> {
    match a {
        Some(s) => Some(s@),
        None => None,
    }
}

/// The outcome of reading `args[i..]`, given the files found so far and
/// whether options are still recognised.
pub open spec fn read_args(args: Seq<Option<String>>, i: int, files: Seq<usize>, options: bool) -> (Seq<usize>, ArgOutcome)
    decreases args.len() - i,
{
    if i < 0 || i >= args.len() {
        (files, ArgOutcome::Done)
    } else if !options {
        read_args(args, i + 1, files.push(i as usize), options)
    } else {
        match arg_kind(opt_chars(args[i])) {
            ArgKind::EndOfOptions => read_args(args, i + 1, files, false),
            ArgKind::Help => (files, ArgOutcome::Help),
            ArgKind::Version => (files, ArgOutcome::Version),
            ArgKind::BadOption => (files, ArgOutcome::Bad(i)),
            ArgKind::File => read_args(args, i + 1, files.push(i as usize), options),
        }
    }
}

/// Where reading the arguments stopped.
pub ghost enum ArgOutcome {
    Done,
    Help,
    Version,
    Bad(int),
}

/// What `args` (the arguments after the program's name) ask for: `--`
/// makes every later argument a file; `-h`/`--help` and `-V`/`--version`
/// stop at once; any other argument that starts with `-` and is longer than
/// that is an unknown option; everything else is a file to open.
pub open spec fn command_line(args: Seq<Option<String>>, r: CommandLine) -> bool {
    let (files, outcome) = read_args(args, 0, seq![], true);
    match outcome {
        ArgOutcome::Done => r matches CommandLine::Open(v) && v@ == files,
        ArgOutcome::Help => r is Help,
        ArgOutcome::Version => r is Version,
        ArgOutcome::Bad(i) => r matches CommandLine::Unrecognized(a) && Some(a@) == opt_chars(args[i]),
    }
}

/// Whether `s` holds exactly the characters `lit`.
fn is(s: &Vec<char>, lit: &str) -> (b: bool)
    ensures
        b == (s@ == lit@),
{
    let l = chars_of(lit);
    if s.len() != l.len() {
        return false;
    }
    let mut i: usize = 0;
    while i < s.len()
        invariant
            s.len() == l.len(),
            l@ == lit@,
            i <= s.len(),
            forall|j: int| 0 <= j < i ==> s@[j] == l@[j],
        decreases s.len() - i,
    {
        if s[i] != l[i] {
            return false;
        }
        i = i + 1;
    }
    assert(s@ =~= l@);
    true
}

/// Reads the command line (see `command_line`).
pub fn parse_args(args: &Vec<Option<String>>) -> (r: CommandLine)
    ensures
        command_line(args@, r),
{
    let mut files: Vec<usize> = Vec::new();
    let mut options = true;
    let mut i: usize = 0;
    let ghost whole = read_args(args@, 0, seq![], true);
    while i < args.len()
        invariant
            i <= args.len(),
            whole == read_args(args@, 0, seq![], true),
            whole == read_args(args@, i as int, files@, options),
        decreases args.len() - i,
    {
        if options {
            match &args[i] {
                Some(a) => {
                    let c = chars_of(a.as_str());
                    proof {
                        reveal_strlit("--");
                        reveal_strlit("-h");
                        reveal_strlit("--help");
                        reveal_strlit("-V");
                        reveal_strlit("--version");
                        assert("--"@ =~= seq!['-', '-']);
                        assert("-h"@ =~= seq!['-', 'h']);
                        assert("--help"@ =~= seq!['-', '-', 'h', 'e', 'l', 'p']);
                        assert("-V"@ =~= seq!['-', 'V']);
                        assert("--version"@ =~= seq!['-', '-', 'v', 'e', 'r', 's', 'i', 'o', 'n']);
                    }
                    if is(&c, "--") {
                        options = false;
                        i = i + 1;
                        continue;
                    }
                    if is(&c, "-h") || is(&c, "--help") {
                        return CommandLine::Help;
                    }
                    if is(&c, "-V") || is(&c, "--version") {
                        return CommandLine::Version;
                    }
                    if c.len() > 1 && c[0] == '-' {
                        return CommandLine::Unrecognized(a.clone());
                    }
                },
                None => {},
            }
        }
        files.push(i);
        i = i + 1;
    }
    CommandLine::Open(files)
}

proof fn lemma_files_after_options(args: Seq<Option<String>>, i: int, files: Seq<usize>)
    requires
        0 <= i <= args.len(),
        args.len() <= usize::MAX,
    ensures
        read_args(args, i, files, false) == (files + Seq::new((args.len() - i) as nat, |k: int| (i + k) as usize), ArgOutcome::Done),
    decreases args.len() - i,
{
    if i < args.len() {
        lemma_files_after_options(args, i + 1, files.push(i as usize));
        assert(files.push(i as usize) + Seq::new((args.len() - i - 1) as nat, |k: int| (i + 1 + k) as usize)
            =~= files + Seq::new((args.len() - i) as nat, |k: int| (i + k) as usize));
    } else {
        assert(files + Seq::new(0, |k: int| (i + k) as usize) =~= files);
    }
}

/// After `--` every argument is a file to open, in order, whatever it looks
/// like.
pub proof fn law_double_dash_ends_options(args: Seq<Option<String>>)
    requires
        args.len() >= 1,
        args.len() <= usize::MAX,
        opt_chars(args[0]) == Some(seq!['-', '-']),
    ensures
        read_args(args, 0, seq![], true) == (Seq::new((args.len() - 1) as nat, |k: int| (k + 1) as usize), ArgOutcome::Done),
{
    lemma_files_after_options(args, 1, seq![]);
    assert(Seq::<usize>::empty() + Seq::new((args.len() - 1) as nat, |k: int| (1 + k) as usize)
        =~= Seq::new((args.len() - 1) as nat, |k: int| (k + 1) as usize));
}

/// A help or version request stops the reading: no file is opened and
/// nothing after it matters.
pub proof fn law_help_stops(args: Seq<Option<String>>)
    requires
        args.len() >= 1,
        opt_chars(args[0]) == Some(seq!['-', 'h']),
    ensures
        read_args(args, 0, seq![], true).1 == ArgOutcome::Help,
{
}

} // verus!
