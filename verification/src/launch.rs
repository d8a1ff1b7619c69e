//! Command-line arguments of the desktop viewer.

use vstd::prelude::*;
use crate::order::views;
use crate::text::str_is;

verus! {

/// What the viewer was asked to open: a file, and for a diff the repository
/// and the two commits.
#[derive(Clone, Debug, PartialEq, Eq)]
pub struct LaunchArgs {
    pub file: Option<String>,
    pub repo: Option<String>,
    pub commit_a: Option<String>,
    pub commit_b: Option<String>,
}

/// The argument after position `i`, if there is one.
pub open spec fn value_after(args: Seq<Seq<char>>, i: int) -> Option<Seq<char>> {
    if i < args.len() - 1 { Some(args[i + 1]) } else { None }
}

/// Position after an option and its value.
pub open spec fn after_value(args: Seq<Seq<char>>, i: int) -> int {
    if i + 2 <= args.len() { i + 2 } else { args.len() as int }
}

/// Reads the arguments from position `i` on, given what was read before:
/// `--repo`, `--commit-a` and `--commit-b` take the next argument (none at
/// the end); any other argument is the file. Later arguments win.
pub open spec fn launch_from(
    args: Seq<Seq<char>>,
    i: int,
    acc: (Option<Seq<char>>, Option<Seq<char>>, Option<Seq<char>>, Option<Seq<char>>),
) -> (Option<Seq<char>>, Option<Seq<char>>, Option<Seq<char>>, Option<Seq<char>>)
    decreases args.len() - i,
{
    if i < 0 || i >= args.len() {
        acc
    } else if args[i] == "--repo"@ {
        launch_from(args, after_value(args, i), (acc.0, value_after(args, i), acc.2, acc.3))
    } else if args[i] == "--commit-a"@ {
        launch_from(args, after_value(args, i), (acc.0, acc.1, value_after(args, i), acc.3))
    } else if args[i] == "--commit-b"@ {
        launch_from(args, after_value(args, i), (acc.0, acc.1, acc.2, value_after(args, i)))
    } else {
        launch_from(args, i + 1, (Some(args[i]), acc.1, acc.2, acc.3))
    }
}

pub open spec fn opt_view(o: Option<String>) -> Option<Seq<char>> {
    match o {
        Some(s) => Some(s@),
        None => None,
    }
}

pub open spec fn launch_view(l: LaunchArgs) -> (Option<Seq<char>>, Option<Seq<char>>, Option<Seq<char>>, Option<Seq<char>>) {
    (opt_view(l.file), opt_view(l.repo), opt_view(l.commit_a), opt_view(l.commit_b))
}

fn next_value(args: &Vec<String>, i: usize) -> (r: Option<String>)
    requires
        i < args@.len(),
    ensures
        opt_view(r) == value_after(views(args@), i as int),
{
    if i < args.len() - 1 {
        Some(args[i + 1].clone())
    } else {
        None
    }
}

/// Reads the viewer's arguments (without the program name).
pub fn parse_launch_args(args: &Vec<String>) -> (l: LaunchArgs)
    ensures
        launch_view(l) == launch_from(views(args@), 0, (None, None, None, None)),
{
    let ghost a = views(args@);
    let mut l = LaunchArgs { file: None, repo: None, commit_a: None, commit_b: None };
    let n = args.len();
    let mut i: usize = 0;
    while i < n
        invariant
            n == args@.len(),
            a == views(args@),
            i <= n,
            launch_from(a, 0, (None, None, None, None)) == launch_from(a, i as int, launch_view(l)),
        decreases n - i,
    {
        let arg = &args[i];
        assert(a[i as int] == arg@);
        if str_is(arg.as_str(), "--repo") {
            l.repo = next_value(args, i);
            i = if i < n - 1 { i + 2 } else { n };
        } else if str_is(arg.as_str(), "--commit-a") {
            l.commit_a = next_value(args, i);
            i = if i < n - 1 { i + 2 } else { n };
        } else if str_is(arg.as_str(), "--commit-b") {
            l.commit_b = next_value(args, i);
            i = if i < n - 1 { i + 2 } else { n };
        } else {
            l.file = Some(arg.clone());
            i = i + 1;
        }
    }
    l
}

} // verus!
