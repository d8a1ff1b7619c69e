//! Decisions of the command line: the output formats, the exit code of a
//! command and how the interactive shell reads a line.

use vstd::prelude::*;
use crate::picker::{trim_text, trimmed};
use crate::project::{file_name_of, path_file_name};
use crate::text::{chars_of, push_str, string_of};

verus! {

/// Output format of `riku diff`.
#[derive(Clone, Copy, Debug, PartialEq, Eq, Structural)]
pub enum OutputFormat {
    Text,
    Json,
    Visual,
}

/// Result of running a command, whatever the mode (command line or shell).
#[derive(Clone, Copy, Debug, PartialEq, Eq, Structural)]
pub enum Outcome {
    Done,
    StatusClean,
    StatusDirty,
}

/// Exit code of a command: `status` answers 0 when clean, 1 with pending
/// changes and 2 on error; the other commands 0 on success and 1 on error.
pub open spec fn exit_code_of(is_status: bool, result: Result<Outcome, String>) -> u8 {
    match result {
        Ok(Outcome::StatusDirty) => 1,
        Ok(_) => 0,
        Err(_) => if is_status { 2 } else { 1 },
    }
}

pub fn exit_code(is_status: bool, result: &Result<Outcome, String>) -> (r: u8)
    ensures
        r == exit_code_of(is_status, *result),
{
    match result {
        Ok(Outcome::StatusDirty) => 1,
        Ok(_) => 0,
        Err(_) => if is_status { 2 } else { 1 },
    }
}

/// Exit code of the interactive shell: 0 when it ended normally, 1 on error.
pub fn shell_to_exit(result: &Result<(), String>) -> (r: u8)
    ensures
        r == (if result is Ok { 0u8 } else { 1u8 }),
{
    match result {
        Ok(_) => 0,
        Err(_) => 1,
    }
}

/// What the shell does with a line.
#[derive(Clone, Debug, PartialEq, Eq)]
pub enum ShellAction {
    /// An empty line: nothing.
    Nothing,
    Exit,
    Help,
    /// Change to the folder.
    Cd(String),
    /// List the folder, or the current one.
    Ls(Option<String>),
    /// Run the line as a `riku` command.
    Run(String),
}

/// Position of the first space of `s` at or after `i`, or its length.
pub open spec fn first_space_from(s: Seq<char>, i: int) -> int
    decreases s.len() - i,
{
    if i >= s.len() {
        s.len() as int
    } else if s[i] == ' ' {
        i
    } else {
        first_space_from(s, i + 1)
    }
}

/// The command word of a (trimmed) line: up to its first space.
pub open spec fn command_word(t: Seq<char>) -> Seq<char> {
    t.take(first_space_from(t, 0))
}

/// The arguments of a (trimmed) line: after its first space, trimmed.
pub open spec fn command_rest(t: Seq<char>) -> Seq<char> {
    let k = first_space_from(t, 0);
    if k >= t.len() { Seq::empty() } else { trimmed(t.skip(k + 1)) }
}

/// `action` is what the shell does with `line`: nothing for a blank line;
/// `exit`, `quit` and `q` leave; `help`; `cd` to its argument or to `.`;
/// `ls` of its argument or of the current folder; any other line runs as a
/// command, trimmed.
pub open spec fn is_shell_action(line: Seq<char>, action: ShellAction) -> bool {
    let t = trimmed(line);
    let cmd = command_word(t);
    let rest = command_rest(t);
    if t.len() == 0 {
        action is Nothing
    } else if cmd == "exit"@ || cmd == "quit"@ || cmd == "q"@ {
        action is Exit
    } else if cmd == "help"@ {
        action is Help
    } else if cmd == "cd"@ {
        action matches ShellAction::Cd(d) && d@ == (if rest.len() == 0 { "."@ } else { rest })
    } else if cmd == "ls"@ {
        action matches ShellAction::Ls(d) && (if rest.len() == 0 {
            d is None
        } else {
            d matches Some(x) && x@ == rest
        })
    } else {
        action matches ShellAction::Run(l) && l@ == t
    }
}

fn is_word(w: &Vec<char>, lit: &str) -> (r: bool)
    ensures
        r == (w@ == lit@),
{
    let l = chars_of(lit);
    crate::text::same_chars(w, &l)
}

/// What the shell does with the line it read.
pub fn shell_action(line: &str) -> (r: ShellAction)
    ensures
        is_shell_action(line@, r),
{
    let t = trim_text(line);
    let tv = chars_of(t.as_str());
    if tv.len() == 0 {
        return ShellAction::Nothing;
    }
    let n = tv.len();
    let mut k: usize = 0;
    while k < n && tv[k] != ' '
        invariant
            n == tv@.len(),
            k <= n,
            first_space_from(tv@, 0) == first_space_from(tv@, k as int),
        decreases n - k,
    {
        k = k + 1;
    }
    let cmd = chars_of(crate::names::sub_string(&tv, 0, k).as_str());
    assert(cmd@ == command_word(tv@));
    if is_word(&cmd, "exit") || is_word(&cmd, "quit") || is_word(&cmd, "q") {
        return ShellAction::Exit;
    }
    if is_word(&cmd, "help") {
        return ShellAction::Help;
    }
    let rest = if k >= n {
        String::new()
    } else {
        let after = crate::names::sub_string(&tv, k + 1, n);
        assert(after@ =~= tv@.skip(k + 1));
        trim_text(after.as_str())
    };
    assert(rest@ == command_rest(tv@));
    if is_word(&cmd, "cd") {
        if rest.as_str().is_empty() {
            return ShellAction::Cd(string_of(&chars_of(".")));
        }
        return ShellAction::Cd(rest);
    }
    if is_word(&cmd, "ls") {
        if rest.as_str().is_empty() {
            return ShellAction::Ls(None);
        }
        return ShellAction::Ls(Some(rest));
    }
    ShellAction::Run(t)
}

/// The shell prompt: the name of the current folder (the whole path when it
/// has none), marked when the folder lies in a Git repository.
pub open spec fn prompt_text(cwd: Seq<char>, in_repo: bool) -> Seq<char> {
    let dir = match path_file_name(cwd) {
        Some(n) => n,
        None => cwd,
    };
    "riku "@ + dir + (if in_repo { " (git)"@ } else { Seq::empty() }) + "> "@
}

pub fn prompt(cwd: &str, in_repo: bool) -> (r: String)
    ensures
        r@ == prompt_text(cwd@, in_repo),
{
    let mut out: Vec<char> = Vec::new();
    push_str(&mut out, "riku ");
    match file_name_of(cwd) {
        Some(n) => push_str(&mut out, n.as_str()),
        None => push_str(&mut out, cwd),
    }
    if in_repo {
        push_str(&mut out, " (git)");
    }
    push_str(&mut out, "> ");
    string_of(&out)
}

/// The fixed parts of the side-by-side diff page, in order.
pub open spec fn html_part_0() -> Seq<char> {
    "<!DOCTYPE html>\n<html lang=\"es\">\n<head>\n<meta charset=\"utf-8\">\n<title>riku diff — "@
}

pub open spec fn html_part_1() -> Seq<char> {
    "</title>\n<style>\n  * { box-sizing: border-box; margin: 0; padding: 0; }\n  body { background: #1a1a1a; color: #ccc; font-family: monospace; display: flex; flex-direction: column; height: 100vh; }\n  header { padding: 8px 16px; background: #111; border-bottom: 1px solid #333; font-size: 13px; }\n  header span { color: #888; }\n  .panels { display: flex; flex: 1; overflow: hidden; gap: 2px; padding: 2px; }\n  .panel { flex: 1; display: flex; flex-direction: column; background: #111; border: 1px solid #333; overflow: hidden; }\n  .panel-label { padding: 4px 10px; font-size: 11px; color: #888; background: #0d0d0d; border-bottom: 1px solid #222; }\n  .panel-label b { color: #ccc; }\n  .panel-body { flex: 1; overflow: auto; display: flex; align-items: center; justify-content: center; padding: 8px; }\n  .panel-body svg { max-width: 100%; max-height: 100%; }\n  .legend { padding: 6px 16px; background: #111; border-top: 1px solid #333; font-size: 11px; display: flex; gap: 16px; }\n  .dot { display: inline-block; width: 10px; height: 10px; border-radius: 2px; margin-right: 4px; }\n</style>\n</head>\n<body>\n<header><span>riku diff</span> &nbsp;·&nbsp; "@
}

pub open spec fn html_part_2() -> Seq<char> {
    " &nbsp;·&nbsp; <span>"@
}

pub open spec fn html_part_3() -> Seq<char> {
    "</span> → <span>"@
}

pub open spec fn html_part_4() -> Seq<char> {
    "</span></header>\n<div class=\"panels\">\n  <div class=\"panel\">\n    <div class=\"panel-label\">ANTES &nbsp;<b>"@
}

pub open spec fn html_part_5() -> Seq<char> {
    "</b></div>\n    <div class=\"panel-body\">"@
}

pub open spec fn html_part_6() -> Seq<char> {
    "</div>\n  </div>\n  <div class=\"panel\">\n    <div class=\"panel-label\">DESPUÉS &nbsp;<b>"@
}

pub open spec fn html_part_7() -> Seq<char> {
    "</div>\n  </div>\n</div>\n<div class=\"legend\">\n  <span><span class=\"dot\" style=\"background:rgba(0,200,0,0.7)\"></span>Añadido</span>\n  <span><span class=\"dot\" style=\"background:rgba(200,0,0,0.7)\"></span>Removido</span>\n  <span><span class=\"dot\" style=\"background:rgba(255,180,0,0.7)\"></span>Modificado</span>\n  <span><span class=\"dot\" style=\"background:rgba(120,120,120,0.7)\"></span>Cosmético</span>\n</div>\n</body>\n</html>"@
}

/// The side-by-side diff page: the file and the two commits in the title
/// and the header, the earlier drawing on the left, the later on the right,
/// and the colour legend.
pub open spec fn diff_html(file_path: Seq<char>, commit_a: Seq<char>, commit_b: Seq<char>,
    panel_a: Seq<char>, panel_b: Seq<char>) -> Seq<char> {
    html_part_0()
        + file_path
        + html_part_1()
        + file_path
        + html_part_2()
        + commit_a
        + html_part_3()
        + commit_b
        + html_part_4()
        + commit_a
        + html_part_5()
        + panel_a
        + html_part_6()
        + commit_b
        + html_part_5()
        + panel_b
        + html_part_7()
}

/// The HTML page of the visual diff.
pub fn build_diff_html(commit_a: &str, commit_b: &str, file_path: &str, panel_a: &str, panel_b: &str) -> (r: String)
    ensures
        r@ == diff_html(file_path@, commit_a@, commit_b@, panel_a@, panel_b@),
{
    let mut out: Vec<char> = Vec::new();
    push_str(&mut out, "<!DOCTYPE html>\n<html lang=\"es\">\n<head>\n<meta charset=\"utf-8\">\n<title>riku diff — ");
    push_str(&mut out, file_path);
    push_str(&mut out, "</title>\n<style>\n  * { box-sizing: border-box; margin: 0; padding: 0; }\n  body { background: #1a1a1a; color: #ccc; font-family: monospace; display: flex; flex-direction: column; height: 100vh; }\n  header { padding: 8px 16px; background: #111; border-bottom: 1px solid #333; font-size: 13px; }\n  header span { color: #888; }\n  .panels { display: flex; flex: 1; overflow: hidden; gap: 2px; padding: 2px; }\n  .panel { flex: 1; display: flex; flex-direction: column; background: #111; border: 1px solid #333; overflow: hidden; }\n  .panel-label { padding: 4px 10px; font-size: 11px; color: #888; background: #0d0d0d; border-bottom: 1px solid #222; }\n  .panel-label b { color: #ccc; }\n  .panel-body { flex: 1; overflow: auto; display: flex; align-items: center; justify-content: center; padding: 8px; }\n  .panel-body svg { max-width: 100%; max-height: 100%; }\n  .legend { padding: 6px 16px; background: #111; border-top: 1px solid #333; font-size: 11px; display: flex; gap: 16px; }\n  .dot { display: inline-block; width: 10px; height: 10px; border-radius: 2px; margin-right: 4px; }\n</style>\n</head>\n<body>\n<header><span>riku diff</span> &nbsp;·&nbsp; ");
    push_str(&mut out, file_path);
    push_str(&mut out, " &nbsp;·&nbsp; <span>");
    push_str(&mut out, commit_a);
    push_str(&mut out, "</span> → <span>");
    push_str(&mut out, commit_b);
    push_str(&mut out, "</span></header>\n<div class=\"panels\">\n  <div class=\"panel\">\n    <div class=\"panel-label\">ANTES &nbsp;<b>");
    push_str(&mut out, commit_a);
    push_str(&mut out, "</b></div>\n    <div class=\"panel-body\">");
    push_str(&mut out, panel_a);
    push_str(&mut out, "</div>\n  </div>\n  <div class=\"panel\">\n    <div class=\"panel-label\">DESPUÉS &nbsp;<b>");
    push_str(&mut out, commit_b);
    push_str(&mut out, "</b></div>\n    <div class=\"panel-body\">");
    push_str(&mut out, panel_b);
    push_str(&mut out, "</div>\n  </div>\n</div>\n<div class=\"legend\">\n  <span><span class=\"dot\" style=\"background:rgba(0,200,0,0.7)\"></span>Añadido</span>\n  <span><span class=\"dot\" style=\"background:rgba(200,0,0,0.7)\"></span>Removido</span>\n  <span><span class=\"dot\" style=\"background:rgba(255,180,0,0.7)\"></span>Modificado</span>\n  <span><span class=\"dot\" style=\"background:rgba(120,120,120,0.7)\"></span>Cosmético</span>\n</div>\n</body>\n</html>");
    string_of(&out)
}

} // verus!
