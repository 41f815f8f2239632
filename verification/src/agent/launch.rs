//! How the agent starts the server.

use vstd::prelude::*;
use crate::config::on_windows;
use crate::path::{path_from, path_text};
use crate::text::{
    copy_texts, occurs_in, text_contains, texts, what_is_found_in_a_text, what_stands_in_a_text,
};

verus! {

/// The command that starts the server.
#[derive(Debug)]
pub struct ServerCommand {
    pub program: std::path::PathBuf,
    pub args: Vec<String>,
    pub current_dir: Option<std::path::PathBuf>,
}

/// The name of the server's executable on a given platform.
pub open spec fn exe_name(windows: bool) -> Seq<char> {
    if windows {
        "chess-pos-analyzer.exe"@
    } else {
        "chess-pos-analyzer"@
    }
}

/// The name of the server's executable on a given platform.
pub fn server_exe_name_for(windows: bool) -> (r: &'static str)
    ensures
        r@ == exe_name(windows),
{
    if windows {
        "chess-pos-analyzer.exe"
    } else {
        "chess-pos-analyzer"
    }
}

/// The name of the server's executable on this platform.
pub fn server_exe_name() -> (r: &'static str)
    ensures
        r@ == exe_name(true) || r@ == exe_name(false),
{
    server_exe_name_for(on_windows())
}

/// The arguments with which cargo runs the server.
pub open spec fn cargo_args(server_args: Seq<Seq<char>>) -> Seq<Seq<char>> {
    seq!["run"@, "--quiet"@, "--package"@, "chess-pos-analyzer"@, "--"@] + server_args
}

/// The command that starts the server: the one given, in the current directory; else the
/// executable beside the agent's; else cargo, both in the root of the workspace.
pub fn resolve_server_command(
    server_command: Option<std::path::PathBuf>,
    server_args: &Vec<String>,
    sibling: Option<std::path::PathBuf>,
    workspace_root: Option<std::path::PathBuf>,
) -> (r: ServerCommand)
    ensures
        match (server_command, sibling) {
            (Some(program), _) => r.program == program && r.current_dir is None && texts(r.args@)
                == texts(server_args@),
            (None, Some(program)) => r.program == program && r.current_dir == workspace_root
                && texts(r.args@) == texts(server_args@),
            (None, None) => path_text(r.program) == "cargo"@ && r.current_dir == workspace_root
                && texts(r.args@) == cargo_args(texts(server_args@)),
        },
{
    match (server_command, sibling) {
        (Some(program), _) => ServerCommand {
            program,
            args: copy_texts(server_args),
            current_dir: None,
        },
        (None, Some(program)) => ServerCommand {
            program,
            args: copy_texts(server_args),
            current_dir: workspace_root,
        },
        (None, None) => ServerCommand {
            program: path_from("cargo"),
            args: cargo_arguments(server_args),
            current_dir: workspace_root,
        },
    }
}

fn cargo_arguments(server_args: &Vec<String>) -> (r: Vec<String>)
    ensures
        texts(r@) == cargo_args(texts(server_args@)),
{
    let ghost given = texts(server_args@);
    let mut args: Vec<String> = Vec::new();
    args.push("run".to_owned());
    args.push("--quiet".to_owned());
    args.push("--package".to_owned());
    args.push("chess-pos-analyzer".to_owned());
    args.push("--".to_owned());
    let ghost start = texts(args@);
    assert(start == seq!["run"@, "--quiet"@, "--package"@, "chess-pos-analyzer"@, "--"@]);
    let mut i: usize = 0;
    assert(start + given.take(0) == start);
    while i < server_args.len()
        invariant
            i <= server_args@.len(),
            given == texts(server_args@),
            texts(args@) == start + given.take(i as int),
        decreases server_args.len() - i,
    {
        let ghost before = texts(args@);
        args.push(server_args[i].clone());
        assert(texts(args@) == before.push(given[i as int]));
        assert(given.take(i + 1) == given.take(i as int).push(given[i as int]));
        i = i + 1;
    }
    assert(given.take(i as int) == given);
    args
}

/// Whether the text of a manifest is that of the workspace.
pub open spec fn of_workspace(manifest: Seq<char>) -> bool {
    occurs_in(manifest, "[workspace]"@) && occurs_in(manifest, "mcp-server"@)
}

/// Whether the text of a manifest is that of the workspace.
pub fn is_workspace_manifest(manifest: &str) -> (r: bool)
    ensures
        r == of_workspace(manifest@),
{
    text_contains(manifest, "[workspace]") && text_contains(manifest, "mcp-server")
}

/// A directory and the text of its manifest, where it has one.
#[derive(Debug)]
pub struct Ancestor {
    pub dir: std::path::PathBuf,
    pub manifest: Option<String>,
}

/// Whether a directory holds the manifest of the workspace.
pub open spec fn holds_workspace(ancestor: Ancestor) -> bool {
    ancestor.manifest matches Some(text) && of_workspace(text@)
}

/// The root of the workspace: the first of the directories that holds its manifest, else
/// the current directory.
pub fn workspace_root(
    ancestors: Vec<Ancestor>,
    current_dir: Option<std::path::PathBuf>,
) -> (r: Option<std::path::PathBuf>)
    ensures
        (forall|i: int| 0 <= i < ancestors@.len() ==> !holds_workspace(#[trigger] ancestors@[i]))
            ==> r == current_dir,
        forall|i: int|
            0 <= i < ancestors@.len() && holds_workspace(#[trigger] ancestors@[i]) && (forall|k: int|
                0 <= k < i ==> !holds_workspace(#[trigger] ancestors@[k])) ==> r == Some(
                ancestors@[i].dir,
            ),
{
    let ghost all = ancestors@;
    let mut rest = ancestors;
    let ghost mut passed: int = 0;
    assert(all.skip(0) == all);
    while rest.len() > 0
        invariant
            0 <= passed <= all.len(),
            rest@ == all.skip(passed),
            all == ancestors@,
            forall|k: int| 0 <= k < passed ==> !holds_workspace(#[trigger] all[k]),
        decreases rest@.len(),
    {
        let ancestor = rest.remove(0);
        assert(ancestor == all[passed]);
        let found = match &ancestor.manifest {
            Some(text) => is_workspace_manifest(text.as_str()),
            None => false,
        };
        if found {
            assert(holds_workspace(all[passed]));
            return Some(ancestor.dir);
        }
        proof {
            assert(all.skip(passed).remove(0) == all.skip(passed + 1));
            passed = passed + 1;
        }
    }
    current_dir
}

/// Cargo is told to run the server's package, and hands every argument on, in order, behind
/// the mark that ends its own.
pub proof fn what_cargo_is_told(server_args: Seq<Seq<char>>)
    ensures
        cargo_args(server_args).len() == 5 + server_args.len(),
        cargo_args(server_args)[0] == "run"@,
        cargo_args(server_args)[1] == "--quiet"@,
        cargo_args(server_args)[2] == "--package"@,
        cargo_args(server_args)[3] == "chess-pos-analyzer"@,
        cargo_args(server_args)[4] == "--"@,
        forall|i: int|
            0 <= i < server_args.len() ==> #[trigger] server_args[i] == cargo_args(server_args)[5
                + i],
{
}

/// A manifest is that of the workspace by what stands in it, wherever it stands.
pub proof fn which_manifest_is_the_workspace(
    before: Seq<char>,
    between: Seq<char>,
    after: Seq<char>,
)
    ensures
        of_workspace(before + "[workspace]"@ + between + "mcp-server"@ + after),
        of_workspace(before + "mcp-server"@ + between + "[workspace]"@ + after),
{
    let a = "[workspace]"@;
    let b = "mcp-server"@;
    what_stands_in_a_text(before, a, between + b + after);
    what_stands_in_a_text(before + a + between, b, after);
    what_stands_in_a_text(before, b, between + a + after);
    what_stands_in_a_text(before + b + between, a, after);
    assert(before + a + (between + b + after) == before + a + between + b + after);
    assert(before + b + (between + a + after) == before + b + between + a + after);
}

/// The manifest of the workspace holds both of its marks: what stands before and after each
/// of them is returned.
pub proof fn what_the_workspace_manifest_holds(manifest: Seq<char>) -> (r: (
    Seq<char>,
    Seq<char>,
    Seq<char>,
    Seq<char>,
))
    requires
        of_workspace(manifest),
    ensures
        manifest == r.0 + "[workspace]"@ + r.1,
        manifest == r.2 + "mcp-server"@ + r.3,
{
    let a = what_is_found_in_a_text(manifest, "[workspace]"@);
    let b = what_is_found_in_a_text(manifest, "mcp-server"@);
    (a.0, a.1, b.0, b.1)
}

/// The executable has the server's name, on Windows with its extension.
pub proof fn what_the_executable_is_called()
    ensures
        exe_name(false) == "chess-pos-analyzer"@,
        exe_name(true) == exe_name(false) + ".exe"@,
{
    reveal_strlit("chess-pos-analyzer");
    reveal_strlit("chess-pos-analyzer.exe");
    reveal_strlit(".exe");
    assert(exe_name(true) == exe_name(false) + ".exe"@);
}

} // verus!
