//! Which file manager to launch to show a file, and what to try when a launch fails.
use vstd::prelude::*;
use vstd::string::*;

verus! {

/// The operating system whose file manager is used.
#[derive(Clone, Copy, Debug, PartialEq, Eq, Structural)]
pub enum Platform {
    Windows,
    MacOs,
    Linux,
    Other,
}

/// A program to start and its arguments.
pub struct LaunchCommand {
    pub program: String,
    pub args: Vec<String>,
}

/// What `Path::parent` gives for `path`, as text.
pub uninterp spec fn parent_of(path: Seq<char>) -> Option<Seq<char>>;

/// Relies on `std::path::Path::parent`: the path without its last component, or
/// `None` for a root or an empty path. It depends on the text of `path` alone.
#[verifier::external_body]
fn parent_dir(path: &str) -> (r: Option<String>)
    ensures
        r matches Some(p) ==> parent_of(path@) == Some(p@),
        r is None ==> parent_of(path@) is None,
{
    match std::path::Path::new(path).parent() {
        Some(p) => Some(p.to_string_lossy().into_owned()),
        None => None,
    }
}

/// A command as text: the program and its arguments.
pub open spec fn launch_view(c: LaunchCommand) -> (Seq<char>, Seq<Seq<char>>) {
    (c.program@, c.args@.map_values(|s: String| s@))
}

/// The command of the `attempt`-th try (from 0) to show `path`, given the parent
/// directory of `path`; `None` once there is nothing left to try. Linux tries
/// Nautilus, Dolphin and Thunar on the file, then opens its parent directory
/// ("/" where it has none); Windows and macOS have one command each.
pub open spec fn planned(platform: Platform, attempt: int, path: Seq<char>, parent: Option<
    Seq<char>,
>) -> Option<(Seq<char>, Seq<Seq<char>>)> {
    match platform {
        Platform::Windows => if attempt == 0 {
            Some(("explorer"@, seq!["/select,"@, path]))
        } else {
            None
        },
        Platform::MacOs => if attempt == 0 {
            Some(("open"@, seq!["-R"@, path]))
        } else {
            None
        },
        Platform::Linux => if attempt == 0 {
            Some(("nautilus"@, seq![path]))
        } else if attempt == 1 {
            Some(("dolphin"@, seq!["--select"@, path]))
        } else if attempt == 2 {
            Some(("thunar"@, seq![path]))
        } else if attempt == 3 {
            Some(
                (
                    "xdg-open"@,
                    seq![
                        match parent {
                            Some(p) => p,
                            None => "/"@,
                        },
                    ],
                ),
            )
        } else {
            None
        },
        Platform::Other => None,
    }
}

fn command(program: &str, first: &str, second: Option<&str>) -> (r: LaunchCommand)
    ensures
        r.program@ == program@,
        second is None ==> r.args@.map_values(|s: String| s@) == seq![first@],
        second matches Some(t) ==> r.args@.map_values(|s: String| s@) == seq![first@, t@],
{
    let mut args: Vec<String> = Vec::new();
    args.push(first.to_owned());
    if let Some(t) = second {
        args.push(t.to_owned());
    }
    let r = LaunchCommand { program: program.to_owned(), args };
    assert(second is None ==> r.args@.map_values(|s: String| s@) =~= seq![first@]);
    assert(second is Some ==> r.args@.map_values(|s: String| s@) =~= seq![first@, second->0@]);
    r
}

/// The command of the `attempt`-th try to show `path`, whose parent directory is
/// `parent`.
pub fn reveal_command_for(
    platform: Platform,
    attempt: usize,
    path: &str,
    parent: Option<String>,
) -> (r: Option<LaunchCommand>)
    ensures
        r matches Some(c) ==> planned(
            platform,
            attempt as int,
            path@,
            match parent {
                Some(p) => Some(p@),
                None => None,
            },
        ) == Some(launch_view(c)),
        r is None ==> planned(
            platform,
            attempt as int,
            path@,
            match parent {
                Some(p) => Some(p@),
                None => None,
            },
        ) is None,
{
    proof {
        reveal_strlit("explorer");
        reveal_strlit("/select,");
        reveal_strlit("open");
        reveal_strlit("-R");
        reveal_strlit("nautilus");
        reveal_strlit("dolphin");
        reveal_strlit("--select");
        reveal_strlit("thunar");
        reveal_strlit("xdg-open");
        reveal_strlit("/");
    }
    match platform {
        Platform::Windows => if attempt == 0 {
            Some(command("explorer", "/select,", Some(path)))
        } else {
            None
        },
        Platform::MacOs => if attempt == 0 {
            Some(command("open", "-R", Some(path)))
        } else {
            None
        },
        Platform::Linux => if attempt == 0 {
            Some(command("nautilus", path, None))
        } else if attempt == 1 {
            Some(command("dolphin", "--select", Some(path)))
        } else if attempt == 2 {
            Some(command("thunar", path, None))
        } else if attempt == 3 {
            match parent {
                Some(p) => Some(command("xdg-open", p.as_str(), None)),
                None => Some(command("xdg-open", "/", None)),
            }
        } else {
            None
        },
        Platform::Other => None,
    }
}

/// The command of the `attempt`-th try to show `path`. When a launch fails, the
/// next attempt is tried; where there is none, the failure is final.
pub fn reveal_command(platform: Platform, attempt: usize, path: &str) -> (r: Option<LaunchCommand>)
    ensures
        r matches Some(c) ==> planned(platform, attempt as int, path@, parent_of(path@)) == Some(
            launch_view(c),
        ),
        r is None ==> planned(platform, attempt as int, path@, parent_of(path@)) is None,
{
    let parent = parent_dir(path);
    reveal_command_for(platform, attempt, path, parent)
}

} // verus!
