//! How the desktop client was asked to start.

use vstd::prelude::*;
use vstd::string::*;

use crate::text::same_text;

verus! {

/// What to do at start.
#[derive(Clone, Copy, PartialEq, Eq, Structural, Debug)]
pub enum Startup {
    /// Print the version and leave.
    Version,
    /// Open the window, or start hidden in the tray.
    Run { minimized: bool },
}

/// Whether one of the arguments is `want`.
pub open spec fn given(args: Seq<String>, want: Seq<char>) -> bool {
    exists|i: int| 0 <= i < args.len() && (#[trigger] args[i])@ == want
}

/// What to do at start: asking for the version wins; starting hidden can be
/// asked for by an argument or by the environment.
pub open spec fn startup(args: Seq<String>, minimized_by_env: bool) -> Startup {
    if given(args, "--version"@) || given(args, "-V"@) {
        Startup::Version
    } else {
        Startup::Run { minimized: given(args, "--minimized"@) || minimized_by_env }
    }
}

/// Whether one of the arguments is `want`.
fn has_arg(args: &Vec<String>, want: &str) -> (r: bool)
    ensures
        r == given(args@, want@),
{
    let mut i: usize = 0;
    while i < args.len()
        invariant
            i <= args@.len(),
            forall|j: int| 0 <= j < i ==> (#[trigger] args@[j])@ != want@,
        decreases args@.len() - i,
    {
        if same_text(args[i].as_str(), want) {
            return true;
        }
        i = i + 1;
    }
    false
}

/// What to do at start, given the arguments and whether the environment asks for
/// a hidden start.
pub fn startup_of(args: &Vec<String>, minimized_by_env: bool) -> (r: Startup)
    ensures
        r == startup(args@, minimized_by_env),
{
    if has_arg(args, "--version") || has_arg(args, "-V") {
        return Startup::Version;
    }
    Startup::Run { minimized: has_arg(args, "--minimized") || minimized_by_env }
}

/// The line that names the version.
pub fn version_line(version: &str) -> (r: String)
    ensures
        r@ == "ipn "@ + version@,
{
    String::from_str("ipn ").concat(version)
}

// ---------------------------------------------------------------------------
// Laws
// ---------------------------------------------------------------------------

/// Asking for the version, in either form and anywhere among the arguments, wins;
/// otherwise the client runs, hidden if the environment or an argument says so, and
/// with its window if neither does.
pub proof fn law_version_wins_over_running(args: &Vec<String>, env: bool, r: Startup)
    requires
        call_ensures(startup_of, (args, env), r),
    ensures
        (exists|i: int|
            0 <= i < args@.len() && ((#[trigger] args@[i])@ == "--version"@ || args@[i]@ == "-V"@)) ==> r
            == Startup::Version,
        (forall|i: int|
            0 <= i < args@.len() ==> (#[trigger] args@[i])@ != "--version"@ && args@[i]@ != "-V"@) ==> {
            &&& r is Run
            &&& env ==> r == (Startup::Run { minimized: true })
            &&& (exists|i: int| 0 <= i < args@.len() && (#[trigger] args@[i])@ == "--minimized"@) ==> r == (
            Startup::Run { minimized: true })
            &&& !env && (forall|i: int|
                0 <= i < args@.len() ==> (#[trigger] args@[i])@ != "--minimized"@) ==> r == (Startup::Run {
                minimized: false,
            })
        },
{
    if exists|i: int|
        0 <= i < args@.len() && ((#[trigger] args@[i])@ == "--version"@ || args@[i]@ == "-V"@) {
        let i = choose|i: int|
            0 <= i < args@.len() && ((#[trigger] args@[i])@ == "--version"@ || args@[i]@ == "-V"@);
        assert(given(args@, args@[i]@));
    }
}

/// The version line names the program and then the version.
pub proof fn law_version_line_names_the_program(version: &str, r: String)
    requires
        call_ensures(version_line, (version,), r),
    ensures
        r@ == seq!['i', 'p', 'n', ' '] + version@,
{
    reveal_strlit("ipn ");
    assert("ipn "@ =~= seq!['i', 'p', 'n', ' ']);
}

} // verus!
