use vstd::prelude::*;
use crate::discovery::{filter_projects, kept, ResolveError};
use crate::order::{same_text, texts};

verus! {

/// The first supported command.
pub const CARGO_BUILD: &'static str = "cargo build";

/// The second supported command.
pub const CARGO_TEST: &'static str = "cargo test";

/// The message given when no candidate directory holds a manifest.
pub const NO_PROJECTS_MESSAGE: &'static str = "No Rust projects found (no Cargo.toml files)";

/// One step of an execution plan: a command line to run in a directory.
pub struct PlannedCommand {
    /// The directory, relative to the workspace root (`.` for the root).
    pub dir: String,
    /// The full command line, run there as it stands.
    pub cmd: String,
}

/// What handling a request gave.
pub enum CommandResult {
    /// Commands for the host to run, and whether they may run in parallel.
    Plan(Vec<PlannedCommand>, bool),
    /// Nothing to run; a note for the user.
    Message(String),
    /// Discovery failed.
    Error(String),
    /// The request was not understood; the host should show usage.
    ShowHelp(Option<String>),
}

/// Whether the plugin handles `c`.
pub open spec fn is_supported(c: Seq<char>) -> bool {
    c == CARGO_BUILD@ || c == CARGO_TEST@
}

/// The command followed by each argument, joined by single spaces, with no
/// quoting added.
pub open spec fn command_line(c: Seq<char>, args: Seq<Seq<char>>) -> Seq<char>
    decreases args.len(),
{
    if args.len() == 0 {
        c
    } else {
        command_line(c, args.drop_last()) + " "@ + args.last()
    }
}

/// The note that goes with a request for help on an unknown command.
pub open spec fn unrecognized_message(c: Seq<char>) -> Seq<char> {
    "unrecognized command '"@ + c + "'"@
}

/// The error text for a malformed tree configuration.
pub open spec fn config_error_message(detail: Seq<char>) -> Seq<char> {
    "invalid tree configuration: "@ + detail
}

/// `r` is the result of planning `c` with `args` over the project
/// directories `dirs`.
pub open spec fn plans(
    c: Seq<char>,
    args: Seq<Seq<char>>,
    parallel: bool,
    dirs: Seq<Seq<char>>,
    r: CommandResult,
) -> bool {
    if !is_supported(c) {
        r matches CommandResult::ShowHelp(Some(m)) && m@ == unrecognized_message(c)
    } else if dirs.len() == 0 {
        r matches CommandResult::Message(m) && m@ == NO_PROJECTS_MESSAGE@
    } else {
        r matches CommandResult::Plan(cmds, p) && p == parallel && cmds@.len() == dirs.len()
            && forall|i: int|
            0 <= i < dirs.len() ==> (#[trigger] cmds@[i]).dir@ == dirs[i] && cmds@[i].cmd@
                == command_line(c, args)
    }
}

/// Whether the plugin handles `command`.
pub fn supports(command: &str) -> (r: bool)
    ensures
        r == is_supported(command@),
{
    same_text(command, CARGO_BUILD) || same_text(command, CARGO_TEST)
}

/// `command` followed by each of `args`, joined by single spaces.
pub fn join_command_line(command: &str, args: &[String]) -> (r: String)
    ensures
        r@ == command_line(command@, texts(args@)),
{
    let mut s = command.to_owned();
    let mut i: usize = 0;
    while i < args.len()
        invariant
            i <= args@.len(),
            s@ == command_line(command@, texts(args@.take(i as int))),
        decreases args@.len() - i,
    {
        s.append(" ");
        s.append(args[i].as_str());
        assert(texts(args@.take(i + 1)).drop_last() =~= texts(args@.take(i as int)));
        i = i + 1;
    }
    assert(args@.take(args@.len() as int) =~= args@);
    s
}

/// The outcome of running `command` with `args` in each of the project
/// directories `dirs`, in their order.
pub fn build_plan(command: &str, args: &[String], parallel: bool, dirs: &[String]) -> (r:
    CommandResult)
    ensures
        plans(command@, texts(args@), parallel, texts(dirs@), r),
        !is_supported(command@) ==> (r matches CommandResult::ShowHelp(Some(m)) && m@
            == unrecognized_message(command@)),
        is_supported(command@) && dirs@.len() == 0 ==> (r matches CommandResult::Message(m)
            && m@ == NO_PROJECTS_MESSAGE@),
{
    if !supports(command) {
        let mut m = "unrecognized command '".to_owned();
        m.append(command);
        m.append("'");
        return CommandResult::ShowHelp(Some(m));
    }
    if dirs.len() == 0 {
        return CommandResult::Message(NO_PROJECTS_MESSAGE.to_owned());
    }
    let line = join_command_line(command, args);
    let mut cmds: Vec<PlannedCommand> = Vec::new();
    let mut i: usize = 0;
    while i < dirs.len()
        invariant
            i <= dirs@.len(),
            line@ == command_line(command@, texts(args@)),
            cmds@.len() == i,
            forall|k: int|
                0 <= k < i ==> (#[trigger] cmds@[k]).dir@ == dirs@[k]@ && cmds@[k].cmd@ == line@,
        decreases dirs@.len() - i,
    {
        cmds.push(PlannedCommand { dir: dirs[i].clone(), cmd: line.clone() });
        i = i + 1;
    }
    CommandResult::Plan(cmds, parallel)
}

/// Handles a request: `command` with `args`, over the candidate directories
/// that resolution gave, `present[i]` telling whether the manifest of the
/// i-th candidate exists.
pub fn execute_command(
    command: &str,
    args: &[String],
    parallel: bool,
    resolved: &Result<Vec<String>, ResolveError>,
    present: &[bool],
) -> (r: CommandResult)
    requires
        resolved matches Ok(d) ==> d@.len() == present@.len(),
    ensures
        !is_supported(command@) ==> (r matches CommandResult::ShowHelp(Some(m)) && m@
            == unrecognized_message(command@)),
        is_supported(command@) ==> match resolved {
            Ok(d) => plans(command@, texts(args@), parallel, kept(texts(d@), present@), r),
            Err(ResolveError::MalformedConfig(detail)) => (r matches CommandResult::Error(e) && e@
                == config_error_message(detail@)),
        },
        is_supported(command@) && (resolved matches Ok(d) && kept(texts(d@), present@).len()
            == 0) ==> (r matches CommandResult::Message(m) && m@ == NO_PROJECTS_MESSAGE@),
{
    if !supports(command) {
        return build_plan(command, args, parallel, &[]);
    }
    match resolved {
        Ok(dirs) => {
            let projects = filter_projects(dirs.as_slice(), present);
            build_plan(command, args, parallel, projects.as_slice())
        },
        Err(ResolveError::MalformedConfig(detail)) => {
            let mut e = "invalid tree configuration: ".to_owned();
            e.append(detail.as_str());
            CommandResult::Error(e)
        },
    }
}

} // verus!
