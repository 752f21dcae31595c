use vstd::prelude::*;
use crate::order::{same_text, texts};
use crate::plan::{is_supported, supports, CARGO_BUILD, CARGO_TEST};

verus! {

/// The note given when a direct invocation finds no manifest.
pub const SKIP_MESSAGE: &'static str = "Skipping: no Cargo.toml in this directory";

/// What a direct invocation in one directory should do.
pub enum DirectStep {
    /// Do nothing and print the note.
    Skip(String),
    /// Run `cargo` with these arguments.
    Run(Vec<String>),
    /// The command is not one of this plugin's.
    CommandNotFound(String),
}

/// The plugin's identity: its name and the commands it handles.
pub struct RustPlugin;

/// The cargo subcommand that a supported command runs.
pub open spec fn subcommand_of(c: Seq<char>) -> Seq<char> {
    if c == CARGO_BUILD@ {
        "build"@
    } else {
        "test"@
    }
}

/// The text of the error for a direct run of `c` that failed.
pub open spec fn failure_message(c: Seq<char>) -> Seq<char> {
    c + " failed"@
}

impl RustPlugin {
    /// The name under which the host dispatches to this plugin.
    pub fn name(&self) -> (r: &'static str)
        ensures
            r@ == "rust"@,
    {
        "rust"
    }

    /// The commands this plugin handles, in the order it lists them.
    pub fn commands(&self) -> (r: Vec<&'static str>)
        ensures
            r@.len() == 2,
            r@[0]@ == CARGO_BUILD@,
            r@[1]@ == CARGO_TEST@,
            forall|i: int| 0 <= i < r@.len() ==> is_supported(#[trigger] r@[i]@),
    {
        let mut r: Vec<&'static str> = Vec::new();
        r.push(CARGO_BUILD);
        r.push(CARGO_TEST);
        r
    }

    /// Decides a direct invocation of `command` with `args` in a directory,
    /// `has_manifest` telling whether the directory holds a manifest.
    pub fn execute(&self, command: &str, args: &[String], has_manifest: bool) -> (r: DirectStep)
        ensures
            !has_manifest ==> (r matches DirectStep::Skip(m) && m@ == SKIP_MESSAGE@),
            has_manifest && is_supported(command@) ==> (r matches DirectStep::Run(argv) && texts(
                argv@,
            ) == seq![subcommand_of(command@)] + texts(args@)),
            has_manifest && !is_supported(command@) ==> (r matches DirectStep::CommandNotFound(c)
                && c@ == command@),
    {
        if !has_manifest {
            return DirectStep::Skip(SKIP_MESSAGE.to_owned());
        }
        if !supports(command) {
            return DirectStep::CommandNotFound(command.to_owned());
        }
        let mut argv: Vec<String> = Vec::new();
        if same_text(command, CARGO_BUILD) {
            argv.push("build".to_owned());
        } else {
            argv.push("test".to_owned());
        }
        let mut i: usize = 0;
        while i < args.len()
            invariant
                i <= args@.len(),
                argv@.len() == i + 1,
                argv@[0]@ == subcommand_of(command@),
                forall|k: int| 0 <= k < i ==> #[trigger] argv@[k + 1]@ == args@[k]@,
            decreases args@.len() - i,
        {
            argv.push(args[i].clone());
            i = i + 1;
        }
        assert forall|k: int| 1 <= k < argv@.len() implies #[trigger] texts(argv@)[k] == texts(
            args@,
        )[k - 1] by {
            assert(argv@[(k - 1) + 1]@ == args@[k - 1]@);
        }
        assert(texts(argv@) =~= seq![subcommand_of(command@)] + texts(args@));
        DirectStep::Run(argv)
    }

    /// The outcome of a direct run of `command` that cargo reported as
    /// `succeeded` or not.
    pub fn run_outcome(&self, command: &str, succeeded: bool) -> (r: Result<(), String>)
        ensures
            succeeded ==> r is Ok,
            !succeeded ==> (r matches Err(m) && m@ == failure_message(command@)),
    {
        if succeeded {
            Ok(())
        } else {
            let mut m = command.to_owned();
            m.append(" failed");
            Err(m)
        }
    }
}

} // verus!
