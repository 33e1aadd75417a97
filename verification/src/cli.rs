//! The command line: which command to run, with which arguments.
use vstd::prelude::*;
use crate::validate::{or_default, resolve_paths, schema_for, spec_default_root};

verus! {

/// The parsed command line.
#[derive(Debug)]
pub struct Cli {
    pub cmd: Command,
}

/// The commands, with the arguments as given.
#[derive(Debug)]
pub enum Command {
    /// Validate seam records against the schema and the policy checks.
    Validate { root: Option<String>, schema: Option<String> },
    /// Build the component/seam dependency graph.
    Graph { format: String, out: Option<String>, root: Option<String> },
    /// Generate an AsciiDoc report.
    Report { out: Option<String>, root: Option<String> },
}

/// A command ready to run: the arguments that have defaults are filled in.
#[derive(Debug)]
#[allow(inconsistent_fields)]
pub enum Invocation {
    Validate { root: String, schema: String },
    Graph { root: String, format: String, out: Option<String> },
    Report { root: Option<String>, out: Option<String> },
}

/// Two optional texts with the same content.
pub open spec fn same_opt(a: Option<String>, b: Option<String>) -> bool {
    match (a, b) {
        (Some(x), Some(y)) => x@ == y@,
        (None, None) => true,
        _ => false,
    }
}

/// `inv` runs the command `cmd`.
pub open spec fn invokes(cmd: Command, inv: Invocation) -> bool {
    match (cmd, inv) {
        (Command::Validate { root, schema }, Invocation::Validate { root: r, schema: s }) => {
            &&& r@ == or_default(root, spec_default_root())
            &&& s@ == schema_for(r@, schema)
        },
        (Command::Graph { format, out, root }, Invocation::Graph { root: r, format: f, out: o }) => {
            &&& r@ == or_default(root, spec_default_root())
            &&& f@ == format@
            &&& same_opt(out, o)
        },
        (Command::Report { out, root }, Invocation::Report { root: r, out: o }) => {
            &&& same_opt(root, r)
            &&& same_opt(out, o)
        },
        _ => false,
    }
}

/// The root to scan, the current directory when none is given.
pub fn resolve_root(root: Option<String>) -> (r: String)
    ensures
        r@ == or_default(root, spec_default_root()),
{
    let (r, _) = resolve_paths(root, None);
    r
}

impl Cli {
    /// Dispatches the command line to the command it names.
    pub fn exec(self) -> (r: Invocation)
        ensures
            invokes(self.cmd, r),
    {
        match self.cmd {
            Command::Validate { root, schema } => {
                let (root, schema) = resolve_paths(root, schema);
                Invocation::Validate { root, schema }
            },
            Command::Graph { format, out, root } => {
                Invocation::Graph { root: resolve_root(root), format, out }
            },
            Command::Report { out, root } => Invocation::Report { root, out },
        }
    }
}

} // verus!
