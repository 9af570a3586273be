//! Full-tree analysis followed by explicit Git operations: the requests,
//! and the decisions between Git commands.
use vstd::prelude::*;

pub mod subset;
pub mod plan;
pub mod rebase;
pub mod run;

verus! {

/// Display options of an operation.
#[derive(Debug, Clone, Copy, Default, PartialEq, Eq, Structural)]
pub struct Options {
    /// Show conflicts in Git's zdiff3 style.
    pub zdiff3: bool,
    /// Explain every reason in full.
    pub detailed: bool,
}

/// Run now, only write a plan, or run a plan written before.
#[derive(Debug)]
pub enum Mode {
    Apply,
    Plan(String),
    ApplyPlan(String),
}

/// The operations that analysis plans are bound to.
#[derive(Debug, Clone, Copy, PartialEq, Eq, Structural)]
pub enum OperationKind {
    Merge,
    CherryPick,
    Rebase,
    Stash,
}

pub open spec fn kind_name(k: OperationKind) -> Seq<char> {
    match k {
        OperationKind::Merge => "merge"@,
        OperationKind::CherryPick => "cherry-pick"@,
        OperationKind::Rebase => "rebase"@,
        OperationKind::Stash => "stash"@,
    }
}

impl OperationKind {
    /// The name a plan records for the operation.
    pub fn name(self) -> (r: &'static str)
        ensures
            r@ == kind_name(self),
    {
        match self {
            OperationKind::Merge => "merge",
            OperationKind::CherryPick => "cherry-pick",
            OperationKind::Rebase => "rebase",
            OperationKind::Stash => "stash",
        }
    }
}

} // verus!
