use vstd::prelude::*;

verus! {

/// Where a report goes: printed as text, or written as a structured document.
#[derive(Clone, Copy, PartialEq, Eq, Structural, Debug)]
pub enum Target {
    Stdout,
    Json,
}

impl Target {
    pub open spec fn label(self) -> Seq<char> {
        match self {
            Target::Stdout => "stdout"@,
            Target::Json => "json"@,
        }
    }

    /// The name by which the target is chosen.
    pub fn as_str(&self) -> (r: &'static str)
        ensures
            r@ == self.label(),
    {
        match self {
            Target::Stdout => "stdout",
            Target::Json => "json",
        }
    }
}

/// Which report to build: the histogram, the tree, or both.
#[derive(Clone, Copy, PartialEq, Eq, Structural, Debug)]
pub enum Structure {
    Analytics,
    Tree,
    Full,
}

impl Structure {
    pub open spec fn label(self) -> Seq<char> {
        match self {
            Structure::Analytics => "analytics"@,
            Structure::Tree => "tree"@,
            Structure::Full => "full"@,
        }
    }

    /// The name by which the structure is chosen.
    pub fn as_str(&self) -> (r: &'static str)
        ensures
            r@ == self.label(),
    {
        match self {
            Structure::Analytics => "analytics",
            Structure::Tree => "tree",
            Structure::Full => "full",
        }
    }
}

/// What a run is asked to do: the root path, where the report goes, which
/// report, and the names to ignore.
pub struct Args {
    pub path: String,
    pub target: Target,
    pub structure: Structure,
    pub ignore: Vec<String>,
}

} // verus!
