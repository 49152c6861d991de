use vstd::prelude::*;

use crate::analytics::{contents_lines, histogram, table, Analytics};
use crate::text::append;
use crate::args::Structure;
use crate::scan::{Contents, IoError};
use crate::tree::{contents_tree, node, tree_text, Tree};

verus! {

/// The histogram and the tree of one root.
#[derive(Debug)]
pub struct Full {
    pub analytics: Analytics,
    pub tree: Tree,
}

impl Full {
    pub fn new(analytics: Analytics, tree: Tree) -> (r: Full)
        ensures
            r.analytics == analytics,
            r.tree == tree,
    {
        Full { analytics, tree }
    }
}

/// A finished report, of one of the three structures.
#[derive(Debug)]
pub enum Report {
    Analytics(Analytics),
    Tree(Tree),
    Full(Full),
}

/// Whether `a` is the histogram of the walk of `root`.
pub open spec fn is_histogram_of(a: Analytics, root: Contents, ignore: Seq<String>) -> bool {
    a.counts() == histogram(contents_lines(root, ignore).0)
}

/// Whether `t` is the tree of the walk of `root`, at `path`.
pub open spec fn is_tree_of(t: Tree, path: Seq<char>, root: Contents, ignore: Seq<String>) -> bool {
    contents_tree(root, ignore) matches Ok((ds, fs)) && t.model() == node(path, ds, fs)
}

impl Report {
    /// The printed form of the report: the histogram's table, the tree's
    /// text, or the one followed by the other.
    pub open spec fn text(&self) -> Seq<char> {
        match self {
            Report::Analytics(a) => table(a.counts()),
            Report::Tree(t) => tree_text(t.model()),
            Report::Full(f) => table(f.analytics.counts()) + tree_text(f.tree.model()),
        }
    }

    /// The report as text, as `text` gives it.
    pub fn render(&self) -> (r: String)
        ensures
            r@ == self.text(),
    {
        match self {
            Report::Analytics(a) => a.render(),
            Report::Tree(t) => t.render(),
            Report::Full(f) => {
                let mut out = f.analytics.render();
                let tree = f.tree.render();
                append(&mut out, tree.as_str());
                out
            },
        }
    }

    /// Builds the report of the requested structure for the directory at
    /// `path`, whose listing is `root`. The histogram is built before the
    /// tree, and the first failure is passed on unchanged.
    pub fn from_args(path: &String, root: &Contents, structure: Structure, ignore: &[String]) -> (r:
        Result<Report, IoError>)
        requires
            contents_lines(*root, ignore@).0.len() < usize::MAX,
        ensures
            structure == Structure::Analytics ==> match contents_lines(*root, ignore@).1 {
                None => r matches Ok(Report::Analytics(a)) && is_histogram_of(a, *root, ignore@),
                Some(e) => r == Err::<Report, IoError>(e),
            },
            structure == Structure::Tree ==> match contents_tree(*root, ignore@) {
                Ok(_) => r matches Ok(Report::Tree(t)) && is_tree_of(t, path@, *root, ignore@),
                Err(e) => r == Err::<Report, IoError>(e),
            },
            structure == Structure::Full ==> match contents_lines(*root, ignore@).1 {
                Some(e) => r == Err::<Report, IoError>(e),
                None => match contents_tree(*root, ignore@) {
                    Ok(_) => r matches Ok(Report::Full(f)) && is_histogram_of(
                        f.analytics,
                        *root,
                        ignore@,
                    ) && is_tree_of(f.tree, path@, *root, ignore@),
                    Err(e) => r == Err::<Report, IoError>(e),
                },
            },
    {
        match structure {
            Structure::Analytics => {
                let analytics = Analytics::from_path(root, ignore)?;
                Ok(Report::Analytics(analytics))
            },
            Structure::Tree => {
                let tree = Tree::from_path(path, root, ignore)?;
                Ok(Report::Tree(tree))
            },
            Structure::Full => {
                let analytics = Analytics::from_path(root, ignore)?;
                let tree = Tree::from_path(path, root, ignore)?;
                Ok(Report::Full(Full::new(analytics, tree)))
            },
        }
    }
}

/// Building a report twice from the same listing gives the same result:
/// equal histograms, and trees of the same shape with the same paths and line
/// counts.
pub proof fn lemma_report_repeatable(
    a1: Analytics,
    a2: Analytics,
    t1: Tree,
    t2: Tree,
    path: Seq<char>,
    root: Contents,
    ignore: Seq<String>,
)
    requires
        is_histogram_of(a1, root, ignore),
        is_histogram_of(a2, root, ignore),
        is_tree_of(t1, path, root, ignore),
        is_tree_of(t2, path, root, ignore),
    ensures
        a1.counts() == a2.counts(),
        t1.model() == t2.model(),
{
}

} // verus!
