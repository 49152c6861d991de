use vstd::prelude::*;

verus! {

/// An input/output failure: the path it concerns and what went wrong.
#[derive(Debug)]
pub struct IoError {
    pub path: String,
    pub message: String,
}

impl IoError {
    pub fn new(path: String, message: String) -> (r: IoError)
        ensures
            r.path == path,
            r.message == message,
    {
        IoError { path, message }
    }

    /// A copy of this error.
    pub fn duplicate(&self) -> (r: IoError)
        ensures
            r == *self,
    {
        IoError { path: self.path.clone(), message: self.message.clone() }
    }
}

/// What listing a directory gave: its entries in listing order, or the
/// failure that kept it from being listed.
#[derive(Debug)]
pub enum Contents {
    Listed(Vec<Entry>),
    Unlisted(IoError),
}

/// One entry of a directory listing, as the file system described it.
#[derive(Debug)]
pub enum Entry {
    /// A directory, with the outcome of listing it.
    Dir { name: String, path: String, contents: Contents },
    /// A regular file, with its line count, or `None` when it could not be read.
    File { name: String, path: String, lines: Option<usize> },
    /// Anything else, or an entry whose details were not gathered.
    Other { name: String },
}

impl Entry {
    pub open spec fn name_of(&self) -> Seq<char> {
        match self {
            Entry::Dir { name, .. } => name@,
            Entry::File { name, .. } => name@,
            Entry::Other { name } => name@,
        }
    }

    pub fn name(&self) -> (r: &String)
        ensures
            r@ == self.name_of(),
    {
        match self {
            Entry::Dir { name, .. } => name,
            Entry::File { name, .. } => name,
            Entry::Other { name } => name,
        }
    }
}

} // verus!
