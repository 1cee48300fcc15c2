//! A benchmark run that scans one file with a given scanner.

use vstd::prelude::*;

verus! {

/// A scan of the file at `path` with the scanner `inner`.
pub struct RunScan<S> {
    inner: S,
    path: String,
}

impl<S> RunScan<S> {
    /// The scanner of this run.
    pub closed spec fn scanner(&self) -> S {
        self.inner
    }

    /// The path of the file this run scans.
    pub closed spec fn file_path(&self) -> Seq<char> {
        self.path@
    }

    /// A run that scans the file at `path` with `inner`.
    pub fn new(inner: S, path: String) -> (r: Self)
        ensures
            r.scanner() == inner,
            r.file_path() == path@,
    {
        RunScan { inner, path }
    }
}

} // verus!
