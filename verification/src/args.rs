//! Command-line options, and the choices they settle.
use vstd::prelude::*;

verus! {

/// Command-line options.
pub struct Args {
    /// File to parse: a filesystem path or a URL (http://, https://, ftp://, ftps://)
    pub file: String,
    /// Open the GUI instead of the terminal progress display
    pub gui: bool,
    /// Suppress progress output
    pub quiet: bool,
    /// Number of worker threads (defaults to the available CPU count)
    pub workers: Option<usize>,
    /// Treat the file as local, skipping remote detection
    pub force_local: bool,
    /// Treat the file as remote, skipping remote detection
    pub force_remote: bool,
}

impl Args {
    /// The storage strategy the options force, if any: remote where
    /// `--force-remote` is given, else local where `--force-local` is, else
    /// none (the file's filesystem decides).
    pub fn forced_remote(&self) -> (r: Option<bool>)
        ensures
            r == (if self.force_remote {
                Some(true)
            } else if self.force_local {
                Some(false)
            } else {
                None
            }),
    {
        if self.force_remote {
            Some(true)
        } else if self.force_local {
            Some(false)
        } else {
            None
        }
    }

    /// The number of workers: as given, else `available`.
    pub fn worker_count(&self, available: usize) -> (r: usize)
        ensures
            r == (match self.workers {
                Some(n) => n,
                None => available,
            }),
    {
        match self.workers {
            Some(n) => n,
            None => available,
        }
    }
}

} // verus!
