//! Evaluation suite configuration.

use vstd::prelude::*;

verus! {

/// A named suite of evaluation cases, run with bounded concurrency.
///
/// The suite itself only carries the configuration; the runner that
/// drives cases against a backend lives with the application's async
/// plumbing.
#[derive(Debug)]
pub struct EvalSuite {
    pub name: String,
    pub concurrency: usize,
}

impl EvalSuite {
    /// A new suite with the default concurrency of five.
    pub fn new(name: String) -> (r: Self)
        ensures
            r.name == name,
            r.concurrency == 5,
    {
        EvalSuite { name, concurrency: 5 }
    }

    /// Set the concurrency, at least one.
    pub fn with_concurrency(self, n: usize) -> (r: Self)
        ensures
            r.concurrency == if n >= 1 {
                n
            } else {
                1usize
            },
            r.name == self.name,
    {
        let c = if n >= 1 {
            n
        } else {
            1
        };
        EvalSuite { concurrency: c, ..self }
    }
}

} // verus!
