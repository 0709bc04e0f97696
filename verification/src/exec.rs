//! The state of one run: the output buffer the terminal pass writes into,
//! template rendering for the actions, and the error domain of a run. One
//! run uses one `ExecState`; a fresh one is made for every run, so nothing
//! leaks from one run into the next.

use vstd::prelude::*;

use crate::capability::{render_template_raw, rendered};
use crate::element::Element;

verus! {

/// An error raised while a pipeline is being described; the pipeline never
/// becomes runnable.
#[derive(Clone, Copy, Debug, PartialEq, Eq, Structural)]
pub enum BuildError {
    /// A rewrite pattern is not valid pattern syntax.
    InvalidPattern,
}

/// An error that aborts the current run; no output is returned for it.
#[derive(Clone, Copy, Debug, PartialEq, Eq, Structural)]
pub enum ExecError {
    /// A rewrite action carries a pattern that is not valid pattern syntax.
    InvalidPattern,
    /// A template did not render against the element's context.
    RenderFailed,
}

/// The mutable state of one run: the buffer the terminal pass's visible
/// chunks accumulate in.
pub struct ExecState {
    /// The transformed output collected so far.
    pub output: Vec<u8>,
}

impl ExecState {
    /// A fresh state with an empty output buffer, made immediately before a
    /// run begins.
    pub fn new() -> (r: ExecState)
        ensures
            r.output@ == Seq::<u8>::empty(),
    {
        ExecState { output: Vec::new() }
    }

    /// Append a visible chunk to the run's output.
    pub fn write(&mut self, chunk: &[u8])
        ensures
            final(self).output@ == old(self).output@ + chunk@,
    {
        let n = chunk.len();
        let mut i: usize = 0;
        while i < n
            invariant
                n == chunk@.len(),
                i <= n,
                self.output@ == old(self).output@ + chunk@.take(i as int),
            decreases n - i,
        {
            self.output.push(chunk[i]);
            proof {
                assert(old(self).output@ + chunk@.take(i + 1) =~= (old(self).output@
                    + chunk@.take(i as int)).push(chunk@[i as int]));
            }
            i += 1;
        }
        proof {
            assert(chunk@.take(n as int) =~= chunk@);
        }
    }

    /// Hand the accumulated output to the caller; the run is over.
    pub fn into_output(self) -> (r: Vec<u8>)
        ensures
            r == self.output,
    {
        self.output
    }

    /// Render `source` against the element's context: its tag name and its
    /// attribute map. `Ok` exactly when the template renders; the failure is
    /// the run-aborting `RenderFailed`.
    pub fn render_template(&self, source: &str, ctx: &Element) -> (r: Result<String, ExecError>)
        ensures
            r.is_ok() == rendered(source@, ctx.tag@, ctx.attrs@).is_ok(),
            r matches Ok(s) ==> s@ == rendered(source@, ctx.tag@, ctx.attrs@)->Ok_0,
            r matches Err(e) ==> e == ExecError::RenderFailed,
    {
        match render_template_raw(source, ctx) {
            Ok(s) => Ok(s),
            Err(_) => Err(ExecError::RenderFailed),
        }
    }
}

} // verus!
