use vstd::prelude::*;

verus! {

/// Ambient per-invocation metadata: the deadline bounding one handler call and
/// the identifier correlating it with the request that triggered it. One value
/// is attached to each dispatched invocation and is visible to handler code for
/// exactly that call's duration, without explicit parameter threading.
#[derive(Clone, Copy, PartialEq, Eq, Structural, Debug)]
pub struct Context {
    pub deadline: u64,
    pub trace_id: u64,
}

impl Context {
    pub fn new(deadline: u64, trace_id: u64) -> (c: Context)
        ensures
            c.deadline == deadline,
            c.trace_id == trace_id,
    {
        Context { deadline, trace_id }
    }
}

/// The stack of currently-installed context scopes on one execution substrate.
/// Entering a scope installs it as the visible context; exiting restores the
/// previously visible one, so that many interleaved invocations each observe
/// only their own ambient data while they run.
pub struct ScopeStack {
    frames: Vec<Context>,
}

impl View for ScopeStack {
    type V = Seq<Context>;

    closed spec fn view(&self) -> Seq<Context> {
        self.frames@
    }
}

impl ScopeStack {
    /// A substrate starts with no scope installed.
    pub fn new() -> (s: ScopeStack)
        ensures
            s@ == Seq::<Context>::empty(),
    {
        ScopeStack { frames: Vec::new() }
    }

    /// Install `scope` as the currently visible context.
    pub fn enter(&mut self, scope: Context)
        ensures
            final(self)@ == old(self)@.push(scope),
    {
        self.frames.push(scope);
    }

    /// Remove the currently visible context, restoring the one installed
    /// before it. Returns the removed scope, or `None` if none was installed.
    pub fn exit(&mut self) -> (r: Option<Context>)
        ensures
            old(self)@.len() == 0 ==> r is None && final(self)@ == old(self)@,
            old(self)@.len() > 0 ==> r == Some(old(self)@.last())
                && final(self)@ == old(self)@.drop_last(),
    {
        if self.frames.len() == 0 {
            None
        } else {
            let c = self.frames.remove(self.frames.len() - 1);
            Some(c)
        }
    }

    /// The currently visible context, if any.
    pub fn current(&self) -> (r: Option<Context>)
        ensures
            self@.len() == 0 ==> r is None,
            self@.len() > 0 ==> r == Some(self@.last()),
    {
        if self.frames.len() == 0 {
            None
        } else {
            Some(self.frames[self.frames.len() - 1])
        }
    }
}

/// Entering a scope and exiting it restores exactly the stack that was visible
/// before, whatever scopes were already installed: nesting is well-bracketed,
/// so interleaved invocations never leak their context into one another.
pub proof fn lemma_scope_nesting(frames: Seq<Context>, scope: Context)
    ensures
        frames.push(scope).len() > 0,
        frames.push(scope).last() == scope,
        frames.push(scope).drop_last() == frames,
{
    assert(frames.push(scope).drop_last() =~= frames);
}

} // verus!
