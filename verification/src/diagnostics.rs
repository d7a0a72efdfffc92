use vstd::prelude::*;

verus! {

/// A position range inside a source file, carried on every diagnostic and
/// on every unresolved syntax node.
#[derive(Clone, Copy, PartialEq, Eq, Structural, Debug)]
pub struct Span {
    pub start: usize,
    pub end: usize,
}

/// One compile error: a human-readable message and the source range that
/// triggered it.
pub struct Diagnostic {
    pub message: String,
    pub span: Span,
}

/// Append-only sink of compile errors.  The resolution pass records every
/// user-facing problem here and keeps going; it never aborts.
pub struct BuildDiagnostics {
    entries: Vec<Diagnostic>,
}

impl View for BuildDiagnostics {
    type V = Seq<Diagnostic>;

    closed spec fn view(&self) -> Seq<Diagnostic> {
        self.entries@
    }
}

impl BuildDiagnostics {
    pub fn new() -> (r: BuildDiagnostics)
        ensures
            r@ =~= Seq::<Diagnostic>::empty(),
    {
        BuildDiagnostics { entries: Vec::new() }
    }

    /// Record one error.  Existing entries are never altered or removed.
    pub fn push_error(&mut self, message: String, span: Span)
        ensures
            final(self)@ =~= old(self)@.push(Diagnostic { message, span }),
    {
        self.entries.push(Diagnostic { message, span });
    }

    /// Whether any error has been recorded so far.
    pub fn has_error(&self) -> (r: bool)
        ensures
            r == (self@.len() > 0),
    {
        self.entries.len() > 0
    }

    pub fn len(&self) -> (r: usize)
        ensures
            r == self@.len(),
    {
        self.entries.len()
    }

    /// Read one recorded entry.
    pub fn entry(&self, i: usize) -> (r: &Diagnostic)
        requires
            i < self@.len(),
        ensures
            *r == self@[i as int],
    {
        &self.entries[i]
    }

    /// Move every entry of `other` to the end of `self`, in order.
    pub fn take_from(&mut self, other: &mut BuildDiagnostics)
        ensures
            final(self)@ =~= old(self)@ + old(other)@,
            final(other)@ =~= Seq::<Diagnostic>::empty(),
    {
        let mut drained: Vec<Diagnostic> = Vec::new();
        core::mem::swap(&mut drained, &mut other.entries);
        let n = drained.len();
        let mut i: usize = 0;
        while i < n
            invariant
                n == drained@.len(),
                i <= n,
                self@ =~= old(self)@ + drained@.subrange(0, i as int),
                other@ =~= Seq::<Diagnostic>::empty(),
            decreases n - i,
        {
            let d = Diagnostic {
                message: drained[i].message.clone(),
                span: drained[i].span,
            };
            self.entries.push(d);
            i += 1;
        }
    }
}

} // verus!
