//! The output side of the search: an abstract line-oriented destination,
//! the error it can report, and an in-memory destination for callers that
//! want the output as a value.

use vstd::prelude::*;
use vstd::string::StringExecFns;

verus! {

/// The one error a search can report: the sink rejected a write.  It
/// carries the sink's description of the failure.
#[derive(Debug)]
pub struct WriteError {
    /// The sink's description of the failure.
    pub detail: String,
}

/// An append-only destination for text.  One operation: write a line
/// followed by one terminator, which may fail.  A failed write leaves the
/// destination as it was.
pub trait Sink {
    /// Everything the sink has received so far, as one block of text.
    /// Implementations describe their own state here; the default stands
    /// only for destinations whose state the library never inspects.
    open spec fn contents(&self) -> Seq<char> {
        Seq::empty()
    }

    /// Whether this sink promises to accept every write.  A sink that
    /// makes the promise keeps it for good; the default promises nothing.
    open spec fn never_fails(&self) -> bool {
        false
    }

    /// Appends `line` and one terminator, or reports why it cannot.  A
    /// sink that promised to accept every write accepts this one.
    fn write_line(&mut self, line: &str) -> (r: Result<(), WriteError>)
        ensures
            r is Ok ==> final (self).contents() == old(self).contents() + line@ + seq!['\n'],
            r is Err ==> final (self).contents() == old(self).contents(),
            old(self).never_fails() ==> r is Ok,
            final (self).never_fails() == old(self).never_fails(),
    ;
}

/// A sink that collects everything written to it in memory and never fails.
pub struct StringSink {
    text: String,
}

impl StringSink {
    /// Creates an empty sink.
    pub fn new() -> (s: StringSink)
        ensures
            s.contents() == Seq::<char>::empty(),
    {
        StringSink { text: String::new() }
    }

    /// Consumes the sink and hands back everything written to it.
    pub fn into_string(self) -> (r: String)
        ensures
            r@ == self.contents(),
    {
        self.text
    }
}

impl Sink for StringSink {
    closed spec fn contents(&self) -> Seq<char> {
        self.text@
    }

    open spec fn never_fails(&self) -> bool {
        true
    }

    fn write_line(&mut self, line: &str) -> (r: Result<(), WriteError>) {
        self.text.append(line);
        self.text.append("\n");
        proof {
            reveal_strlit("\n");
            assert(self.text@ =~= old(self).text@ + line@ + seq!['\n']);
        }
        Ok(())
    }
}

} // verus!
