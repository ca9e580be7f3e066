use vstd::prelude::*;

use crate::error::Error;

verus! {

/// The append-only destination that receives serialized markup text.
///
/// The sink holds the text appended so far and never hands any of it back to
/// the serializer. A sink may carry a failure budget: one built by
/// [`Sink::failing_after`] accepts that many appends and then rejects every
/// later one, which is how a caller exercises the engine's failure
/// propagation. A sink built by [`Sink::new`] never fails.
pub struct Sink {
    out: String,
    fail_after: Option<u64>,
}

impl Sink {
    /// The text received so far.
    pub closed spec fn text(&self) -> Seq<char> {
        self.out@
    }

    /// How many appends will still succeed; `None` means every append
    /// succeeds.
    pub closed spec fn budget(&self) -> Option<u64> {
        self.fail_after
    }

    /// A sink on which no append ever fails.
    pub open spec fn infallible(&self) -> bool {
        self.budget() is None
    }

    /// An empty sink that accepts every append.
    pub fn new() -> (s: Sink)
        ensures
            s.text() == Seq::<char>::empty(),
            s.infallible(),
    {
        Sink { out: String::new(), fail_after: None }
    }

    /// An empty sink that accepts exactly `n` appends and fails every later
    /// one without taking its text.
    pub fn failing_after(n: u64) -> (s: Sink)
        ensures
            s.text() == Seq::<char>::empty(),
            s.budget() == Some(n),
    {
        Sink { out: String::new(), fail_after: Some(n) }
    }

    /// Appends one piece of text, or refuses it once the failure budget is
    /// spent. A refused piece leaves the sink exactly as it was.
    pub fn append(&mut self, piece: &str) -> (r: Result<(), Error>)
        ensures
            match old(self).budget() {
                Option::None => r is Ok && final(self).text() == old(self).text() + piece@
                    && final(self).budget() is None,
                Option::Some(k) => if k > 0 {
                    r is Ok && final(self).text() == old(self).text() + piece@ && final(
                        self
                    ).budget() == Some((k - 1) as u64)
                } else {
                    r is Err && *final(self) == *old(self)
                },
            },
            r is Err ==> r == Err::<(), Error>(Error::SinkWriteFailure) && final(self).text() == old(
                self
            ).text() && final(self).budget() == Some(0u64),
            r is Ok ==> final(self).text() == old(self).text() + piece@,
            final(self).infallible() == old(self).infallible(),
    {
        match self.fail_after {
            None => {
                self.out.append(piece);
                Ok(())
            },
            Some(k) => {
                if k > 0 {
                    self.fail_after = Some(k - 1);
                    self.out.append(piece);
                    Ok(())
                } else {
                    Err(Error::SinkWriteFailure)
                }
            },
        }
    }

    /// A copy of the text received so far.
    pub fn text_string(&self) -> (r: String)
        ensures
            r@ == self.text(),
    {
        self.out.clone()
    }
}

} // verus!
