//! One-time initialization of the native library, done before the first
//! connection opens. The first attempt settles the outcome for the rest of the
//! process: later attempts are not made again, and a failure is reported as
//! the same failure every time it is asked for.
use vstd::prelude::*;

use crate::context::Error;

verus! {

/// The outcome of initializing the native library, once attempted.
pub struct InitState {
    outcome: Option<Option<String>>,
}

impl View for InitState {
    /// `None` before the attempt; after it, `Some(None)` for success or
    /// `Some(Some(message))` for a failure.
    type V = Option<Option<Seq<char>>>;

    closed spec fn view(&self) -> Option<Option<Seq<char>>> {
        match self.outcome {
            None => None,
            Some(None) => Some(None),
            Some(Some(m)) => Some(Some(m@)),
        }
    }
}

/// The message that a failed initialization is reported with.
pub open spec fn init_error_message(m: Seq<char>) -> Seq<char> {
    "nix_libstore_init error: "@ + m
}

impl InitState {
    /// Nothing attempted yet.
    pub fn new() -> (r: InitState)
        ensures
            r@ is None,
    {
        InitState { outcome: None }
    }

    /// Whether the initialization still has to be attempted.
    pub fn needs_attempt(&self) -> (r: bool)
        ensures
            r == (self@ is None),
    {
        self.outcome.is_none()
    }

    /// Records the outcome of the attempt: `None` for success, or the failure
    /// message. Only the first outcome counts; later ones are ignored.
    pub fn record(&mut self, failure: Option<String>)
        ensures
            old(self)@ is None ==> final(self)@ == Some(
                match failure {
                    None => None,
                    Some(m) => Some(m@),
                },
            ),
            old(self)@ is Some ==> final(self)@ == old(self)@,
    {
        if self.outcome.is_none() {
            self.outcome = Some(failure);
        }
    }

    /// The settled outcome: `Ok` after a successful attempt, and after a
    /// failed one an error that carries its message, the same on every call.
    pub fn outcome(&self) -> (r: Result<(), Error>)
        requires
            self@ is Some,
        ensures
            r is Ok <==> self@ == Some(None::<Seq<char>>),
            self@ matches Some(Some(m)) ==> r matches Err(e) && e@ == init_error_message(m),
    {
        proof {
            reveal_strlit("nix_libstore_init error: ");
        }
        match &self.outcome {
            Some(Some(m)) => Err(
                Error::with_detail("nix_libstore_init error: ", m.as_str()),
            ),
            _ => Ok(()),
        }
    }
}

} // verus!
