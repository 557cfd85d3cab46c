//! Accumulators for results that a native call hands over through a callback
//! instead of returning them: the callback runs synchronously, once or many
//! times, within the call, and the accumulator only needs to outlive that call.
use vstd::prelude::*;
use vstd::utf8::{decode_utf8, valid_utf8};

use crate::context::Error;
use crate::path::{StorePath, StorePathView};

verus! {

/// Relies on std's `String::from_utf8`: it succeeds exactly when the bytes are
/// valid UTF-8, and the string then holds the characters they encode.
#[verifier::external_body]
fn string_from_utf8(bytes: Vec<u8>) -> (r: Option<String>)
    ensures
        r is Some <==> valid_utf8(bytes@),
        r matches Some(s) ==> s@ == decode_utf8(bytes@),
{
    String::from_utf8(bytes).ok()
}

/// A string that arrives as bytes, possibly over several deliveries; the end
/// of the call completes it.
pub struct StringResult {
    delivered: bool,
    bytes: Vec<u8>,
}

impl View for StringResult {
    /// Whether anything was delivered, and the bytes delivered so far.
    type V = (bool, Seq<u8>);

    closed spec fn view(&self) -> (bool, Seq<u8>) {
        (self.delivered, self.bytes@)
    }
}

impl StringResult {
    /// An accumulator that has received nothing.
    pub fn new() -> (r: StringResult)
        ensures
            r@ == (false, Seq::<u8>::empty()),
    {
        StringResult { delivered: false, bytes: Vec::new() }
    }

    /// Receives one delivery: its bytes are appended.
    pub fn deliver(&mut self, chunk: &[u8])
        ensures
            final(self)@ == (true, old(self)@.1 + chunk@),
    {
        let mut i: usize = 0;
        while i < chunk.len()
            invariant
                i <= chunk@.len(),
                self.bytes@ == old(self).bytes@ + chunk@.subrange(0, i as int),
            decreases chunk@.len() - i,
        {
            self.bytes.push(chunk[i]);
            i = i + 1;
            assert(self.bytes@ =~= old(self).bytes@ + chunk@.subrange(0, i as int));
        }
        assert(chunk@.subrange(0, chunk@.len() as int) =~= chunk@);
        self.delivered = true;
    }

    /// The string, once the call has returned: an error where nothing was
    /// delivered or the bytes are not valid UTF-8.
    pub fn finish(self) -> (r: Result<String, Error>)
        ensures
            r is Ok <==> self@.0 && valid_utf8(self@.1),
            r matches Ok(s) ==> s@ == decode_utf8(self@.1),
    {
        if !self.delivered {
            return Err(Error::new("the native call did not deliver a string"));
        }
        match string_from_utf8(self.bytes) {
            Some(s) => Ok(s),
            None => Err(Error::new("the native call delivered a string that is not UTF-8")),
        }
    }
}

/// Store paths that arrive one at a time; each delivered path is copied into
/// a path of our own, in the order of delivery.
pub struct PathSetResult {
    paths: Vec<StorePath>,
}

impl View for PathSetResult {
    type V = Seq<StorePathView>;

    closed spec fn view(&self) -> Seq<StorePathView> {
        self.paths@.map_values(|p: StorePath| p@)
    }
}

impl PathSetResult {
    /// An accumulator that has received nothing.
    pub fn new() -> (r: PathSetResult)
        ensures
            r@ == Seq::<StorePathView>::empty(),
    {
        let r = PathSetResult { paths: Vec::new() };
        assert(r@ =~= Seq::<StorePathView>::empty());
        r
    }

    /// Receives one path: a copy of it is appended.
    pub fn deliver(&mut self, path: &StorePath)
        ensures
            final(self)@ == old(self)@.push(path@),
    {
        self.paths.push(path.duplicate());
        assert(self@ =~= old(self)@.push(path@));
    }

    /// The paths received, in the order they came.
    pub fn into_paths(self) -> (r: Vec<StorePath>)
        ensures
            r@.map_values(|p: StorePath| p@) == self@,
    {
        self.paths
    }
}

} // verus!
