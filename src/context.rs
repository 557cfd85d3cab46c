//! Errors, and the bridge from a native call's error context to a `Result`.
//!
//! Every native call that can fail records a status code and, on failure, a
//! message in an error context that the caller owns. One context is made per
//! handle and reused across calls; after a failure has been read out the
//! context is cleared so that the next call starts clean.
use vstd::prelude::*;

verus! {

/// The status code of a call that succeeded.
pub const STATUS_OK: i32 = 0;

/// A failed operation, with the message that explains it.
#[derive(Debug)]
pub struct Error {
    message: String,
}

impl View for Error {
    type V = Seq<char>;

    closed spec fn view(&self) -> Seq<char> {
        self.message@
    }
}

impl Error {
    /// An error with the message `message`.
    pub fn new(message: &str) -> (r: Error)
        ensures
            r@ == message@,
    {
        Error { message: String::from_str(message) }
    }

    /// An error that carries `message`.
    pub fn msg(message: String) -> (r: Error)
        ensures
            r@ == message@,
    {
        Error { message }
    }

    /// An error whose message is `prefix` followed by `detail`.
    pub fn with_detail(prefix: &str, detail: &str) -> (r: Error)
        ensures
            r@ == prefix@ + detail@,
    {
        let mut message = String::from_str(prefix);
        message.append(detail);
        Error { message }
    }

    /// The message.
    pub fn message(&self) -> (r: &str)
        ensures
            r@ == self@,
    {
        self.message.as_str()
    }

    /// The message, as an owned string.
    pub fn to_string(&self) -> (r: String)
        ensures
            r@ == self@,
    {
        self.message.clone()
    }
}

/// The error context of one handle: the status of the last native call and
/// the message it left.
pub struct Context {
    code: i32,
    message: String,
}

impl View for Context {
    type V = (i32, Seq<char>);

    closed spec fn view(&self) -> (i32, Seq<char>) {
        (self.code, self.message@)
    }
}

impl Context {
    /// What a fresh context holds: success, and no message.
    pub open spec fn new_view() -> (i32, Seq<char>) {
        (STATUS_OK, Seq::<char>::empty())
    }

    /// A fresh context, in the success state with no message.
    pub fn new() -> (r: Context)
        ensures
            r@ == (STATUS_OK, Seq::<char>::empty()),
    {
        Context { code: STATUS_OK, message: String::new() }
    }

    /// Records what a native call reported: its status code and message.
    pub fn set_err(&mut self, code: i32, message: String)
        ensures
            final(self)@ == (code, message@),
    {
        self.code = code;
        self.message = message;
    }

    /// The status code of the last call.
    pub fn code(&self) -> (r: i32)
        ensures
            r == self@.0,
    {
        self.code
    }

    /// Clears the context back to success with no message.
    pub fn clear(&mut self)
        ensures
            final(self)@ == (STATUS_OK, Seq::<char>::empty()),
    {
        self.code = STATUS_OK;
        self.message = String::new();
    }

    /// Turns the outcome of a native call into a `Result`: on success the
    /// call's value passes through unchanged and the context is left as it
    /// is; on failure the recorded message becomes the error and the context
    /// is cleared for the next call.
    pub fn check<T>(&mut self, value: T) -> (r: Result<T, Error>)
        ensures
            old(self)@.0 == STATUS_OK ==> r == Ok::<T, Error>(value)
                && final(self)@ == old(self)@,
            old(self)@.0 != STATUS_OK ==> r is Err && r->Err_0@ == old(self)@.1
                && final(self)@ == (STATUS_OK, Seq::<char>::empty()),
    {
        if self.code == STATUS_OK {
            Ok(value)
        } else {
            let message = self.message.clone();
            self.clear();
            Err(Error { message })
        }
    }
}

/// A string that can be handed to a native call as a C string: it holds no
/// NUL character, which would end it early.
pub open spec fn c_string_ok(s: Seq<char>) -> bool {
    forall|k: int| 0 <= k < s.len() ==> #[trigger] s[k] != '\0'
}

/// Checks, before any native call, that `s` can be passed as a C string.
pub fn check_c_string(s: &str) -> (r: Result<(), Error>)
    ensures
        r is Ok <==> c_string_ok(s@),
{
    let n = s.unicode_len();
    let mut i: usize = 0;
    while i < n
        invariant
            n == s@.len(),
            i <= n,
            forall|k: int| 0 <= k < i ==> #[trigger] s@[k] != '\0',
        decreases n - i,
    {
        if s.get_char(i) == '\0' {
            return Err(Error::with_detail("string holds a NUL character: ", s));
        }
        i = i + 1;
    }
    Ok(())
}

} // verus!
