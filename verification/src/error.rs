//! The error type of the library.

use vstd::prelude::*;

verus! {

/// An error with a message.
#[derive(Debug)]
pub struct WasmRustError {
    message: String,
}

impl View for WasmRustError {
    type V = Seq<char>;

    /// The message.
    closed spec fn view(&self) -> Seq<char> {
        self.message@
    }
}

impl Default for WasmRustError {
    fn default() -> (r: Self)
        ensures
            r@ == Seq::<char>::empty(),
    {
        WasmRustError { message: String::new() }
    }
}

impl WasmRustError {
    /// An error with the message `message`.
    pub fn new(message: String) -> (r: Self)
        ensures
            r@ == message@,
    {
        WasmRustError { message }
    }

    /// The message, as the error displays it.
    pub fn description(&self) -> (r: &str)
        ensures
            r@ == self@,
    {
        self.message.as_str()
    }

    /// The message, as an owned text.
    pub fn to_string(&self) -> (r: String)
        ensures
            r@ == self@,
    {
        self.message.clone()
    }
}

} // verus!
