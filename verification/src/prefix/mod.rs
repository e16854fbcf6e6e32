//! Where the current network prefix comes from.
use vstd::prelude::*;

pub mod iface;

pub use iface::{count_global, Addr, IfaceError, IfaceSource, Interface};

verus! {

/// Why no prefix could be given, in words.
#[derive(Debug)]
pub struct SourceError {
    msg: String,
}

impl View for SourceError {
    type V = Seq<char>;

    closed spec fn view(&self) -> Seq<char> {
        self.msg@
    }
}

impl SourceError {
    /// An error with `msg` as its message.
    pub fn new(msg: String) -> (r: SourceError)
        ensures
            r@ == msg@,
    {
        SourceError { msg }
    }

    /// The error of an interface source, as its message.
    pub fn from(e: IfaceError) -> (r: SourceError)
        ensures
            r@ == e@,
    {
        SourceError { msg: e.to_string() }
    }

    /// The message.
    pub fn to_string(&self) -> (text: String)
        ensures
            text@ == self@,
    {
        self.msg.clone()
    }
}

} // verus!
