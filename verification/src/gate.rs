//! Handshake between the input-reader thread and handlers that hand the
//! terminal to a child process (`$EDITOR`).
//!
//! A pause is acknowledged rather than announced: the requester waits
//! until the reader confirms it is parked outside its terminal read, and
//! only then touches the terminal. This is the handshake's state; the
//! program shares one gate between the two threads and does the waiting.

use vstd::prelude::*;

verus! {

#[derive(Debug, Default)]
pub struct ReaderGate {
    /// Requested state, written by the main thread.
    pause: bool,
    /// Observed state, written by the reader thread. True only while the
    /// reader is provably not reading the terminal.
    parked: bool,
}

impl ReaderGate {
    /// Whether a pause has been requested.
    pub closed spec fn paused(self) -> bool {
        self.pause
    }

    /// Whether the reader has acknowledged being parked.
    pub closed spec fn parked_view(self) -> bool {
        self.parked
    }

    pub fn new() -> (g: Self)
        ensures
            !g.paused(),
            !g.parked_view(),
    {
        ReaderGate { pause: false, parked: false }
    }

    // ---- requester side (main thread) ----
    /// Ask the reader to yield the terminal.
    pub fn request_pause(&mut self)
        ensures
            final(self).paused(),
            final(self).parked_view() == old(self).parked_view(),
    {
        self.pause = true;
    }

    /// Hand the terminal back to the reader.
    pub fn resume(&mut self)
        ensures
            !final(self).paused(),
            final(self).parked_view() == old(self).parked_view(),
    {
        self.pause = false;
    }

    // ---- reader side ----
    pub fn is_paused(&self) -> (r: bool)
        ensures
            r == self.paused(),
    {
        self.pause
    }

    /// Acknowledge the pause. Call only from the point in the reader loop
    /// where no terminal read is in flight.
    pub fn park(&mut self)
        ensures
            final(self).parked_view(),
            final(self).paused() == old(self).paused(),
    {
        self.parked = true;
    }

    /// Mark the reader as owning the terminal again. Returns false if a
    /// pause is pending, in which case the reader stays parked and must go
    /// back to parking instead of reading — otherwise the requester would
    /// wait out a full read timeout believing the reader still runs.
    pub fn try_unpark(&mut self) -> (r: bool)
        ensures
            r == !old(self).paused(),
            final(self).paused() == old(self).paused(),
            final(self).parked_view() == old(self).paused(),
    {
        self.parked = false;
        if self.is_paused() {
            self.parked = true;
            return false;
        }
        true
    }

    pub fn is_parked(&self) -> (r: bool)
        ensures
            r == self.parked_view(),
    {
        self.parked
    }
}

} // verus!
