//! The `Device<T>` session: frame and ship control messages over a transport.
use vstd::prelude::*;

use crate::abi::wire::{encode_control, spec_control_logical, spec_frame_encode, ControlMsg, ControlView};
use crate::loader::error::Error;
use crate::loader::transport::Transport;

verus! {

/// A connected tamal rig over a transport `T`.
pub struct Device<T: Transport> {
    /// The byte pipe to the rig.
    pub transport: T,
    /// Every frame handed to the transport's `send`, oldest first.
    pub sent: Ghost<Seq<Seq<u8>>>,
}

impl<T: Transport> Device<T> {
    /// The frames handed to the transport so far, oldest first.
    pub open spec fn handed(&self) -> Seq<Seq<u8>> {
        self.sent@
    }

    /// Wrap a transport in a session.
    pub fn new(transport: T) -> (res: Self)
        ensures
            res.transport == transport,
            res.handed() == Seq::<Seq<u8>>::empty(),
    {
        Device { transport, sent: Ghost(Seq::empty()) }
    }

    /// Frame and send `LOAD_PROGRAM(words)`.
    pub fn load_program(&mut self, words: &[u32]) -> (res: Result<(), Error>)
        ensures
            res is Ok || res matches Err(Error::Transport(_)),
            final(self).handed() == old(self).handed().push(
                spec_frame_encode(spec_control_logical(ControlView::LoadProgram(words@))),
            ),
    {
        let mut v: Vec<u32> = Vec::new();
        let mut i: usize = 0;
        while i < words.len()
            invariant
                i <= words.len(),
                v@ == words@.subrange(0, i as int),
            decreases words.len() - i,
        {
            v.push(words[i]);
            i = i + 1;
            assert(v@ =~= words@.subrange(0, i as int));
        }
        assert(v@ =~= words@);
        let frame = encode_control(&ControlMsg::LoadProgram(v));
        self.send_frame(frame.as_slice())
    }

    /// Frame and send `TRIGGER`.
    pub fn trigger(&mut self) -> (res: Result<(), Error>)
        ensures
            res is Ok || res matches Err(Error::Transport(_)),
            final(self).handed() == old(self).handed().push(spec_frame_encode(spec_control_logical(ControlView::Trigger))),
    {
        let frame = encode_control(&ControlMsg::Trigger);
        self.send_frame(frame.as_slice())
    }

    /// Hand `frame` to the transport's `send`, recording it, and map a
    /// transport failure to [`Error::Transport`].
    fn send_frame(&mut self, frame: &[u8]) -> (res: Result<(), Error>)
        ensures
            res is Ok || res matches Err(Error::Transport(_)),
            final(self).handed() == old(self).handed().push(frame@),
    {
        proof {
            self.sent@ = self.sent@.push(frame@);
        }
        match self.transport.send(frame) {
            Ok(()) => Ok(()),
            Err(e) => Err(Error::Transport(e)),
        }
    }
}

} // verus!
