//! Sending and receiving Chatteroo messages on different radio types.

use vstd::prelude::*;

use crate::ax25::{LinkFrame, encode_transmission};
use crate::global::Transmission;

verus! {

/// Failures of a radio channel.
#[derive(Debug, Clone, Copy, PartialEq, Eq, Structural)]
pub enum ChannelError {
    /// The channel is closed.
    Offline,
}

/// A channel that transmissions can be sent on.
pub trait ChannelTx {
    fn send(&self, t: Transmission) -> Result<(), ChannelError>;
}

/// A channel that transmissions can be received from.
pub trait ChannelRx {
    fn recv(&self) -> Result<Transmission, ChannelError>;
}

/// Chatteroo over AX.25.
pub struct Ax25Channel {}

/// Sending half of an AX.25 channel.
pub struct Ax25Tx {}

/// Receiving half of an AX.25 channel.
pub struct Ax25Rx {}

impl Ax25Tx {
    /// The link frame that `send` hands to the radio for a transmission.
    pub fn frame_for(&self, t: &Transmission) -> (r: LinkFrame)
        ensures
            r@ == crate::ax25::transmission_frame(t@),
    {
        encode_transmission(t)
    }
}

impl ChannelTx for Ax25Tx {
    /// Encodes the transmission into its AX.25 frame. No radio is attached to
    /// this half, so the frame is not put on the air.
    fn send(&self, t: Transmission) -> Result<(), ChannelError> {
        let _frame = self.frame_for(&t);
        Ok(())
    }
}

impl ChannelRx for Ax25Rx {
    /// No radio is attached to this half, so the channel is offline.
    fn recv(&self) -> Result<Transmission, ChannelError> {
        Err(ChannelError::Offline)
    }
}

} // verus!
