//! CAN frames as plain values, built through `socketcan`.

use vstd::prelude::*;

verus! {

/// Largest identifier of a standard (11-bit) frame.
pub const SFF_MASK: u32 = 0x7ff;

/// Largest identifier of an extended (29-bit) frame.
pub const EFF_MASK: u32 = 0x1fff_ffff;

/// Why a CAN frame could not be built.
#[derive(Debug, Clone, Copy, PartialEq, Eq, Structural)]
pub enum ConstructionError {
    /// The identifier does not fit in 29 bits.
    IDTooLarge,
    /// More than 8 bytes of payload.
    TooMuchData,
}

/// A CAN frame: identifier, payload and flags.
#[derive(Debug, Clone, PartialEq, Eq)]
pub struct CanFrame {
    /// Identifier without the flag bits.
    pub id: u32,
    /// Payload, at most 8 bytes.
    pub data: Vec<u8>,
    /// Remote transmission request.
    pub remote: bool,
    /// Error frame.
    pub error: bool,
    /// Uses the 29-bit identifier format.
    pub extended: bool,
    /// The error bits of the identifier word.
    pub error_code: u32,
}

/// What a `CanFrame` carries, with its payload as a sequence.
pub struct FrameView {
    pub id: u32,
    pub data: Seq<u8>,
    pub remote: bool,
    pub error: bool,
    pub extended: bool,
    pub error_code: u32,
}

impl View for CanFrame {
    type V = FrameView;

    open spec fn view(&self) -> FrameView {
        FrameView {
            id: self.id,
            data: self.data@,
            remote: self.remote,
            error: self.error,
            extended: self.extended,
            error_code: self.error_code,
        }
    }
}

/// The frame that `socketcan::CANFrame::new` builds from an identifier, a
/// payload and the remote and error flags: too much data is refused
/// first, then an identifier above 29 bits; identifiers above 11 bits
/// make an extended frame.
pub open spec fn frame_build(id: u32, data: Seq<u8>, rtr: bool, err: bool) -> Result<
    FrameView,
    ConstructionError,
> {
    if data.len() > 8 {
        Err(ConstructionError::TooMuchData)
    } else if id > EFF_MASK {
        Err(ConstructionError::IDTooLarge)
    } else {
        Ok(
            FrameView {
                id: id,
                data: data,
                remote: rtr,
                error: err,
                extended: id > SFF_MASK,
                error_code: id,
            },
        )
    }
}

/// `socketcan::CANFrame::new`, read back through the frame's accessors
/// `id`, `data`, `is_rtr`, `is_error`, `is_extended` and `err`. By the
/// crate's source: more than 8 bytes gives `TooMuchData`, otherwise an
/// identifier above `EFF_MASK` gives `IDTooLarge`; a built frame gives
/// back its identifier, payload and flags, is extended exactly when the
/// identifier is above `SFF_MASK`, and its `err` is the identifier.
#[verifier::external_body]
fn socketcan_frame_new(id: u32, data: &[u8], rtr: bool, err: bool) -> (res: Result<
    CanFrame,
    ConstructionError,
>)
    ensures
        match res {
            Ok(f) => frame_build(id, data@, rtr, err) == Ok::<FrameView, ConstructionError>(f@),
            Err(e) => frame_build(id, data@, rtr, err) == Err::<FrameView, ConstructionError>(e),
        },
{
    match socketcan::CANFrame::new(id, data, rtr, err) {
        Ok(f) => Ok(
            CanFrame {
                id: f.id(),
                data: f.data().to_vec(),
                remote: f.is_rtr(),
                error: f.is_error(),
                extended: f.is_extended(),
                error_code: f.err(),
            },
        ),
        Err(socketcan::ConstructionError::IDTooLarge) => Err(ConstructionError::IDTooLarge),
        Err(socketcan::ConstructionError::TooMuchData) => Err(ConstructionError::TooMuchData),
    }
}

impl CanFrame {
    /// Builds a frame; fails on more than 8 bytes of payload, then on an
    /// identifier that does not fit in 29 bits.
    pub fn new(id: u32, data: &[u8], rtr: bool, err: bool) -> (res: Result<
        CanFrame,
        ConstructionError,
    >)
        ensures
            match res {
                Ok(f) => frame_build(id, data@, rtr, err) == Ok::<FrameView, ConstructionError>(f@),
                Err(e) => frame_build(id, data@, rtr, err) == Err::<FrameView, ConstructionError>(e),
            },
    {
        socketcan_frame_new(id, data, rtr, err)
    }
}

} // verus!
