use vstd::prelude::*;

use crate::constant::FRAME10MS;
use crate::scheduler::ExternalLevels;

verus! {

/// Failures while opening the audio devices of an engine.
#[derive(Debug, Clone, Copy, PartialEq, Eq, Structural)]
pub enum Error {
    InputDeviceInitError,
    OutputDeviceInitError,
    UnsupportedInputSampleFormat,
    UnsupportedOutputSampleFormat,
}

impl Error {
    /// The human-readable text of each failure.
    pub open spec fn message_spec(self) -> Seq<char> {
        match self {
            Error::InputDeviceInitError => "input device init error"@,
            Error::OutputDeviceInitError => "output device init error"@,
            Error::UnsupportedInputSampleFormat => "unsupported input sample format"@,
            Error::UnsupportedOutputSampleFormat => "unsupported output sample format"@,
        }
    }

    /// Describes the failure in words.
    pub fn message(&self) -> (r: String)
        ensures
            r@ == self.message_spec(),
    {
        match self {
            Error::InputDeviceInitError => "input device init error".to_string(),
            Error::OutputDeviceInitError => "output device init error".to_string(),
            Error::UnsupportedInputSampleFormat => "unsupported input sample format".to_string(),
            Error::UnsupportedOutputSampleFormat => "unsupported output sample format".to_string(),
        }
    }
}

/// What the receive side asks of the decoder for the next frame.
#[derive(Debug, Clone)]
pub enum DecodeCommand {
    /// Decode this packet.
    DecodeNormal(Vec<u8>),
    /// Recover the previous frame from the redundancy carried in this packet.
    DecodeFEC(Vec<u8>),
    /// The packet was lost: conceal it.
    DecodePLC,
}

/// The arguments of one codec call: the packet and the forward-error-
/// correction flag. An empty packet without the flag asks the codec for
/// packet-loss concealment.
#[derive(Debug, Clone)]
pub struct DecodeRequest {
    pub packet: Vec<u8>,
    pub fec: bool,
}

/// The packet and flag the codec gets for a command, or for no command at
/// all when the decoder's input is empty.
pub open spec fn request_spec(cmd: Option<DecodeCommand>) -> (Seq<u8>, bool) {
    match cmd {
        Some(DecodeCommand::DecodeNormal(p)) => (p@, false),
        Some(DecodeCommand::DecodeFEC(p)) => (p@, true),
        Some(DecodeCommand::DecodePLC) => (Seq::empty(), false),
        None => (Seq::empty(), false),
    }
}

/// Turns the next command (or its absence) into a codec call: a normal
/// packet is decoded as it is, a redundancy packet with the flag set, and a
/// lost packet or an empty input becomes a concealment request.
pub fn decode_request(cmd: Option<DecodeCommand>) -> (r: DecodeRequest)
    ensures
        (r.packet@, r.fec) == request_spec(cmd),
{
    match cmd {
        Some(DecodeCommand::DecodeNormal(p)) => DecodeRequest { packet: p, fec: false },
        Some(DecodeCommand::DecodeFEC(p)) => DecodeRequest { packet: p, fec: true },
        Some(DecodeCommand::DecodePLC) => DecodeRequest { packet: Vec::new(), fec: false },
        None => DecodeRequest { packet: Vec::new(), fec: false },
    }
}

/// A processor that passes both streams through unchanged, 10 ms at a time.
pub struct EmptyAudioProcessor {}

impl EmptyAudioProcessor {
    pub fn build() -> (r: Result<Self, Error>)
        ensures
            r is Ok,
    {
        Ok(EmptyAudioProcessor {})
    }

    /// Whole 10 ms frames that one pass copies from each input ring to its
    /// output ring: as many as every input holds and every output has room
    /// for.
    pub fn plan_pass(&self, e: ExternalLevels) -> (n: usize)
        ensures
            n as nat == ({
                let m1 = if e.mic_in <= e.ref_in { e.mic_in } else { e.ref_in };
                let m2 = if e.mic_out_room <= e.ref_out_room { e.mic_out_room } else { e.ref_out_room };
                let m = if m1 <= m2 { m1 } else { m2 };
                m as nat / FRAME10MS as nat
            }),
    {
        let m1 = if e.mic_in <= e.ref_in {
            e.mic_in
        } else {
            e.ref_in
        };
        let m2 = if e.mic_out_room <= e.ref_out_room {
            e.mic_out_room
        } else {
            e.ref_out_room
        };
        let m = if m1 <= m2 {
            m1
        } else {
            m2
        };
        m / FRAME10MS
    }
}

} // verus!
