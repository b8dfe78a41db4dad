//! The closed set of FDSS playback commands and their fixed-width binary
//! serialization. Per-channel commands pack the channel into the low nibble
//! of the opcode byte.

use vstd::prelude::*;

verus! {

/// One FDSS playback command. Commands are produced by the translator in
/// strict chronological order and serialized one record each by the encoder.
/// `SetLoopStart` and `JumpToLoopStart` are representable in the format but
/// never emitted by the translator (reserved for loop-point support).
#[derive(Clone, Copy, Debug, PartialEq, Eq)]
pub enum FlanSeqCommand {
    // Channel commands
    ReleaseNote { channel: u8, key: u8 },
    PlayNote { channel: u8, key: u8, velocity: u8 },
    SetChannelVolume { channel: u8, volume: u8 },
    SetChannelPanning { channel: u8, panning: u8 },
    SetChannelPitch { channel: u8, pitch: i16 },
    SetChannelInstrument { channel: u8, index: u8 },

    // General commands
    SetTempo { tempo: u16 },
    WaitTicks { index_into_lut: usize },
    SetTimeSignature { numerator: u8, denominator: u8 },
    SetLoopStart,
    JumpToLoopStart,
}

impl FlanSeqCommand {
    /// Field ranges the encoding relies on: channels fit in four bits, a
    /// tempo value fits in twelve bits (the high four are OR'd into the
    /// opcode), and a wait index addresses one of the 32 LUT entries.
    pub open spec fn wf(self) -> bool {
        match self {
            FlanSeqCommand::ReleaseNote { channel, .. } => channel < 16,
            FlanSeqCommand::PlayNote { channel, .. } => channel < 16,
            FlanSeqCommand::SetChannelVolume { channel, .. } => channel < 16,
            FlanSeqCommand::SetChannelPanning { channel, .. } => channel < 16,
            FlanSeqCommand::SetChannelPitch { channel, .. } => channel < 16,
            FlanSeqCommand::SetChannelInstrument { channel, .. } => channel < 16,
            FlanSeqCommand::SetTempo { tempo } => tempo <= 0xFFF,
            FlanSeqCommand::WaitTicks { index_into_lut } => index_into_lut < 32,
            FlanSeqCommand::SetTimeSignature { .. } => true,
            FlanSeqCommand::SetLoopStart => true,
            FlanSeqCommand::JumpToLoopStart => true,
        }
    }

    /// The channel a per-channel command addresses; `None` for the general
    /// commands.
    pub open spec fn channel_of(self) -> Option<u8> {
        match self {
            FlanSeqCommand::ReleaseNote { channel, .. } => Some(channel),
            FlanSeqCommand::PlayNote { channel, .. } => Some(channel),
            FlanSeqCommand::SetChannelVolume { channel, .. } => Some(channel),
            FlanSeqCommand::SetChannelPanning { channel, .. } => Some(channel),
            FlanSeqCommand::SetChannelPitch { channel, .. } => Some(channel),
            FlanSeqCommand::SetChannelInstrument { channel, .. } => Some(channel),
            _ => None,
        }
    }

    /// The exact bytes of one serialized command record, opcode byte first.
    pub open spec fn spec_serialize(self) -> Seq<u8> {
        match self {
            FlanSeqCommand::ReleaseNote { channel, key } => seq![(0x00u8 | channel), key],
            FlanSeqCommand::PlayNote { channel, key, velocity } => seq![
                (0x10u8 | channel),
                key,
                velocity,
            ],
            FlanSeqCommand::SetChannelVolume { channel, volume } => seq![(0x20u8 | channel), volume],
            FlanSeqCommand::SetChannelPanning { channel, panning } => seq![
                (0x30u8 | channel),
                panning,
            ],
            FlanSeqCommand::SetChannelPitch { channel, pitch } => seq![
                (0x40u8 | channel),
                ((pitch & 0xFF) as u8),
                (((pitch >> 8) & 0xFF) as u8),
            ],
            FlanSeqCommand::SetChannelInstrument { channel, index } => seq![
                (0x50u8 | channel),
                index,
            ],
            FlanSeqCommand::SetTempo { tempo } => seq![
                (0x80u8 | ((tempo >> 8) as u8)),
                ((tempo & 0xFF) as u8),
            ],
            FlanSeqCommand::WaitTicks { index_into_lut } => seq![((0xA0 + index_into_lut) as u8)],
            FlanSeqCommand::SetTimeSignature { numerator, denominator } => seq![
                0xFDu8,
                numerator,
                denominator,
            ],
            FlanSeqCommand::SetLoopStart => seq![0xFEu8],
            FlanSeqCommand::JumpToLoopStart => seq![0xFFu8],
        }
    }

    /// Serialize one command to its fixed-width record.
    pub fn serialize(self) -> (r: Vec<u8>)
        requires
            self.wf(),
        ensures
            r@ == self.spec_serialize(),
    {
        let mut r: Vec<u8> = Vec::new();
        match self {
            FlanSeqCommand::ReleaseNote { channel, key } => {
                r.push(0x00 | channel);
                r.push(key);
            },
            FlanSeqCommand::PlayNote { channel, key, velocity } => {
                r.push(0x10 | channel);
                r.push(key);
                r.push(velocity);
            },
            FlanSeqCommand::SetChannelVolume { channel, volume } => {
                r.push(0x20 | channel);
                r.push(volume);
            },
            FlanSeqCommand::SetChannelPanning { channel, panning } => {
                r.push(0x30 | channel);
                r.push(panning);
            },
            FlanSeqCommand::SetChannelPitch { channel, pitch } => {
                r.push(0x40 | channel);
                r.push((pitch & 0xFF) as u8);
                r.push(((pitch >> 8) & 0xFF) as u8);
            },
            FlanSeqCommand::SetChannelInstrument { channel, index } => {
                r.push(0x50 | channel);
                r.push(index);
            },
            FlanSeqCommand::SetTempo { tempo } => {
                r.push(0x80 | ((tempo >> 8) as u8));
                r.push((tempo & 0xFF) as u8);
            },
            FlanSeqCommand::WaitTicks { index_into_lut } => {
                r.push(0xA0 + index_into_lut as u8);
            },
            FlanSeqCommand::SetTimeSignature { numerator, denominator } => {
                r.push(0xFD);
                r.push(numerator);
                r.push(denominator);
            },
            FlanSeqCommand::SetLoopStart => {
                r.push(0xFE);
            },
            FlanSeqCommand::JumpToLoopStart => {
                r.push(0xFF);
            },
        }
        proof {
            assert(r@ =~= self.spec_serialize());
        }
        r
    }
}

/// Law: decoding the low nibble of a per-channel command's opcode byte
/// recovers the channel, for every channel 0-15.
pub proof fn lemma_channel_masking(cmd: FlanSeqCommand)
    requires
        cmd.wf(),
        cmd.channel_of() is Some,
    ensures
        cmd.spec_serialize()[0] & 0x0F == cmd.channel_of()->Some_0,
{
    let ch = cmd.channel_of()->Some_0;
    match cmd {
        FlanSeqCommand::ReleaseNote { channel, .. } => {
            assert((0x00u8 | ch) & 0x0F == ch) by (bit_vector)
                requires
                    ch < 16,
            ;
        },
        FlanSeqCommand::PlayNote { channel, .. } => {
            assert((0x10u8 | ch) & 0x0F == ch) by (bit_vector)
                requires
                    ch < 16,
            ;
        },
        FlanSeqCommand::SetChannelVolume { channel, .. } => {
            assert((0x20u8 | ch) & 0x0F == ch) by (bit_vector)
                requires
                    ch < 16,
            ;
        },
        FlanSeqCommand::SetChannelPanning { channel, .. } => {
            assert((0x30u8 | ch) & 0x0F == ch) by (bit_vector)
                requires
                    ch < 16,
            ;
        },
        FlanSeqCommand::SetChannelPitch { channel, .. } => {
            assert((0x40u8 | ch) & 0x0F == ch) by (bit_vector)
                requires
                    ch < 16,
            ;
        },
        FlanSeqCommand::SetChannelInstrument { channel, .. } => {
            assert((0x50u8 | ch) & 0x0F == ch) by (bit_vector)
                requires
                    ch < 16,
            ;
        },
        _ => {},
    }
}

} // verus!
