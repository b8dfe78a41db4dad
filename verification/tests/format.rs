//! Byte-level tests of command serialization and the container header.

use midi2psx::commands::FlanSeqCommand;
use midi2psx::encode::encode;

#[test]
fn release_note_bytes() {
    let bytes = FlanSeqCommand::ReleaseNote { channel: 3, key: 60 }.serialize();
    assert_eq!(bytes, vec![0x03, 60]);
}

#[test]
fn play_note_bytes() {
    let bytes = FlanSeqCommand::PlayNote { channel: 0, key: 60, velocity: 100 }.serialize();
    assert_eq!(bytes, vec![0x10, 60, 100]);
}

#[test]
fn volume_bytes() {
    let bytes = FlanSeqCommand::SetChannelVolume { channel: 15, volume: 127 }.serialize();
    assert_eq!(bytes, vec![0x2F, 127]);
}

#[test]
fn panning_bytes() {
    let bytes = FlanSeqCommand::SetChannelPanning { channel: 1, panning: 254 }.serialize();
    assert_eq!(bytes, vec![0x31, 254]);
}

#[test]
fn pitch_bytes_little_endian() {
    let bytes = FlanSeqCommand::SetChannelPitch { channel: 2, pitch: 2000 }.serialize();
    assert_eq!(bytes, vec![0x42, 0xD0, 0x07]);
    let neg = FlanSeqCommand::SetChannelPitch { channel: 2, pitch: -2000 }.serialize();
    assert_eq!(neg, vec![0x42, 0x30, 0xF8]);
}

#[test]
fn instrument_bytes() {
    let bytes = FlanSeqCommand::SetChannelInstrument { channel: 9, index: 133 }.serialize();
    assert_eq!(bytes, vec![0x59, 133]);
}

#[test]
fn tempo_packs_high_bits_into_opcode() {
    let bytes = FlanSeqCommand::SetTempo { tempo: 512 }.serialize();
    assert_eq!(bytes, vec![0x82, 0x00]);
    let max = FlanSeqCommand::SetTempo { tempo: 4095 }.serialize();
    assert_eq!(max, vec![0x8F, 0xFF]);
    let zero = FlanSeqCommand::SetTempo { tempo: 0 }.serialize();
    assert_eq!(zero, vec![0x80, 0x00]);
}

#[test]
fn wait_ticks_bytes() {
    let first = FlanSeqCommand::WaitTicks { index_into_lut: 0 }.serialize();
    assert_eq!(first, vec![0xA0]);
    let last = FlanSeqCommand::WaitTicks { index_into_lut: 31 }.serialize();
    assert_eq!(last, vec![0xBF]);
}

#[test]
fn time_signature_bytes() {
    let bytes = FlanSeqCommand::SetTimeSignature { numerator: 6, denominator: 8 }.serialize();
    assert_eq!(bytes, vec![0xFD, 6, 8]);
}

#[test]
fn loop_marker_bytes() {
    assert_eq!(FlanSeqCommand::SetLoopStart.serialize(), vec![0xFE]);
    assert_eq!(FlanSeqCommand::JumpToLoopStart.serialize(), vec![0xFF]);
}

#[test]
fn channel_mask_recovers_channel() {
    for channel in 0u8..16 {
        let cmds = vec![
            FlanSeqCommand::ReleaseNote { channel, key: 10 },
            FlanSeqCommand::PlayNote { channel, key: 10, velocity: 20 },
            FlanSeqCommand::SetChannelVolume { channel, volume: 99 },
            FlanSeqCommand::SetChannelPanning { channel, panning: 7 },
            FlanSeqCommand::SetChannelPitch { channel, pitch: -1 },
            FlanSeqCommand::SetChannelInstrument { channel, index: 42 },
        ];
        for cmd in cmds {
            let bytes = cmd.serialize();
            assert_eq!(bytes[0] & 0x0F, channel);
        }
    }
}

#[test]
fn header_bytes_exact() {
    let out = encode(Vec::new());
    let expected: Vec<u8> = vec![
        0x46, 0x44, 0x53, 0x53, 0x01, 0x00, 0x00, 0x00, 0x00, 0x00, 0x00, 0x00, 0x04, 0x00,
        0x00, 0x00, 0x00, 0x00, 0x00, 0x00,
    ];
    assert_eq!(out, expected);
}

#[test]
fn encode_appends_records_in_order() {
    let cmds = vec![
        FlanSeqCommand::PlayNote { channel: 0, key: 60, velocity: 100 },
        FlanSeqCommand::WaitTicks { index_into_lut: 5 },
        FlanSeqCommand::ReleaseNote { channel: 0, key: 60 },
    ];
    let out = encode(cmds);
    assert_eq!(out.len(), 20 + 3 + 1 + 2);
    assert_eq!(&out[20..], &[0x10, 60, 100, 0xA5, 0x00, 60]);
}
