use ghakuf::messages::{
    Message, MessageTool, MetaEvent, MidiEvent, MidiEventBuilder, SysExEvent,
};

#[test]
fn meta_event_encoding() {
    assert_eq!(MetaEvent::EndOfTrack.binary(), [0xff, 0x2f]);
    assert_eq!(MetaEvent::Lyric.binary(), [0xff, 0x05]);
    assert_eq!(MetaEvent::SetTempo.binary(), [0xff, 0x51]);
    assert_eq!(MetaEvent::Unknown { event_type: 0x42 }.binary(), [0xff, 0x42]);
    assert_eq!(MetaEvent::InstrumentName.len(), 2);
    assert_eq!(MetaEvent::Lyric.status_byte(), 0xff);
}

#[test]
fn meta_event_new_mapping() {
    assert_eq!(MetaEvent::new(0x06), MetaEvent::Marker);
    assert_eq!(MetaEvent::new(0x2f), MetaEvent::EndOfTrack);
    assert_eq!(MetaEvent::new(0x51), MetaEvent::SetTempo);
    assert_eq!(MetaEvent::new(0x42), MetaEvent::Unknown { event_type: 0x42 });
}

#[test]
fn midi_event_encoding() {
    assert_eq!(
        MidiEvent::NoteOff { ch: 0x04, note: 0x02, velocity: 0x00 }.binary(),
        [0x84, 0x02, 0x00]
    );
    assert_eq!(
        MidiEvent::NoteOn { ch: 0x03, note: 0x00, velocity: 0x65 }.len(),
        3
    );
    assert_eq!(
        MidiEvent::ChannelPressure { ch: 0x05, pressure: 0x45 }.len(),
        2
    );
    assert_eq!(
        MidiEvent::ProgramChange { ch: 0x01, program: 0x03 }.status_byte(),
        0xc1
    );
    assert_eq!(MidiEvent::Unknown { ch: 2 }.binary(), [0x82]);
}

// Encoding re-biases the pitch bend value by +8192 and splits it into two
// 7-bit groups, most significant first; decoding reverses the bias.
#[test]
fn pitch_bend_bias() {
    assert_eq!(
        MidiEvent::PitchBendChange { ch: 0, data: 0 }.binary(),
        [0xe0, 0x40, 0x00]
    );
    assert_eq!(
        MidiEvent::PitchBendChange { ch: 1, data: -8192 }.binary(),
        [0xe1, 0x00, 0x00]
    );
    assert_eq!(
        MidiEvent::PitchBendChange { ch: 0, data: 8191 }.binary(),
        [0xe0, 0x7f, 0x7f]
    );
    let mut builder = MidiEventBuilder::new(0xe0);
    builder.push(0x40);
    builder.push(0x00);
    assert_eq!(
        builder.build(),
        MidiEvent::PitchBendChange { ch: 0, data: 0 }
    );
    let mut builder = MidiEventBuilder::new(0xe5);
    builder.push(0x00);
    builder.push(0x01);
    assert_eq!(
        builder.build(),
        MidiEvent::PitchBendChange { ch: 5, data: -8191 }
    );
}

#[test]
fn midi_event_builder_shortage() {
    let mut builder = MidiEventBuilder::new(0x91);
    assert_eq!(builder.shortage(), 2);
    builder.push(0x00);
    assert_eq!(builder.shortage(), 1);
    builder.push(0x02);
    assert_eq!(builder.shortage(), 0);

    let mut builder = MidiEventBuilder::new(0xc0);
    assert_eq!(builder.shortage(), 1);
    builder.push(0x00);
    assert_eq!(builder.shortage(), 0);
}

#[test]
fn midi_event_builder_build() {
    let mut builder = MidiEventBuilder::new(0x91);
    builder.push(0x9c);
    builder.push(0x13);
    assert_eq!(
        builder.build(),
        MidiEvent::NoteOn { ch: 0x01, note: 0x9c, velocity: 0x13 }
    );
    let mut builder = MidiEventBuilder::new(0xb2);
    builder.push(0x07);
    builder.push(0x64);
    assert_eq!(
        builder.build(),
        MidiEvent::ControlChange { ch: 0x02, control: 0x07, data: 0x64 }
    );
}

#[test]
fn sys_ex_event_values() {
    assert_eq!(SysExEvent::new(0xf0), SysExEvent::F0);
    assert_eq!(SysExEvent::new(0xf7), SysExEvent::F7);
    assert_eq!(SysExEvent::new(0xf3), SysExEvent::Unknown { status: 0xf3 });
    assert_eq!(SysExEvent::F0.status_byte(), 0xf0);
    assert_eq!(SysExEvent::F7.binary(), [0xf7]);
    assert_eq!(SysExEvent::F0.len(), 1);
}

#[test]
fn message_binary_midi() {
    let message = Message::MidiEvent {
        delta_time: 0,
        event: MidiEvent::NoteOn { ch: 0x01, note: 0x3c, velocity: 0x7f },
    };
    assert_eq!(message.binary(), vec![0x00, 0x91, 0x3c, 0x7f]);
    assert_eq!(message.len(), 4);
}

#[test]
fn message_binary_meta() {
    let message = Message::MetaEvent {
        delta_time: 0,
        event: MetaEvent::Lyric,
        data: b"aitanakatta_aitanakatta_no!".to_vec(),
    };
    assert_eq!(message.len(), 31);
    let bytes = message.binary();
    assert_eq!(bytes.len(), 31);
    assert_eq!(&bytes[0..4], &[0x00, 0xff, 0x05, 27]);
    assert_eq!(&bytes[4..], b"aitanakatta_aitanakatta_no!");
}

#[test]
fn message_binary_sys_ex() {
    // by wire convention, the leading byte of an F0 payload stands for
    // the status byte itself and is dropped from the emitted payload
    let message = Message::SysExEvent {
        delta_time: 1,
        event: SysExEvent::F0,
        data: vec![0xf0, 0x7e, 0x00, 0x09, 0x01, 0xf7],
    };
    assert_eq!(message.binary(), vec![0x01, 0xf0, 0x05, 0x7e, 0x00, 0x09, 0x01, 0xf7]);
    assert_eq!(message.len(), 8);
    let message = Message::SysExEvent {
        delta_time: 0,
        event: SysExEvent::F7,
        data: vec![0x7e, 0x00],
    };
    assert_eq!(message.binary(), vec![0x00, 0xf7, 0x02, 0x7e, 0x00]);
    assert_eq!(message.len(), 5);
}

#[test]
fn message_binary_track_change() {
    assert_eq!(Message::TrackChange.binary(), b"MTrk".to_vec());
    assert_eq!(Message::TrackChange.len(), 4);
}

#[test]
fn message_equality() {
    let a = Message::MetaEvent {
        delta_time: 0,
        event: MetaEvent::EndOfTrack,
        data: Vec::new(),
    };
    let b = Message::MetaEvent {
        delta_time: 0,
        event: MetaEvent::EndOfTrack,
        data: Vec::new(),
    };
    assert_eq!(a, b);
    let c = Message::MetaEvent {
        delta_time: 1,
        event: MetaEvent::EndOfTrack,
        data: Vec::new(),
    };
    assert_ne!(a, c);
    assert_ne!(a, Message::TrackChange);
    assert_eq!(Message::TrackChange, Message::TrackChange);
}
