//! SMF messages: meta events, MIDI (channel voice) events, system
//! exclusive events and the track boundary marker, with their exact
//! binary encodings.

use vstd::prelude::*;
use vstd::std_specs::cmp::PartialEqSpec;
use crate::formats::{mtrk_bytes, vlq_bytes, vlq_len, VLQ};

verus! {

broadcast use crate::formats::lemma_vlq_bytes_len;

/// The kind byte that identifies a meta event on the wire.
pub open spec fn meta_kind_byte(e: MetaEvent) -> u8 {
    match e {
        MetaEvent::SequenceNumber => 0x00,
        MetaEvent::TextEvent => 0x01,
        MetaEvent::CopyrightNotice => 0x02,
        MetaEvent::SequenceOrTrackName => 0x03,
        MetaEvent::InstrumentName => 0x04,
        MetaEvent::Lyric => 0x05,
        MetaEvent::Marker => 0x06,
        MetaEvent::CuePoint => 0x07,
        MetaEvent::MIDIChannelPrefix => 0x20,
        MetaEvent::EndOfTrack => 0x2F,
        MetaEvent::SetTempo => 0x51,
        MetaEvent::SMTPEOffset => 0x54,
        MetaEvent::TimeSignature => 0x58,
        MetaEvent::KeySignature => 0x59,
        MetaEvent::SequencerSpecificMetaEvent => 0x7F,
        MetaEvent::Unknown { event_type } => event_type,
    }
}

/// The meta event denoted by a kind byte.
pub open spec fn spec_meta_new(event_type: u8) -> MetaEvent {
    if event_type == 0x00 {
        MetaEvent::SequenceNumber
    } else if event_type == 0x01 {
        MetaEvent::TextEvent
    } else if event_type == 0x02 {
        MetaEvent::CopyrightNotice
    } else if event_type == 0x03 {
        MetaEvent::SequenceOrTrackName
    } else if event_type == 0x04 {
        MetaEvent::InstrumentName
    } else if event_type == 0x05 {
        MetaEvent::Lyric
    } else if event_type == 0x06 {
        MetaEvent::Marker
    } else if event_type == 0x07 {
        MetaEvent::CuePoint
    } else if event_type == 0x20 {
        MetaEvent::MIDIChannelPrefix
    } else if event_type == 0x2F {
        MetaEvent::EndOfTrack
    } else if event_type == 0x51 {
        MetaEvent::SetTempo
    } else if event_type == 0x54 {
        MetaEvent::SMTPEOffset
    } else if event_type == 0x58 {
        MetaEvent::TimeSignature
    } else if event_type == 0x59 {
        MetaEvent::KeySignature
    } else if event_type == 0x7F {
        MetaEvent::SequencerSpecificMetaEvent
    } else {
        MetaEvent::Unknown { event_type }
    }
}

/// The status byte of a MIDI (channel voice) event: high nibble from the
/// kind, low nibble from the channel.
pub open spec fn midi_status_byte(e: MidiEvent) -> u8 {
    match e {
        MidiEvent::NoteOff { ch, .. } => (0x80 + ch % 16) as u8,
        MidiEvent::NoteOn { ch, .. } => (0x90 + ch % 16) as u8,
        MidiEvent::PolyphonicKeyPressure { ch, .. } => (0xa0 + ch % 16) as u8,
        MidiEvent::ControlChange { ch, .. } => (0xb0 + ch % 16) as u8,
        MidiEvent::ProgramChange { ch, .. } => (0xc0 + ch % 16) as u8,
        MidiEvent::ChannelPressure { ch, .. } => (0xd0 + ch % 16) as u8,
        MidiEvent::PitchBendChange { ch, .. } => (0xe0 + ch % 16) as u8,
        MidiEvent::Unknown { ch } => (0x80 + ch % 16) as u8,
    }
}

/// The data bytes of a MIDI event, after its status byte.  The pitch bend
/// value is re-biased by +8192 and split into two 7-bit groups, most
/// significant first.
pub open spec fn midi_data_bytes(e: MidiEvent) -> Seq<u8> {
    match e {
        MidiEvent::NoteOff { note, velocity, .. } => seq![note, velocity],
        MidiEvent::NoteOn { note, velocity, .. } => seq![note, velocity],
        MidiEvent::PolyphonicKeyPressure { note, velocity, .. } => seq![note, velocity],
        MidiEvent::ControlChange { control, data, .. } => seq![control, data],
        MidiEvent::ProgramChange { program, .. } => seq![program],
        MidiEvent::ChannelPressure { pressure, .. } => seq![pressure],
        MidiEvent::PitchBendChange { data, .. } => seq![
            ((data + 8192) / 0x80) as u8,
            ((data + 8192) % 0x80) as u8,
        ],
        MidiEvent::Unknown { .. } => seq![],
    }
}

/// The channel a MIDI event carries.
pub open spec fn midi_channel(e: MidiEvent) -> u8 {
    match e {
        MidiEvent::NoteOff { ch, .. } => ch,
        MidiEvent::NoteOn { ch, .. } => ch,
        MidiEvent::PolyphonicKeyPressure { ch, .. } => ch,
        MidiEvent::ControlChange { ch, .. } => ch,
        MidiEvent::ProgramChange { ch, .. } => ch,
        MidiEvent::ChannelPressure { ch, .. } => ch,
        MidiEvent::PitchBendChange { ch, .. } => ch,
        MidiEvent::Unknown { ch } => ch,
    }
}

/// Well-formedness of a MIDI event: the pitch bend value respects the
/// signed 14-bit wire range.
pub open spec fn midi_wf(e: MidiEvent) -> bool {
    e matches MidiEvent::PitchBendChange { data, .. } ==> -8192 <= data <= 8191
}

/// How many data bytes follow a channel voice status byte on the wire.
pub open spec fn midi_needed(status: u8) -> nat {
    if (0x80 <= status && status < 0xc0) || (0xe0 <= status && status < 0xf0) {
        2
    } else if 0xc0 <= status && status < 0xe0 {
        1
    } else {
        0
    }
}

/// The MIDI event denoted by a status byte and its data bytes (meaningful
/// when `d.len() == midi_needed(status)`).
pub open spec fn spec_midi_build(status: u8, d: Seq<u8>) -> MidiEvent {
    let ch = (status % 16) as u8;
    if 0x80 <= status && status < 0x90 {
        MidiEvent::NoteOff { ch, note: d[0], velocity: d[1] }
    } else if 0x90 <= status && status < 0xa0 {
        MidiEvent::NoteOn { ch, note: d[0], velocity: d[1] }
    } else if 0xa0 <= status && status < 0xb0 {
        MidiEvent::PolyphonicKeyPressure { ch, note: d[0], velocity: d[1] }
    } else if 0xb0 <= status && status < 0xc0 {
        MidiEvent::ControlChange { ch, control: d[0], data: d[1] }
    } else if 0xc0 <= status && status < 0xd0 {
        MidiEvent::ProgramChange { ch, program: d[0] }
    } else if 0xd0 <= status && status < 0xe0 {
        MidiEvent::ChannelPressure { ch, pressure: d[0] }
    } else if 0xe0 <= status && status < 0xf0 {
        MidiEvent::PitchBendChange {
            ch,
            data: ((d[0] as int % 0x80) * 0x80 + d[1] as int % 0x80 - 8192) as i16,
        }
    } else {
        MidiEvent::Unknown { ch }
    }
}

/// The status byte of a system exclusive event.
pub open spec fn sys_ex_status_byte(e: SysExEvent) -> u8 {
    match e {
        SysExEvent::F0 => 0xf0,
        SysExEvent::F7 => 0xf7,
        SysExEvent::Unknown { status } => status,
    }
}

/// The system exclusive event denoted by a status byte.
pub open spec fn spec_sys_ex_new(status: u8) -> SysExEvent {
    if status == 0xf0 {
        SysExEvent::F0
    } else if status == 0xf7 {
        SysExEvent::F7
    } else {
        SysExEvent::Unknown { status }
    }
}

/// The full wire encoding of a message, delta time included.  For an `F0`
/// system exclusive event the first payload byte stands for the status
/// byte itself and is dropped from the emitted payload, by wire
/// convention.  A `TrackChange` encodes as the literal track chunk tag.
pub open spec fn msg_bytes(m: Message) -> Seq<u8> {
    match m {
        Message::MetaEvent { delta_time, event, data } => vlq_bytes(delta_time as nat) + seq![
            0xffu8,
            meta_kind_byte(event),
        ] + vlq_bytes(data@.len()) + data@,
        Message::MidiEvent { delta_time, event } => vlq_bytes(delta_time as nat) + seq![
            midi_status_byte(event),
        ] + midi_data_bytes(event),
        Message::SysExEvent { delta_time, event, data } => vlq_bytes(delta_time as nat) + seq![
            sys_ex_status_byte(event),
        ] + if event is F0 {
            vlq_bytes((data@.len() - 1) as nat) + data@.skip(1)
        } else {
            vlq_bytes(data@.len()) + data@
        },
        Message::TrackChange => mtrk_bytes(),
    }
}

/// Well-formedness of a message: every VLQ-encoded quantity must be below
/// 2^28 (the SMF format ceiling), and an `F0` system exclusive payload
/// must carry at least its leading status byte.
pub open spec fn msg_wf(m: Message) -> bool {
    match m {
        Message::MetaEvent { delta_time, data, .. } => delta_time < 0x10000000 && data@.len()
            < 0x10000000,
        Message::MidiEvent { delta_time, event } => delta_time < 0x10000000 && midi_wf(event),
        Message::SysExEvent { delta_time, event, data } => delta_time < 0x10000000 && data@.len()
            < 0x10000000 && (event is F0 ==> data@.len() >= 1),
        Message::TrackChange => true,
    }
}

/// Structural equality of messages, payload contents included.
pub open spec fn msg_eq(a: Message, b: Message) -> bool {
    match (a, b) {
        (
            Message::MetaEvent { delta_time: dta, event: ea, data: da },
            Message::MetaEvent { delta_time: dtb, event: eb, data: db },
        ) => dta == dtb && ea == eb && da@ == db@,
        (
            Message::MidiEvent { delta_time: dta, event: ea },
            Message::MidiEvent { delta_time: dtb, event: eb },
        ) => dta == dtb && ea == eb,
        (
            Message::SysExEvent { delta_time: dta, event: ea, data: da },
            Message::SysExEvent { delta_time: dtb, event: eb, data: db },
        ) => dta == dtb && ea == eb && da@ == db@,
        (Message::TrackChange, Message::TrackChange) => true,
        _ => false,
    }
}

/// Common methods among the three SMF event kinds.
pub trait MessageTool {
    /// What `binary` requires of the event.
    spec fn tool_wf(&self) -> bool;

    /// The event's own encoded bytes (status byte and fixed payload;
    /// not the delta time, nor a variable payload).
    spec fn spec_binary(&self) -> Seq<u8>;

    /// The event's status byte.
    spec fn spec_status_byte(&self) -> u8;

    /// Returns the event's binary array for SMF.
    fn binary(&self) -> (r: Vec<u8>)
        requires
            self.tool_wf(),
        ensures
            r@ == self.spec_binary(),
    ;

    /// Returns the length of the event's binary array for SMF.
    fn len(&self) -> (r: usize)
        requires
            self.tool_wf(),
        ensures
            r == self.spec_binary().len(),
    ;

    /// Returns the event's status byte for SMF.
    fn status_byte(&self) -> (r: u8)
        ensures
            r == self.spec_status_byte(),
    ;
}

/// An enum representing the three SMF events and the track change marker.
#[allow(inconsistent_fields)]
#[derive(Clone, Debug)]
pub enum Message {
    MetaEvent { delta_time: u32, event: MetaEvent, data: Vec<u8> },
    MidiEvent { delta_time: u32, event: MidiEvent },
    SysExEvent { delta_time: u32, event: SysExEvent, data: Vec<u8> },
    TrackChange,
}

impl PartialEq for Message {
    fn eq(&self, other: &Message) -> (r: bool) {
        match (self, other) {
            (
                Message::MetaEvent { delta_time: dta, event: ea, data: da },
                Message::MetaEvent { delta_time: dtb, event: eb, data: db },
            ) => {
                let req = *dta == *dtb && *ea == *eb && da == db;
                proof {
                    if da@ == db@ {
                        assert(da@ =~= db@);
                    }
                    if da.eq_spec(db) {
                        assert(da@ =~= db@);
                    }
                }
                req
            },
            (
                Message::MidiEvent { delta_time: dta, event: ea },
                Message::MidiEvent { delta_time: dtb, event: eb },
            ) => *dta == *dtb && *ea == *eb,
            (
                Message::SysExEvent { delta_time: dta, event: ea, data: da },
                Message::SysExEvent { delta_time: dtb, event: eb, data: db },
            ) => {
                let req = *dta == *dtb && *ea == *eb && da == db;
                proof {
                    if da@ == db@ {
                        assert(da@ =~= db@);
                    }
                    if da.eq_spec(db) {
                        assert(da@ =~= db@);
                    }
                }
                req
            },
            (Message::TrackChange, Message::TrackChange) => true,
            _ => false,
        }
    }
}

impl vstd::std_specs::cmp::PartialEqSpecImpl for Message {
    open spec fn obeys_eq_spec() -> bool {
        true
    }

    open spec fn eq_spec(&self, other: &Message) -> bool {
        msg_eq(*self, *other)
    }
}

impl Message {
    /// Returns the message's binary array for SMF, delta time included.
    pub fn binary(&self) -> (r: Vec<u8>)
        requires
            msg_wf(*self),
        ensures
            r@ == msg_bytes(*self),
    {
        match self {
            Message::MetaEvent { delta_time, event, data } => {
                let mut r = VLQ::new(*delta_time).binary();
                let mut eb = event.binary();
                r.append(&mut eb);
                let mut lb = VLQ::new(data.len() as u32).binary();
                r.append(&mut lb);
                append_from(&mut r, data, 0);
                proof {
                    assert(data@.skip(0) =~= data@);
                    assert(r@ =~= msg_bytes(*self));
                }
                r
            },
            Message::MidiEvent { delta_time, event } => {
                let mut r = VLQ::new(*delta_time).binary();
                let mut eb = event.binary();
                r.append(&mut eb);
                proof {
                    assert(r@ =~= msg_bytes(*self));
                }
                r
            },
            Message::SysExEvent { delta_time, event, data } => {
                let mut r = VLQ::new(*delta_time).binary();
                let mut eb = event.binary();
                r.append(&mut eb);
                match event {
                    SysExEvent::F0 => {
                        let mut lb = VLQ::new(data.len() as u32 - 1).binary();
                        r.append(&mut lb);
                        append_from(&mut r, data, 1);
                    },
                    _ => {
                        let mut lb = VLQ::new(data.len() as u32).binary();
                        r.append(&mut lb);
                        append_from(&mut r, data, 0);
                        proof {
                            assert(data@.skip(0) =~= data@);
                        }
                    },
                }
                proof {
                    assert(r@ =~= msg_bytes(*self));
                }
                r
            },
            Message::TrackChange => {
                let mut r: Vec<u8> = Vec::new();
                r.push(0x4d);
                r.push(0x54);
                r.push(0x72);
                r.push(0x6b);
                proof {
                    assert(r@ =~= mtrk_bytes());
                }
                r
            },
        }
    }

    /// Returns the length of the message's binary array, computed without
    /// allocating.
    pub fn len(&self) -> (r: usize)
        requires
            msg_wf(*self),
        ensures
            r == msg_bytes(*self).len(),
    {
        match self {
            Message::MetaEvent { delta_time, event, data } => VLQ::new(*delta_time).len() + 2
                + VLQ::new(data.len() as u32).len() + data.len(),
            Message::MidiEvent { delta_time, event } => VLQ::new(*delta_time).len() + event.len(),
            Message::SysExEvent { delta_time, event, data } => {
                let dtl = VLQ::new(*delta_time).len();
                match event {
                    SysExEvent::F0 => dtl + 1 + VLQ::new(data.len() as u32 - 1).len() + (data.len()
                        - 1),
                    _ => dtl + 1 + VLQ::new(data.len() as u32).len() + data.len(),
                }
            },
            Message::TrackChange => 4,
        }
    }
}

/// An enum representing a meta event of SMF.
#[derive(PartialEq, Eq, Structural, Clone, Copy, Debug)]
pub enum MetaEvent {
    SequenceNumber,
    TextEvent,
    CopyrightNotice,
    SequenceOrTrackName,
    InstrumentName,
    Lyric,
    Marker,
    CuePoint,
    MIDIChannelPrefix,
    EndOfTrack,
    SetTempo,
    SMTPEOffset,
    TimeSignature,
    KeySignature,
    SequencerSpecificMetaEvent,
    Unknown { event_type: u8 },
}

impl MetaEvent {
    /// Builds MetaEvent from the kind byte.
    pub fn new(event_type: u8) -> (r: MetaEvent)
        ensures
            r == spec_meta_new(event_type),
    {
        match event_type {
            0x00 => MetaEvent::SequenceNumber,
            0x01 => MetaEvent::TextEvent,
            0x02 => MetaEvent::CopyrightNotice,
            0x03 => MetaEvent::SequenceOrTrackName,
            0x04 => MetaEvent::InstrumentName,
            0x05 => MetaEvent::Lyric,
            0x06 => MetaEvent::Marker,
            0x07 => MetaEvent::CuePoint,
            0x20 => MetaEvent::MIDIChannelPrefix,
            0x2F => MetaEvent::EndOfTrack,
            0x51 => MetaEvent::SetTempo,
            0x54 => MetaEvent::SMTPEOffset,
            0x58 => MetaEvent::TimeSignature,
            0x59 => MetaEvent::KeySignature,
            0x7F => MetaEvent::SequencerSpecificMetaEvent,
            _ => MetaEvent::Unknown { event_type },
        }
    }
}

impl MessageTool for MetaEvent {
    open spec fn tool_wf(&self) -> bool {
        true
    }

    open spec fn spec_binary(&self) -> Seq<u8> {
        seq![0xffu8, meta_kind_byte(*self)]
    }

    open spec fn spec_status_byte(&self) -> u8 {
        0xff
    }

    fn binary(&self) -> (r: Vec<u8>) {
        let kind = match *self {
            MetaEvent::SequenceNumber => 0x00,
            MetaEvent::TextEvent => 0x01,
            MetaEvent::CopyrightNotice => 0x02,
            MetaEvent::SequenceOrTrackName => 0x03,
            MetaEvent::InstrumentName => 0x04,
            MetaEvent::Lyric => 0x05,
            MetaEvent::Marker => 0x06,
            MetaEvent::CuePoint => 0x07,
            MetaEvent::MIDIChannelPrefix => 0x20,
            MetaEvent::EndOfTrack => 0x2F,
            MetaEvent::SetTempo => 0x51,
            MetaEvent::SMTPEOffset => 0x54,
            MetaEvent::TimeSignature => 0x58,
            MetaEvent::KeySignature => 0x59,
            MetaEvent::SequencerSpecificMetaEvent => 0x7F,
            MetaEvent::Unknown { event_type } => event_type,
        };
        let mut r: Vec<u8> = Vec::new();
        r.push(0xff);
        r.push(kind);
        proof {
            assert(r@ =~= self.spec_binary());
        }
        r
    }

    fn len(&self) -> (r: usize) {
        2
    }

    fn status_byte(&self) -> (r: u8) {
        0xff
    }
}

/// An enum representing a MIDI (channel voice) event of SMF.
#[allow(inconsistent_fields)]
#[derive(PartialEq, Eq, Structural, Clone, Copy, Debug)]
pub enum MidiEvent {
    NoteOff { ch: u8, note: u8, velocity: u8 },
    NoteOn { ch: u8, note: u8, velocity: u8 },
    PolyphonicKeyPressure { ch: u8, note: u8, velocity: u8 },
    ControlChange { ch: u8, control: u8, data: u8 },
    ProgramChange { ch: u8, program: u8 },
    ChannelPressure { ch: u8, pressure: u8 },
    PitchBendChange { ch: u8, data: i16 },
    Unknown { ch: u8 },
}

impl MessageTool for MidiEvent {
    open spec fn tool_wf(&self) -> bool {
        midi_wf(*self)
    }

    open spec fn spec_binary(&self) -> Seq<u8> {
        seq![midi_status_byte(*self)] + midi_data_bytes(*self)
    }

    open spec fn spec_status_byte(&self) -> u8 {
        midi_status_byte(*self)
    }

    fn binary(&self) -> (r: Vec<u8>) {
        let mut r: Vec<u8> = Vec::new();
        r.push(self.status_byte());
        match *self {
            MidiEvent::NoteOff { note, velocity, .. } => {
                r.push(note);
                r.push(velocity);
            },
            MidiEvent::NoteOn { note, velocity, .. } => {
                r.push(note);
                r.push(velocity);
            },
            MidiEvent::PolyphonicKeyPressure { note, velocity, .. } => {
                r.push(note);
                r.push(velocity);
            },
            MidiEvent::ControlChange { control, data, .. } => {
                r.push(control);
                r.push(data);
            },
            MidiEvent::ProgramChange { program, .. } => {
                r.push(program);
            },
            MidiEvent::ChannelPressure { pressure, .. } => {
                r.push(pressure);
            },
            MidiEvent::PitchBendChange { data, .. } => {
                let pitch = (data + 8192) as u16;
                r.push((pitch / 0x80) as u8);
                r.push((pitch % 0x80) as u8);
            },
            MidiEvent::Unknown { .. } => {},
        }
        proof {
            assert(r@ =~= self.spec_binary());
        }
        r
    }

    fn len(&self) -> (r: usize) {
        match *self {
            MidiEvent::NoteOff { .. }
            | MidiEvent::NoteOn { .. }
            | MidiEvent::PolyphonicKeyPressure { .. }
            | MidiEvent::ControlChange { .. }
            | MidiEvent::PitchBendChange { .. } => 3,
            MidiEvent::ProgramChange { .. } | MidiEvent::ChannelPressure { .. } => 2,
            MidiEvent::Unknown { .. } => 1,
        }
    }

    fn status_byte(&self) -> (r: u8) {
        match *self {
            MidiEvent::NoteOff { ch, .. } => 0x80 + ch % 16,
            MidiEvent::NoteOn { ch, .. } => 0x90 + ch % 16,
            MidiEvent::PolyphonicKeyPressure { ch, .. } => 0xa0 + ch % 16,
            MidiEvent::ControlChange { ch, .. } => 0xb0 + ch % 16,
            MidiEvent::ProgramChange { ch, .. } => 0xc0 + ch % 16,
            MidiEvent::ChannelPressure { ch, .. } => 0xd0 + ch % 16,
            MidiEvent::PitchBendChange { ch, .. } => 0xe0 + ch % 16,
            MidiEvent::Unknown { ch } => 0x80 + ch % 16,
        }
    }
}

/// A struct for building a MIDI event from wire bytes.
pub struct MidiEventBuilder {
    status: u8,
    shortage: u8,
    data: Vec<u8>,
}

impl MidiEventBuilder {
    /// The status byte this builder was made with.
    pub closed spec fn spec_status(&self) -> u8 {
        self.status
    }

    /// How many data bytes are still missing.
    pub closed spec fn spec_shortage(&self) -> u8 {
        self.shortage
    }

    /// The data bytes accepted so far.
    pub closed spec fn spec_data(&self) -> Seq<u8> {
        self.data@
    }

    /// Well-formedness: accepted and missing bytes add up to what the
    /// status byte demands.
    pub open spec fn wf(&self) -> bool {
        self.spec_data().len() + self.spec_shortage() == midi_needed(self.spec_status())
    }

    /// Builds MidiEventBuilder from a MIDI status byte.
    pub fn new(status: u8) -> (r: MidiEventBuilder)
        ensures
            r.wf(),
            r.spec_status() == status,
            r.spec_data() == Seq::<u8>::empty(),
            r.spec_shortage() == midi_needed(status),
    {
        let shortage: u8 = if (0x80 <= status && status < 0xc0) || (0xe0 <= status && status
            < 0xf0) {
            2
        } else if 0xc0 <= status && status < 0xe0 {
            1
        } else {
            0
        };
        MidiEventBuilder { status, data: Vec::new(), shortage }
    }

    /// Pushes one wire data byte; bytes beyond what the status byte
    /// demands are ignored.
    pub fn push(&mut self, data: u8)
        requires
            old(self).wf(),
        ensures
            final(self).wf(),
            final(self).spec_status() == old(self).spec_status(),
            old(self).spec_shortage() > 0 ==> {
                &&& final(self).spec_data() == old(self).spec_data() + seq![data]
                &&& final(self).spec_shortage() == old(self).spec_shortage() - 1
            },
            old(self).spec_shortage() == 0 ==> {
                &&& final(self).spec_data() == old(self).spec_data()
                &&& final(self).spec_shortage() == 0
            },
    {
        if self.shortage > 0 {
            self.data.push(data);
            self.shortage = self.shortage - 1;
        }
    }

    /// Returns how many bytes are missing until the builder is saturated.
    pub fn shortage(&self) -> (r: u8)
        ensures
            r == self.spec_shortage(),
    {
        self.shortage
    }

    /// Builds the MidiEvent from the accepted bytes.
    pub fn build(&self) -> (r: MidiEvent)
        requires
            self.wf(),
            self.spec_shortage() == 0,
        ensures
            r == spec_midi_build(self.spec_status(), self.spec_data()),
    {
        let status = self.status;
        let ch = status % 16;
        if 0x80 <= status && status < 0x90 {
            MidiEvent::NoteOff { ch, note: self.data[0], velocity: self.data[1] }
        } else if 0x90 <= status && status < 0xa0 {
            MidiEvent::NoteOn { ch, note: self.data[0], velocity: self.data[1] }
        } else if 0xa0 <= status && status < 0xb0 {
            MidiEvent::PolyphonicKeyPressure { ch, note: self.data[0], velocity: self.data[1] }
        } else if 0xb0 <= status && status < 0xc0 {
            MidiEvent::ControlChange { ch, control: self.data[0], data: self.data[1] }
        } else if 0xc0 <= status && status < 0xd0 {
            MidiEvent::ProgramChange { ch, program: self.data[0] }
        } else if 0xd0 <= status && status < 0xe0 {
            MidiEvent::ChannelPressure { ch, pressure: self.data[0] }
        } else if 0xe0 <= status && status < 0xf0 {
            let d0 = self.data[0] % 0x80;
            let d1 = self.data[1] % 0x80;
            let pitch = (d0 as u16) * 0x80 + (d1 as u16);
            MidiEvent::PitchBendChange { ch, data: pitch as i16 - 8192 }
        } else {
            MidiEvent::Unknown { ch }
        }
    }
}

/// An enum representing a system exclusive event of SMF.
#[derive(PartialEq, Eq, Structural, Clone, Copy, Debug)]
pub enum SysExEvent {
    F0,
    F7,
    Unknown { status: u8 },
}

impl SysExEvent {
    /// Builds SysExEvent from the status byte.
    pub fn new(status: u8) -> (r: SysExEvent)
        ensures
            r == spec_sys_ex_new(status),
    {
        match status {
            0xF0 => SysExEvent::F0,
            0xF7 => SysExEvent::F7,
            _ => SysExEvent::Unknown { status },
        }
    }
}

impl MessageTool for SysExEvent {
    open spec fn tool_wf(&self) -> bool {
        true
    }

    open spec fn spec_binary(&self) -> Seq<u8> {
        seq![sys_ex_status_byte(*self)]
    }

    open spec fn spec_status_byte(&self) -> u8 {
        sys_ex_status_byte(*self)
    }

    fn binary(&self) -> (r: Vec<u8>) {
        let mut r: Vec<u8> = Vec::new();
        r.push(self.status_byte());
        proof {
            assert(r@ =~= self.spec_binary());
        }
        r
    }

    fn len(&self) -> (r: usize) {
        1
    }

    fn status_byte(&self) -> (r: u8) {
        match *self {
            SysExEvent::F0 => 0xf0,
            SysExEvent::F7 => 0xf7,
            SysExEvent::Unknown { status } => status,
        }
    }
}

/// A well-formed message encodes to at least one byte and fewer than
/// 2^28 + 16 bytes.
pub proof fn lemma_msg_bytes_len(m: Message)
    requires
        msg_wf(m),
    ensures
        1 <= msg_bytes(m).len() < 0x10000010,
{
}

/// Appends `src[from..]` to `dst`.
pub(crate) fn append_from(dst: &mut Vec<u8>, src: &Vec<u8>, from: usize)
    requires
        from <= src@.len(),
    ensures
        final(dst)@ == old(dst)@ + src@.skip(from as int),
{
    let mut i = from;
    while i < src.len()
        invariant
            from <= i <= src@.len(),
            dst@ == old(dst)@ + src@.subrange(from as int, i as int),
        decreases src@.len() - i,
    {
        dst.push(src[i]);
        proof {
            assert(old(dst)@ + src@.subrange(from as int, i + 1) =~= dst@);
        }
        i = i + 1;
    }
    proof {
        assert(src@.subrange(from as int, src@.len() as int) =~= src@.skip(from as int));
    }
}

} // verus!
