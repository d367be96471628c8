use ghakuf::messages::{Message, MetaEvent, MidiEvent, SysExEvent};
use ghakuf::reader::{Handler, HandlerStatus, ReadError, Reader};
use ghakuf::writer::{WriteError, Writer};
use std::cell::RefCell;
use std::rc::Rc;

/// The two-track sample stream: a tempo track and a melody that leans on
/// running status.
fn reference_smf() -> Vec<u8> {
    let mut f: Vec<u8> = Vec::new();
    f.extend_from_slice(b"MThd");
    f.extend_from_slice(&[0, 0, 0, 6, 0, 1, 0, 2]);
    f.extend_from_slice(&[0x01, 0xe0]);
    f.extend_from_slice(b"MTrk");
    f.extend_from_slice(&[0, 0, 0, 11]);
    f.extend_from_slice(&[0, 0xff, 0x51, 0x03]);
    let tempo: u32 = 60 * 1000000 / 102; //bpm:102
    f.extend_from_slice(&[(tempo >> 16) as u8, (tempo >> 8) as u8, tempo as u8]);
    f.extend_from_slice(&[0, 0xff, 0x2f, 0]);
    f.extend_from_slice(b"MTrk");
    f.extend_from_slice(&[0, 0, 0, 24]);
    f.extend_from_slice(&[0, 0x90, 0x3c, 0x7f]);
    f.extend_from_slice(&[0x30, 0x3c, 0]);
    f.extend_from_slice(&[0, 0x3e, 0x7f]);
    f.extend_from_slice(&[0x30, 0x3e, 0]);
    f.extend_from_slice(&[0, 0x40, 0x7f]);
    f.extend_from_slice(&[0x81, 0x40, 0x40, 0]);
    f.extend_from_slice(&[0, 0xff, 0x2f, 0x00]);
    f
}

fn test_messages() -> Vec<Message> {
    let mut test_messages: Vec<Message> = Vec::new();
    let tempo: u32 = 60 * 1000000 / 102; //bpm:102
    test_messages.push(Message::MetaEvent {
        delta_time: 0,
        event: MetaEvent::SetTempo,
        data: [(tempo >> 16) as u8, (tempo >> 8) as u8, tempo as u8].to_vec(),
    });
    test_messages.push(Message::MetaEvent {
        delta_time: 0,
        event: MetaEvent::EndOfTrack,
        data: Vec::new(),
    });
    test_messages.push(Message::TrackChange);
    test_messages.push(Message::MidiEvent {
        delta_time: 0,
        event: MidiEvent::NoteOn {
            ch: 0,
            note: 0x3c,
            velocity: 0x7f,
        },
    });
    test_messages.push(Message::MidiEvent {
        delta_time: 48,
        event: MidiEvent::NoteOn {
            ch: 0,
            note: 0x3c,
            velocity: 0,
        },
    });
    test_messages.push(Message::MidiEvent {
        delta_time: 0,
        event: MidiEvent::NoteOn {
            ch: 0,
            note: 0x3e,
            velocity: 0x7f,
        },
    });
    test_messages.push(Message::MidiEvent {
        delta_time: 48,
        event: MidiEvent::NoteOn {
            ch: 0,
            note: 0x3e,
            velocity: 0,
        },
    });
    test_messages.push(Message::MidiEvent {
        delta_time: 0,
        event: MidiEvent::NoteOn {
            ch: 0,
            note: 0x40,
            velocity: 0x7f,
        },
    });
    test_messages.push(Message::MidiEvent {
        delta_time: 192,
        event: MidiEvent::NoteOn {
            ch: 0,
            note: 0x40,
            velocity: 0,
        },
    });
    test_messages.push(Message::MetaEvent {
        delta_time: 0,
        event: MetaEvent::EndOfTrack,
        data: Vec::new(),
    });
    test_messages
}

#[test]
fn parse_integration_testing() {
    let mut reader = Reader::new(
        ReaderHandler {
            messages: test_messages(),
        },
        reference_smf(),
    );
    assert!(reader.read().is_ok());
}

struct ReaderHandler {
    messages: Vec<Message>,
}

impl Handler for ReaderHandler {
    fn header(&mut self, format: u16, track: u16, time_base: u16) {
        assert_eq!(format, 1);
        assert_eq!(track, 2);
        assert_eq!(time_base, 480);
    }
    fn meta_event(&mut self, delta_time: u32, event: &MetaEvent, data: &Vec<u8>) {
        assert_eq!(
            Message::MetaEvent {
                delta_time,
                event: event.clone(),
                data: data.clone(),
            },
            self.messages[0]
        );
        self.messages.remove(0);
    }
    fn midi_event(&mut self, delta_time: u32, event: &MidiEvent) {
        assert_eq!(
            Message::MidiEvent {
                delta_time,
                event: event.clone(),
            },
            self.messages[0]
        );
        self.messages.remove(0);
    }
    fn sys_ex_event(&mut self, delta_time: u32, event: &SysExEvent, data: &Vec<u8>) {
        assert_eq!(
            Message::SysExEvent {
                delta_time,
                event: event.clone(),
                data: data.clone(),
            },
            self.messages[0]
        );
        self.messages.remove(0);
    }
    fn track_change(&mut self) {
        if !self.messages.is_empty() && self.messages[0] == Message::TrackChange {
            self.messages.remove(0);
        }
    }
    fn status(&mut self) -> HandlerStatus {
        HandlerStatus::Continue
    }
}

#[test]
fn build_integration_testing() {
    let mut writer = Writer::new();
    writer.running_status(true);
    let test_messages = test_messages();
    for message in test_messages {
        writer.push(message);
    }
    let written = writer.write();
    assert!(written.is_ok());
    let data_write = written.unwrap();
    let data_read = reference_smf();
    if data_read.is_empty() || data_write.is_empty() {
        assert!(false);
    }
    assert_eq!(data_read, data_write);
}

/// A handler that records everything it observes; `TrackChange` markers
/// stand for `track_change` callbacks.
struct Collector {
    log: Rc<RefCell<Vec<Message>>>,
    headers: Rc<RefCell<Vec<(u16, u16, u16)>>>,
    status: HandlerStatus,
    skip_track_after_header: bool,
    resume_on_second_track: bool,
    tracks_seen: usize,
}

impl Collector {
    fn new(
        log: Rc<RefCell<Vec<Message>>>,
        headers: Rc<RefCell<Vec<(u16, u16, u16)>>>,
    ) -> Collector {
        Collector {
            log,
            headers,
            status: HandlerStatus::Continue,
            skip_track_after_header: false,
            resume_on_second_track: false,
            tracks_seen: 0,
        }
    }
}

impl Handler for Collector {
    fn header(&mut self, format: u16, track: u16, time_base: u16) {
        self.headers.borrow_mut().push((format, track, time_base));
        if self.skip_track_after_header {
            self.status = HandlerStatus::SkipTrack;
        }
    }
    fn meta_event(&mut self, delta_time: u32, event: &MetaEvent, data: &Vec<u8>) {
        self.log.borrow_mut().push(Message::MetaEvent {
            delta_time,
            event: event.clone(),
            data: data.clone(),
        });
    }
    fn midi_event(&mut self, delta_time: u32, event: &MidiEvent) {
        self.log.borrow_mut().push(Message::MidiEvent {
            delta_time,
            event: event.clone(),
        });
    }
    fn sys_ex_event(&mut self, delta_time: u32, event: &SysExEvent, data: &Vec<u8>) {
        self.log.borrow_mut().push(Message::SysExEvent {
            delta_time,
            event: event.clone(),
            data: data.clone(),
        });
    }
    fn track_change(&mut self) {
        self.tracks_seen += 1;
        self.log.borrow_mut().push(Message::TrackChange);
        if self.resume_on_second_track && self.tracks_seen >= 2 {
            self.status = HandlerStatus::Continue;
        }
    }
    fn status(&mut self) -> HandlerStatus {
        self.status.clone()
    }
}

// Building a file from the reference scenario with running status on,
// then reading it back, yields the identical message sequence (modulo the
// synthesized leading track boundary), and building the same sequence
// twice gives byte-identical files.
#[test]
fn end_to_end_scenario() {
    let tempo: u32 = 60 * 1000000 / 102; //bpm:102
    let messages: Vec<Message> = vec![
        Message::MetaEvent {
            delta_time: 0,
            event: MetaEvent::SetTempo,
            data: [(tempo >> 16) as u8, (tempo >> 8) as u8, tempo as u8].to_vec(),
        },
        Message::MetaEvent {
            delta_time: 0,
            event: MetaEvent::EndOfTrack,
            data: Vec::new(),
        },
        Message::TrackChange,
        Message::MidiEvent {
            delta_time: 0,
            event: MidiEvent::NoteOn { ch: 0, note: 0x3c, velocity: 0x7f },
        },
        Message::MidiEvent {
            delta_time: 192,
            event: MidiEvent::NoteOn { ch: 0, note: 0x40, velocity: 0x00 },
        },
        Message::MetaEvent {
            delta_time: 0,
            event: MetaEvent::EndOfTrack,
            data: Vec::new(),
        },
    ];
    let mut writer = Writer::new();
    writer.format(1);
    writer.time_base(480);
    writer.running_status(true);
    for message in messages.iter() {
        writer.push(message.clone());
    }
    let first = writer.write().unwrap();
    let second = writer.write().unwrap();
    assert_eq!(first, second);

    let log = Rc::new(RefCell::new(Vec::new()));
    let headers = Rc::new(RefCell::new(Vec::new()));
    let collector = Collector::new(log.clone(), headers.clone());
    let mut reader = Reader::new(collector, first);
    assert!(reader.read().is_ok());
    assert_eq!(*headers.borrow(), vec![(1, 2, 480)]);
    let mut expected = vec![Message::TrackChange];
    expected.extend(messages);
    assert_eq!(*log.borrow(), expected);
}

// Two consecutive channel voice events with identical status, with
// running status on, cost one byte less than their two full encodings;
// decoding yields both events unchanged.
#[test]
fn running_status_idempotence() {
    let m1 = Message::MidiEvent {
        delta_time: 0,
        event: MidiEvent::NoteOn { ch: 0, note: 0x3c, velocity: 0x7f },
    };
    let m2 = Message::MidiEvent {
        delta_time: 0,
        event: MidiEvent::NoteOn { ch: 0, note: 0x40, velocity: 0x00 },
    };
    let eot = Message::MetaEvent {
        delta_time: 0,
        event: MetaEvent::EndOfTrack,
        data: Vec::new(),
    };
    assert_eq!(m1.len(), 4);
    assert_eq!(m2.len(), 4);
    let mut writer = Writer::new();
    writer.running_status(true);
    writer.push(m1.clone());
    writer.push(m2.clone());
    writer.push(eot.clone());
    let bytes = writer.write().unwrap();
    // header (14) + track header (8) + m1 (4) + m2 compressed (3) + end of track (4)
    assert_eq!(bytes.len(), 14 + 8 + 4 + 3 + 4);
    assert_eq!(&bytes[14..22], &[0x4d, 0x54, 0x72, 0x6b, 0, 0, 0, 11]);
    assert_eq!(&bytes[22..], &[0, 0x90, 0x3c, 0x7f, 0, 0x40, 0x00, 0, 0xff, 0x2f, 0x00]);

    let log = Rc::new(RefCell::new(Vec::new()));
    let headers = Rc::new(RefCell::new(Vec::new()));
    let collector = Collector::new(log.clone(), headers.clone());
    let mut reader = Reader::new(collector, bytes);
    assert!(reader.read().is_ok());
    assert_eq!(*log.borrow(), vec![Message::TrackChange, m1, m2, eot]);
}

// A reader whose sole handler reports SkipTrack right after the header
// skips the first track's events entirely and still locates the second
// track.
#[test]
fn skip_fast_path() {
    let log = Rc::new(RefCell::new(Vec::new()));
    let headers = Rc::new(RefCell::new(Vec::new()));
    let mut collector = Collector::new(log.clone(), headers.clone());
    collector.skip_track_after_header = true;
    collector.resume_on_second_track = true;
    let mut reader = Reader::new(collector, reference_smf());
    assert!(reader.read().is_ok());
    // no event from the first track; the second track arrives whole
    let expected = vec![
        Message::TrackChange,
        Message::TrackChange,
        Message::MidiEvent {
            delta_time: 0,
            event: MidiEvent::NoteOn { ch: 0, note: 0x3c, velocity: 0x7f },
        },
        Message::MidiEvent {
            delta_time: 48,
            event: MidiEvent::NoteOn { ch: 0, note: 0x3c, velocity: 0 },
        },
        Message::MidiEvent {
            delta_time: 0,
            event: MidiEvent::NoteOn { ch: 0, note: 0x3e, velocity: 0x7f },
        },
        Message::MidiEvent {
            delta_time: 48,
            event: MidiEvent::NoteOn { ch: 0, note: 0x3e, velocity: 0 },
        },
        Message::MidiEvent {
            delta_time: 0,
            event: MidiEvent::NoteOn { ch: 0, note: 0x40, velocity: 0x7f },
        },
        Message::MidiEvent {
            delta_time: 192,
            event: MidiEvent::NoteOn { ch: 0, note: 0x40, velocity: 0 },
        },
        Message::MetaEvent {
            delta_time: 0,
            event: MetaEvent::EndOfTrack,
            data: Vec::new(),
        },
    ];
    assert_eq!(*log.borrow(), expected);
}

// A stream whose header tag is "XYZZ" fails with InvalidHeaderTag and
// fires no callback.
#[test]
fn invalid_header_tag() {
    let mut data = reference_smf();
    data[0] = b'X';
    data[1] = b'Y';
    data[2] = b'Z';
    data[3] = b'Z';
    let log = Rc::new(RefCell::new(Vec::new()));
    let headers = Rc::new(RefCell::new(Vec::new()));
    let collector = Collector::new(log.clone(), headers.clone());
    let mut reader = Reader::new(collector, data);
    let result = reader.read();
    assert!(matches!(
        result,
        Err(ReadError::InvalidHeaderTag { tag: [b'X', b'Y', b'Z', b'Z'] })
    ));
    assert!(headers.borrow().is_empty());
    assert!(log.borrow().is_empty());
}

// A status byte that is unassigned inside a track fails with
// UnknownMessageStatus and is not silently skipped.
#[test]
fn unknown_message_status() {
    let mut data: Vec<u8> = Vec::new();
    data.extend_from_slice(b"MThd");
    data.extend_from_slice(&[0, 0, 0, 6, 0, 0, 0, 1, 0x01, 0xe0]);
    data.extend_from_slice(b"MTrk");
    data.extend_from_slice(&[0, 0, 0, 4]);
    // delta time 0, then the unassigned byte 0x50 where a status byte
    // belongs, with no previous channel voice status to substitute
    data.extend_from_slice(&[0x00, 0x50, 0x00, 0x00]);
    let log = Rc::new(RefCell::new(Vec::new()));
    let headers = Rc::new(RefCell::new(Vec::new()));
    let collector = Collector::new(log.clone(), headers.clone());
    let mut reader = Reader::new(collector, data);
    assert!(matches!(
        reader.read(),
        Err(ReadError::UnknownMessageStatus { .. })
    ));

    let mut data: Vec<u8> = Vec::new();
    data.extend_from_slice(b"MThd");
    data.extend_from_slice(&[0, 0, 0, 6, 0, 0, 0, 1, 0x01, 0xe0]);
    data.extend_from_slice(b"MTrk");
    data.extend_from_slice(&[0, 0, 0, 2]);
    data.extend_from_slice(&[0x00, 0xf4]);
    let collector = Collector::new(Rc::new(RefCell::new(Vec::new())), Rc::new(RefCell::new(Vec::new())));
    let mut reader = Reader::new(collector, data);
    assert!(matches!(
        reader.read(),
        Err(ReadError::UnknownMessageStatus { status: 0xf4 })
    ));
}

#[test]
fn invalid_identify_code() {
    let mut data = reference_smf();
    data[7] = 7;
    let collector = Collector::new(Rc::new(RefCell::new(Vec::new())), Rc::new(RefCell::new(Vec::new())));
    let mut reader = Reader::new(collector, data);
    assert!(matches!(
        reader.read(),
        Err(ReadError::InvalidIdentifyCode { code: 7 })
    ));
}

#[test]
fn invalid_track_tag() {
    let mut data = reference_smf();
    data[14] = b'X';
    let collector = Collector::new(Rc::new(RefCell::new(Vec::new())), Rc::new(RefCell::new(Vec::new())));
    let mut reader = Reader::new(collector, data);
    assert!(matches!(reader.read(), Err(ReadError::InvalidTrackTag { .. })));
}

#[test]
fn truncated_stream_io_error() {
    let mut data = reference_smf();
    data.truncate(30);
    let collector = Collector::new(Rc::new(RefCell::new(Vec::new())), Rc::new(RefCell::new(Vec::new())));
    let mut reader = Reader::new(collector, data);
    assert!(matches!(reader.read(), Err(ReadError::Io)));

    let mut data = reference_smf();
    data.truncate(8);
    let collector = Collector::new(Rc::new(RefCell::new(Vec::new())), Rc::new(RefCell::new(Vec::new())));
    let mut reader = Reader::new(collector, data);
    assert!(matches!(reader.read(), Err(ReadError::Io)));
}

#[test]
fn no_valid_handler() {
    let log = Rc::new(RefCell::new(Vec::new()));
    let headers = Rc::new(RefCell::new(Vec::new()));
    let mut collector = Collector::new(log.clone(), headers.clone());
    collector.status = HandlerStatus::SkipAll;
    let mut reader = Reader::new(collector, reference_smf());
    assert!(matches!(reader.read(), Err(ReadError::NoValidHandler)));
    assert!(headers.borrow().is_empty());
}

#[test]
fn writer_rejects_oversized_quantities() {
    let mut writer = Writer::new();
    writer.push(Message::MetaEvent {
        delta_time: 0x10000000,
        event: MetaEvent::EndOfTrack,
        data: Vec::new(),
    });
    assert!(!writer.writable());
    assert!(matches!(writer.write(), Err(WriteError::SmfFormat)));
}

#[test]
fn writer_push_remove() {
    let messages: Vec<Message> = vec![
        Message::MidiEvent {
            delta_time: 0,
            event: MidiEvent::NoteOn { ch: 0, note: 0x40, velocity: 0 },
        },
        Message::TrackChange,
        Message::MetaEvent {
            delta_time: 0,
            event: MetaEvent::EndOfTrack,
            data: Vec::new(),
        },
    ];
    let mut writer = Writer::new();
    for message in messages.iter() {
        writer.push(message.clone());
    }
    let removed = writer.remove(1);
    assert_eq!(removed, Message::TrackChange);
    assert_eq!(writer.messages()[0], messages[0]);
    assert_eq!(writer.messages()[1], messages[2]);
    assert_eq!(writer.messages().len(), 2);
}

#[test]
fn writer_empty_header_only() {
    let writer = Writer::new();
    let bytes = writer.write().unwrap();
    assert_eq!(
        bytes,
        vec![0x4d, 0x54, 0x68, 0x64, 0, 0, 0, 6, 0, 1, 0, 0, 0x01, 0xe0]
    );
}

// An F7 system exclusive event round-trips whole; an F0 event's payload
// comes back without its leading status stand-in byte.
#[test]
fn sys_ex_round_trip() {
    let f7 = Message::SysExEvent {
        delta_time: 5,
        event: SysExEvent::F7,
        data: vec![0x7e, 0x01, 0x02],
    };
    let eot = Message::MetaEvent {
        delta_time: 0,
        event: MetaEvent::EndOfTrack,
        data: Vec::new(),
    };
    let mut writer = Writer::new();
    writer.push(f7.clone());
    writer.push(eot.clone());
    let bytes = writer.write().unwrap();
    let log = Rc::new(RefCell::new(Vec::new()));
    let headers = Rc::new(RefCell::new(Vec::new()));
    let collector = Collector::new(log.clone(), headers.clone());
    let mut reader = Reader::new(collector, bytes);
    assert!(reader.read().is_ok());
    assert_eq!(*log.borrow(), vec![Message::TrackChange, f7, eot.clone()]);

    let f0 = Message::SysExEvent {
        delta_time: 0,
        event: SysExEvent::F0,
        data: vec![0xf0, 0x7e, 0x09],
    };
    let mut writer = Writer::new();
    writer.push(f0);
    writer.push(eot.clone());
    let bytes = writer.write().unwrap();
    let log = Rc::new(RefCell::new(Vec::new()));
    let collector = Collector::new(log.clone(), Rc::new(RefCell::new(Vec::new())));
    let mut reader = Reader::new(collector, bytes);
    assert!(reader.read().is_ok());
    let observed_f0 = Message::SysExEvent {
        delta_time: 0,
        event: SysExEvent::F0,
        data: vec![0x7e, 0x09],
    };
    assert_eq!(*log.borrow(), vec![Message::TrackChange, observed_f0, eot]);
}

// A meta event with a payload and a pitch bend event survive the full
// build-and-parse cycle unchanged.
#[test]
fn assorted_message_round_trip() {
    let messages: Vec<Message> = vec![
        Message::MetaEvent {
            delta_time: 3,
            event: MetaEvent::SequenceOrTrackName,
            data: b"lead".to_vec(),
        },
        Message::MidiEvent {
            delta_time: 200,
            event: MidiEvent::PitchBendChange { ch: 3, data: -1234 },
        },
        Message::MidiEvent {
            delta_time: 0,
            event: MidiEvent::ControlChange { ch: 15, control: 7, data: 100 },
        },
        Message::MidiEvent {
            delta_time: 1,
            event: MidiEvent::ProgramChange { ch: 2, program: 80 },
        },
        Message::MetaEvent {
            delta_time: 0,
            event: MetaEvent::EndOfTrack,
            data: Vec::new(),
        },
    ];
    let mut writer = Writer::new();
    writer.format(0);
    for message in messages.iter() {
        writer.push(message.clone());
    }
    let bytes = writer.write().unwrap();
    let log = Rc::new(RefCell::new(Vec::new()));
    let headers = Rc::new(RefCell::new(Vec::new()));
    let collector = Collector::new(log.clone(), headers.clone());
    let mut reader = Reader::new(collector, bytes);
    assert!(reader.read().is_ok());
    assert_eq!(*headers.borrow(), vec![(0, 1, 480)]);
    let mut expected = vec![Message::TrackChange];
    expected.extend(messages);
    assert_eq!(*log.borrow(), expected);
}

// Every event goes to all registered handlers whose status permits it,
// in registration order.
#[test]
fn multi_handler_fan_out() {
    let log_a = Rc::new(RefCell::new(Vec::new()));
    let log_b = Rc::new(RefCell::new(Vec::new()));
    let headers_a = Rc::new(RefCell::new(Vec::new()));
    let headers_b = Rc::new(RefCell::new(Vec::new()));
    let first = Collector::new(log_a.clone(), headers_a.clone());
    let second = Collector::new(log_b.clone(), headers_b.clone());
    let mut reader = Reader::new(first, reference_smf());
    reader.push_handler(second);
    assert!(reader.read().is_ok());
    assert_eq!(*headers_a.borrow(), vec![(1, 2, 480)]);
    assert_eq!(*headers_b.borrow(), vec![(1, 2, 480)]);
    assert_eq!(*log_a.borrow(), *log_b.borrow());
    assert_eq!(log_a.borrow().len(), 11);
}
