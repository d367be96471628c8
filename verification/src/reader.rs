//! SMF parser: a streaming reader over an in-memory byte stream that
//! validates the chunk structure and broadcasts every decoded event to the
//! registered handlers (observers), with running-status correction and a
//! seek-only fast path over skipped tracks.

use vstd::prelude::*;
use crate::formats::{
    lemma_vlq_decode_encode,
    mthd_bytes,
    mtrk_bytes,
    vlq_bytes,
    vlq_decode,
    vlq_len,
    vlq_scan,
    Tag,
    VLQ,
    VLQBuilder,
};
use crate::messages::{
    meta_kind_byte,
    midi_channel,
    midi_data_bytes,
    midi_needed,
    midi_status_byte,
    midi_wf,
    msg_bytes,
    msg_wf,
    spec_meta_new,
    spec_midi_build,
    spec_sys_ex_new,
    Message,
    MetaEvent,
    MidiEvent,
    MidiEventBuilder,
    SysExEvent,
};

verus! {

broadcast use crate::formats::lemma_vlq_bytes_len;

/// The big-endian 16-bit quantity at `pos` (meaningful when `pos + 2 <= s.len()`).
pub open spec fn be_u16_at(s: Seq<u8>, pos: int) -> nat {
    s[pos] as nat * 0x100 + s[pos + 1] as nat
}

/// The big-endian 32-bit quantity at `pos` (meaningful when `pos + 4 <= s.len()`).
pub open spec fn be_u32_at(s: Seq<u8>, pos: int) -> nat {
    s[pos] as nat * 0x1000000 + s[pos + 1] as nat * 0x10000 + s[pos + 2] as nat * 0x100 + s[pos
        + 3] as nat
}

/// Whether the stream opens with the header chunk tag.
pub open spec fn header_tag_ok(s: Seq<u8>) -> bool {
    s.len() >= 4 && s.subrange(0, 4) == mthd_bytes()
}

/// Whether the stream carries a well-formed header chunk: the tag, the
/// identify code 6, and the three 16-bit header fields.
pub open spec fn header_ok(s: Seq<u8>) -> bool {
    header_tag_ok(s) && s.len() >= 14 && be_u32_at(s, 4) == 6
}

/// An enum representing handler status.
#[derive(PartialEq, Eq, Structural, Clone, Copy, Debug)]
pub enum HandlerStatus {
    /// Continues parsing.
    Continue,
    /// Skips parsing the rest of the current track.
    SkipTrack,
    /// Skips all remaining tracks (the parser will never send this
    /// handler a message again).
    SkipAll,
}

/// An enum representing errors of the SMF parser.
#[derive(Debug)]
pub enum ReadError {
    /// The four bytes found where the header chunk tag belongs, when they
    /// are not the header tag (missing bytes read as zero).
    InvalidHeaderTag { tag: [u8; 4] },
    /// The header length field, when it is not the required value 6.
    InvalidIdentifyCode { code: u32 },
    /// The four bytes found where a track chunk tag belongs, when they
    /// are not the track tag (missing bytes read as zero).
    InvalidTrackTag { tag: [u8; 4] },
    /// The byte stream ended before the structure it promised.
    Io,
    /// Every registered handler already reports `SkipAll`.
    NoValidHandler,
    /// A status byte outside every recognized range (for a running-status
    /// byte with no previous channel voice status, the substituted 0).
    UnknownMessageStatus { status: u8 },
}

/// Handler (observer) of `Reader`.
pub trait Handler {
    /// Fired when the SMF header chunk has been read.
    fn header(&mut self, format: u16, track: u16, time_base: u16);

    /// Fired when a meta event has been read.
    fn meta_event(&mut self, delta_time: u32, event: &MetaEvent, data: &Vec<u8>);

    /// Fired when a MIDI (channel voice) event has been read.
    fn midi_event(&mut self, delta_time: u32, event: &MidiEvent);

    /// Fired when a system exclusive event has been read.
    fn sys_ex_event(&mut self, delta_time: u32, event: &SysExEvent, data: &Vec<u8>);

    /// Fired when a track chunk begins.
    fn track_change(&mut self);

    /// Reports the handler's status to the parser.
    fn status(&mut self) -> HandlerStatus;
}

/// The outcome of decoding one track event at position `pos` with
/// running-status context `rs`: `Ok((next, rs2, has_msg))` gives the
/// position after the event, the new running-status context, and whether
/// the event carries a message (an `F7` consumed as the continuation of an
/// unterminated `F0` does not).  Decoding fails with `Io` when the stream
/// ends first, and with `UnknownMessageStatus` on an unassigned status
/// byte.
pub open spec fn event_scan(s: Seq<u8>, pos: int, rs: u8) -> Result<(int, u8, bool), ReadError> {
    match vlq_decode(s, pos) {
        None => Err(ReadError::Io),
        Some((dt, nd)) => {
            let p = pos + nd;
            if p >= s.len() {
                Err(ReadError::Io)
            } else {
                let b = s[p];
                let status = if b < 0x80 {
                    rs
                } else {
                    b
                };
                let q = if b < 0x80 {
                    p
                } else {
                    p + 1
                };
                if status == 0xff {
                    if q >= s.len() {
                        Err(ReadError::Io)
                    } else {
                        match vlq_decode(s, q + 1) {
                            None => Err(ReadError::Io),
                            Some((dlen, nl)) => {
                                if q + 1 + nl + dlen > s.len() {
                                    Err(ReadError::Io)
                                } else {
                                    Ok((q + 1 + nl + dlen, rs, true))
                                }
                            },
                        }
                    }
                } else if 0x80 <= status && status < 0xf0 {
                    let k = midi_needed(status) as int;
                    if q + k > s.len() {
                        Err(ReadError::Io)
                    } else {
                        Ok((q + k, status, true))
                    }
                } else if status == 0xf7 && rs == 0xf0 {
                    Ok((q, 0, false))
                } else if status == 0xf0 || status == 0xf7 {
                    match vlq_decode(s, q) {
                        None => Err(ReadError::Io),
                        Some((dlen, nl)) => {
                            if q + nl + dlen > s.len() {
                                Err(ReadError::Io)
                            } else {
                                Ok(
                                    (
                                        q + nl + dlen,
                                        if status == 0xf0 {
                                            0xf0
                                        } else {
                                            rs
                                        },
                                        true,
                                    ),
                                )
                            }
                        },
                    }
                } else {
                    Err(ReadError::UnknownMessageStatus { status })
                }
            }
        },
    }
}

/// What message decoding one track event yields, when `event_scan` says
/// one is carried: every field of `m` is pinned by the bytes.
pub open spec fn event_msg_ok(s: Seq<u8>, pos: int, rs: u8, m: Message) -> bool {
    match vlq_decode(s, pos) {
        None => false,
        Some((dt, nd)) => {
            let p = pos + nd;
            if p >= s.len() {
                false
            } else {
                let b = s[p];
                let status = if b < 0x80 {
                    rs
                } else {
                    b
                };
                let q = if b < 0x80 {
                    p
                } else {
                    p + 1
                };
                if status == 0xff {
                    q < s.len() && match vlq_decode(s, q + 1) {
                        None => false,
                        Some((dlen, nl)) => {
                            &&& q + 1 + nl + dlen <= s.len()
                            &&& m matches Message::MetaEvent { delta_time, event, data }
                                && delta_time as nat == dt && event == spec_meta_new(s[q]) && data@
                                == s.subrange(q + 1 + nl, q + 1 + nl + dlen)
                        },
                    }
                } else if 0x80 <= status && status < 0xf0 {
                    let k = midi_needed(status) as int;
                    &&& q + k <= s.len()
                    &&& m matches Message::MidiEvent { delta_time, event } && delta_time as nat
                        == dt && event == spec_midi_build(status, s.subrange(q, q + k))
                } else if status == 0xf7 && rs == 0xf0 {
                    false
                } else if status == 0xf0 || status == 0xf7 {
                    match vlq_decode(s, q) {
                        None => false,
                        Some((dlen, nl)) => {
                            &&& q + nl + dlen <= s.len()
                            &&& m matches Message::SysExEvent { delta_time, event, data }
                                && delta_time as nat == dt && event == spec_sys_ex_new(status)
                                && data@ == s.subrange(q + nl, q + nl + dlen)
                        },
                    }
                } else {
                    false
                }
            }
        },
    }
}

/// The status bytes no recognized event kind claims: everything below
/// 0x80 (a data byte, never a status), and the system-common range other
/// than the two system exclusive forms.
pub open spec fn unassigned_status(status: u8) -> bool {
    !(status == 0xff || (0x80 <= status && status < 0xf0) || status == 0xf0 || status == 0xf7)
}

/// The event decoder rejects a status byte only when no event kind
/// claims it.
proof fn lemma_event_scan_unknown(s: Seq<u8>, pos: int, rs: u8)
    ensures
        event_scan(s, pos, rs) matches Err(ReadError::UnknownMessageStatus { status })
            ==> unassigned_status(status),
{
}

/// One decoded track event: the message it carries (none for an `F7`
/// consumed as a continuation), the position after it, and the new
/// running-status context.
struct ParsedEvent {
    msg: Option<Message>,
    next: usize,
    status: u8,
}

/// The SMF parser.
///
/// Reads an in-memory SMF byte stream and broadcasts every decoded event
/// to the registered handlers, in registration order.
pub struct Reader<H: Handler> {
    data: Vec<u8>,
    pos: usize,
    handlers: Vec<H>,
}

impl<H: Handler> Reader<H> {
    /// The byte stream being parsed.
    pub closed spec fn spec_data(&self) -> Seq<u8> {
        self.data@
    }

    /// The current read position.
    pub closed spec fn spec_pos(&self) -> usize {
        self.pos
    }

    /// The registered handlers.
    pub closed spec fn spec_handlers(&self) -> Seq<H> {
        self.handlers@
    }

    /// Well-formedness: the read position stays within the stream.
    pub open spec fn wf(&self) -> bool {
        self.spec_pos() <= self.spec_data().len()
    }

    /// Builds a Reader from one handler (observer) and the SMF byte
    /// stream to parse.
    pub fn new(handler: H, data: Vec<u8>) -> (r: Reader<H>)
        ensures
            r.wf(),
            r.spec_data() == data@,
            r.spec_pos() == 0,
            r.spec_handlers().len() == 1,
    {
        let mut handlers: Vec<H> = Vec::new();
        handlers.push(handler);
        Reader { data, pos: 0, handlers }
    }

    /// Registers one more handler; events are dispatched in registration
    /// order.
    pub fn push_handler(&mut self, handler: H)
        ensures
            final(self).spec_data() == old(self).spec_data(),
            final(self).spec_pos() == old(self).spec_pos(),
            final(self).spec_handlers() == old(self).spec_handlers().push(handler),
    {
        self.handlers.push(handler);
    }

    /// Reads one byte and advances.
    fn read_u8(&mut self) -> (r: Result<u8, ReadError>)
        requires
            old(self).wf(),
        ensures
            final(self).wf(),
            final(self).spec_data() == old(self).spec_data(),
            final(self).spec_handlers() == old(self).spec_handlers(),
            match r {
                Ok(b) => old(self).spec_pos() < old(self).spec_data().len() && b == old(self).spec_data()[old(self).spec_pos() as int] && final(self).spec_pos() == old(self).spec_pos() + 1,
                Err(e) => (e is Io) && old(self).spec_pos() == old(self).spec_data().len() && final(self).spec_pos() == old(self).spec_pos(),
            },
    {
        if self.pos < self.data.len() {
            let b = self.data[self.pos];
            self.pos = self.pos + 1;
            Ok(b)
        } else {
            Err(ReadError::Io)
        }
    }

    /// Reads a big-endian 16-bit quantity and advances.
    fn read_u16_be(&mut self) -> (r: Result<u16, ReadError>)
        requires
            old(self).wf(),
        ensures
            final(self).wf(),
            final(self).spec_data() == old(self).spec_data(),
            final(self).spec_handlers() == old(self).spec_handlers(),
            match r {
                Ok(v) => old(self).spec_pos() + 2 <= old(self).spec_data().len() && v as nat
                    == be_u16_at(old(self).spec_data(), old(self).spec_pos() as int) && final(self).spec_pos() == old(self).spec_pos() + 2,
                Err(e) => (e is Io) && old(self).spec_pos() + 2 > old(self).spec_data().len(),
            },
    {
        if self.data.len() - self.pos < 2 {
            return Err(ReadError::Io);
        }
        let p = self.pos;
        let v = (self.data[p] as u16) * 0x100 + (self.data[p + 1] as u16);
        self.pos = p + 2;
        Ok(v)
    }

    /// Reads a big-endian 32-bit quantity and advances.
    fn read_u32_be(&mut self) -> (r: Result<u32, ReadError>)
        requires
            old(self).wf(),
        ensures
            final(self).wf(),
            final(self).spec_data() == old(self).spec_data(),
            final(self).spec_handlers() == old(self).spec_handlers(),
            match r {
                Ok(v) => old(self).spec_pos() + 4 <= old(self).spec_data().len() && v as nat
                    == be_u32_at(old(self).spec_data(), old(self).spec_pos() as int) && final(self).spec_pos() == old(self).spec_pos() + 4,
                Err(e) => (e is Io) && old(self).spec_pos() + 4 > old(self).spec_data().len(),
            },
    {
        if self.data.len() - self.pos < 4 {
            return Err(ReadError::Io);
        }
        let p = self.pos;
        let v = (self.data[p] as u32) * 0x1000000 + (self.data[p + 1] as u32) * 0x10000 + (self.data[p
            + 2] as u32) * 0x100 + (self.data[p + 3] as u32);
        self.pos = p + 4;
        Ok(v)
    }

    /// Reads one variable length quantity and advances.
    fn read_vlq(&mut self) -> (r: Result<VLQ, ReadError>)
        requires
            old(self).wf(),
        ensures
            final(self).wf(),
            final(self).spec_data() == old(self).spec_data(),
            final(self).spec_handlers() == old(self).spec_handlers(),
            match r {
                Ok(v) => {
                    &&& v.wf()
                    &&& old(self).spec_pos() < final(self).spec_pos() <= old(self).spec_data().len()
                    &&& vlq_decode(old(self).spec_data(), old(self).spec_pos() as int) == Some(
                        (
                            v.spec_val() as nat,
                            (final(self).spec_pos() - old(self).spec_pos()) as nat,
                        ),
                    )
                },
                Err(e) => (e is Io) && vlq_decode(
                    old(self).spec_data(),
                    old(self).spec_pos() as int,
                ) is None,
            },
    {
        let ghost s = self.data@;
        let ghost pos0 = self.pos;
        let mut builder = VLQBuilder::new();
        loop
            invariant_except_break
                self.wf(),
                s == old(self).spec_data(),
                pos0 == old(self).spec_pos(),
                self.spec_data() == s,
                self.spec_handlers() == old(self).spec_handlers(),
                builder.wf(),
                pos0 + builder.spec_count() == self.spec_pos(),
                !builder.spec_closed() ==> vlq_scan(s, pos0 as int, 0, 0) == vlq_scan(
                    s,
                    self.spec_pos() as int,
                    builder.spec_val() as nat,
                    builder.spec_count() as nat,
                ),
                builder.spec_closed() ==> vlq_scan(s, pos0 as int, 0, 0) == Some(
                    (builder.spec_val() as nat, builder.spec_count() as nat),
                ),
                builder.spec_closed() ==> builder.spec_count() >= 1,
            ensures
                self.wf(),
                s == old(self).spec_data(),
                pos0 == old(self).spec_pos(),
                self.spec_data() == s,
                self.spec_handlers() == old(self).spec_handlers(),
                builder.wf(),
                builder.spec_closed(),
                pos0 + builder.spec_count() == self.spec_pos(),
                builder.spec_count() >= 1,
                vlq_scan(s, pos0 as int, 0, 0) == Some(
                    (builder.spec_val() as nat, builder.spec_count() as nat),
                ),
            decreases 5 - builder.spec_count(),
        {
            if builder.closed() {
                break ;
            }
            if self.pos >= self.data.len() {
                proof {
                    assert(vlq_scan(
                        s,
                        self.spec_pos() as int,
                        builder.spec_val() as nat,
                        builder.spec_count() as nat,
                    ) is None);
                }
                return Err(ReadError::Io);
            }
            let byte = self.data[self.pos];
            self.pos = self.pos + 1;
            builder.push(byte);
        }
        Ok(builder.build())
    }

    /// Reads `len` payload bytes and advances.
    fn read_data(&mut self, len: u32) -> (r: Result<Vec<u8>, ReadError>)
        requires
            old(self).wf(),
        ensures
            final(self).wf(),
            final(self).spec_data() == old(self).spec_data(),
            final(self).spec_handlers() == old(self).spec_handlers(),
            match r {
                Ok(d) => {
                    &&& old(self).spec_pos() + len <= old(self).spec_data().len()
                    &&& d@ == old(self).spec_data().subrange(
                        old(self).spec_pos() as int,
                        old(self).spec_pos() + len,
                    )
                    &&& final(self).spec_pos() == old(self).spec_pos() + len
                },
                Err(e) => (e is Io) && old(self).spec_pos() + len > old(self).spec_data().len(),
            },
    {
        let ghost s = self.data@;
        let ghost pos0 = self.pos;
        let mut data: Vec<u8> = Vec::new();
        let mut i: u32 = 0;
        while i < len
            invariant
                0 <= i <= len,
                self.wf(),
                s == old(self).spec_data(),
                pos0 == old(self).spec_pos(),
                self.spec_data() == s,
                self.spec_handlers() == old(self).spec_handlers(),
                self.spec_pos() == pos0 + i,
                data@ == s.subrange(pos0 as int, pos0 + i),
            decreases len - i,
        {
            if self.pos >= self.data.len() {
                return Err(ReadError::Io);
            }
            data.push(self.data[self.pos]);
            self.pos = self.pos + 1;
            i = i + 1;
            proof {
                assert(data@ =~= s.subrange(pos0 as int, pos0 + i));
            }
        }
        Ok(data)
    }

    /// Decodes one track event at the current position, with
    /// running-status context `pre_status`.
    #[verifier::loop_isolation(false)]
    #[verifier::rlimit(100)]
    fn parse_event(&mut self, pre_status: u8) -> (r: Result<ParsedEvent, ReadError>)
        requires
            old(self).wf(),
        ensures
            final(self).wf(),
            final(self).spec_data() == old(self).spec_data(),
            final(self).spec_handlers() == old(self).spec_handlers(),
            match r {
                Ok(pe) => {
                    &&& event_scan(old(self).spec_data(), old(self).spec_pos() as int, pre_status)
                        == Ok::<_, ReadError>((pe.next as int, pe.status, pe.msg is Some))
                    &&& final(self).spec_pos() == pe.next
                    &&& old(self).spec_pos() < pe.next <= old(self).spec_data().len()
                    &&& (pe.msg matches Some(m) ==> event_msg_ok(
                        old(self).spec_data(),
                        old(self).spec_pos() as int,
                        pre_status,
                        m,
                    ))
                },
                Err(e) => event_scan(old(self).spec_data(), old(self).spec_pos() as int, pre_status)
                    == Err::<(int, u8, bool), _>(e),
            },
    {
        let ghost s = self.data@;
        let ghost pos0 = self.pos as int;
        let delta_time = match self.read_vlq() {
            Ok(v) => v,
            Err(e) => {
                return Err(e);
            },
        };
        let b = match self.read_u8() {
            Ok(b) => b,
            Err(e) => {
                return Err(e);
            },
        };
        let status: u8;
        if b < 0x80 {
            // running status: the byte is data, not a fresh status byte
            status = pre_status;
            self.pos = self.pos - 1;
        } else {
            status = b;
        }
        let ghost q = self.pos as int;
        if status == 0xff {
            // meta event: kind byte, length, payload
            let kind = match self.read_u8() {
                Ok(k) => k,
                Err(e) => {
                    return Err(e);
                },
            };
            let len_vlq = match self.read_vlq() {
                Ok(v) => v,
                Err(e) => {
                    return Err(e);
                },
            };
            let data = match self.read_data(len_vlq.val()) {
                Ok(d) => d,
                Err(e) => {
                    return Err(e);
                },
            };
            let event = MetaEvent::new(kind);
            let pe = ParsedEvent {
                msg: Some(Message::MetaEvent { delta_time: delta_time.val(), event, data }),
                next: self.pos,
                status: pre_status,
            };
            proof {
                assert(event_scan(s, pos0, pre_status) == Ok::<_, ReadError>(
                    (pe.next as int, pe.status, true),
                ));
            }
            Ok(pe)
        } else if 0x80 <= status && status < 0xf0 {
            // channel voice event: a fixed number of data bytes
            let mut builder = MidiEventBuilder::new(status);
            while builder.shortage() > 0
                invariant
                    self.wf(),
                    self.spec_data() == s,
                    self.spec_handlers() == old(self).spec_handlers(),
                    builder.wf(),
                    builder.spec_status() == status,
                    builder.spec_shortage() <= midi_needed(status),
                    builder.spec_data() == s.subrange(
                        q,
                        q + midi_needed(status) - builder.spec_shortage(),
                    ),
                    self.spec_pos() as int == q + midi_needed(status) - builder.spec_shortage(),
                decreases builder.spec_shortage(),
            {
                let byte = match self.read_u8() {
                    Ok(b) => b,
                    Err(e) => {
                        return Err(e);
                    },
                };
                builder.push(byte);
                proof {
                    assert(builder.spec_data() =~= s.subrange(
                        q,
                        q + midi_needed(status) - builder.spec_shortage(),
                    ));
                }
            }
            let event = builder.build();
            let pe = ParsedEvent {
                msg: Some(Message::MidiEvent { delta_time: delta_time.val(), event }),
                next: self.pos,
                status,
            };
            proof {
                assert(event_scan(s, pos0, pre_status) == Ok::<_, ReadError>(
                    (pe.next as int, pe.status, true),
                ));
            }
            Ok(pe)
        } else if status == 0xf7 && pre_status == 0xf0 {
            // an F7 right after an unterminated F0 is consumed as its
            // continuation and carries no message of its own
            Ok(ParsedEvent { msg: None, next: self.pos, status: 0 })
        } else if status == 0xf0 || status == 0xf7 {
            // system exclusive event: length, payload
            let len_vlq = match self.read_vlq() {
                Ok(v) => v,
                Err(e) => {
                    return Err(e);
                },
            };
            let data = match self.read_data(len_vlq.val()) {
                Ok(d) => d,
                Err(e) => {
                    return Err(e);
                },
            };
            let event = SysExEvent::new(status);
            let st: u8 = if status == 0xf0 {
                0xf0
            } else {
                pre_status
            };
            let pe = ParsedEvent {
                msg: Some(Message::SysExEvent { delta_time: delta_time.val(), event, data }),
                next: self.pos,
                status: st,
            };
            proof {
                assert(event_scan(s, pos0, pre_status) == Ok::<_, ReadError>(
                    (pe.next as int, pe.status, true),
                ));
            }
            Ok(pe)
        } else {
            Err(ReadError::UnknownMessageStatus { status })
        }
    }

    /// Dispatches one decoded message to every handler whose status is
    /// `Continue`, in registration order.
    #[verifier::loop_isolation(false)]
    fn dispatch(&mut self, msg: &Message)
        ensures
            final(self).spec_data() == old(self).spec_data(),
            final(self).spec_pos() == old(self).spec_pos(),
    {
        let mut i: usize = 0;
        while i < self.handlers.len()
            invariant
                self.spec_data() == old(self).spec_data(),
                self.spec_pos() == old(self).spec_pos(),
            decreases self.spec_handlers().len() - i,
        {
            let h = &mut self.handlers[i];
            if h.status() == HandlerStatus::Continue {
                match msg {
                    Message::MetaEvent { delta_time, event, data } => {
                        let h2 = &mut self.handlers[i];
                        h2.meta_event(*delta_time, event, data);
                    },
                    Message::MidiEvent { delta_time, event } => {
                        let h2 = &mut self.handlers[i];
                        h2.midi_event(*delta_time, event);
                    },
                    Message::SysExEvent { delta_time, event, data } => {
                        let h2 = &mut self.handlers[i];
                        h2.sys_ex_event(*delta_time, event, data);
                    },
                    Message::TrackChange => {},
                }
            }
            i = i + 1;
        }
    }

    /// Verifies the next four bytes against a chunk tag.  At the position
    /// where a track tag may begin, a clean end of stream is the normal
    /// end of the file (`Ok(false)`); on a matching track tag, fires
    /// `track_change` on every handler not reporting `SkipAll`.
    #[verifier::loop_isolation(false)]
    fn check_tag(&mut self, tag_type: Tag) -> (r: Result<bool, ReadError>)
        requires
            old(self).wf(),
        ensures
            final(self).wf(),
            final(self).spec_data() == old(self).spec_data(),
            tag_type == Tag::Header ==> match r {
                Ok(b) => b && old(self).spec_pos() + 4 <= old(self).spec_data().len() && old(self).spec_data().subrange(old(self).spec_pos() as int, old(self).spec_pos() + 4)
                    == mthd_bytes() && final(self).spec_pos() == old(self).spec_pos() + 4 && final(self).spec_handlers() == old(self).spec_handlers(),
                Err(e) => (e matches ReadError::InvalidHeaderTag { .. }) && !(old(self).spec_pos()
                    + 4 <= old(self).spec_data().len() && old(self).spec_data().subrange(
                    old(self).spec_pos() as int,
                    old(self).spec_pos() + 4,
                ) == mthd_bytes()),
            },
            tag_type == Tag::Track ==> match r {
                Ok(b) => {
                    &&& b ==> old(self).spec_pos() + 4 <= old(self).spec_data().len() && old(self).spec_data().subrange(old(self).spec_pos() as int, old(self).spec_pos() + 4)
                        == mtrk_bytes() && final(self).spec_pos() == old(self).spec_pos() + 4
                    &&& !b ==> old(self).spec_pos() == old(self).spec_data().len() && final(self).spec_pos() == old(self).spec_pos()
                },
                Err(e) => (e matches ReadError::InvalidTrackTag { .. }) && old(self).spec_pos()
                    < old(self).spec_data().len() && !(old(self).spec_pos() + 4 <= old(self).spec_data().len() && old(self).spec_data().subrange(
                    old(self).spec_pos() as int,
                    old(self).spec_pos() + 4,
                ) == mtrk_bytes()),
            },
    {
        let p = self.pos;
        let n = self.data.len();
        let avail = n - p;
        if avail == 0 && matches!(tag_type, Tag::Track) {
            return Ok(false);
        }
        let b0 = if avail > 0 {
            self.data[p]
        } else {
            0
        };
        let b1 = if avail > 1 {
            self.data[p + 1]
        } else {
            0
        };
        let b2 = if avail > 2 {
            self.data[p + 2]
        } else {
            0
        };
        let b3 = if avail > 3 {
            self.data[p + 3]
        } else {
            0
        };
        let tag = [b0, b1, b2, b3];
        let expected = tag_type.binary();
        if avail >= 4 && b0 == expected[0] && b1 == expected[1] && b2 == expected[2] && b3
            == expected[3] {
            self.pos = p + 4;
            proof {
                assert(self.spec_data().subrange(p as int, p + 4) =~= tag@);
            }
            match tag_type {
                Tag::Header => {},
                Tag::Track => {
                    let mut i: usize = 0;
                    while i < self.handlers.len()
                        invariant
                            self.spec_data() == old(self).spec_data(),
                            self.spec_pos() == p + 4,
                        decreases self.spec_handlers().len() - i,
                    {
                        let h = &mut self.handlers[i];
                        if h.status() != HandlerStatus::SkipAll {
                            let h2 = &mut self.handlers[i];
                            h2.track_change();
                        }
                        i = i + 1;
                    }
                },
            }
            Ok(true)
        } else {
            proof {
                if p + 4 <= n {
                    let sr = self.spec_data().subrange(p as int, p + 4);
                    assert(sr =~= tag@);
                    assert(sr[0] == b0 && sr[1] == b1 && sr[2] == b2 && sr[3] == b3);
                    assert(tag_type == Tag::Header ==> sr != mthd_bytes());
                    assert(tag_type == Tag::Track ==> sr != mtrk_bytes());
                }
            }
            match tag_type {
                Tag::Header => Err(ReadError::InvalidHeaderTag { tag }),
                Tag::Track => Err(ReadError::InvalidTrackTag { tag }),
            }
        }
    }

    /// Reads the header chunk body: the identify code (which must be 6),
    /// then format, track count and time base, which are dispatched to
    /// every handler not reporting `SkipAll`.
    #[verifier::loop_isolation(false)]
    fn read_header_block(&mut self) -> (r: Result<(), ReadError>)
        requires
            old(self).wf(),
        ensures
            final(self).wf(),
            final(self).spec_data() == old(self).spec_data(),
            match r {
                Ok(_) => old(self).spec_pos() + 10 <= old(self).spec_data().len() && be_u32_at(
                    old(self).spec_data(),
                    old(self).spec_pos() as int,
                ) == 6 && final(self).spec_pos() == old(self).spec_pos() + 10,
                Err(e) => {
                    ||| ((e is Io) && (old(self).spec_pos() + 4 > old(self).spec_data().len() || (
                    be_u32_at(old(self).spec_data(), old(self).spec_pos() as int) == 6 && old(self).spec_pos() + 10 > old(self).spec_data().len())))
                    ||| (e matches ReadError::InvalidIdentifyCode { code } && old(self).spec_pos()
                        + 4 <= old(self).spec_data().len() && code as nat == be_u32_at(
                        old(self).spec_data(),
                        old(self).spec_pos() as int,
                    ) && code != 6)
                },
            },
    {
        let file_code = match self.read_u32_be() {
            Ok(v) => v,
            Err(e) => {
                return Err(e);
            },
        };
        if file_code != 6 {
            return Err(ReadError::InvalidIdentifyCode { code: file_code });
        }
        let format = match self.read_u16_be() {
            Ok(v) => v,
            Err(e) => {
                return Err(e);
            },
        };
        let track = match self.read_u16_be() {
            Ok(v) => v,
            Err(e) => {
                return Err(e);
            },
        };
        let time_base = match self.read_u16_be() {
            Ok(v) => v,
            Err(e) => {
                return Err(e);
            },
        };
        let ghost pos1 = self.pos;
        let mut i: usize = 0;
        while i < self.handlers.len()
            invariant
                self.spec_data() == old(self).spec_data(),
                self.spec_pos() == pos1,
            decreases self.spec_handlers().len() - i,
        {
            let h = &mut self.handlers[i];
            if h.status() != HandlerStatus::SkipAll {
                let h2 = &mut self.handlers[i];
                h2.header(format, track, time_base);
            }
            i = i + 1;
        }
        Ok(())
    }

    /// Reads one track chunk body: repeatedly decodes an event and
    /// dispatches it, within the declared byte span.  When no handler
    /// reports `Continue`, the rest of the span is skipped with a single
    /// seek instead of being decoded event by event.
    #[verifier::loop_isolation(false)]
    fn read_track_block(&mut self) -> (r: Result<(), ReadError>)
        requires
            old(self).wf(),
        ensures
            final(self).wf(),
            final(self).spec_data() == old(self).spec_data(),
            match r {
                Ok(_) => final(self).spec_pos() >= old(self).spec_pos() + 4,
                Err(e) => {
                    ||| e is Io
                    ||| (e matches ReadError::UnknownMessageStatus { status }
                        && unassigned_status(status))
                },
            },
    {
        let size = match self.read_u32_be() {
            Ok(v) => v,
            Err(_) => {
                return Err(ReadError::Io);
            },
        };
        let mut data_size: u32 = size;
        let mut pre_status: u8 = 0;
        while data_size > 0
            invariant
                self.wf(),
                self.spec_data() == old(self).spec_data(),
                self.spec_pos() >= old(self).spec_pos() + 4,
            decreases data_size,
        {
            // the fast path: skip the rest of the declared span when no
            // handler wants the events
            let mut skip = true;
            let mut i: usize = 0;
            let ghost p1 = self.pos;
            while i < self.handlers.len()
                invariant
                    self.spec_data() == old(self).spec_data(),
                    self.spec_pos() == p1,
                decreases self.spec_handlers().len() - i,
            {
                let h = &mut self.handlers[i];
                if h.status() == HandlerStatus::Continue {
                    skip = false;
                }
                i = i + 1;
            }
            if skip {
                let remaining = data_size as usize;
                let avail = self.data.len() - self.pos;
                let step = if remaining < avail {
                    remaining
                } else {
                    avail
                };
                self.pos = self.pos + step;
                data_size = 0;
            } else {
                let p0 = self.pos;
                let pe = match self.parse_event(pre_status) {
                    Ok(pe) => pe,
                    Err(e) => {
                        proof {
                            lemma_event_scan_unknown(self.spec_data(), p0 as int, pre_status);
                        }
                        return Err(e);
                    },
                };
                let consumed = pe.next - p0;
                data_size = if consumed >= data_size as usize {
                    0
                } else {
                    data_size - consumed as u32
                };
                match &pe.msg {
                    Some(m) => self.dispatch(m),
                    None => {},
                }
                pre_status = pe.status;
            }
        }
        Ok(())
    }

    /// Parses the SMF byte stream and fires (broadcasts) the handlers.
    ///
    /// Always starts over from the beginning of the stream.  Fails with
    /// `NoValidHandler` before any parsing when every registered handler
    /// already reports `SkipAll`; fails with `InvalidHeaderTag` exactly
    /// when the stream does not open with the header tag, and with
    /// `InvalidIdentifyCode` exactly when the header length field is
    /// present but not 6.
    pub fn read(&mut self) -> (r: Result<(), ReadError>)
        ensures
            final(self).spec_data() == old(self).spec_data(),
            (r matches Err(ReadError::NoValidHandler)) || {
                &&& ((r matches Err(ReadError::InvalidHeaderTag { .. })) <==> !header_tag_ok(
                    old(self).spec_data(),
                ))
                &&& ((r matches Err(ReadError::InvalidIdentifyCode { .. })) <==> (header_tag_ok(
                    old(self).spec_data(),
                ) && old(self).spec_data().len() >= 8 && be_u32_at(old(self).spec_data(), 4) != 6))
            },
            (r is Ok) ==> header_ok(old(self).spec_data()),
            r matches Err(ReadError::UnknownMessageStatus { status }) ==> unassigned_status(
                status,
            ),
    {
        let mut all_skip = true;
        let mut i: usize = 0;
        while i < self.handlers.len()
            invariant
                self.wf() == old(self).wf(),
                self.spec_data() == old(self).spec_data(),
                self.spec_pos() == old(self).spec_pos(),
            decreases self.spec_handlers().len() - i,
        {
            let h = &mut self.handlers[i];
            if h.status() != HandlerStatus::SkipAll {
                all_skip = false;
            }
            i = i + 1;
        }
        if all_skip {
            return Err(ReadError::NoValidHandler);
        }
        self.pos = 0;
        match self.check_tag(Tag::Header) {
            Ok(_) => {},
            Err(e) => {
                return Err(e);
            },
        }
        match self.read_header_block() {
            Ok(_) => {},
            Err(e) => {
                return Err(e);
            },
        }
        loop
            invariant_except_break
                self.wf(),
                self.spec_data() == old(self).spec_data(),
                header_ok(old(self).spec_data()),
            ensures
                self.wf(),
                self.spec_data() == old(self).spec_data(),
            decreases self.spec_data().len() - self.spec_pos(),
        {
            let more = match self.check_tag(Tag::Track) {
                Ok(b) => b,
                Err(e) => {
                    return Err(e);
                },
            };
            if !more {
                break ;
            }
            let mut all_skip2 = true;
            let mut k: usize = 0;
            let ghost p1 = self.pos;
            while k < self.handlers.len()
                invariant
                    self.wf(),
                    self.spec_data() == old(self).spec_data(),
                    self.spec_pos() == p1,
                decreases self.spec_handlers().len() - k,
            {
                let h = &mut self.handlers[k];
                if h.status() != HandlerStatus::SkipAll {
                    all_skip2 = false;
                }
                k = k + 1;
            }
            if all_skip2 {
                break ;
            }
            match self.read_track_block() {
                Ok(_) => {},
                Err(e) => {
                    return Err(e);
                },
            }
        }
        Ok(())
    }
}

/// The messages whose wire encoding decodes back to the very same value.
/// Left out by the format itself: the `TrackChange` marker (not an
/// in-track event), the unknown fallbacks (their encodings collide with
/// assigned forms or do not parse), channels beyond the 4-bit field, and
/// the `F0` system exclusive event, whose leading payload byte stands for
/// the status byte and is dropped on the wire.
pub open spec fn msg_round_trippable(m: Message) -> bool {
    match m {
        Message::MetaEvent { event, .. } => spec_meta_new(meta_kind_byte(event)) == event,
        Message::MidiEvent { event, .. } => !(event is Unknown) && midi_channel(event) <= 15,
        Message::SysExEvent { event, .. } => event is F7,
        Message::TrackChange => false,
    }
}

/// The running-status context after the reader consumes one message: a
/// channel voice event records its status byte, an `F0` system exclusive
/// event records `0xf0`, everything else leaves the context alone.
pub open spec fn reader_rs_next(m: Message, rs: u8) -> u8 {
    match m {
        Message::MidiEvent { event, .. } => midi_status_byte(event),
        Message::SysExEvent { event, .. } => if event is F0 {
            0xf0
        } else {
            rs
        },
        _ => rs,
    }
}

/// Building a MIDI event back from its own status and data bytes yields
/// the event itself.
pub(crate) proof fn lemma_midi_build_inverts(e: MidiEvent)
    requires
        midi_wf(e),
        !(e is Unknown),
        midi_channel(e) <= 15,
    ensures
        0x80 <= midi_status_byte(e) < 0xf0,
        midi_data_bytes(e).len() == midi_needed(midi_status_byte(e)),
        spec_midi_build(midi_status_byte(e), midi_data_bytes(e)) == e,
{
    match e {
        MidiEvent::PitchBendChange { ch, data } => {
            let pitch = data + 8192;
            assert((pitch / 0x80) * 0x80 + pitch % 0x80 == pitch);
            assert(0 <= pitch / 0x80 < 0x80);
        },
        _ => {},
    }
}

/// Message round trip: wherever a slice of a stream holds the full wire
/// encoding of a round-trippable message, the track-body decoder started
/// there yields exactly that message, consumes exactly its encoding, and
/// carries the running-status context forward accordingly.  (A stored
/// `F7` event asks for a context other than `0xf0`: right after an
/// unterminated `F0`, an `F7` byte is consumed as its continuation
/// instead.)
pub proof fn lemma_message_round_trip(s: Seq<u8>, pos: int, rs: u8, m: Message)
    requires
        msg_wf(m),
        msg_round_trippable(m),
        m is SysExEvent ==> rs != 0xf0,
        0 <= pos,
        pos + msg_bytes(m).len() <= s.len(),
        s.subrange(pos, pos + msg_bytes(m).len() as int) == msg_bytes(m),
    ensures
        event_scan(s, pos, rs) == Ok::<_, ReadError>(
            (pos + msg_bytes(m).len(), reader_rs_next(m, rs), true),
        ),
        event_msg_ok(s, pos, rs, m),
{
    let enc = msg_bytes(m);
    let l = enc.len() as int;
    assert(forall|i: int| 0 <= i < l ==> s[pos + i] == #[trigger] enc[i]) by {
        assert(forall|i: int| 0 <= i < l ==> s.subrange(pos, pos + l)[i] == #[trigger] enc[i]);
    }
    match m {
        Message::MetaEvent { delta_time, event, data } => {
            let dta = vlq_bytes(delta_time as nat);
            let dlen = data@.len() as int;
            let lb = vlq_bytes(dlen as nat);
            assert(enc == dta + seq![0xffu8, meta_kind_byte(event)] + lb + data@);
            let ndt = vlq_len(delta_time as nat) as int;
            let nl = vlq_len(dlen as nat) as int;
            assert forall|i: int| 0 <= i < ndt implies s.subrange(pos, pos + ndt)[i] == dta[i] by {
                assert(s[pos + i] == enc[i]);
            }
            assert(s.subrange(pos, pos + ndt) =~= dta);
            lemma_vlq_decode_encode(s, pos, delta_time as nat);
            let p = pos + ndt;
            assert(enc[ndt] == 0xff);
            assert(s[p] == enc[ndt]);
            let q = p + 1;
            assert(enc[ndt + 1] == meta_kind_byte(event));
            assert(s[q] == enc[ndt + 1]);
            assert forall|i: int| 0 <= i < nl implies s.subrange(q + 1, q + 1 + nl)[i] == lb[i] by {
                assert(s[q + 1 + i] == enc[ndt + 2 + i]);
            }
            assert(s.subrange(q + 1, q + 1 + nl) =~= lb);
            lemma_vlq_decode_encode(s, q + 1, dlen as nat);
            assert forall|i: int|
                0 <= i < dlen implies s.subrange(q + 1 + nl, q + 1 + nl + dlen)[i] == data@[i] by {
                assert(s[q + 1 + nl + i] == enc[ndt + 2 + nl + i]);
            }
            assert(s.subrange(q + 1 + nl, q + 1 + nl + dlen) =~= data@);
            assert(event_scan(s, pos, rs) == Ok::<_, ReadError>((pos + l, rs, true)));
            assert(event_msg_ok(s, pos, rs, m));
        },
        Message::MidiEvent { delta_time, event } => {
            let dta = vlq_bytes(delta_time as nat);
            let sb = midi_status_byte(event);
            let db = midi_data_bytes(event);
            assert(enc == dta + seq![sb] + db);
            let ndt = vlq_len(delta_time as nat) as int;
            assert forall|i: int| 0 <= i < ndt implies s.subrange(pos, pos + ndt)[i] == dta[i] by {
                assert(s[pos + i] == enc[i]);
            }
            assert(s.subrange(pos, pos + ndt) =~= dta);
            lemma_vlq_decode_encode(s, pos, delta_time as nat);
            let p = pos + ndt;
            lemma_midi_build_inverts(event);
            assert(enc[ndt] == sb);
            assert(s[p] == enc[ndt]);
            let q = p + 1;
            let k = midi_needed(sb) as int;
            assert forall|i: int| 0 <= i < k implies s.subrange(q, q + k)[i] == db[i] by {
                assert(s[q + i] == enc[ndt + 1 + i]);
            }
            assert(s.subrange(q, q + k) =~= db);
            assert(event_scan(s, pos, rs) == Ok::<_, ReadError>((pos + l, sb, true)));
            assert(event_msg_ok(s, pos, rs, m));
        },
        Message::SysExEvent { delta_time, event, data } => {
            let dta = vlq_bytes(delta_time as nat);
            let dlen = data@.len() as int;
            let lb = vlq_bytes(dlen as nat);
            assert(enc == dta + seq![0xf7u8] + lb + data@);
            let ndt = vlq_len(delta_time as nat) as int;
            let nl = vlq_len(dlen as nat) as int;
            assert forall|i: int| 0 <= i < ndt implies s.subrange(pos, pos + ndt)[i] == dta[i] by {
                assert(s[pos + i] == enc[i]);
            }
            assert(s.subrange(pos, pos + ndt) =~= dta);
            lemma_vlq_decode_encode(s, pos, delta_time as nat);
            let p = pos + ndt;
            assert(enc[ndt] == 0xf7);
            assert(s[p] == enc[ndt]);
            let q = p + 1;
            assert forall|i: int| 0 <= i < nl implies s.subrange(q, q + nl)[i] == lb[i] by {
                assert(s[q + i] == enc[ndt + 1 + i]);
            }
            assert(s.subrange(q, q + nl) =~= lb);
            lemma_vlq_decode_encode(s, q, dlen as nat);
            assert forall|i: int|
                0 <= i < dlen implies s.subrange(q + nl, q + nl + dlen)[i] == data@[i] by {
                assert(s[q + nl + i] == enc[ndt + 1 + nl + i]);
            }
            assert(s.subrange(q + nl, q + nl + dlen) =~= data@);
            assert(event_scan(s, pos, rs) == Ok::<_, ReadError>((pos + l, rs, true)));
            assert(event_msg_ok(s, pos, rs, m));
        },
        Message::TrackChange => {},
    }
}

/// Decoding one channel voice event whose status byte was omitted under
/// running status: with the event's own status byte as context, the
/// decoder rebuilds the full event from its delta time and data bytes
/// alone.  The first data byte is below 0x80, as every channel voice data
/// byte is on a well-formed stream; that is what tells the decoder a
/// status byte was omitted.
pub proof fn lemma_compressed_event_decode(s: Seq<u8>, pos: int, sb: u8, m: Message)
    requires
        msg_wf(m),
        msg_round_trippable(m),
        m is MidiEvent,
        midi_status_byte(m->MidiEvent_event) == sb,
        midi_data_bytes(m->MidiEvent_event)[0] < 0x80,
        0 <= pos,
        pos + msg_bytes(m).len() - 1 <= s.len(),
        s.subrange(pos, pos + msg_bytes(m).len() - 1) == vlq_bytes(
            m->MidiEvent_delta_time as nat,
        ) + midi_data_bytes(m->MidiEvent_event),
    ensures
        event_scan(s, pos, sb) == Ok::<_, ReadError>((pos + msg_bytes(m).len() - 1, sb, true)),
        event_msg_ok(s, pos, sb, m),
{
    let ev = m->MidiEvent_event;
    let dt = m->MidiEvent_delta_time;
    let dta = vlq_bytes(dt as nat);
    let n = vlq_len(dt as nat) as int;
    let db = midi_data_bytes(ev);
    let k = db.len() as int;
    lemma_midi_build_inverts(ev);
    let enc = dta + db;
    let l = enc.len() as int;
    assert(msg_bytes(m) == dta + seq![sb] + db);
    assert(l == msg_bytes(m).len() - 1);
    assert(forall|j: int| 0 <= j < l ==> s[pos + j] == #[trigger] enc[j]) by {
        assert(forall|j: int| 0 <= j < l ==> s.subrange(pos, pos + l)[j] == #[trigger] enc[j]);
    }
    assert forall|j: int| 0 <= j < n implies s.subrange(pos, pos + n)[j] == dta[j] by {
        assert(s[pos + j] == enc[j]);
    }
    assert(s.subrange(pos, pos + n) =~= dta);
    lemma_vlq_decode_encode(s, pos, dt as nat);
    let p = pos + n;
    assert(enc[n] == db[0]);
    assert(s[p] == enc[n]);
    assert forall|j: int| 0 <= j < k implies s.subrange(p, p + k)[j] == db[j] by {
        assert(s[p + j] == enc[n + j]);
    }
    assert(s.subrange(p, p + k) =~= db);
    assert(event_scan(s, pos, sb) == Ok::<_, ReadError>((pos + l, sb, true)));
    assert(event_msg_ok(s, pos, sb, m));
}

/// Whether decoding events one after another from `pos` with context `rs`
/// yields exactly the messages `msgs[i..]`, each event carrying its
/// message and handing its context to the next.
pub open spec fn events_decode_to(s: Seq<u8>, pos: int, rs: u8, msgs: Seq<Message>, i: int) -> bool
    decreases msgs.len() - i,
{
    if i < 0 || i >= msgs.len() {
        true
    } else {
        match event_scan(s, pos, rs) {
            Ok((next, rs2, has)) => has && event_msg_ok(s, pos, rs, msgs[i]) && events_decode_to(
                s,
                next,
                rs2,
                msgs,
                i + 1,
            ),
            Err(_) => false,
        }
    }
}

} // verus!
