//! SMF builder: accumulates messages and serializes them into a complete
//! SMF byte stream, with optional running-status compression.
//!
//! Serialization is two-pass: a pre-pass computes every track chunk's exact
//! byte length, queued in the order the chunk headers are emitted, and the
//! emission pass writes each chunk header from that queue.  The two passes
//! agree on the running-status compression, so every declared chunk length
//! matches the chunk's encoded content.

use vstd::prelude::*;
use crate::formats::{
    format_bytes,
    mthd_bytes,
    mtrk_bytes,
    spec_format_new,
    vlq_bytes,
    vlq_len,
    Format,
    VLQ,
};
use crate::messages::{
    append_from,
    lemma_msg_bytes_len,
    midi_data_bytes,
    midi_status_byte,
    msg_bytes,
    msg_wf,
    Message,
    MessageTool,
};
use crate::reader::{
    event_msg_ok,
    event_scan,
    lemma_message_round_trip,
    msg_round_trippable,
    ReadError,
};

verus! {

broadcast use crate::formats::lemma_vlq_bytes_len;

/// An enum representing errors of the SMF builder.
#[derive(PartialEq, Eq, Structural, Clone, Copy, Debug)]
pub enum WriteError {
    /// The stored messages do not fit the SMF wire format (a quantity
    /// above the VLQ ceiling, a track chunk longer than its 32-bit length
    /// field allows, or more tracks than the 16-bit count field allows).
    SmfFormat,
}

/// Big-endian bytes of a 16-bit quantity (meaningful for `v < 0x10000`).
pub open spec fn u16_be_bytes(v: nat) -> Seq<u8> {
    seq![(v / 0x100) as u8, (v % 0x100) as u8]
}

/// Big-endian bytes of a 32-bit quantity (meaningful for `v < 0x100000000`).
pub open spec fn u32_be_bytes(v: nat) -> Seq<u8> {
    seq![
        (v / 0x1000000) as u8,
        ((v / 0x10000) % 0x100) as u8,
        ((v / 0x100) % 0x100) as u8,
        (v % 0x100) as u8,
    ]
}

/// The bytes the writer emits for one message given the running-status
/// carry-forward `rs`: a channel voice event whose status byte equals the
/// carry-forward is emitted without its status byte.
pub open spec fn emitted_bytes(m: Message, rs: Option<u8>) -> Seq<u8> {
    match m {
        Message::MidiEvent { delta_time, event } => {
            if rs == Some(midi_status_byte(event)) {
                vlq_bytes(delta_time as nat) + midi_data_bytes(event)
            } else {
                msg_bytes(m)
            }
        },
        _ => msg_bytes(m),
    }
}

/// The running-status carry-forward after one message: a channel voice
/// event records its status byte (when compression is on); every other
/// message resets the carry-forward.
pub open spec fn rs_next(m: Message, rs: Option<u8>, running: bool) -> Option<u8> {
    match m {
        Message::MidiEvent { event, .. } => if running {
            Some(midi_status_byte(event))
        } else {
            None
        },
        _ => None,
    }
}

/// The emitted byte length of the track segment starting at `i` (up to the
/// next `TrackChange`, exclusive), entered with carry-forward `rs`.
pub open spec fn track_body_len(msgs: Seq<Message>, i: int, rs: Option<u8>, running: bool) -> nat
    decreases msgs.len() - i,
{
    if i < 0 || i >= msgs.len() || msgs[i] is TrackChange {
        0
    } else {
        emitted_bytes(msgs[i], rs).len() + track_body_len(
            msgs,
            i + 1,
            rs_next(msgs[i], rs, running),
            running,
        )
    }
}

/// The bytes emitted for `msgs[i..]`: each `TrackChange` contributes the
/// track tag and the following segment's 32-bit length, every other
/// message its (possibly compressed) encoding.
pub open spec fn body_bytes(msgs: Seq<Message>, i: int, rs: Option<u8>, running: bool) -> Seq<u8>
    decreases msgs.len() - i,
{
    if i < 0 || i >= msgs.len() {
        Seq::empty()
    } else if msgs[i] is TrackChange {
        mtrk_bytes() + u32_be_bytes(track_body_len(msgs, i + 1, None, running)) + body_bytes(
            msgs,
            i + 1,
            None,
            running,
        )
    } else {
        emitted_bytes(msgs[i], rs) + body_bytes(msgs, i + 1, rs_next(msgs[i], rs, running), running)
    }
}

/// Number of `TrackChange` markers in `msgs[a..b)`.
pub open spec fn tc_between(msgs: Seq<Message>, a: int, b: int) -> nat
    decreases b - a,
{
    if a < 0 || a >= b || b > msgs.len() {
        0
    } else {
        (if msgs[a] is TrackChange {
            1nat
        } else {
            0nat
        }) + tc_between(msgs, a + 1, b)
    }
}

/// Counting track changes is additive over adjacent ranges.
pub proof fn lemma_tc_between_additive(msgs: Seq<Message>, a: int, b: int, c: int)
    requires
        0 <= a <= b <= c <= msgs.len(),
    ensures
        tc_between(msgs, a, c) == tc_between(msgs, a, b) + tc_between(msgs, b, c),
    decreases b - a,
{
    if a < b {
        lemma_tc_between_additive(msgs, a + 1, b, c);
    }
}

/// One step of the pre-pass bookkeeping over a message that is not a
/// `TrackChange`: the marker counts are unchanged and the segment length
/// unfolds by the message's emitted length.
proof fn lemma_seg_step(msgs: Seq<Message>, j: int, gs: int, rs: Option<u8>, running: bool)
    requires
        0 <= gs <= j < msgs.len(),
        !(msgs[j] is TrackChange),
        tc_between(msgs, gs, j) == 0,
    ensures
        tc_between(msgs, gs, j + 1) == 0,
        tc_between(msgs, 0, j + 1) == tc_between(msgs, 0, j),
        track_body_len(msgs, j, rs, running) == emitted_bytes(msgs[j], rs).len() + track_body_len(
            msgs,
            j + 1,
            rs_next(msgs[j], rs, running),
            running,
        ),
{
    assert(tc_between(msgs, j + 1, j + 1) == 0);
    assert(tc_between(msgs, j, j + 1) == 0);
    lemma_tc_between_additive(msgs, 0, j, j + 1);
    lemma_tc_between_additive(msgs, gs, j, j + 1);
}

/// One step of the pre-pass bookkeeping over a `TrackChange`: the marker
/// count grows by one, the segment that began at `gs` ends here, and its
/// length is what `gs`'s own suffix yields.
proof fn lemma_seg_step_tc(msgs: Seq<Message>, j: int, gs: int, rs: Option<u8>, running: bool)
    requires
        0 <= gs <= j < msgs.len(),
        msgs[j] is TrackChange,
        tc_between(msgs, gs, j) == 0,
    ensures
        tc_between(msgs, 0, j + 1) == tc_between(msgs, 0, j) + 1,
        tc_between(msgs, 0, j) == tc_between(msgs, 0, gs),
        tc_between(msgs, j + 1, j + 1) == 0,
        track_body_len(msgs, j, rs, running) == 0,
{
    assert(tc_between(msgs, j + 1, j + 1) == 0);
    assert(tc_between(msgs, j, j + 1) == 1);
    lemma_tc_between_additive(msgs, 0, j, j + 1);
    lemma_tc_between_additive(msgs, 0, gs, j);
}

/// The track count the header declares: one per `TrackChange`, plus the
/// implicit leading track when the list is non-empty and does not already
/// open with a `TrackChange`.
pub open spec fn spec_track_number(msgs: Seq<Message>) -> nat {
    tc_between(msgs, 0, msgs.len() as int) + if msgs.len() > 0 && !(msgs[0] is TrackChange) {
        1nat
    } else {
        0nat
    }
}

/// What the wire format demands of a message list before it can be
/// serialized: every message well formed, the track count within its
/// 16-bit field, and every track chunk length within its 32-bit field.
pub open spec fn writer_wf(msgs: Seq<Message>, running: bool) -> bool {
    &&& forall|k: int| 0 <= k < msgs.len() ==> msg_wf(#[trigger] msgs[k])
    &&& spec_track_number(msgs) <= 0xffff
    &&& track_body_len(msgs, 0, None, running) <= 0xffffffff
    &&& forall|t: int|
        0 <= t < msgs.len() && (#[trigger] msgs[t]) is TrackChange ==> track_body_len(
            msgs,
            t + 1,
            None,
            running,
        ) <= 0xffffffff
}

/// The full SMF stream for a message list: the 14-byte header chunk, a
/// synthesized leading track chunk header when the list does not open with
/// an explicit `TrackChange`, and the emitted body.
pub open spec fn smf_bytes(fmt: Format, time_base: u16, msgs: Seq<Message>, running: bool) -> Seq<
    u8,
> {
    mthd_bytes() + seq![0u8, 0u8, 0u8, 6u8] + format_bytes(fmt) + u16_be_bytes(
        spec_track_number(msgs),
    ) + u16_be_bytes(time_base as nat) + (if msgs.len() > 0 && !(msgs[0] is TrackChange) {
        mtrk_bytes() + u32_be_bytes(track_body_len(msgs, 0, None, running))
    } else {
        Seq::empty()
    }) + body_bytes(msgs, 0, None, running)
}

/// Appends the big-endian bytes of a 16-bit quantity.
fn push_u16_be(out: &mut Vec<u8>, v: u16)
    ensures
        final(out)@ == old(out)@ + u16_be_bytes(v as nat),
{
    out.push((v / 0x100) as u8);
    out.push((v % 0x100) as u8);
    proof {
        assert(out@ =~= old(out)@ + u16_be_bytes(v as nat));
    }
}

/// Appends the big-endian bytes of a 32-bit quantity.
fn push_u32_be(out: &mut Vec<u8>, v: u32)
    ensures
        final(out)@ == old(out)@ + u32_be_bytes(v as nat),
{
    out.push((v / 0x1000000) as u8);
    out.push(((v / 0x10000) % 0x100) as u8);
    out.push(((v / 0x100) % 0x100) as u8);
    out.push((v % 0x100) as u8);
    proof {
        assert(out@ =~= old(out)@ + u32_be_bytes(v as nat));
    }
}

/// Appends the literal track chunk tag.
fn push_mtrk(out: &mut Vec<u8>)
    ensures
        final(out)@ == old(out)@ + mtrk_bytes(),
{
    out.push(0x4d);
    out.push(0x54);
    out.push(0x72);
    out.push(0x6b);
    proof {
        assert(out@ =~= old(out)@ + mtrk_bytes());
    }
}

/// `n` capped at `u64::MAX`, the value a saturating accumulator holds.
pub open spec fn cap_u64(n: nat) -> nat {
    if n > u64::MAX {
        u64::MAX as nat
    } else {
        n
    }
}

/// The SMF builder.
///
/// Accumulates `Message` values and serializes them into a complete SMF
/// byte stream.  At a track boundary, store not only a
/// `MetaEvent::EndOfTrack` message but also a `TrackChange` message.
pub struct Writer {
    messages: Vec<Message>,
    format: Format,
    time_base: u16,
    running_status: bool,
}

impl Writer {
    /// The stored messages.
    pub closed spec fn spec_messages(&self) -> Seq<Message> {
        self.messages@
    }

    /// The configured SMF format.
    pub closed spec fn spec_format(&self) -> Format {
        self.format
    }

    /// The configured time base.
    pub closed spec fn spec_time_base(&self) -> u16 {
        self.time_base
    }

    /// Whether running-status compression is applied.
    pub closed spec fn spec_running_status(&self) -> bool {
        self.running_status
    }

    /// Builds a Writer with initial values: no messages, format 1,
    /// time base 480, running status off.
    pub fn new() -> (r: Writer)
        ensures
            r.spec_messages() == Seq::<Message>::empty(),
            r.spec_format() == Format::F1,
            r.spec_time_base() == 480u16,
            !r.spec_running_status(),
    {
        Writer { messages: Vec::new(), format: Format::F1, time_base: 480, running_status: false }
    }

    /// Returns the stored messages by borrowing.
    pub fn messages(&self) -> (r: &Vec<Message>)
        ensures
            r@ == self.spec_messages(),
    {
        &self.messages
    }

    /// Pushes a message to the writer.
    pub fn push(&mut self, message: Message)
        ensures
            final(self).spec_messages() == old(self).spec_messages().push(message),
            final(self).spec_format() == old(self).spec_format(),
            final(self).spec_time_base() == old(self).spec_time_base(),
            final(self).spec_running_status() == old(self).spec_running_status(),
    {
        self.messages.push(message);
    }

    /// Removes the message at `index` from the writer and returns it.
    pub fn remove(&mut self, index: usize) -> (r: Message)
        requires
            index < old(self).spec_messages().len(),
        ensures
            r == old(self).spec_messages()[index as int],
            final(self).spec_messages() == old(self).spec_messages().remove(index as int),
            final(self).spec_format() == old(self).spec_format(),
            final(self).spec_time_base() == old(self).spec_time_base(),
            final(self).spec_running_status() == old(self).spec_running_status(),
    {
        self.messages.remove(index)
    }

    /// Sets the SMF format value (0, 1 or 2; anything else is recorded as
    /// the unknown format).
    pub fn format(&mut self, format: u16)
        ensures
            final(self).spec_format() == spec_format_new(format),
            final(self).spec_messages() == old(self).spec_messages(),
            final(self).spec_time_base() == old(self).spec_time_base(),
            final(self).spec_running_status() == old(self).spec_running_status(),
    {
        self.format = Format::new(format);
    }

    /// Sets the SMF time base value.
    pub fn time_base(&mut self, time_base: u16)
        ensures
            final(self).spec_time_base() == time_base,
            final(self).spec_messages() == old(self).spec_messages(),
            final(self).spec_format() == old(self).spec_format(),
            final(self).spec_running_status() == old(self).spec_running_status(),
    {
        self.time_base = time_base;
    }

    /// Sets whether running-status compression is applied.
    pub fn running_status(&mut self, running_status: bool)
        ensures
            final(self).spec_running_status() == running_status,
            final(self).spec_messages() == old(self).spec_messages(),
            final(self).spec_format() == old(self).spec_format(),
            final(self).spec_time_base() == old(self).spec_time_base(),
    {
        self.running_status = running_status;
    }

    /// Checks whether the stored messages fit the SMF wire format, that
    /// is, whether `write` will succeed.
    pub fn writable(&self) -> (r: bool)
        ensures
            r == writer_wf(self.spec_messages(), self.spec_running_status()),
    {
        let ghost msgs = self.spec_messages();
        let n = self.messages.len();
        // Every message well formed.
        let mut k: usize = 0;
        while k < n
            invariant
                0 <= k <= n,
                n == msgs.len(),
                msgs == self.spec_messages(),
                forall|i: int| 0 <= i < k ==> msg_wf(#[trigger] msgs[i]),
            decreases n - k,
        {
            if !msg_wf_check(&self.messages[k]) {
                return false;
            }
            k = k + 1;
        }
        // Track count within its 16-bit field.
        let mut count: usize = 0;
        let mut j: usize = 0;
        while j < n
            invariant
                0 <= j <= n,
                n == msgs.len(),
                msgs == self.spec_messages(),
                count <= j,
                count + tc_between(msgs, j as int, n as int) == tc_between(msgs, 0, n as int),
            decreases n - j,
        {
            if matches!(&self.messages[j], Message::TrackChange) {
                count = count + 1;
            }
            j = j + 1;
        }
        let lead: usize = if n > 0 && !matches!(&self.messages[0], Message::TrackChange) {
            1
        } else {
            0
        };
        if count > 0xffff || count + lead > 0xffff {
            return false;
        }
        // Every track chunk length within its 32-bit field.
        self.segment_lens_ok()
    }

    /// Checks that every track segment's emitted length fits the 32-bit
    /// chunk length field.
    #[verifier::rlimit(100)]
    fn segment_lens_ok(&self) -> (r: bool)
        requires
            forall|k: int|
                0 <= k < self.spec_messages().len() ==> msg_wf(#[trigger] self.spec_messages()[k]),
        ensures
            r == {
                &&& track_body_len(
                    self.spec_messages(),
                    0,
                    None,
                    self.spec_running_status(),
                ) <= 0xffffffff
                &&& forall|t: int|
                    0 <= t < self.spec_messages().len() && (#[trigger] self.spec_messages()[t])
                        is TrackChange ==> track_body_len(
                        self.spec_messages(),
                        t + 1,
                        None,
                        self.spec_running_status(),
                    ) <= 0xffffffff
            },
    {
        let ghost msgs = self.spec_messages();
        let running = self.running_status;
        let n = self.messages.len();
        let mut cur: u64 = 0;
        let mut pre_status_byte: Option<u8> = None;
        let ghost mut gs: int = 0;
        let mut j: usize = 0;
        while j < n
            invariant
                0 <= j <= n,
                n == msgs.len(),
                msgs == self.spec_messages(),
                running == self.spec_running_status(),
                forall|k: int| 0 <= k < msgs.len() ==> msg_wf(#[trigger] msgs[k]),
                0 <= gs <= j,
                gs == 0 || msgs[gs - 1] is TrackChange,
                tc_between(msgs, gs, j as int) == 0,
                cur as nat == cap_u64(
                    (track_body_len(msgs, gs, None, running) - track_body_len(
                        msgs,
                        j as int,
                        pre_status_byte,
                        running,
                    )) as nat,
                ),
                track_body_len(msgs, j as int, pre_status_byte, running) <= track_body_len(
                    msgs,
                    gs,
                    None,
                    running,
                ),
                !running ==> pre_status_byte is None,
                gs >= 1 ==> track_body_len(msgs, 0, None, running) <= 0xffffffff,
                forall|t: int|
                    0 <= t < j && (#[trigger] msgs[t]) is TrackChange && t != gs - 1
                        ==> track_body_len(msgs, t + 1, None, running) <= 0xffffffff,
            decreases n - j,
        {
            let m = &self.messages[j];
            match m {
                Message::TrackChange => {
                    proof {
                        lemma_seg_step_tc(msgs, j as int, gs, pre_status_byte, running);
                    }
                    if cur > 0xffffffff {
                        // The segment that just ended is too long; it is
                        // the leading segment or follows the marker before
                        // its start.
                        proof {
                            assert(track_body_len(msgs, gs, None, running) > 0xffffffff);
                            if gs >= 1 {
                                let t0 = gs - 1;
                                assert(0 <= t0 < msgs.len() && msgs[t0] is TrackChange
                                    && track_body_len(msgs, t0 + 1, None, running) > 0xffffffff);
                            } else {
                                lemma_tc_between_additive(msgs, 0, j as int, msgs.len() as int);
                            }
                        }
                        return false;
                    }
                    cur = 0;
                    pre_status_byte = None;
                    proof {
                        gs = j + 1;
                    }
                },
                Message::MidiEvent { delta_time, event } => {
                    let ghost old_pre = pre_status_byte;
                    let sb = event.status_byte();
                    let compressed = match pre_status_byte {
                        Some(p) => p == sb,
                        None => false,
                    };
                    proof {
                        lemma_msg_bytes_len(msgs[j as int]);
                        assert(msg_bytes(msgs[j as int]).len() >= 2);
                        lemma_seg_step(msgs, j as int, gs, old_pre, running);
                    }
                    let full = m.len();
                    let el: u64 = if compressed {
                        (full - 1) as u64
                    } else {
                        full as u64
                    };
                    proof {
                        assert(emitted_bytes(msgs[j as int], old_pre).len() == el as nat);
                    }
                    cur = if cur > 0xffffffffffffffffu64 - el {
                        0xffffffffffffffffu64
                    } else {
                        cur + el
                    };
                    if running {
                        pre_status_byte = Some(sb);
                    }
                    proof {
                        assert(pre_status_byte == rs_next(msgs[j as int], old_pre, running));
                    }
                },
                _ => {
                    let ghost old_pre = pre_status_byte;
                    proof {
                        lemma_msg_bytes_len(msgs[j as int]);
                        lemma_seg_step(msgs, j as int, gs, old_pre, running);
                        assert(emitted_bytes(msgs[j as int], old_pre) == msg_bytes(msgs[j as int]));
                    }
                    let el: u64 = m.len() as u64;
                    cur = if cur > 0xffffffffffffffffu64 - el {
                        0xffffffffffffffffu64
                    } else {
                        cur + el
                    };
                    pre_status_byte = None;
                    proof {
                        assert(pre_status_byte == rs_next(msgs[j as int], old_pre, running));
                    }
                },
            }
            j = j + 1;
        }
        proof {
            assert(track_body_len(msgs, n as int, pre_status_byte, running) == 0);
        }
        if cur > 0xffffffff {
            // The final segment is too long.
            proof {
                assert(track_body_len(msgs, gs, None, running) > 0xffffffff);
                if gs >= 1 {
                    let t0 = gs - 1;
                    assert(0 <= t0 < msgs.len() && msgs[t0] is TrackChange && track_body_len(
                        msgs,
                        t0 + 1,
                        None,
                        running,
                    ) > 0xffffffff);
                }
            }
            return false;
        }
        true
    }

    /// Serializes the stored messages into a complete SMF byte stream.
    /// Fails exactly when the messages do not fit the wire format.
    #[verifier::rlimit(100)]
    pub fn write(&self) -> (r: Result<Vec<u8>, WriteError>)
        ensures
            match r {
                Ok(out) => writer_wf(self.spec_messages(), self.spec_running_status()) && out@
                    == smf_bytes(
                    self.spec_format(),
                    self.spec_time_base(),
                    self.spec_messages(),
                    self.spec_running_status(),
                ),
                Err(e) => !writer_wf(self.spec_messages(), self.spec_running_status()) && e
                    == WriteError::SmfFormat,
            },
    {
        if !self.writable() {
            return Err(WriteError::SmfFormat);
        }
        let ghost msgs = self.spec_messages();
        let running = self.running_status;
        let n = self.messages.len();
        let mut out: Vec<u8> = Vec::new();
        // Header chunk.
        out.push(0x4d);
        out.push(0x54);
        out.push(0x68);
        out.push(0x64);
        out.push(0);
        out.push(0);
        out.push(0);
        out.push(6);
        let fb = self.format.binary();
        out.push(fb[0]);
        out.push(fb[1]);
        push_u16_be(&mut out, self.track_number());
        push_u16_be(&mut out, self.time_base);
        let mut track_len_filo = self.track_len_filo();
        let ghost filo0 = track_len_filo@;
        // The pre-pass always queues an entry for the leading segment
        // first; it is consumed by the synthesized track chunk header, or
        // discarded when an explicit TrackChange already opens the list.
        if n > 0 {
            if matches!(&self.messages[0], Message::TrackChange) {
                let _ = track_len_filo.remove(0);
            } else {
                push_mtrk(&mut out);
                let l = track_len_filo.remove(0);
                push_u32_be(&mut out, l);
            }
            proof {
                assert(track_len_filo@ =~= filo0.subrange(1, filo0.len() as int));
            }
        }
        proof {
            assert(out@ + body_bytes(msgs, 0, None, running) =~= smf_bytes(
                self.spec_format(),
                self.spec_time_base(),
                msgs,
                running,
            ));
        }
        let mut pre_status_byte: Option<u8> = None;
        let mut j: usize = 0;
        while j < n
            invariant
                0 <= j <= n,
                n == msgs.len(),
                msgs == self.spec_messages(),
                running == self.spec_running_status(),
                writer_wf(msgs, running),
                tc_between(msgs, j as int, n as int) <= tc_between(msgs, 0, n as int),
                filo0.len() == tc_between(msgs, 0, n as int) + 1,
                n > 0 ==> track_len_filo@ == filo0.subrange(
                    filo0.len() - tc_between(msgs, j as int, n as int),
                    filo0.len() as int,
                ),
                forall|t: int|
                    0 <= t < n && (#[trigger] msgs[t]) is TrackChange ==> {
                        &&& 0 <= tc_between(msgs, 0, t + 1) < filo0.len()
                        &&& filo0[tc_between(msgs, 0, t + 1) as int] as nat == track_body_len(
                            msgs,
                            t + 1,
                            None,
                            running,
                        )
                    },
                out@ + body_bytes(msgs, j as int, pre_status_byte, running) == smf_bytes(
                    self.spec_format(),
                    self.spec_time_base(),
                    msgs,
                    running,
                ),
                !running ==> pre_status_byte is None,
            decreases n - j,
        {
            let ghost out0 = out@;
            let m = &self.messages[j];
            match m {
                Message::TrackChange => {
                    proof {
                        lemma_tc_between_additive(msgs, 0, j as int, n as int);
                        lemma_tc_between_additive(msgs, 0, j + 1, n as int);
                    }
                    push_mtrk(&mut out);
                    let l = track_len_filo.remove(0);
                    push_u32_be(&mut out, l);
                    pre_status_byte = None;
                    proof {
                        assert(track_len_filo@ =~= filo0.subrange(
                            filo0.len() - tc_between(msgs, j + 1, n as int),
                            filo0.len() as int,
                        ));
                        assert(l as nat == track_body_len(msgs, j + 1, None, running));
                        assert(out@ + body_bytes(msgs, j + 1, pre_status_byte, running) =~= out0
                            + body_bytes(msgs, j as int, None, running));
                    }
                },
                Message::MidiEvent { delta_time, event } => {
                    let sb = event.status_byte();
                    let compressed = match pre_status_byte {
                        Some(p) => p == sb,
                        None => false,
                    };
                    if compressed {
                        let mut dtb = VLQ::new(*delta_time).binary();
                        out.append(&mut dtb);
                        let eb = event.binary();
                        append_from(&mut out, &eb, 1);
                        proof {
                            assert(eb@.skip(1) =~= midi_data_bytes(*event));
                            assert(out@ =~= out0 + emitted_bytes(msgs[j as int], pre_status_byte));
                        }
                    } else {
                        let mut mb = m.binary();
                        out.append(&mut mb);
                        proof {
                            assert(out@ =~= out0 + emitted_bytes(msgs[j as int], pre_status_byte));
                        }
                    }
                    let ghost old_pre = pre_status_byte;
                    if running {
                        pre_status_byte = Some(sb);
                    }
                    proof {
                        assert(pre_status_byte == rs_next(msgs[j as int], old_pre, running));
                        assert(out@ + body_bytes(msgs, j + 1, pre_status_byte, running) =~= out0
                            + body_bytes(msgs, j as int, old_pre, running));
                    }
                },
                _ => {
                    let mut mb = m.binary();
                    out.append(&mut mb);
                    let ghost old_pre = pre_status_byte;
                    pre_status_byte = None;
                    proof {
                        assert(emitted_bytes(msgs[j as int], old_pre) == msg_bytes(msgs[j as int]));
                        assert(out@ + body_bytes(msgs, j + 1, pre_status_byte, running) =~= out0
                            + body_bytes(msgs, j as int, old_pre, running));
                    }
                },
            }
            j = j + 1;
        }
        proof {
            assert(body_bytes(msgs, n as int, pre_status_byte, running) =~= Seq::<u8>::empty());
            assert(out@ =~= smf_bytes(self.spec_format(), self.spec_time_base(), msgs, running));
        }
        Ok(out)
    }

    /// The pre-pass: every track segment's emitted byte length, queued in
    /// emission order (the leading segment's length first, then each
    /// `TrackChange`'s segment in order).
    #[verifier::rlimit(100)]
    #[verifier::spinoff_prover]
    fn track_len_filo(&self) -> (r: Vec<u32>)
        requires
            writer_wf(self.spec_messages(), self.spec_running_status()),
        ensures
            r@.len() == tc_between(self.spec_messages(), 0, self.spec_messages().len() as int) + 1,
            r@[0] as nat == track_body_len(
                self.spec_messages(),
                0,
                None,
                self.spec_running_status(),
            ),
            forall|t: int|
                0 <= t < self.spec_messages().len() && (#[trigger] self.spec_messages()[t])
                    is TrackChange ==> {
                    &&& 0 <= tc_between(self.spec_messages(), 0, t + 1) < r@.len()
                    &&& r@[tc_between(self.spec_messages(), 0, t + 1) as int] as nat
                        == track_body_len(
                        self.spec_messages(),
                        t + 1,
                        None,
                        self.spec_running_status(),
                    )
                },
    {
        let ghost msgs = self.spec_messages();
        let running = self.running_status;
        let n = self.messages.len();
        let mut tracks_len: Vec<u32> = Vec::new();
        tracks_len.push(0);
        let mut pre_status_byte: Option<u8> = None;
        let ghost mut gs: int = 0;
        let mut j: usize = 0;
        while j < n
            invariant
                0 <= j <= n,
                n == msgs.len(),
                msgs == self.spec_messages(),
                running == self.spec_running_status(),
                forall|k: int| 0 <= k < msgs.len() ==> msg_wf(#[trigger] msgs[k]),
                forall|t: int|
                    0 <= t < msgs.len() && (#[trigger] msgs[t]) is TrackChange ==> track_body_len(
                        msgs,
                        t + 1,
                        None,
                        running,
                    ) <= 0xffffffff,
                0 <= gs <= j,
                gs == 0 || msgs[gs - 1] is TrackChange,
                gs >= 1 ==> tc_between(msgs, 0, j as int) >= 1,
                tc_between(msgs, gs, j as int) == 0,
                tracks_len@.len() == tc_between(msgs, 0, j as int) + 1,
                tracks_len@[tracks_len@.len() - 1] as nat == track_body_len(msgs, gs, None, running)
                    - track_body_len(msgs, j as int, pre_status_byte, running),
                track_body_len(msgs, j as int, pre_status_byte, running) <= track_body_len(
                    msgs,
                    gs,
                    None,
                    running,
                ),
                track_body_len(msgs, gs, None, running) <= 0xffffffff,
                gs >= 1 ==> tracks_len@[0] as nat == track_body_len(msgs, 0, None, running),
                forall|t: int|
                    0 <= t < j && (#[trigger] msgs[t]) is TrackChange && t != gs - 1 ==> {
                        &&& 0 <= tc_between(msgs, 0, t + 1) < tracks_len@.len() - 1
                        &&& tracks_len@[tc_between(msgs, 0, t + 1) as int] as nat
                            == track_body_len(msgs, t + 1, None, running)
                    },
                !running ==> pre_status_byte is None,
            decreases n - j,
        {
            let m = &self.messages[j];
            match m {
                Message::TrackChange => {
                    proof {
                        lemma_seg_step_tc(msgs, j as int, gs, pre_status_byte, running);
                        assert(tracks_len@[tracks_len@.len() - 1] as nat == track_body_len(
                            msgs,
                            gs,
                            None,
                            running,
                        ));
                    }
                    tracks_len.push(0);
                    pre_status_byte = None;
                    proof {
                        assert(track_body_len(msgs, j + 1, None, running) <= 0xffffffff);
                        gs = j + 1;
                    }
                },
                Message::MidiEvent { delta_time, event } => {
                    let ghost old_pre = pre_status_byte;
                    let sb = event.status_byte();
                    let compressed = match pre_status_byte {
                        Some(p) => p == sb,
                        None => false,
                    };
                    proof {
                        lemma_msg_bytes_len(msgs[j as int]);
                        assert(msg_bytes(msgs[j as int]).len() >= 2);
                        lemma_seg_step(msgs, j as int, gs, old_pre, running);
                    }
                    let full = m.len();
                    let el: usize = if compressed {
                        full - 1
                    } else {
                        full
                    };
                    proof {
                        assert(emitted_bytes(msgs[j as int], old_pre).len() == el as nat);
                    }
                    let last = tracks_len.len() - 1;
                    let v0 = tracks_len[last];
                    tracks_len[last] = v0 + el as u32;
                    if running {
                        pre_status_byte = Some(sb);
                    }
                    proof {
                        assert(pre_status_byte == rs_next(msgs[j as int], old_pre, running));
                    }
                },
                _ => {
                    let ghost old_pre = pre_status_byte;
                    proof {
                        lemma_msg_bytes_len(msgs[j as int]);
                        lemma_seg_step(msgs, j as int, gs, old_pre, running);
                        assert(emitted_bytes(msgs[j as int], old_pre) == msg_bytes(msgs[j as int]));
                    }
                    let el = m.len();
                    let last = tracks_len.len() - 1;
                    let v0 = tracks_len[last];
                    tracks_len[last] = v0 + el as u32;
                    pre_status_byte = None;
                    proof {
                        assert(pre_status_byte == rs_next(msgs[j as int], old_pre, running));
                    }
                },
            }
            j = j + 1;
        }
        proof {
            assert(track_body_len(msgs, n as int, pre_status_byte, running) == 0);
            lemma_tc_between_additive(msgs, 0, gs, n as int);
        }
        tracks_len
    }

    /// The track count the header declares.
    fn track_number(&self) -> (r: u16)
        requires
            spec_track_number(self.spec_messages()) <= 0xffff,
        ensures
            r as nat == spec_track_number(self.spec_messages()),
    {
        let ghost msgs = self.spec_messages();
        let n = self.messages.len();
        let mut count: usize = 0;
        let mut j: usize = 0;
        while j < n
            invariant
                0 <= j <= n,
                n == msgs.len(),
                msgs == self.spec_messages(),
                count <= j,
                count + tc_between(msgs, j as int, n as int) == tc_between(msgs, 0, n as int),
            decreases n - j,
        {
            if matches!(&self.messages[j], Message::TrackChange) {
                count = count + 1;
            }
            j = j + 1;
        }
        if n > 0 && !matches!(&self.messages[0], Message::TrackChange) {
            (count + 1) as u16
        } else {
            count as u16
        }
    }
}

/// Checks well-formedness of one message.
fn msg_wf_check(m: &Message) -> (r: bool)
    ensures
        r == msg_wf(*m),
{
    match m {
        Message::MetaEvent { delta_time, data, .. } => *delta_time < 0x10000000 && data.len()
            < 0x10000000,
        Message::MidiEvent { delta_time, event } => *delta_time < 0x10000000 && match event {
            crate::messages::MidiEvent::PitchBendChange { data, .. } => -8192 <= *data && *data
                <= 8191,
            _ => true,
        },
        Message::SysExEvent { delta_time, event, data } => *delta_time < 0x10000000 && data.len()
            < 0x10000000 && match event {
            crate::messages::SysExEvent::F0 => data.len() >= 1,
            _ => true,
        },
        Message::TrackChange => true,
    }
}

/// Running-status idempotence: two consecutive channel voice events with
/// identical status bytes, emitted with running status on, produce one
/// byte less than their two full encodings together (the second status
/// byte is omitted), and decoding that output yields both original events
/// unchanged, one after the other.  The second event's first data byte is
/// below 0x80, as every channel voice data byte is on a well-formed
/// stream; that is what tells the decoder a status byte was omitted.
pub proof fn lemma_running_status_idempotent(
    s: Seq<u8>,
    pos: int,
    rs: u8,
    m1: Message,
    m2: Message,
)
    requires
        msg_wf(m1),
        msg_wf(m2),
        msg_round_trippable(m1),
        msg_round_trippable(m2),
        m1 is MidiEvent,
        m2 is MidiEvent,
        midi_status_byte(m1->MidiEvent_event) == midi_status_byte(m2->MidiEvent_event),
        midi_data_bytes(m2->MidiEvent_event)[0] < 0x80,
        0 <= pos,
        pos + body_bytes(seq![m1, m2], 0, None, true).len() <= s.len(),
        s.subrange(pos, pos + body_bytes(seq![m1, m2], 0, None, true).len() as int) == body_bytes(
            seq![m1, m2],
            0,
            None,
            true,
        ),
    ensures
        body_bytes(seq![m1, m2], 0, None, true).len() == msg_bytes(m1).len() + msg_bytes(m2).len()
            - 1,
        event_scan(s, pos, rs) == Ok::<_, ReadError>(
            (
                pos + msg_bytes(m1).len(),
                midi_status_byte(m1->MidiEvent_event),
                true,
            ),
        ),
        event_msg_ok(s, pos, rs, m1),
        event_scan(
            s,
            pos + msg_bytes(m1).len(),
            midi_status_byte(m1->MidiEvent_event),
        ) == Ok::<_, ReadError>(
            (pos + body_bytes(seq![m1, m2], 0, None, true).len(), midi_status_byte(
                m1->MidiEvent_event,
            ), true),
        ),
        event_msg_ok(s, pos + msg_bytes(m1).len(), midi_status_byte(m1->MidiEvent_event), m2),
{
    let msgs = seq![m1, m2];
    let sb = midi_status_byte(m1->MidiEvent_event);
    let ev2 = m2->MidiEvent_event;
    let dt2 = m2->MidiEvent_delta_time;
    let b = body_bytes(msgs, 0, None, true);
    let e1 = msg_bytes(m1);
    let l1 = e1.len() as int;
    let dta2 = vlq_bytes(dt2 as nat);
    let n2 = vlq_len(dt2 as nat) as int;
    let db2 = midi_data_bytes(ev2);
    let k = db2.len() as int;
    crate::reader::lemma_midi_build_inverts(ev2);
    assert(msgs.len() == 2 && msgs[0] == m1 && msgs[1] == m2);
    assert(emitted_bytes(m1, None) == e1);
    assert(emitted_bytes(m2, Some(sb)) == dta2 + db2);
    assert(body_bytes(msgs, 2, rs_next(m2, Some(sb), true), true) =~= Seq::<u8>::empty());
    assert(rs_next(m1, None, true) == Some(sb));
    assert(body_bytes(msgs, 1, Some(sb), true) =~= dta2 + db2);
    assert(b =~= e1 + (dta2 + db2));
    assert(msg_bytes(m2) == dta2 + seq![sb] + db2);
    let lb = b.len() as int;
    assert(forall|i: int| 0 <= i < lb ==> s[pos + i] == #[trigger] b[i]) by {
        assert(forall|i: int| 0 <= i < lb ==> s.subrange(pos, pos + lb)[i] == #[trigger] b[i]);
    }
    // the first event stands in full
    assert forall|i: int| 0 <= i < l1 implies s.subrange(pos, pos + l1)[i] == e1[i] by {
        assert(s[pos + i] == b[i]);
    }
    assert(s.subrange(pos, pos + l1) =~= e1);
    lemma_message_round_trip(s, pos, rs, m1);
    // the second follows with its status byte omitted
    let pos2 = pos + l1;
    let l2c = n2 + k;
    assert forall|i: int| 0 <= i < l2c implies s.subrange(pos2, pos2 + l2c)[i] == (dta2 + db2)[i] by {
        assert(s[pos2 + i] == b[l1 + i]);
    }
    assert(s.subrange(pos2, pos2 + l2c) =~= dta2 + db2);
    crate::reader::lemma_compressed_event_decode(s, pos2, sb, m2);
}

/// Track-body round trip: decoding the bytes the writer emits for a whole
/// track segment of round-trippable messages yields exactly that message
/// sequence, event by event, whether or not running-status compression
/// was applied.  `w_rs` is the writer's carry-forward entering the
/// segment and `r_rs` the reader's context; they agree whenever the
/// writer would compress, and a fresh track starts both at none
/// (`w_rs == None`, `r_rs == 0`).
pub proof fn lemma_track_decode(
    s: Seq<u8>,
    pos: int,
    msgs: Seq<Message>,
    i: int,
    w_rs: Option<u8>,
    r_rs: u8,
    running: bool,
)
    requires
        0 <= i <= msgs.len(),
        forall|k: int|
            i <= k < msgs.len() ==> msg_wf(#[trigger] msgs[k]) && msg_round_trippable(msgs[k])
                && !(msgs[k] is TrackChange),
        running ==> forall|k: int|
            i <= k < msgs.len() && (#[trigger] msgs[k]) is MidiEvent ==> midi_data_bytes(
                msgs[k]->MidiEvent_event,
            )[0] < 0x80,
        r_rs != 0xf0,
        w_rs matches Some(x) ==> r_rs == x && running,
        0 <= pos,
        pos + body_bytes(msgs, i, w_rs, running).len() <= s.len(),
        s.subrange(pos, pos + body_bytes(msgs, i, w_rs, running).len() as int) == body_bytes(
            msgs,
            i,
            w_rs,
            running,
        ),
    ensures
        crate::reader::events_decode_to(s, pos, r_rs, msgs, i),
    decreases msgs.len() - i,
{
    if i < msgs.len() {
        let m = msgs[i];
        let eb = emitted_bytes(m, w_rs);
        let w_rs2 = rs_next(m, w_rs, running);
        let body = body_bytes(msgs, i, w_rs, running);
        let rest = body_bytes(msgs, i + 1, w_rs2, running);
        assert(body == eb + rest);
        let el = eb.len() as int;
        let bl = body.len() as int;
        assert(forall|j: int| 0 <= j < bl ==> s[pos + j] == #[trigger] body[j]) by {
            assert(forall|j: int|
                0 <= j < bl ==> s.subrange(pos, pos + bl)[j] == #[trigger] body[j]);
        }
        assert forall|j: int| 0 <= j < el implies s.subrange(pos, pos + el)[j] == eb[j] by {
            assert(s[pos + j] == body[j]);
        }
        assert(s.subrange(pos, pos + el) =~= eb);
        let compressed = m is MidiEvent && w_rs == Some(midi_status_byte(m->MidiEvent_event));
        let r_rs2: u8;
        if compressed {
            let sb = midi_status_byte(m->MidiEvent_event);
            assert(eb == vlq_bytes(m->MidiEvent_delta_time as nat) + midi_data_bytes(
                m->MidiEvent_event,
            ));
            lemma_msg_bytes_len(m);
            crate::reader::lemma_compressed_event_decode(s, pos, sb, m);
            r_rs2 = sb;
        } else {
            assert(eb == msg_bytes(m));
            lemma_message_round_trip(s, pos, r_rs, m);
            r_rs2 = crate::reader::reader_rs_next(m, r_rs);
        }
        assert forall|j: int|
            0 <= j < rest.len() implies s.subrange(pos + el, pos + el + rest.len() as int)[j]
            == rest[j] by {
            assert(s[pos + el + j] == body[el + j]);
        }
        assert(s.subrange(pos + el, pos + el + rest.len() as int) =~= rest);
        if m is MidiEvent {
            crate::reader::lemma_midi_build_inverts(m->MidiEvent_event);
        }
        lemma_track_decode(s, pos + el, msgs, i + 1, w_rs2, r_rs2, running);
        assert(crate::reader::events_decode_to(s, pos, r_rs, msgs, i));
    }
}

} // verus!
