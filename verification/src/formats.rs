//! SMF chunk formats and the variable length quantity (VLQ) codec.
//!
//! A VLQ is an unsigned integer below 2^28, stored big-endian in one to four
//! bytes of seven data bits each; every byte but the last has its high bit
//! set, and the encoding is minimal (a value below 0x80 is a single byte).

use vstd::prelude::*;

verus! {

/// Number of bytes in the canonical VLQ encoding of `v`.
pub open spec fn vlq_len(v: nat) -> nat {
    if v < 0x80 {
        1
    } else if v < 0x4000 {
        2
    } else if v < 0x200000 {
        3
    } else {
        4
    }
}

/// The canonical VLQ encoding of `v` (meaningful for `v < 0x10000000`):
/// big-endian 7-bit groups, all but the last with the high bit set.
pub open spec fn vlq_bytes(v: nat) -> Seq<u8> {
    if v < 0x80 {
        seq![v as u8]
    } else if v < 0x4000 {
        seq![(0x80 + v / 0x80) as u8, (v % 0x80) as u8]
    } else if v < 0x200000 {
        seq![(0x80 + v / 0x4000) as u8, (0x80 + (v / 0x80) % 0x80) as u8, (v % 0x80) as u8]
    } else {
        seq![
            (0x80 + (v / 0x200000) % 0x80) as u8,
            (0x80 + (v / 0x4000) % 0x80) as u8,
            (0x80 + (v / 0x80) % 0x80) as u8,
            (v % 0x80) as u8,
        ]
    }
}

/// One step of VLQ decoding: `acc` is the value of the `n` bytes already
/// consumed.  Decoding stops at the first byte with a clear high bit, or
/// after four bytes, whichever comes first; it fails (`None`) if the
/// stream ends before that.  Returns the value and the number of bytes
/// consumed.
pub open spec fn vlq_scan(s: Seq<u8>, pos: int, acc: nat, n: nat) -> Option<(nat, nat)>
    decreases 4 - n,
{
    if n >= 4 {
        None
    } else if pos < 0 || pos >= s.len() {
        None
    } else {
        let b = s[pos];
        let acc2 = acc * 0x80 + (b as nat) % 0x80;
        if b < 0x80 || n + 1 == 4 {
            Some((acc2, n + 1))
        } else {
            vlq_scan(s, pos + 1, acc2, n + 1)
        }
    }
}

/// Decode a VLQ from `s` starting at `pos`: the value and the number of
/// bytes consumed, or `None` if the stream ends before the VLQ terminates.
pub open spec fn vlq_decode(s: Seq<u8>, pos: int) -> Option<(nat, nat)> {
    vlq_scan(s, pos, 0, 0)
}

/// The header chunk tag `"MThd"`.
pub open spec fn mthd_bytes() -> Seq<u8> {
    seq![0x4du8, 0x54u8, 0x68u8, 0x64u8]
}

/// The track chunk tag `"MTrk"`.
pub open spec fn mtrk_bytes() -> Seq<u8> {
    seq![0x4du8, 0x54u8, 0x72u8, 0x6bu8]
}

/// An enum representing SMF format (0-2).
#[derive(PartialEq, Eq, Structural, Clone, Copy, Debug)]
pub enum Format {
    /// Format 0 (binary literal: [0x00, 0x00])
    F0,
    /// Format 1 (binary literal: [0x00, 0x01])
    F1,
    /// Format 2 (binary literal: [0x00, 0x02])
    F2,
    /// Unknown format (binary literal: [0xff, 0xff])
    Unknown,
}

/// The `Format` denoted by a header format field.
pub open spec fn spec_format_new(format: u16) -> Format {
    if format == 0 {
        Format::F0
    } else if format == 1 {
        Format::F1
    } else if format == 2 {
        Format::F2
    } else {
        Format::Unknown
    }
}

/// The two header bytes that encode a `Format`.
pub open spec fn format_bytes(f: Format) -> Seq<u8> {
    match f {
        Format::F0 => seq![0u8, 0u8],
        Format::F1 => seq![0u8, 1u8],
        Format::F2 => seq![0u8, 2u8],
        Format::Unknown => seq![0xffu8, 0xffu8],
    }
}

impl Format {
    /// Builds Format from u16 value.
    pub fn new(format: u16) -> (r: Format)
        ensures
            r == spec_format_new(format),
    {
        match format {
            0 => Format::F0,
            1 => Format::F1,
            2 => Format::F2,
            _ => Format::Unknown,
        }
    }

    /// Makes binary array for SMF.
    pub fn binary(&self) -> (r: [u8; 2])
        ensures
            r@ == format_bytes(*self),
    {
        match *self {
            Format::F0 => [0, 0],
            Format::F1 => [0, 1],
            Format::F2 => [0, 2],
            Format::Unknown => [0xff, 0xff],
        }
    }
}

/// An enum representing the SMF chunk tags `"MThd"` and `"MTrk"`.
#[derive(PartialEq, Eq, Structural, Clone, Copy, Debug)]
pub enum Tag {
    /// Header tag (binary literal: b"MThd")
    Header,
    /// Track tag (binary literal: b"MTrk")
    Track,
}

impl Tag {
    /// Makes binary array for SMF.
    pub fn binary(&self) -> (r: [u8; 4])
        ensures
            *self == Tag::Header ==> r@ == mthd_bytes(),
            *self == Tag::Track ==> r@ == mtrk_bytes(),
    {
        let r = match *self {
            Tag::Header => [0x4d, 0x54, 0x68, 0x64],
            Tag::Track => [0x4d, 0x54, 0x72, 0x6b],
        };
        proof {
            assert(*self == Tag::Header ==> r@ =~= mthd_bytes());
            assert(*self == Tag::Track ==> r@ =~= mtrk_bytes());
        }
        r
    }
}

/// A struct representing an SMF variable length quantity.
///
/// Due to the SMF restriction, a `VLQ` can only represent values below 2^28.
#[derive(PartialEq, Eq, Structural, Clone, Copy, Debug)]
pub struct VLQ {
    val: u32,
}

impl VLQ {
    /// The value this VLQ denotes.
    pub closed spec fn spec_val(&self) -> u32 {
        self.val
    }

    /// Well-formedness: the value respects the four-byte format ceiling.
    pub open spec fn wf(&self) -> bool {
        self.spec_val() < 0x10000000
    }

    /// Builds VLQ from u32 value.
    pub fn new(val: u32) -> (r: VLQ)
        requires
            val < 0x10000000,
        ensures
            r.spec_val() == val,
            r.wf(),
    {
        VLQ { val }
    }

    /// Makes binary array for SMF: the canonical, minimal encoding.
    pub fn binary(&self) -> (r: Vec<u8>)
        requires
            self.wf(),
        ensures
            r@ == vlq_bytes(self.spec_val() as nat),
    {
        let v = self.val;
        let mut r: Vec<u8> = Vec::new();
        if v < 0x80 {
            r.push(v as u8);
        } else if v < 0x4000 {
            r.push((0x80 + v / 0x80) as u8);
            r.push((v % 0x80) as u8);
        } else if v < 0x200000 {
            r.push((0x80 + v / 0x4000) as u8);
            r.push((0x80 + (v / 0x80) % 0x80) as u8);
            r.push((v % 0x80) as u8);
        } else {
            r.push((0x80 + (v / 0x200000) % 0x80) as u8);
            r.push((0x80 + (v / 0x4000) % 0x80) as u8);
            r.push((0x80 + (v / 0x80) % 0x80) as u8);
            r.push((v % 0x80) as u8);
        }
        proof {
            assert(r@ =~= vlq_bytes(self.spec_val() as nat));
        }
        r
    }

    /// Returns the length of the binary array for SMF.
    pub fn len(&self) -> (r: usize)
        ensures
            r == vlq_len(self.spec_val() as nat),
    {
        if self.val < 0x80 {
            1
        } else if self.val < 0x4000 {
            2
        } else if self.val < 0x200000 {
            3
        } else {
            4
        }
    }

    /// Returns the value of the VLQ.
    pub fn val(&self) -> (r: u32)
        ensures
            r == self.spec_val(),
    {
        self.val
    }
}

/// VLQ builder fed one byte at a time, as read off the wire.
pub struct VLQBuilder {
    val: u32,
    count: u8,
    closed: bool,
}

impl VLQBuilder {
    /// The accumulated value.
    pub closed spec fn spec_val(&self) -> u32 {
        self.val
    }

    /// How many bytes have been accepted.
    pub closed spec fn spec_count(&self) -> u8 {
        self.count
    }

    /// Whether the VLQ is complete (terminator seen, or four bytes taken).
    pub closed spec fn spec_closed(&self) -> bool {
        self.closed
    }

    /// Well-formedness: the accumulator stays within the bound that the
    /// number of accepted bytes allows.
    pub open spec fn wf(&self) -> bool {
        &&& self.spec_count() <= 4
        &&& self.spec_val() < 0x10000000
        &&& (self.spec_count() == 0 ==> self.spec_val() == 0)
        &&& (self.spec_count() == 1 ==> self.spec_val() < 0x80)
        &&& (self.spec_count() == 2 ==> self.spec_val() < 0x4000)
        &&& (self.spec_count() == 3 ==> self.spec_val() < 0x200000)
        &&& (!self.spec_closed() ==> self.spec_count() <= 3)
    }

    /// Builds an empty VLQBuilder.
    pub fn new() -> (r: VLQBuilder)
        ensures
            r.wf(),
            r.spec_val() == 0,
            r.spec_count() == 0,
            !r.spec_closed(),
    {
        VLQBuilder { val: 0, count: 0, closed: false }
    }

    /// Pushes one wire byte into the builder.  A byte with a clear high bit
    /// terminates the quantity, as does the fourth byte (the SMF format
    /// ceiling); later bytes are ignored.
    pub fn push(&mut self, data: u8)
        requires
            old(self).wf(),
        ensures
            final(self).wf(),
            old(self).spec_closed() ==> {
                &&& final(self).spec_val() == old(self).spec_val()
                &&& final(self).spec_count() == old(self).spec_count()
                &&& final(self).spec_closed()
            },
            !old(self).spec_closed() ==> {
                &&& final(self).spec_val() as nat == old(self).spec_val() as nat * 0x80 + (
                data as nat) % 0x80
                &&& final(self).spec_count() == old(self).spec_count() + 1
                &&& final(self).spec_closed() == (data < 0x80 || old(self).spec_count() + 1 == 4)
            },
    {
        if !self.closed {
            self.val = self.val * 0x80 + (data % 0x80) as u32;
            self.count = self.count + 1;
            if data < 0x80 || self.count == 4 {
                self.closed = true;
            }
        }
    }

    /// Checks whether the builder has seen a complete VLQ.
    pub fn closed(&self) -> (r: bool)
        ensures
            r == self.spec_closed(),
    {
        self.closed
    }

    /// Builds the VLQ from the accumulated bytes.
    pub fn build(&self) -> (r: VLQ)
        requires
            self.wf(),
        ensures
            r.spec_val() == self.spec_val(),
            r.wf(),
    {
        VLQ::new(self.val)
    }
}

/// The three 7-bit-group identities behind the VLQ encoding, for one 28-bit
/// value: peeling the lowest group off each quotient.
proof fn lemma_vlq_groups(x: u32)
    ensures
        (x as nat / 0x80) * 0x80 + (x as nat) % 0x80 == x as nat,
        (x as nat / 0x4000) * 0x80 + (x as nat / 0x80) % 0x80 == x as nat / 0x80,
        (x as nat / 0x200000) * 0x80 + (x as nat / 0x4000) % 0x80 == x as nat / 0x4000,
{
    assert((x / 0x80) * 0x80 + x % 0x80 == x) by (bit_vector);
    assert((x / 0x4000) * 0x80 + (x / 0x80) % 0x80 == x / 0x80) by (bit_vector);
    assert((x / 0x200000) * 0x80 + (x / 0x4000) % 0x80 == x / 0x4000) by (bit_vector);
    assert(x as nat / 0x80 == (x / 0x80) as nat);
    assert(x as nat / 0x4000 == (x / 0x4000) as nat);
    assert(x as nat / 0x200000 == (x / 0x200000) as nat);
}

/// The canonical encoding's length is `vlq_len`.
pub broadcast proof fn lemma_vlq_bytes_len(v: nat)
    ensures
        #[trigger] vlq_bytes(v).len() == vlq_len(v),
{
}

/// Decoding inverts encoding, positionally: wherever a slice of a stream
/// holds the canonical encoding of `v`, the decoder started there returns
/// `v` and consumes exactly `vlq_len(v)` bytes.
pub proof fn lemma_vlq_decode_encode(s: Seq<u8>, pos: int, v: nat)
    requires
        v < 0x10000000,
        0 <= pos,
        pos + vlq_len(v) <= s.len(),
        s.subrange(pos, pos + vlq_len(v) as int) == vlq_bytes(v),
    ensures
        vlq_decode(s, pos) == Some((v, vlq_len(v))),
{
    lemma_vlq_groups(v as u32);
    let enc = vlq_bytes(v);
    assert(forall|i: int| 0 <= i < vlq_len(v) ==> s[pos + i] == #[trigger] enc[i]) by {
        assert(forall|i: int|
            0 <= i < vlq_len(v) ==> s.subrange(pos, pos + vlq_len(v) as int)[i] == #[trigger] enc[
            i]);
    }
    if v < 0x80 {
        assert(s[pos] == enc[0]);
        assert(s[pos] as nat == v);
        assert(vlq_scan(s, pos, 0, 0) == Some((v, 1nat)));
    } else if v < 0x4000 {
        assert(s[pos] == enc[0] && s[pos + 1] == enc[1]);
        assert(v / 0x80 < 0x80);
        assert(s[pos] as nat == 0x80 + v / 0x80);
        assert(s[pos + 1] as nat == v % 0x80);
        let a1: nat = v / 0x80;
        assert(0 * 0x80 + (s[pos] as nat) % 0x80 == a1);
        assert(vlq_scan(s, pos, 0, 0) == vlq_scan(s, pos + 1, a1, 1));
        assert(vlq_scan(s, pos + 1, a1, 1) == Some((a1 * 0x80 + (s[pos + 1] as nat) % 0x80, 2nat)));
        assert(a1 * 0x80 + v % 0x80 == v);
    } else if v < 0x200000 {
        assert(s[pos] == enc[0] && s[pos + 1] == enc[1] && s[pos + 2] == enc[2]);
        assert(v / 0x4000 < 0x80);
        assert(s[pos] as nat == 0x80 + v / 0x4000);
        assert(s[pos + 1] as nat == 0x80 + (v / 0x80) % 0x80);
        assert(s[pos + 2] as nat == v % 0x80);
        let a1: nat = v / 0x4000;
        let a2: nat = v / 0x80;
        assert(0 * 0x80 + (s[pos] as nat) % 0x80 == a1);
        assert(vlq_scan(s, pos, 0, 0) == vlq_scan(s, pos + 1, a1, 1));
        assert(a1 * 0x80 + (s[pos + 1] as nat) % 0x80 == a2);
        assert(vlq_scan(s, pos + 1, a1, 1) == vlq_scan(s, pos + 2, a2, 2));
        assert(vlq_scan(s, pos + 2, a2, 2) == Some((a2 * 0x80 + (s[pos + 2] as nat) % 0x80, 3nat)));
        assert(a2 * 0x80 + v % 0x80 == v);
    } else {
        assert(s[pos] == enc[0] && s[pos + 1] == enc[1] && s[pos + 2] == enc[2] && s[pos + 3]
            == enc[3]);
        assert(v / 0x200000 < 0x80);
        assert(s[pos] as nat == 0x80 + v / 0x200000);
        assert(s[pos + 1] as nat == 0x80 + (v / 0x4000) % 0x80);
        assert(s[pos + 2] as nat == 0x80 + (v / 0x80) % 0x80);
        assert(s[pos + 3] as nat == v % 0x80);
        let a1: nat = v / 0x200000;
        let a2: nat = v / 0x4000;
        let a3: nat = v / 0x80;
        assert(0 * 0x80 + (s[pos] as nat) % 0x80 == a1);
        assert(vlq_scan(s, pos, 0, 0) == vlq_scan(s, pos + 1, a1, 1));
        assert(a1 * 0x80 + (s[pos + 1] as nat) % 0x80 == a2);
        assert(vlq_scan(s, pos + 1, a1, 1) == vlq_scan(s, pos + 2, a2, 2));
        assert(a2 * 0x80 + (s[pos + 2] as nat) % 0x80 == a3);
        assert(vlq_scan(s, pos + 2, a2, 2) == vlq_scan(s, pos + 3, a3, 3));
        assert(vlq_scan(s, pos + 3, a3, 3) == Some((a3 * 0x80 + (s[pos + 3] as nat) % 0x80, 4nat)));
        assert(a3 * 0x80 + v % 0x80 == v);
    }
}

/// VLQ round trip: decoding the canonical encoding of any value below 2^28
/// yields the value back, together with its encoded length.
pub proof fn lemma_vlq_round_trip(v: nat)
    requires
        v < 0x10000000,
    ensures
        vlq_decode(vlq_bytes(v), 0) == Some((v, vlq_len(v))),
        vlq_bytes(v).len() == vlq_len(v),
{
    assert(vlq_bytes(v).subrange(0, vlq_len(v) as int) =~= vlq_bytes(v));
    lemma_vlq_decode_encode(vlq_bytes(v), 0, v);
}

/// VLQ canonicality: the encoder never produces a multi-byte sequence for a
/// value below 0x80, and zero (in particular) encodes as one single byte.
pub proof fn lemma_vlq_canonical(v: nat)
    requires
        v < 0x80,
    ensures
        vlq_bytes(v).len() == 1,
        vlq_len(0) == 1,
{
}

} // verus!
