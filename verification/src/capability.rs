//! BGP capability TLVs: the records embedded in an OPEN message's optional
//! parameters, with their wire codec and the laws that tie decode to encode.

use vstd::prelude::*;

use crate::wire::{
    be16, be24, be32, byte_at, read_u16_at, read_u32_at, u16_hi, u16_lo, u24_b0, u24_b1, u24_b2,
    u32_b0, u32_b1, u32_b2, u32_b3,
};

verus! {

/// The IPv4 address family identifier.
pub const AFI_IP: u16 = 1;

/// The MPLS-VPN subsequent address family identifier.
pub const SAFI_MPLS_VPN: u8 = 128;

/// Capability code: multiprotocol extensions.
pub const CAP_MULTI_PROTOCOL: u8 = 1;

/// Capability code: route refresh.
pub const CAP_ROUTE_REFRESH: u8 = 2;

/// Capability code: graceful restart.
pub const CAP_GRACEFUL_RESTART: u8 = 64;

/// Capability code: four-octet AS numbers.
pub const CAP_FOUR_OCTET_AS: u8 = 65;

/// Capability code: dynamic capability, deprecated code point.
pub const CAP_DYNAMIC_CAPABILITY_OLD: u8 = 66;

/// Capability code: dynamic capability.
pub const CAP_DYNAMIC_CAPABILITY: u8 = 67;

/// Capability code: additional paths.
pub const CAP_ADD_PATH: u8 = 69;

/// Capability code: route refresh, vendor code point.
pub const CAP_ROUTE_REFRESH_CISCO: u8 = 128;

/// Capability code: long-lived graceful restart.
pub const CAP_LONG_LIVED_GRACEFUL_RESTART: u8 = 129;

/// Decoding failed: a declared TLV length is inconsistent with the
/// capability code's fixed or modular shape, or runs past the bytes
/// actually available.
#[derive(Debug, PartialEq, Eq, Structural, Clone, Copy)]
pub enum Error {
    Malformed,
}

/// An address-family identifier pair.
#[derive(Debug, PartialEq, Eq, Structural, Clone, Copy)]
pub struct Family {
    pub afi: u16,
    pub safi: u8,
}

/// Per-family restart state, as a graceful-restart record carries it.
#[allow(dead_code)]
#[derive(Debug)]
pub struct RestartFlags {
    restart_state: u8,
    restart_time: u16,
    family: Family,
    forwarding_state: u8,
}

/// One decoded capability record.
#[derive(Debug, PartialEq, Eq, Clone)]
pub enum Capability {
    MultiProtocol(Family),
    RouteRefresh,
    GracefulRestart { flags: u8, time: u16, families: Vec<(Family, u8)> },
    FourOctetAs(u32),
    DynamicCapability,
    LongLived(Vec<(Family, u8, u32)>),
    AddPath(Vec<(Family, u8)>),
    Unknown { code: u8, data: Vec<u8> },
}

/// The mathematical model of a capability: the same shape with sequences
/// in place of vectors.
pub enum CapView {
    MultiProtocol(Family),
    RouteRefresh,
    GracefulRestart { flags: u8, time: u16, families: Seq<(Family, u8)> },
    FourOctetAs(u32),
    DynamicCapability,
    LongLived(Seq<(Family, u8, u32)>),
    AddPath(Seq<(Family, u8)>),
    Unknown { code: u8, data: Seq<u8> },
}

impl View for Capability {
    type V = CapView;

    open spec fn view(&self) -> CapView {
        match self {
            Capability::MultiProtocol(f) => CapView::MultiProtocol(*f),
            Capability::RouteRefresh => CapView::RouteRefresh,
            Capability::GracefulRestart { flags, time, families } => CapView::GracefulRestart {
                flags: *flags,
                time: *time,
                families: families@,
            },
            Capability::FourOctetAs(asn) => CapView::FourOctetAs(*asn),
            Capability::DynamicCapability => CapView::DynamicCapability,
            Capability::LongLived(v) => CapView::LongLived(v@),
            Capability::AddPath(v) => CapView::AddPath(v@),
            Capability::Unknown { code, data } => CapView::Unknown { code: *code, data: data@ },
        }
    }
}

/// A code this decoder gives a variant of its own.
pub open spec fn is_known_code(code: u8) -> bool {
    ||| code == CAP_MULTI_PROTOCOL
    ||| code == CAP_ROUTE_REFRESH
    ||| code == CAP_ROUTE_REFRESH_CISCO
    ||| code == CAP_GRACEFUL_RESTART
    ||| code == CAP_FOUR_OCTET_AS
    ||| code == CAP_DYNAMIC_CAPABILITY
    ||| code == CAP_DYNAMIC_CAPABILITY_OLD
    ||| code == CAP_ADD_PATH
    ||| code == CAP_LONG_LIVED_GRACEFUL_RESTART
}

/// A capability whose canonical encoding exists and decodes back to it:
/// list lengths fit the one-byte TLV length, packed fields fit their
/// bit widths, and an unknown record does not claim a known code.
pub open spec fn cap_valid(c: CapView) -> bool {
    match c {
        CapView::MultiProtocol(_) => true,
        CapView::RouteRefresh => true,
        CapView::GracefulRestart { flags, time, families } => {
            &&& flags < 16
            &&& time < 0x1000
            &&& 1 <= families.len() <= 63
        },
        CapView::FourOctetAs(_) => true,
        CapView::DynamicCapability => true,
        CapView::LongLived(v) => {
            &&& 1 <= v.len() <= 36
            &&& forall|i: int| 0 <= i < v.len() ==> #[trigger] v[i].2 < 0x1000000
        },
        CapView::AddPath(v) => 1 <= v.len() <= 63,
        CapView::Unknown { code, data } => !is_known_code(code) && data.len() <= 253,
    }
}

/// The four wire bytes of one (family, flags) record.
pub open spec fn spec_fam_flag_bytes(e: (Family, u8)) -> Seq<u8> {
    seq![u16_hi(e.0.afi), u16_lo(e.0.afi), e.0.safi, e.1]
}

/// The wire bytes of a list of (family, flags) records, in order.
pub open spec fn spec_fam_flags_bytes(s: Seq<(Family, u8)>) -> Seq<u8>
    decreases s.len(),
{
    if s.len() == 0 {
        Seq::empty()
    } else {
        spec_fam_flag_bytes(s[0]) + spec_fam_flags_bytes(s.skip(1))
    }
}

/// The seven wire bytes of one long-lived record: family, flags and a
/// 24-bit time.
pub open spec fn spec_ll_entry_bytes(e: (Family, u8, u32)) -> Seq<u8> {
    seq![u16_hi(e.0.afi), u16_lo(e.0.afi), e.0.safi, e.1, u24_b0(e.2), u24_b1(e.2), u24_b2(e.2)]
}

/// The wire bytes of a list of long-lived records, in order.
pub open spec fn spec_ll_entries_bytes(s: Seq<(Family, u8, u32)>) -> Seq<u8>
    decreases s.len(),
{
    if s.len() == 0 {
        Seq::empty()
    } else {
        spec_ll_entry_bytes(s[0]) + spec_ll_entries_bytes(s.skip(1))
    }
}

/// The packed 16-bit graceful-restart word: four flag bits then a
/// twelve-bit time.
pub open spec fn spec_gr_word(flags: u8, time: u16) -> u16 {
    ((flags as int) * 0x1000 + (time as int)) as u16
}

/// The canonical wire bytes of a capability record, code and length
/// included.
pub open spec fn spec_cap_bytes(c: CapView) -> Seq<u8> {
    match c {
        CapView::MultiProtocol(f) => seq![
            CAP_MULTI_PROTOCOL,
            4u8,
            u16_hi(f.afi),
            u16_lo(f.afi),
            0u8,
            f.safi,
        ],
        CapView::RouteRefresh => seq![CAP_ROUTE_REFRESH, 0u8],
        CapView::GracefulRestart { flags, time, families } => seq![
            CAP_GRACEFUL_RESTART,
            (2 + 4 * families.len()) as u8,
            u16_hi(spec_gr_word(flags, time)),
            u16_lo(spec_gr_word(flags, time)),
        ] + spec_fam_flags_bytes(families),
        CapView::FourOctetAs(asn) => seq![
            CAP_FOUR_OCTET_AS,
            4u8,
            u32_b0(asn),
            u32_b1(asn),
            u32_b2(asn),
            u32_b3(asn),
        ],
        CapView::DynamicCapability => seq![CAP_DYNAMIC_CAPABILITY, 0u8],
        CapView::LongLived(v) => seq![
            CAP_LONG_LIVED_GRACEFUL_RESTART,
            (7 * v.len()) as u8,
        ] + spec_ll_entries_bytes(v),
        CapView::AddPath(v) => seq![CAP_ADD_PATH, (4 * v.len()) as u8]
            + spec_fam_flags_bytes(v),
        CapView::Unknown { code, data } => seq![code, data.len() as u8] + data,
    }
}

/// The (family, flags) records parsed from `count` four-byte groups of `b`
/// starting at `at`.
pub open spec fn spec_parse_fam_flags(b: Seq<u8>, at: int, count: nat) -> Seq<(Family, u8)>
    decreases count,
{
    if count == 0 {
        Seq::empty()
    } else {
        seq![(Family { afi: be16(b[at], b[at + 1]), safi: b[at + 2] }, b[at + 3])]
            + spec_parse_fam_flags(b, at + 4, (count - 1) as nat)
    }
}

/// The long-lived records parsed from `count` seven-byte groups of `b`
/// starting at `at`.
pub open spec fn spec_parse_ll_entries(b: Seq<u8>, at: int, count: nat) -> Seq<(Family, u8, u32)>
    decreases count,
{
    if count == 0 {
        Seq::empty()
    } else {
        seq![
            (
                Family { afi: be16(b[at], b[at + 1]), safi: b[at + 2] },
                b[at + 3],
                be24(b[at + 4], b[at + 5], b[at + 6]),
            ),
        ] + spec_parse_ll_entries(b, at + 7, (count - 1) as nat)
    }
}

/// What decoding one capability from the front of `b` yields: the record
/// and the number of bytes consumed, or a malformed-record failure.
/// The declared length is validated against the code's shape and against
/// the bytes available before any field of the body is read; a record
/// with an unknown code is kept opaquely, never re-tagged.
pub open spec fn spec_parse_cap(b: Seq<u8>) -> Result<(CapView, int), Error> {
    if b.len() < 2 {
        Err(Error::Malformed)
    } else {
        let code = b[0];
        let n = b[1] as int;
        if 2 + n > b.len() {
            Err(Error::Malformed)
        } else {
            let used = 2 + n;
            if code == CAP_MULTI_PROTOCOL {
                if n == 4 {
                    Ok((CapView::MultiProtocol(Family { afi: be16(b[2], b[3]), safi: b[5] }), used))
                } else {
                    Err(Error::Malformed)
                }
            } else if code == CAP_ROUTE_REFRESH || code == CAP_ROUTE_REFRESH_CISCO {
                if n == 0 {
                    Ok((CapView::RouteRefresh, used))
                } else {
                    Err(Error::Malformed)
                }
            } else if code == CAP_GRACEFUL_RESTART {
                if n >= 6 && (n - 2) % 4 == 0 {
                    Ok((
                        CapView::GracefulRestart {
                            flags: (be16(b[2], b[3]) / 0x1000) as u8,
                            time: (be16(b[2], b[3]) % 0x1000) as u16,
                            families: spec_parse_fam_flags(b, 4, ((n - 2) / 4) as nat),
                        },
                        used,
                    ))
                } else {
                    Err(Error::Malformed)
                }
            } else if code == CAP_FOUR_OCTET_AS {
                if n == 4 {
                    Ok((CapView::FourOctetAs(be32(b[2], b[3], b[4], b[5])), used))
                } else {
                    Err(Error::Malformed)
                }
            } else if code == CAP_DYNAMIC_CAPABILITY || code == CAP_DYNAMIC_CAPABILITY_OLD {
                if n == 0 {
                    Ok((CapView::DynamicCapability, used))
                } else {
                    Err(Error::Malformed)
                }
            } else if code == CAP_ADD_PATH {
                if n >= 4 && n % 4 == 0 {
                    Ok((CapView::AddPath(spec_parse_fam_flags(b, 2, (n / 4) as nat)), used))
                } else {
                    Err(Error::Malformed)
                }
            } else if code == CAP_LONG_LIVED_GRACEFUL_RESTART {
                if n >= 7 && n % 7 == 0 {
                    Ok((CapView::LongLived(spec_parse_ll_entries(b, 2, (n / 7) as nat)), used))
                } else {
                    Err(Error::Malformed)
                }
            } else {
                Ok((CapView::Unknown { code, data: b.subrange(2, 2 + n) }, used))
            }
        }
    }
}

/// How the executable decoder's result must mirror the specification
/// parser: the same failure, or the same record with the cursor advanced
/// by the same count.
pub open spec fn cap_result_matches(
    r: Result<(Capability, usize), Error>,
    s: Result<(CapView, int), Error>,
    off: int,
) -> bool {
    match s {
        Ok(p) => r matches Ok(q) && q.0@ == p.0 && q.1 == off + p.1,
        Err(e) => r matches Err(e2) && e2 == e,
    }
}

/// Both parsers read the same bytes whether the sequence is addressed
/// absolutely or relative to a dropped prefix.
proof fn lemma_fam_flags_shift(b: Seq<u8>, off: int, at: int, count: nat)
    requires
        0 <= off,
        0 <= at,
        off + at + 4 * count <= b.len(),
    ensures
        spec_parse_fam_flags(b, off + at, count) == spec_parse_fam_flags(b.skip(off), at, count),
    decreases count,
{
    if count > 0 {
        assert(b.skip(off)[at] == b[off + at]);
        assert(b.skip(off)[at + 1] == b[off + at + 1]);
        assert(b.skip(off)[at + 2] == b[off + at + 2]);
        assert(b.skip(off)[at + 3] == b[off + at + 3]);
        lemma_fam_flags_shift(b, off, at + 4, (count - 1) as nat);
    }
}

/// The seven-byte parser reads the same bytes whether the sequence is
/// addressed absolutely or relative to a dropped prefix.
proof fn lemma_ll_entries_shift(b: Seq<u8>, off: int, at: int, count: nat)
    requires
        0 <= off,
        0 <= at,
        off + at + 7 * count <= b.len(),
    ensures
        spec_parse_ll_entries(b, off + at, count) == spec_parse_ll_entries(b.skip(off), at, count),
    decreases count,
{
    if count > 0 {
        assert(b.skip(off)[at] == b[off + at]);
        assert(b.skip(off)[at + 1] == b[off + at + 1]);
        assert(b.skip(off)[at + 2] == b[off + at + 2]);
        assert(b.skip(off)[at + 3] == b[off + at + 3]);
        assert(b.skip(off)[at + 4] == b[off + at + 4]);
        assert(b.skip(off)[at + 5] == b[off + at + 5]);
        assert(b.skip(off)[at + 6] == b[off + at + 6]);
        lemma_ll_entries_shift(b, off, at + 7, (count - 1) as nat);
    }
}

/// Read `count` four-byte (family, flags) records starting at `start`.
#[verifier::loop_isolation(false)]
fn read_fam_flags(buf: &[u8], start: usize, count: usize) -> (v: Vec<(Family, u8)>)
    requires
        start + 4 * count <= buf@.len(),
    ensures
        v@ == spec_parse_fam_flags(buf@, start as int, count as nat),
{
    let buf_len: usize = buf.len();
    proof {
        assert(buf@.len() == buf_len);
    }
    let mut v: Vec<(Family, u8)> = Vec::new();
    let mut k: usize = 0;
    while k < count
        invariant
            k <= count,
            v@.len() == k,
            spec_parse_fam_flags(buf@, start as int, count as nat) == v@ + spec_parse_fam_flags(
                buf@,
                start + 4 * k,
                (count - k) as nat,
            ),
        decreases count - k,
    {
        let p: usize = start + 4 * k;
        let afi: u16 = read_u16_at(buf, p);
        let safi: u8 = byte_at(buf, p + 2);
        let fl: u8 = byte_at(buf, p + 3);
        proof {
            let at: int = start + 4 * k;
            assert(spec_parse_fam_flags(buf@, at, (count - k) as nat) == seq![
                (Family { afi: be16(buf@[at], buf@[at + 1]), safi: buf@[at + 2] }, buf@[at + 3]),
            ] + spec_parse_fam_flags(buf@, at + 4, (count - k - 1) as nat));
            assert((v@ + seq![(Family { afi, safi }, fl)]) + spec_parse_fam_flags(
                buf@,
                at + 4,
                (count - k - 1) as nat,
            ) =~= v@ + (seq![(Family { afi, safi }, fl)] + spec_parse_fam_flags(
                buf@,
                at + 4,
                (count - k - 1) as nat,
            )));
        }
        v.push((Family { afi, safi }, fl));
        k = k + 1;
    }
    proof {
        assert(spec_parse_fam_flags(buf@, start + 4 * count, 0) =~= Seq::<(Family, u8)>::empty());
        assert(v@ + Seq::<(Family, u8)>::empty() =~= v@);
    }
    v
}

/// Read `count` seven-byte long-lived records starting at `start`.
#[verifier::loop_isolation(false)]
fn read_ll_entries(buf: &[u8], start: usize, count: usize) -> (v: Vec<(Family, u8, u32)>)
    requires
        start + 7 * count <= buf@.len(),
    ensures
        v@ == spec_parse_ll_entries(buf@, start as int, count as nat),
{
    let buf_len: usize = buf.len();
    proof {
        assert(buf@.len() == buf_len);
    }
    let mut v: Vec<(Family, u8, u32)> = Vec::new();
    let mut k: usize = 0;
    while k < count
        invariant
            k <= count,
            v@.len() == k,
            spec_parse_ll_entries(buf@, start as int, count as nat) == v@ + spec_parse_ll_entries(
                buf@,
                start + 7 * k,
                (count - k) as nat,
            ),
        decreases count - k,
    {
        let p: usize = start + 7 * k;
        let afi: u16 = read_u16_at(buf, p);
        let safi: u8 = byte_at(buf, p + 2);
        let fl: u8 = byte_at(buf, p + 3);
        let t0: u8 = byte_at(buf, p + 4);
        let t1: u8 = byte_at(buf, p + 5);
        let t2: u8 = byte_at(buf, p + 6);
        let time: u32 = (t0 as u32) * 0x10000 + (t1 as u32) * 0x100 + (t2 as u32);
        proof {
            let at: int = start + 7 * k;
            assert(spec_parse_ll_entries(buf@, at, (count - k) as nat) == seq![
                (
                    Family { afi: be16(buf@[at], buf@[at + 1]), safi: buf@[at + 2] },
                    buf@[at + 3],
                    be24(buf@[at + 4], buf@[at + 5], buf@[at + 6]),
                ),
            ] + spec_parse_ll_entries(buf@, at + 7, (count - k - 1) as nat));
            assert((v@ + seq![(Family { afi, safi }, fl, time)]) + spec_parse_ll_entries(
                buf@,
                at + 7,
                (count - k - 1) as nat,
            ) =~= v@ + (seq![(Family { afi, safi }, fl, time)] + spec_parse_ll_entries(
                buf@,
                at + 7,
                (count - k - 1) as nat,
            )));
        }
        v.push((Family { afi, safi }, fl, time));
        k = k + 1;
    }
    proof {
        assert(spec_parse_ll_entries(buf@, start + 7 * count, 0) =~= Seq::<
            (Family, u8, u32),
        >::empty());
        assert(v@ + Seq::<(Family, u8, u32)>::empty() =~= v@);
    }
    v
}

impl Capability {
    /// Decode one capability record at offset `off` of `buf`.
    pub fn from_bytes(buf: &[u8], off: usize) -> (r: Result<(Capability, usize), Error>)
        requires
            off <= buf@.len(),
        ensures
            cap_result_matches(r, spec_parse_cap(buf@.skip(off as int)), off as int),
    {
        let ghost b: Seq<u8> = buf@.skip(off as int);
        let n_avail: usize = buf.len();
        if n_avail - off < 2 {
            return Err(Error::Malformed);
        }
        let code: u8 = byte_at(buf, off);
        let lenb: u8 = byte_at(buf, off + 1);
        let n: usize = lenb as usize;
        proof {
            assert(b[0] == buf@[off as int]);
            assert(b[1] == buf@[off as int + 1]);
        }
        if n_avail - off - 2 < n {
            return Err(Error::Malformed);
        }
        let body: usize = off + 2;
        let used: usize = body + n;
        if code == CAP_MULTI_PROTOCOL {
            if n != 4 {
                return Err(Error::Malformed);
            }
            let afi: u16 = read_u16_at(buf, body);
            let safi: u8 = byte_at(buf, body + 3);
            return Ok((Capability::MultiProtocol(Family { afi, safi }), used));
        } else if code == CAP_ROUTE_REFRESH || code == CAP_ROUTE_REFRESH_CISCO {
            if n != 0 {
                return Err(Error::Malformed);
            }
            return Ok((Capability::RouteRefresh, used));
        } else if code == CAP_GRACEFUL_RESTART {
            if n < 6 || (n - 2) % 4 != 0 {
                return Err(Error::Malformed);
            }
            let w: u16 = read_u16_at(buf, body);
            let flags: u8 = (w / 0x1000) as u8;
            let time: u16 = w % 0x1000;
            let count: usize = (n - 2) / 4;
            let families: Vec<(Family, u8)> = read_fam_flags(buf, body + 2, count);
            proof {
                lemma_fam_flags_shift(buf@, off as int, 4, count as nat);
            }
            return Ok((Capability::GracefulRestart { flags, time, families }, used));
        } else if code == CAP_FOUR_OCTET_AS {
            if n != 4 {
                return Err(Error::Malformed);
            }
            let asn: u32 = read_u32_at(buf, body);
            return Ok((Capability::FourOctetAs(asn), used));
        } else if code == CAP_DYNAMIC_CAPABILITY || code == CAP_DYNAMIC_CAPABILITY_OLD {
            if n != 0 {
                return Err(Error::Malformed);
            }
            return Ok((Capability::DynamicCapability, used));
        } else if code == CAP_ADD_PATH {
            if n < 4 || n % 4 != 0 {
                return Err(Error::Malformed);
            }
            let count: usize = n / 4;
            let v: Vec<(Family, u8)> = read_fam_flags(buf, body, count);
            proof {
                lemma_fam_flags_shift(buf@, off as int, 2, count as nat);
            }
            return Ok((Capability::AddPath(v), used));
        } else if code == CAP_LONG_LIVED_GRACEFUL_RESTART {
            if n < 7 || n % 7 != 0 {
                return Err(Error::Malformed);
            }
            let count: usize = n / 7;
            let v: Vec<(Family, u8, u32)> = read_ll_entries(buf, body, count);
            proof {
                lemma_ll_entries_shift(buf@, off as int, 2, count as nat);
            }
            return Ok((Capability::LongLived(v), used));
        } else {
            let sl: &[u8] = vstd::slice::slice_subrange(buf, body, used);
            let data: Vec<u8> = vstd::slice::slice_to_vec(sl);
            proof {
                assert(data@ =~= b.subrange(2, 2 + n));
            }
            return Ok((Capability::Unknown { code, data }, used));
        }
    }
}

/// The bytes of a (family, flags) list are four per record.
pub proof fn lemma_fam_flags_bytes_len(s: Seq<(Family, u8)>)
    ensures
        spec_fam_flags_bytes(s).len() == 4 * s.len(),
    decreases s.len(),
{
    if s.len() > 0 {
        lemma_fam_flags_bytes_len(s.skip(1));
    }
}

/// The bytes of a long-lived list are seven per record.
pub proof fn lemma_ll_entries_bytes_len(s: Seq<(Family, u8, u32)>)
    ensures
        spec_ll_entries_bytes(s).len() == 7 * s.len(),
    decreases s.len(),
{
    if s.len() > 0 {
        lemma_ll_entries_bytes_len(s.skip(1));
    }
}

/// A valid capability encodes to at least its two header bytes and at
/// most a full one-byte-length TLV.
pub proof fn lemma_cap_bytes_len(c: CapView)
    requires
        cap_valid(c),
    ensures
        2 <= spec_cap_bytes(c).len() <= 256,
{
    match c {
        CapView::GracefulRestart { families, .. } => {
            lemma_fam_flags_bytes_len(families);
        },
        CapView::LongLived(v) => {
            lemma_ll_entries_bytes_len(v);
        },
        CapView::AddPath(v) => {
            lemma_fam_flags_bytes_len(v);
        },
        _ => {},
    }
}

/// Parsing four-byte records out of their own encoding gives the records
/// back.
proof fn lemma_parse_fam_flags_of_enc(b: Seq<u8>, at: int, s: Seq<(Family, u8)>)
    requires
        0 <= at,
        at + 4 * s.len() <= b.len(),
        b.subrange(at, at + 4 * s.len()) == spec_fam_flags_bytes(s),
    ensures
        spec_parse_fam_flags(b, at, s.len()) == s,
    decreases s.len(),
{
    lemma_fam_flags_bytes_len(s);
    if s.len() == 0 {
        assert(spec_parse_fam_flags(b, at, 0) =~= s);
    } else {
        let e = spec_fam_flags_bytes(s);
        lemma_fam_flags_bytes_len(s.skip(1));
        assert(e == spec_fam_flag_bytes(s[0]) + spec_fam_flags_bytes(s.skip(1)));
        assert(b[at] == e[0]);
        assert(b[at + 1] == e[1]);
        assert(b[at + 2] == e[2]);
        assert(b[at + 3] == e[3]);
        crate::wire::lemma_be16_split(s[0].0.afi);
        assert(Family { afi: be16(b[at], b[at + 1]), safi: b[at + 2] } == s[0].0);
        let rest = spec_fam_flags_bytes(s.skip(1));
        let f0 = spec_fam_flag_bytes(s[0]);
        assert forall|j: int| 0 <= j < rest.len() implies b[at + 4 + j] == rest[j] by {
            assert((f0 + rest)[4 + j] == rest[j]);
            assert(b.subrange(at, at + 4 * s.len())[4 + j] == b[at + 4 + j]);
        }
        assert(b.subrange(at + 4, at + 4 + 4 * s.skip(1).len()) =~= spec_fam_flags_bytes(
            s.skip(1),
        ));
        lemma_parse_fam_flags_of_enc(b, at + 4, s.skip(1));
        assert(spec_parse_fam_flags(b, at, s.len()) =~= s);
    }
}

/// Parsing seven-byte records out of their own encoding gives the
/// records back.
proof fn lemma_parse_ll_entries_of_enc(b: Seq<u8>, at: int, s: Seq<(Family, u8, u32)>)
    requires
        0 <= at,
        at + 7 * s.len() <= b.len(),
        b.subrange(at, at + 7 * s.len()) == spec_ll_entries_bytes(s),
        forall|i: int| 0 <= i < s.len() ==> #[trigger] s[i].2 < 0x1000000,
    ensures
        spec_parse_ll_entries(b, at, s.len()) == s,
    decreases s.len(),
{
    lemma_ll_entries_bytes_len(s);
    if s.len() == 0 {
        assert(spec_parse_ll_entries(b, at, 0) =~= s);
    } else {
        let e = spec_ll_entries_bytes(s);
        lemma_ll_entries_bytes_len(s.skip(1));
        assert(e == spec_ll_entry_bytes(s[0]) + spec_ll_entries_bytes(s.skip(1)));
        assert(b[at] == e[0]);
        assert(b[at + 1] == e[1]);
        assert(b[at + 2] == e[2]);
        assert(b[at + 3] == e[3]);
        assert(b[at + 4] == e[4]);
        assert(b[at + 5] == e[5]);
        assert(b[at + 6] == e[6]);
        crate::wire::lemma_be16_split(s[0].0.afi);
        assert(s[0].2 < 0x1000000);
        crate::wire::lemma_be24_split(s[0].2);
        assert(Family { afi: be16(b[at], b[at + 1]), safi: b[at + 2] } == s[0].0);
        assert(be24(b[at + 4], b[at + 5], b[at + 6]) == s[0].2);
        let rest = spec_ll_entries_bytes(s.skip(1));
        let f0 = spec_ll_entry_bytes(s[0]);
        assert forall|j: int| 0 <= j < rest.len() implies b[at + 7 + j] == rest[j] by {
            assert((f0 + rest)[7 + j] == rest[j]);
            assert(b.subrange(at, at + 7 * s.len())[7 + j] == b[at + 7 + j]);
        }
        assert(b.subrange(at + 7, at + 7 + 7 * s.skip(1).len()) =~= spec_ll_entries_bytes(
            s.skip(1),
        ));
        assert(forall|i: int|
            0 <= i < s.skip(1).len() ==> #[trigger] s.skip(1)[i].2 < 0x1000000);
        lemma_parse_ll_entries_of_enc(b, at + 7, s.skip(1));
        assert(spec_parse_ll_entries(b, at, s.len()) =~= s);
    }
}

/// Round trip for one record: decoding the canonical encoding of a valid
/// capability, whatever follows it, yields the capability back and
/// consumes exactly its bytes.
pub proof fn lemma_parse_cap_of_enc(c: CapView, rest: Seq<u8>)
    requires
        cap_valid(c),
    ensures
        spec_parse_cap(spec_cap_bytes(c) + rest) == Ok::<(CapView, int), Error>(
            (c, spec_cap_bytes(c).len() as int),
        ),
{
    let e = spec_cap_bytes(c);
    let b = e + rest;
    lemma_cap_bytes_len(c);
    match c {
        CapView::MultiProtocol(f) => {
            crate::wire::lemma_be16_split(f.afi);
        },
        CapView::RouteRefresh => {},
        CapView::GracefulRestart { flags, time, families } => {
            let n = families.len() as int;
            lemma_fam_flags_bytes_len(families);
            assert(e.len() == 4 + 4 * n);
            assert(b[1] == (2 + 4 * n) as u8);
            assert(b[1] as int == 2 + 4 * n);
            vstd::arithmetic::div_mod::lemma_mod_multiples_basic(n, 4);
            assert((4 * n) % 4 == 0);
            crate::wire::lemma_be16_split(spec_gr_word(flags, time));
            assert(be16(b[2], b[3]) == spec_gr_word(flags, time));
            assert(spec_gr_word(flags, time) as int == flags * 0x1000 + time);
            assert(be16(b[2], b[3]) / 0x1000 == flags as int);
            assert(be16(b[2], b[3]) % 0x1000 == time as int);
            assert(b.subrange(4, 4 + 4 * n) =~= spec_fam_flags_bytes(families));
            lemma_parse_fam_flags_of_enc(b, 4, families);
        },
        CapView::FourOctetAs(asn) => {
            crate::wire::lemma_be32_split(asn);
        },
        CapView::DynamicCapability => {},
        CapView::LongLived(v) => {
            let n = v.len() as int;
            lemma_ll_entries_bytes_len(v);
            assert(e.len() == 2 + 7 * n);
            assert(b[1] as int == 7 * n);
            vstd::arithmetic::div_mod::lemma_mod_multiples_basic(n, 7);
            assert((7 * n) % 7 == 0);
            assert(b.subrange(2, 2 + 7 * n) =~= spec_ll_entries_bytes(v));
            lemma_parse_ll_entries_of_enc(b, 2, v);
        },
        CapView::AddPath(v) => {
            let n = v.len() as int;
            lemma_fam_flags_bytes_len(v);
            assert(e.len() == 2 + 4 * n);
            assert(b[1] as int == 4 * n);
            vstd::arithmetic::div_mod::lemma_mod_multiples_basic(n, 4);
            assert((4 * n) % 4 == 0);
            assert(b.subrange(2, 2 + 4 * n) =~= spec_fam_flags_bytes(v));
            lemma_parse_fam_flags_of_enc(b, 2, v);
        },
        CapView::Unknown { code, data } => {
            assert(b[1] as int == data.len());
            assert(b.subrange(2, 2 + data.len() as int) =~= data);
        },
    }
}

/// The sequence-of-capabilities model of a vector of records.
pub open spec fn caps_view(s: Seq<Capability>) -> Seq<CapView> {
    s.map_values(|c: Capability| c@)
}

/// Every record in the list is valid.
pub open spec fn caps_valid(s: Seq<CapView>) -> bool {
    forall|i: int| 0 <= i < s.len() ==> cap_valid(#[trigger] s[i])
}

/// The concatenated canonical encodings of a list of capabilities.
pub open spec fn spec_caps_bytes(s: Seq<CapView>) -> Seq<u8>
    decreases s.len(),
{
    if s.len() == 0 {
        Seq::empty()
    } else {
        spec_cap_bytes(s[0]) + spec_caps_bytes(s.skip(1))
    }
}

/// The optional-parameter TLV that carries a capability list: parameter
/// type 2, a one-byte length, then the records; empty input yields no
/// bytes at all.
pub open spec fn spec_caps_tlv(s: Seq<CapView>) -> Seq<u8> {
    if s.len() == 0 {
        Seq::empty()
    } else {
        seq![2u8, spec_caps_bytes(s).len() as u8] + spec_caps_bytes(s)
    }
}

/// What decoding a whole capability block yields: records decoded one
/// after the other until the block is exhausted; any leftover or
/// malformed record fails the block.
pub open spec fn spec_parse_caps(b: Seq<u8>) -> Result<Seq<CapView>, Error>
    decreases b.len(),
{
    if b.len() == 0 {
        Ok(Seq::empty())
    } else {
        match spec_parse_cap(b) {
            Err(e) => Err(e),
            Ok((c, used)) => if 0 < used <= b.len() {
                match spec_parse_caps(b.skip(used)) {
                    Err(e) => Err(e),
                    Ok(rest) => Ok(seq![c] + rest),
                }
            } else {
                Err(Error::Malformed)
            },
        }
    }
}

/// A successful record decode consumed at least its two header bytes and
/// no more than the block offers.
pub proof fn lemma_parse_cap_used_bounds(b: Seq<u8>)
    ensures
        spec_parse_cap(b) matches Ok(p) ==> 2 <= p.1 <= b.len(),
{
}

/// Round trip for a capability list: decoding the concatenated canonical
/// encodings of valid records gives the records back.
pub proof fn lemma_parse_caps_of_enc(s: Seq<CapView>)
    requires
        caps_valid(s),
    ensures
        spec_parse_caps(spec_caps_bytes(s)) == Ok::<Seq<CapView>, Error>(s),
    decreases s.len(),
{
    if s.len() == 0 {
        assert(spec_parse_caps(spec_caps_bytes(s)) == Ok::<Seq<CapView>, Error>(Seq::empty()));
        assert(Seq::<CapView>::empty() =~= s);
    } else {
        let e0 = spec_cap_bytes(s[0]);
        let b = spec_caps_bytes(s);
        assert(cap_valid(s[0]));
        lemma_cap_bytes_len(s[0]);
        lemma_parse_cap_of_enc(s[0], spec_caps_bytes(s.skip(1)));
        assert(b == e0 + spec_caps_bytes(s.skip(1)));
        assert(spec_parse_cap(b) == Ok::<(CapView, int), Error>((s[0], e0.len() as int)));
        assert(b.skip(e0.len() as int) =~= spec_caps_bytes(s.skip(1)));
        assert(forall|i: int| 0 <= i < s.skip(1).len() ==> cap_valid(#[trigger] s.skip(1)[i]));
        lemma_parse_caps_of_enc(s.skip(1));
        assert(seq![s[0]] + s.skip(1) =~= s);
    }
}

/// Exec twin of `is_known_code`.
fn known_code(code: u8) -> (b: bool)
    ensures
        b == is_known_code(code),
{
    code == CAP_MULTI_PROTOCOL || code == CAP_ROUTE_REFRESH || code == CAP_ROUTE_REFRESH_CISCO
        || code == CAP_GRACEFUL_RESTART || code == CAP_FOUR_OCTET_AS
        || code == CAP_DYNAMIC_CAPABILITY || code == CAP_DYNAMIC_CAPABILITY_OLD
        || code == CAP_ADD_PATH || code == CAP_LONG_LIVED_GRACEFUL_RESTART
}

/// Append the four wire bytes of each (family, flags) record.
#[verifier::loop_isolation(false)]
fn write_fam_flags(out: &mut Vec<u8>, v: &Vec<(Family, u8)>)
    ensures
        final(out)@ == old(out)@ + spec_fam_flags_bytes(v@),
{
    let mut i: usize = 0;
    proof {
        assert(v@.skip(0) =~= v@);
    }
    while i < v.len()
        invariant
            i <= v@.len(),
            out@ + spec_fam_flags_bytes(v@.skip(i as int)) == old(out)@ + spec_fam_flags_bytes(
                v@,
            ),
        decreases v@.len() - i,
    {
        let ghost pre = out@;
        let e: (Family, u8) = v[i];
        out.push((e.0.afi / 0x100) as u8);
        out.push((e.0.afi % 0x100) as u8);
        out.push(e.0.safi);
        out.push(e.1);
        proof {
            let sk = v@.skip(i as int);
            assert(sk[0] == v@[i as int]);
            assert(sk.skip(1) =~= v@.skip(i + 1));
            assert(spec_fam_flags_bytes(sk) == spec_fam_flag_bytes(v@[i as int])
                + spec_fam_flags_bytes(v@.skip(i + 1)));
            assert(out@ =~= pre + spec_fam_flag_bytes(v@[i as int]));
            assert(out@ + spec_fam_flags_bytes(v@.skip(i + 1)) =~= pre + spec_fam_flags_bytes(
                sk,
            ));
        }
        i = i + 1;
    }
    proof {
        assert(spec_fam_flags_bytes(v@.skip(v@.len() as int)) =~= Seq::<u8>::empty());
        assert(out@ + Seq::<u8>::empty() =~= out@);
    }
}

/// Append the seven wire bytes of each long-lived record.
#[verifier::loop_isolation(false)]
fn write_ll_entries(out: &mut Vec<u8>, v: &Vec<(Family, u8, u32)>)
    requires
        forall|i: int| 0 <= i < v@.len() ==> #[trigger] v@[i].2 < 0x1000000,
    ensures
        final(out)@ == old(out)@ + spec_ll_entries_bytes(v@),
{
    let mut i: usize = 0;
    proof {
        assert(v@.skip(0) =~= v@);
    }
    while i < v.len()
        invariant
            i <= v@.len(),
            out@ + spec_ll_entries_bytes(v@.skip(i as int)) == old(out)@ + spec_ll_entries_bytes(
                v@,
            ),
        decreases v@.len() - i,
    {
        let ghost pre = out@;
        let e: (Family, u8, u32) = v[i];
        out.push((e.0.afi / 0x100) as u8);
        out.push((e.0.afi % 0x100) as u8);
        out.push(e.0.safi);
        out.push(e.1);
        out.push(((e.2 / 0x10000) % 0x100) as u8);
        out.push(((e.2 / 0x100) % 0x100) as u8);
        out.push((e.2 % 0x100) as u8);
        proof {
            let sk = v@.skip(i as int);
            assert(sk[0] == v@[i as int]);
            assert(sk.skip(1) =~= v@.skip(i + 1));
            assert(spec_ll_entries_bytes(sk) == spec_ll_entry_bytes(v@[i as int])
                + spec_ll_entries_bytes(v@.skip(i + 1)));
            assert(out@ =~= pre + spec_ll_entry_bytes(v@[i as int]));
            assert(out@ + spec_ll_entries_bytes(v@.skip(i + 1)) =~= pre + spec_ll_entries_bytes(
                sk,
            ));
        }
        i = i + 1;
    }
    proof {
        assert(spec_ll_entries_bytes(v@.skip(v@.len() as int)) =~= Seq::<u8>::empty());
        assert(out@ + Seq::<u8>::empty() =~= out@);
    }
}

impl Capability {
    /// Whether this record is valid to encode: its canonical encoding
    /// exists and decodes back to it.
    #[verifier::loop_isolation(false)]
    pub fn valid(&self) -> (b: bool)
        ensures
            b == cap_valid(self@),
    {
        match self {
            Capability::MultiProtocol(_) => true,
            Capability::RouteRefresh => true,
            Capability::GracefulRestart { flags, time, families } => {
                *flags < 16 && *time < 0x1000 && 1 <= families.len() && families.len() <= 63
            },
            Capability::FourOctetAs(_) => true,
            Capability::DynamicCapability => true,
            Capability::LongLived(v) => {
                if v.len() < 1 || v.len() > 36 {
                    false
                } else {
                    let mut i: usize = 0;
                    let mut ok: bool = true;
                    while i < v.len()
                        invariant
                            i <= v@.len(),
                            ok == (forall|j: int| 0 <= j < i ==> #[trigger] v@[j].2 < 0x1000000),
                        decreases v@.len() - i,
                    {
                        if v[i].2 >= 0x1000000 {
                            ok = false;
                        }
                        i = i + 1;
                    }
                    ok
                }
            },
            Capability::AddPath(v) => 1 <= v.len() && v.len() <= 63,
            Capability::Unknown { code, data } => !known_code(*code) && data.len() <= 253,
        }
    }

    /// The size of this record's canonical encoding.
    pub fn wire_len(&self) -> (n: usize)
        requires
            cap_valid(self@),
        ensures
            n == spec_cap_bytes(self@).len(),
    {
        match self {
            Capability::MultiProtocol(_) => 6,
            Capability::RouteRefresh => 2,
            Capability::GracefulRestart { families, .. } => {
                proof {
                    lemma_fam_flags_bytes_len(families@);
                }
                4 + 4 * families.len()
            },
            Capability::FourOctetAs(_) => 6,
            Capability::DynamicCapability => 2,
            Capability::LongLived(v) => {
                proof {
                    lemma_ll_entries_bytes_len(v@);
                }
                2 + 7 * v.len()
            },
            Capability::AddPath(v) => {
                proof {
                    lemma_fam_flags_bytes_len(v@);
                }
                2 + 4 * v.len()
            },
            Capability::Unknown { data, .. } => 2 + data.len(),
        }
    }

    /// Append this record's canonical encoding and return the count of
    /// bytes written.
    pub fn to_bytes(&self, out: &mut Vec<u8>) -> (n: usize)
        requires
            cap_valid(self@),
        ensures
            final(out)@ == old(out)@ + spec_cap_bytes(self@),
            n == spec_cap_bytes(self@).len(),
    {
        let start: usize = out.len();
        match self {
            Capability::MultiProtocol(f) => {
                out.push(CAP_MULTI_PROTOCOL);
                out.push(4u8);
                out.push((f.afi / 0x100) as u8);
                out.push((f.afi % 0x100) as u8);
                out.push(0u8);
                out.push(f.safi);
                proof {
                    assert(out@ =~= old(out)@ + spec_cap_bytes(self@));
                }
            },
            Capability::RouteRefresh => {
                out.push(CAP_ROUTE_REFRESH);
                out.push(0u8);
                proof {
                    assert(out@ =~= old(out)@ + spec_cap_bytes(self@));
                }
            },
            Capability::GracefulRestart { flags, time, families } => {
                proof {
                    lemma_fam_flags_bytes_len(families@);
                }
                out.push(CAP_GRACEFUL_RESTART);
                out.push((2 + 4 * families.len()) as u8);
                let w: u16 = (*flags as u16) * 0x1000 + *time;
                out.push((w / 0x100) as u8);
                out.push((w % 0x100) as u8);
                let ghost mid = out@;
                write_fam_flags(out, families);
                proof {
                    assert(w == spec_gr_word(*flags, *time));
                    assert(mid =~= old(out)@ + seq![
                        CAP_GRACEFUL_RESTART,
                        (2 + 4 * families@.len()) as u8,
                        u16_hi(spec_gr_word(*flags, *time)),
                        u16_lo(spec_gr_word(*flags, *time)),
                    ]);
                    assert(out@ =~= old(out)@ + spec_cap_bytes(self@));
                }
            },
            Capability::FourOctetAs(asn) => {
                out.push(CAP_FOUR_OCTET_AS);
                out.push(4u8);
                out.push((*asn / 0x1000000) as u8);
                out.push(((*asn / 0x10000) % 0x100) as u8);
                out.push(((*asn / 0x100) % 0x100) as u8);
                out.push((*asn % 0x100) as u8);
                proof {
                    assert(out@ =~= old(out)@ + spec_cap_bytes(self@));
                }
            },
            Capability::DynamicCapability => {
                out.push(CAP_DYNAMIC_CAPABILITY);
                out.push(0u8);
                proof {
                    assert(out@ =~= old(out)@ + spec_cap_bytes(self@));
                }
            },
            Capability::LongLived(v) => {
                proof {
                    lemma_ll_entries_bytes_len(v@);
                }
                out.push(CAP_LONG_LIVED_GRACEFUL_RESTART);
                out.push((7 * v.len()) as u8);
                let ghost mid = out@;
                write_ll_entries(out, v);
                proof {
                    assert(mid =~= old(out)@ + seq![
                        CAP_LONG_LIVED_GRACEFUL_RESTART,
                        (7 * v@.len()) as u8,
                    ]);
                    assert(out@ =~= old(out)@ + spec_cap_bytes(self@));
                }
            },
            Capability::AddPath(v) => {
                proof {
                    lemma_fam_flags_bytes_len(v@);
                }
                out.push(CAP_ADD_PATH);
                out.push((4 * v.len()) as u8);
                let ghost mid = out@;
                write_fam_flags(out, v);
                proof {
                    assert(mid =~= old(out)@ + seq![CAP_ADD_PATH, (4 * v@.len()) as u8]);
                    assert(out@ =~= old(out)@ + spec_cap_bytes(self@));
                }
            },
            Capability::Unknown { code, data } => {
                out.push(*code);
                out.push(data.len() as u8);
                let ghost mid = out@;
                let mut i: usize = 0;
                #[verifier::loop_isolation(false)]
                while i < data.len()
                    invariant
                        i <= data@.len(),
                        out@ == mid + data@.take(i as int),
                    decreases data@.len() - i,
                {
                    out.push(data[i]);
                    proof {
                        assert(data@.take(i + 1) =~= data@.take(i as int).push(data@[i as int]));
                    }
                    i = i + 1;
                }
                proof {
                    assert(data@.take(data@.len() as int) =~= data@);
                    assert(out@ =~= old(out)@ + spec_cap_bytes(self@));
                }
            },
        }
        proof {
            lemma_cap_bytes_len(self@);
        }
        out.len() - start
    }
}

/// The capability set carried by an OPEN message, in wire order.
#[derive(Debug, PartialEq, Eq, Clone)]
pub struct Capabilities(Vec<Capability>);

impl View for Capabilities {
    type V = Seq<CapView>;

    closed spec fn view(&self) -> Seq<CapView> {
        caps_view(self.0@)
    }
}

impl Capabilities {
    /// An empty capability set.
    pub fn new() -> (r: Self)
        ensures
            r@ == Seq::<CapView>::empty(),
    {
        let r = Capabilities(Vec::new());
        proof {
            assert(r@ =~= Seq::<CapView>::empty());
        }
        r
    }

    /// Append one record; wire order is insertion order.
    pub fn push(&mut self, value: Capability)
        ensures
            final(self)@ == old(self)@.push(value@),
    {
        let ghost pre = self.0@;
        self.0.push(value);
        proof {
            assert(caps_view(self.0@) =~= caps_view(pre).push(self.0@[pre.len() as int]@));
        }
    }

    /// The records, by reference.
    pub fn get_ref(&self) -> (r: &Vec<Capability>)
        ensures
            caps_view(r@) == self@,
    {
        &self.0
    }

    /// How many records the set holds.
    pub fn len(&self) -> (n: usize)
        ensures
            n == self@.len(),
    {
        self.0.len()
    }

    /// Whether every record is valid and the whole set fits the one-byte
    /// TLV length.
    #[verifier::loop_isolation(false)]
    pub fn encodable(&self) -> (b: bool)
        ensures
            b == (caps_valid(self@) && spec_caps_bytes(self@).len() <= 253),
    {
        let mut total: usize = 0;
        let mut i: usize = 0;
        proof {
            assert(self@.skip(0) =~= self@);
        }
        while i < self.0.len()
            invariant
                i <= self.0@.len(),
                forall|j: int| 0 <= j < i ==> cap_valid(#[trigger] self@[j]),
                total <= 253,
                total + spec_caps_bytes(self@.skip(i as int)).len() == spec_caps_bytes(
                    self@,
                ).len(),
            decreases self.0@.len() - i,
        {
            let c: &Capability = &self.0[i];
            if !c.valid() {
                proof {
                    assert(!cap_valid(self@[i as int]));
                }
                return false;
            }
            let w: usize = c.wire_len();
            proof {
                let sk = self@.skip(i as int);
                assert(sk[0] == self@[i as int]);
                assert(sk.skip(1) =~= self@.skip(i + 1));
                assert(spec_caps_bytes(sk) == spec_cap_bytes(self@[i as int]) + spec_caps_bytes(
                    self@.skip(i + 1),
                ));
            }
            if 253 - total < w {
                return false;
            }
            total = total + w;
            i = i + 1;
        }
        proof {
            assert(self@.skip(self@.len() as int) =~= Seq::<CapView>::empty());
        }
        true
    }

    /// Encode the set as its optional-parameter TLV; an empty set emits
    /// nothing at all.
    #[verifier::loop_isolation(false)]
    pub fn to_bytes(&self) -> (out: Vec<u8>)
        requires
            caps_valid(self@),
            spec_caps_bytes(self@).len() <= 253,
        ensures
            out@ == spec_caps_tlv(self@),
    {
        if self.0.len() == 0 {
            let out: Vec<u8> = Vec::new();
            proof {
                assert(out@ =~= spec_caps_tlv(self@));
            }
            return out;
        }
        let mut body: Vec<u8> = Vec::new();
        let mut i: usize = 0;
        proof {
            assert(self@.skip(0) =~= self@);
        }
        while i < self.0.len()
            invariant
                i <= self.0@.len(),
                body@ + spec_caps_bytes(self@.skip(i as int)) == spec_caps_bytes(self@),
            decreases self.0@.len() - i,
        {
            let ghost pre = body@;
            let c: &Capability = &self.0[i];
            proof {
                assert(cap_valid(self@[i as int]));
            }
            let _w: usize = c.to_bytes(&mut body);
            proof {
                let sk = self@.skip(i as int);
                assert(sk[0] == self@[i as int]);
                assert(sk.skip(1) =~= self@.skip(i + 1));
                assert(spec_caps_bytes(sk) == spec_cap_bytes(self@[i as int]) + spec_caps_bytes(
                    self@.skip(i + 1),
                ));
                assert(body@ + spec_caps_bytes(self@.skip(i + 1)) =~= pre + spec_caps_bytes(sk));
            }
            i = i + 1;
        }
        proof {
            assert(spec_caps_bytes(self@.skip(self@.len() as int)) =~= Seq::<u8>::empty());
            assert(body@ + Seq::<u8>::empty() =~= body@);
            assert(body@ == spec_caps_bytes(self@));
        }
        let blen: usize = body.len();
        let mut out: Vec<u8> = Vec::new();
        out.push(2u8);
        out.push(blen as u8);
        out.append(&mut body);
        proof {
            assert(out@ =~= spec_caps_tlv(self@));
        }
        out
    }
}

/// Prepending already-decoded records to a block's decode result.
pub open spec fn caps_cont(tail: Result<Seq<CapView>, Error>, acc: Seq<CapView>) -> Result<
    Seq<CapView>,
    Error,
> {
    match tail {
        Ok(r) => Ok(acc + r),
        Err(e) => Err(e),
    }
}

impl Capabilities {
    /// Decode a whole capability block: the bytes of `buf` from `start`
    /// up to `end`, record after record until the block is exhausted.
    #[verifier::loop_isolation(false)]
    pub fn from_block(buf: &[u8], start: usize, end: usize) -> (r: Result<Capabilities, Error>)
        requires
            start <= end <= buf@.len(),
        ensures
            (match spec_parse_caps(buf@.subrange(start as int, end as int)) {
                Ok(cs) => r matches Ok(c) && c@ == cs,
                Err(e) => r matches Err(e2) && e2 == e,
            }),
    {
        let sub: &[u8] = vstd::slice::slice_subrange(buf, start, end);
        let ghost block = sub@;
        let mut caps = Capabilities::new();
        let mut cur: usize = 0;
        proof {
            assert(block.skip(0) =~= block);
            match spec_parse_caps(block) {
                Ok(rr) => {
                    assert(Seq::<CapView>::empty() + rr =~= rr);
                },
                Err(_) => {},
            }
        }
        while cur < sub.len()
            invariant
                cur <= block.len(),
                spec_parse_caps(block) == caps_cont(
                    spec_parse_caps(block.skip(cur as int)),
                    caps@,
                ),
            decreases block.len() - cur,
        {
            let ghost pre = caps@;
            match Capability::from_bytes(sub, cur) {
                Err(e) => {
                    return Err(e);
                },
                Ok((cap, newoff)) => {
                    proof {
                        lemma_parse_cap_used_bounds(block.skip(cur as int));
                        assert(block.skip(cur as int).skip(newoff - cur) =~= block.skip(
                            newoff as int,
                        ));
                        match spec_parse_caps(block.skip(newoff as int)) {
                            Ok(rest) => {
                                assert(pre + (seq![cap@] + rest) =~= pre.push(cap@) + rest);
                            },
                            Err(_) => {},
                        }
                    }
                    caps.push(cap);
                    cur = newoff;
                },
            }
        }
        proof {
            assert(block.skip(block.len() as int) =~= Seq::<u8>::empty());
            assert(caps@ + Seq::<CapView>::empty() =~= caps@);
        }
        Ok(caps)
    }
}

} // verus!
