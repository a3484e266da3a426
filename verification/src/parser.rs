//! Link-layer packet classification and the bounds-checked byte cursor.
//!
//! A record payload is inspected by [`Parser::parse`]: fixed event codes are
//! discarded, LE Meta Events are handed to the event decoder, and candidate
//! ACL data fragments are handed to the reassembler.

use vstd::prelude::*;

pub mod att;
pub mod hci_acl;
pub mod hci_event;

use std::collections::HashMap;

use crate::parser::att::AttModel;
use crate::parser::att::RawAtt;
use crate::parser::hci_acl::parse_blt_hci_acl;
use crate::parser::hci_acl::spec_acl_parse;
use crate::parser::hci_acl::table_model;
use crate::parser::hci_acl::BltHciAclContinueingFragment;
use crate::parser::hci_acl::FragmentModel;
use crate::parser::hci_event::spec_event_parse;
use crate::parser::hci_event::BltEventMeta;
use crate::parser::hci_event::MetaEventModel;

verus! {

/// A violated wire-format assumption that the decoder cannot safely continue
/// past. Fatal: the whole run aborts when one is detected.
#[derive(Clone, Copy, Debug, PartialEq, Eq, Structural)]
pub enum StructuralViolation {
    /// A record declared more data than it carries.
    BufferUnderflow,
    /// A record list carried a stride outside the recognized set.
    UnexpectedAttributeLength(u8),
    /// A Read Request whose payload is not exactly one 16-bit handle.
    UnexpectedReadRequestLength,
    /// A continuing fragment overflowed its declared total length.
    FragmentOverflow,
    /// A UUID field whose length is neither 2 nor 16 bytes.
    MalformedUuidLength,
}

/// A recoverable anomaly, reported on a side channel separate from the
/// decoded packet and transaction streams.
#[derive(Clone, Copy, Debug, PartialEq, Eq, Structural)]
pub enum Diagnostic {
    UnknownAdvertisingEventType { nr: usize, event_type: u8 },
    UnknownAttMethod { nr: usize, method: u8 },
    DanglingReadResponse { nr: usize },
    DanglingWriteResponse { nr: usize },
    UnhandledReadRequest,
    UnhandledWriteRequest,
}

/// The value of the first two bytes of `s` read as a little-endian 16-bit
/// integer.
pub open spec fn u16_le(s: Seq<u8>) -> int
    recommends
        s.len() >= 2,
{
    s[0] + s[1] * 0x100
}

/// The value of the first four bytes of `s` read as a little-endian 32-bit
/// integer.
pub open spec fn u32_le(s: Seq<u8>) -> int
    recommends
        s.len() >= 4,
{
    s[0] + s[1] * 0x100 + s[2] * 0x1_0000 + s[3] * 0x100_0000
}

/// The value of the first four bytes of `s` read as a big-endian 32-bit
/// integer.
pub open spec fn u32_be(s: Seq<u8>) -> int
    recommends
        s.len() >= 4,
{
    s[3] + s[2] * 0x100 + s[1] * 0x1_0000 + s[0] * 0x100_0000
}

/// Bounds-checked sequential byte consumer. The view is the sequence of
/// bytes not yet consumed; every drain operation requires that enough bytes
/// remain, so callers validate declared lengths before draining.
pub struct Bytes {
    data: Vec<u8>,
    pos: usize,
}

impl View for Bytes {
    type V = Seq<u8>;

    closed spec fn view(&self) -> Seq<u8> {
        self.data@.skip(self.pos as int)
    }
}

impl Bytes {
    #[verifier::type_invariant]
    spec fn inv(self) -> bool {
        self.pos <= self.data@.len()
    }

    pub fn new(b: Vec<u8>) -> (r: Bytes)
        ensures
            r@ == b@,
    {
        let r = Bytes { data: b, pos: 0 };
        proof {
            assert(r@ =~= r.data@);
        }
        r
    }

    pub fn len(&self) -> (n: usize)
        ensures
            n == self@.len(),
    {
        proof {
            use_type_invariant(&*self);
            assert(self.data@.len() == self.data.len());
        }
        self.data.len() - self.pos
    }

    pub fn drain_one(&mut self) -> (r: u8)
        requires
            old(self)@.len() >= 1,
        ensures
            r == old(self)@[0],
            final(self)@ == old(self)@.skip(1),
    {
        proof {
            use_type_invariant(&*self);
            assert(self.data@.len() == self.data.len());
        }
        let r = self.data[self.pos];
        self.pos = self.pos + 1;
        proof {
            assert(self@ =~= old(self)@.skip(1));
        }
        r
    }

    pub fn drain_u16_little_endian(&mut self) -> (r: u16)
        requires
            old(self)@.len() >= 2,
        ensures
            r == u16_le(old(self)@),
            final(self)@ == old(self)@.skip(2),
    {
        proof {
            use_type_invariant(&*self);
            assert(self.data@.len() == self.data.len());
        }
        let b0 = self.data[self.pos];
        let b1 = self.data[self.pos + 1];
        self.pos = self.pos + 2;
        proof {
            assert(self@ =~= old(self)@.skip(2));
        }
        b0 as u16 + b1 as u16 * 0x100
    }

    pub fn drain_u32_little_endian(&mut self) -> (r: u32)
        requires
            old(self)@.len() >= 4,
        ensures
            r == u32_le(old(self)@),
            final(self)@ == old(self)@.skip(4),
    {
        proof {
            use_type_invariant(&*self);
            assert(self.data@.len() == self.data.len());
        }
        let b0 = self.data[self.pos];
        let b1 = self.data[self.pos + 1];
        let b2 = self.data[self.pos + 2];
        let b3 = self.data[self.pos + 3];
        self.pos = self.pos + 4;
        proof {
            assert(self@ =~= old(self)@.skip(4));
        }
        b0 as u32 + b1 as u32 * 0x100 + b2 as u32 * 0x1_0000 + b3 as u32 * 0x100_0000
    }

    pub fn drain_u32_big_endian(&mut self) -> (r: u32)
        requires
            old(self)@.len() >= 4,
        ensures
            r == u32_be(old(self)@),
            final(self)@ == old(self)@.skip(4),
    {
        proof {
            use_type_invariant(&*self);
            assert(self.data@.len() == self.data.len());
        }
        let b0 = self.data[self.pos];
        let b1 = self.data[self.pos + 1];
        let b2 = self.data[self.pos + 2];
        let b3 = self.data[self.pos + 3];
        self.pos = self.pos + 4;
        proof {
            assert(self@ =~= old(self)@.skip(4));
        }
        b3 as u32 + b2 as u32 * 0x100 + b1 as u32 * 0x1_0000 + b0 as u32 * 0x100_0000
    }

    #[verifier::loop_isolation(false)]
    pub fn drain_vec(&mut self, n: usize) -> (r: Vec<u8>)
        requires
            n <= old(self)@.len(),
        ensures
            r@ == old(self)@.take(n as int),
            final(self)@ == old(self)@.skip(n as int),
    {
        proof {
            use_type_invariant(&*self);
            assert(self.data@.len() == self.data.len());
        }
        let mut r: Vec<u8> = Vec::new();
        let mut i: usize = 0;
        while i < n
            invariant
                i <= n,
                r@ == self.data@.subrange(self.pos as int, self.pos + i as int),
            decreases n - i,
        {
            r.push(self.data[self.pos + i]);
            i = i + 1;
            proof {
                assert(r@ =~= self.data@.subrange(self.pos as int, self.pos + i as int));
            }
        }
        self.pos = self.pos + n;
        proof {
            assert(r@ =~= old(self)@.take(n as int));
            assert(self@ =~= old(self)@.skip(n as int));
        }
        r
    }

    pub fn drain_bytes(&mut self, n: usize) -> (r: Bytes)
        requires
            n <= old(self)@.len(),
        ensures
            r@ == old(self)@.take(n as int),
            final(self)@ == old(self)@.skip(n as int),
    {
        let v = self.drain_vec(n);
        Bytes::new(v)
    }

    pub fn drain(&mut self, n: usize)
        requires
            n <= old(self)@.len(),
        ensures
            final(self)@ == old(self)@.skip(n as int),
    {
        proof {
            use_type_invariant(&*self);
            assert(self.data@.len() == self.data.len());
        }
        self.pos = self.pos + n;
        proof {
            assert(self@ =~= old(self)@.skip(n as int));
        }
    }

    /// Non-consuming read of the next `n` bytes.
    #[verifier::loop_isolation(false)]
    pub fn seek(&self, n: usize) -> (r: Vec<u8>)
        requires
            n <= self@.len(),
        ensures
            r@ == self@.take(n as int),
    {
        proof {
            use_type_invariant(&*self);
            assert(self.data@.len() == self.data.len());
        }
        let mut r: Vec<u8> = Vec::new();
        let mut i: usize = 0;
        while i < n
            invariant
                i <= n,
                r@ == self.data@.subrange(self.pos as int, self.pos + i as int),
            decreases n - i,
        {
            r.push(self.data[self.pos + i]);
            i = i + 1;
            proof {
                assert(r@ =~= self.data@.subrange(self.pos as int, self.pos + i as int));
            }
        }
        proof {
            assert(r@ =~= self@.take(n as int));
        }
        r
    }

    /// A copy of all bytes not yet consumed.
    pub fn vec(&self) -> (r: Vec<u8>)
        ensures
            r@ == self@,
    {
        proof {
            use_type_invariant(&*self);
            assert(self.data@.len() == self.data.len());
        }
        let n = self.data.len() - self.pos;
        let r = self.seek(n);
        proof {
            assert(self@.take(self@.len() as int) =~= self@);
        }
        r
    }
}

/// The stateful record parser: it owns the per-connection fragment table
/// that reassembly threads through the whole capture.
pub struct Parser {
    pub continueing_fragment_for_conn_handle: HashMap<u16, BltHciAclContinueingFragment>,
}

impl View for Parser {
    type V = Map<u16, FragmentModel>;

    open spec fn view(&self) -> Map<u16, FragmentModel> {
        table_model(self.continueing_fragment_for_conn_handle@)
    }
}

impl Parser {
    /// Well-formedness: every outstanding reassembly is still incomplete.
    pub open spec fn wf(self) -> bool {
        forall|h: u16| self@.contains_key(h) ==> (#[trigger] self@[h]).wf()
    }

    /// A parser with no reassembly outstanding.
    pub fn new() -> (p: Parser)
        ensures
            p@ == Map::<u16, FragmentModel>::empty(),
            p.wf(),
    {
        let p = Parser { continueing_fragment_for_conn_handle: HashMap::new() };
        proof {
            assert(p@ =~= Map::<u16, FragmentModel>::empty());
        }
        p
    }
}

/// One successfully classified record: its capture sequence number and the
/// typed packet decoded from it.
#[derive(Debug)]
pub struct BltPacket {
    pub nr: usize,
    pub kind: BltPacketKind,
}

/// The closed set of packet kinds the pipeline models.
#[derive(Debug)]
pub enum BltPacketKind {
    MetaEvent(BltEventMeta),
    RawAtt(RawAtt),
}

/// A classified record, as mathematical values.
pub struct PacketModel {
    pub nr: usize,
    pub kind: PacketKindModel,
}

pub enum PacketKindModel {
    MetaEvent(MetaEventModel),
    RawAtt(AttModel),
}

impl DeepView for BltPacketKind {
    type V = PacketKindModel;

    open spec fn deep_view(&self) -> PacketKindModel {
        match self {
            BltPacketKind::MetaEvent(e) => PacketKindModel::MetaEvent(e.deep_view()),
            BltPacketKind::RawAtt(a) => PacketKindModel::RawAtt(a.deep_view()),
        }
    }
}

impl DeepView for BltPacket {
    type V = PacketModel;

    open spec fn deep_view(&self) -> PacketModel {
        PacketModel { nr: self.nr, kind: self.kind.deep_view() }
    }
}

impl BltPacket {
    /// Well-formedness: the UUIDs in any carried record list are valid.
    pub open spec fn wf(self) -> bool {
        match self.kind {
            BltPacketKind::RawAtt(a) => a.wf(),
            BltPacketKind::MetaEvent(_) => true,
        }
    }
}

/// The single-byte HCI event codes that are discarded outright.
pub open spec fn spec_fixed_event_code(first: u8) -> bool {
    ||| first == 0x01
    ||| first == 0x0c
    ||| first == 0x0e
    ||| first == 0x0f
    ||| first == 0x13
    ||| first == 0x2f
}

/// The ACL header flag test on the second byte: the BC flag (bits 6-7) must
/// be zero and the PB flag (bits 4-5) must not be 3.
pub open spec fn spec_is_acl_flags(bt: u8) -> bool {
    (bt & 0xc0) == 0 && ((bt >> 4) & 0x03) != 0x03
}

/// `bt` passes the ACL header flag test of [`spec_is_acl_flags`].
pub fn is_blt_hci_acl(bt: u8) -> (r: bool)
    ensures
        r == spec_is_acl_flags(bt),
{
    if bt & 0xc0 != 0 {
        return false;
    }
    (bt >> 4) & 0x03 != 0x03
}

/// What classifying one record payload yields and does to the fragment
/// table. The first byte routes: a fixed event code is discarded, 0x3e goes
/// to the event decoder, a second byte passing the ACL flag test goes to the
/// reassembler under the 12-bit connection handle, anything else is
/// discarded.
pub open spec fn spec_parser_parse(
    table: Map<u16, FragmentModel>,
    s: Seq<u8>,
    nr: usize,
) -> Result<
    (Map<u16, FragmentModel>, Option<PacketModel>, Option<Diagnostic>),
    StructuralViolation,
> {
    if s.len() < 2 {
        Err(StructuralViolation::BufferUnderflow)
    } else {
        let first = s[0];
        let second = s[1];
        if spec_fixed_event_code(first) {
            Ok((table, None, None))
        } else if first == 0x3e {
            match spec_event_parse(s.skip(1), nr) {
                Ok((p, d)) => Ok(
                    (
                        table,
                        match p {
                            Some(ev) => Some(
                                PacketModel { nr, kind: PacketKindModel::MetaEvent(ev) },
                            ),
                            None => None,
                        },
                        d,
                    ),
                ),
                Err(v) => Err(v),
            }
        } else if spec_is_acl_flags(second) {
            let handle = ((first as u16) | ((second as u16) << 8)) & 0x0fff;
            match spec_acl_parse(table, s.skip(2), handle, nr) {
                Ok((t2, p, d)) => Ok(
                    (
                        t2,
                        match p {
                            Some(a) => Some(PacketModel { nr, kind: PacketKindModel::RawAtt(a) }),
                            None => None,
                        },
                        d,
                    ),
                ),
                Err(v) => Err(v),
            }
        } else {
            Ok((table, None, None))
        }
    }
}

impl Parser {
    /// Classifies and decodes one record payload, per [`spec_parser_parse`]:
    /// the typed packet if the record carries one, possibly a diagnostic,
    /// or a structural violation that aborts the run.
    pub fn parse(&mut self, b: Bytes, nr: usize) -> (r: Result<
        (Option<BltPacket>, Option<Diagnostic>),
        StructuralViolation,
    >)
        requires
            old(self).wf(),
        ensures
            final(self).wf(),
            ({
                let s = spec_parser_parse(old(self)@, b@, nr);
                match r {
                    Ok((p, d)) => {
                        &&& s matches Ok(sp)
                        &&& sp.0 == final(self)@
                        &&& sp.1 == p.deep_view()
                        &&& sp.2 == d
                        &&& (p matches Some(pkt) ==> pkt.wf() && pkt.nr == nr)
                    },
                    Err(v) => s == Err::<
                        (Map<u16, FragmentModel>, Option<PacketModel>, Option<Diagnostic>),
                        StructuralViolation,
                    >(v),
                }
            }),
    {
        let mut b = b;
        if b.len() < 2 {
            return Err(StructuralViolation::BufferUnderflow);
        }
        let ghost s0 = b@;
        let first = b.drain_one();
        let second_v = b.seek(1);
        let second = second_v[0];
        proof {
            assert(second == s0[1]);
        }
        if first == 0x01 || first == 0x0c || first == 0x0e || first == 0x0f || first == 0x13
            || first == 0x2f {
            Ok((None, None))
        } else if first == 0x3e {
            match BltEventMeta::parse(&mut b, nr) {
                Ok((p, d)) => {
                    let pkt = match p {
                        Some(ev) => Some(
                            BltPacket { nr, kind: BltPacketKind::MetaEvent(ev) },
                        ),
                        None => None,
                    };
                    Ok((pkt, d))
                },
                Err(v) => Err(v),
            }
        } else if is_blt_hci_acl(second) {
            let handle = ((first as u16) | ((second as u16) << 8)) & 0x0fff;
            b.drain_one();
            proof {
                assert(b@ =~= s0.skip(2));
            }
            match parse_blt_hci_acl(self, &mut b, handle, nr) {
                Ok((p, d)) => {
                    let pkt = match p {
                        Some(a) => Some(BltPacket { nr, kind: BltPacketKind::RawAtt(a) }),
                        None => None,
                    };
                    Ok((pkt, d))
                },
                Err(v) => Err(v),
            }
        } else {
            Ok((None, None))
        }
    }
}

} // verus!
