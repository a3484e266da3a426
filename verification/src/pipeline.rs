//! The whole pipeline over a capture: every record is classified and
//! decoded in order, then the typed packet stream is correlated into
//! transactions.

use vstd::prelude::*;

use crate::analyzer::analyze;
use crate::analyzer::spec_analyze;
use crate::analyzer::ParsedAttRequest;
use crate::analyzer::TransactionModel;
use crate::parser::hci_acl::FragmentModel;
use crate::parser::spec_parser_parse;
use crate::parser::BltPacket;
use crate::parser::Bytes;
use crate::parser::Diagnostic;
use crate::parser::PacketModel;
use crate::parser::Parser;
use crate::parser::StructuralViolation;

verus! {

/// One raw capture record: its 1-based sequence number and its payload,
/// beginning with the packet-type discriminator byte.
pub struct RawPacket {
    pub nr: usize,
    pub payload: Vec<u8>,
}

/// A raw capture record, as mathematical values.
#[verifier::ext_equal]
pub struct RawPacketModel {
    pub nr: usize,
    pub payload: Seq<u8>,
}

impl DeepView for RawPacket {
    type V = RawPacketModel;

    open spec fn deep_view(&self) -> RawPacketModel {
        RawPacketModel { nr: self.nr, payload: self.payload@ }
    }
}

/// A single optional value as a sequence of zero or one elements.
pub open spec fn opt_seq<T>(o: Option<T>) -> Seq<T> {
    match o {
        Some(x) => seq![x],
        None => Seq::empty(),
    }
}

/// The decode phase over the first `n` records: the fragment table, the
/// typed packets and the diagnostics after feeding each non-empty record to
/// the classifier in order. An empty record is skipped. A structural
/// violation aborts the whole run.
pub open spec fn spec_decode_records(records: Seq<RawPacketModel>, n: int) -> Result<
    (Map<u16, FragmentModel>, Seq<PacketModel>, Seq<Diagnostic>),
    StructuralViolation,
>
    decreases n,
{
    if n <= 0 {
        Ok((Map::empty(), Seq::empty(), Seq::empty()))
    } else {
        match spec_decode_records(records, n - 1) {
            Ok((table, packets, diags)) => {
                let rec = records[n - 1];
                if rec.payload.len() == 0 {
                    Ok((table, packets, diags))
                } else {
                    match spec_parser_parse(table, rec.payload, rec.nr) {
                        Ok((t2, p, d)) => Ok((t2, packets + opt_seq(p), diags + opt_seq(d))),
                        Err(v) => Err(v),
                    }
                }
            },
            Err(v) => Err(v),
        }
    }
}

/// What the whole pipeline yields for a capture: the decode phase over all
/// records, then the analysis of the packet stream; the diagnostics of both
/// phases, in that order.
pub open spec fn spec_pipeline(records: Seq<RawPacketModel>) -> Result<
    (Seq<TransactionModel>, Seq<Diagnostic>),
    StructuralViolation,
> {
    match spec_decode_records(records, records.len() as int) {
        Ok((_, packets, diags)) => {
            let a = spec_analyze(packets);
            Ok((a.0, diags + a.1))
        },
        Err(v) => Err(v),
    }
}

/// Runs the whole pipeline on a capture, per [`spec_pipeline`]: decodes
/// every record in order and correlates the typed packets into
/// transactions, or stops at the first structural violation.
#[verifier::loop_isolation(false)]
pub fn run_capture(records: Vec<RawPacket>) -> (r: Result<
    (Vec<ParsedAttRequest>, Vec<Diagnostic>),
    StructuralViolation,
>)
    ensures
        ({
            let s = spec_pipeline(records.deep_view());
            match r {
                Ok((ts, ds)) => {
                    &&& s matches Ok(o)
                    &&& o.0 == ts.deep_view()
                    &&& o.1 == ds@
                },
                Err(v) => s == Err::<(Seq<TransactionModel>, Seq<Diagnostic>), StructuralViolation>(
                    v,
                ),
            }
        }),
{
    let ghost rm = records.deep_view();
    let mut parser = Parser::new();
    let mut packets: Vec<BltPacket> = Vec::new();
    let mut diagnostics: Vec<Diagnostic> = Vec::new();
    let mut records = records;
    let n = records.len();
    let mut i: usize = 0;
    proof {
        assert(packets.deep_view() =~= Seq::<PacketModel>::empty());
        assert(diagnostics@ =~= Seq::<Diagnostic>::empty());
        assert(parser@ =~= Map::<u16, FragmentModel>::empty());
    }
    while i < n
        invariant
            i <= n,
            n == rm.len(),
            records.deep_view() == rm,
            parser.wf(),
            spec_decode_records(rm, i as int) == Ok::<
                (Map<u16, FragmentModel>, Seq<PacketModel>, Seq<Diagnostic>),
                StructuralViolation,
            >((parser@, packets.deep_view(), diagnostics@)),
            forall|k: int| 0 <= k < packets@.len() ==> (#[trigger] packets@[k]).wf(),
        decreases n - i,
    {
        let rec = &records[i];
        if rec.payload.len() > 0 {
            let payload = crate::analyzer::copy_bytes(&rec.payload);
            let b = Bytes::new(payload);
            match parser.parse(b, rec.nr) {
                Ok((p, d)) => {
                    match p {
                        Some(pkt) => {
                            packets.push(pkt);
                            proof {
                                assert(packets.deep_view() =~= spec_decode_records(
                                    rm,
                                    i as int,
                                )->Ok_0.1 + opt_seq(Some(packets.deep_view().last())));
                            }
                        },
                        None => {
                            proof {
                                assert(packets.deep_view() + opt_seq(None::<PacketModel>)
                                    =~= packets.deep_view());
                            }
                        },
                    }
                    match d {
                        Some(diag) => {
                            diagnostics.push(diag);
                            proof {
                                assert(diagnostics@ =~= spec_decode_records(
                                    rm,
                                    i as int,
                                )->Ok_0.2 + opt_seq(Some(diagnostics@.last())));
                            }
                        },
                        None => {
                            proof {
                                assert(diagnostics@ + opt_seq(None::<Diagnostic>)
                                    =~= diagnostics@);
                            }
                        },
                    }
                    proof {
                        assert(rm[i as int] == records@[i as int].deep_view());
                    }
                },
                Err(v) => {
                    proof {
                        assert(rm[i as int] == records@[i as int].deep_view());
                        assert(spec_decode_records(rm, i + 1) == Err::<
                            (Map<u16, FragmentModel>, Seq<PacketModel>, Seq<Diagnostic>),
                            StructuralViolation,
                        >(v));
                        lemma_decode_error_persists(rm, i + 1, rm.len() as int);
                    }
                    return Err(v);
                },
            }
        } else {
            proof {
                assert(rm[i as int] == records@[i as int].deep_view());
            }
        }
        i = i + 1;
    }
    let analyzed = analyze(packets);
    let mut diagnostics = diagnostics;
    let mut tail = analyzed.1;
    diagnostics.append(&mut tail);
    Ok((analyzed.0, diagnostics))
}

/// Once the decode phase hits a structural violation, every longer prefix
/// yields the same violation: the run aborts where it stands.
proof fn lemma_decode_error_persists(records: Seq<RawPacketModel>, i: int, n: int)
    requires
        0 <= i <= n,
        spec_decode_records(records, i) is Err,
    ensures
        spec_decode_records(records, n) == spec_decode_records(records, i),
    decreases n - i,
{
    if n > i {
        lemma_decode_error_persists(records, i, n - 1);
    }
}

/// Running the pipeline twice on byte-identical input yields identical
/// transaction sequences and diagnostics: the pipeline is a pure function
/// of the record bytes and sequence numbers.
pub proof fn lemma_pipeline_deterministic(a: Seq<RawPacketModel>, b: Seq<RawPacketModel>)
    requires
        a.len() == b.len(),
        forall|i: int|
            0 <= i < a.len() ==> (#[trigger] a[i]).nr == b[i].nr && a[i].payload =~= b[i].payload,
    ensures
        spec_pipeline(a) == spec_pipeline(b),
{
    assert(a =~~= b);
}

} // verus!
