//! Connection-scoped reassembly of ACL data fragments: one outstanding
//! reassembly per connection handle, completed payloads handed to the ATT
//! decoder.

use vstd::prelude::*;

use crate::parser::att::spec_att_parse;
use crate::parser::att::AttModel;
use crate::parser::att::RawAtt;
use crate::parser::u16_le;
use crate::parser::Bytes;
use crate::parser::Diagnostic;
use crate::parser::Parser;
use crate::parser::StructuralViolation;

verus! {

broadcast use vstd::std_specs::hash::group_hash_axioms;

/// An incomplete reassembly, as mathematical values.
pub struct FragmentModel {
    pub attribute_protocol: u16,
    pub total_len: usize,
    pub data: Seq<u8>,
}

impl FragmentModel {
    /// While a reassembly is outstanding, the accumulated data is strictly
    /// shorter than the declared total: the buffer is destroyed the instant
    /// the two lengths meet.
    pub open spec fn wf(self) -> bool {
        self.data.len() < self.total_len
    }
}

/// The state of one incomplete reassembly: the declared total length, the
/// protocol id from the first fragment, and the bytes accumulated so far.
pub struct BltHciAclContinueingFragment {
    pub attribute_protocol: u16,
    pub total_len: usize,
    pub data: Vec<u8>,
}

impl DeepView for BltHciAclContinueingFragment {
    type V = FragmentModel;

    open spec fn deep_view(&self) -> FragmentModel {
        FragmentModel {
            attribute_protocol: self.attribute_protocol,
            total_len: self.total_len,
            data: self.data@,
        }
    }
}

/// The fragment table as a map of mathematical values.
pub open spec fn table_model(m: Map<u16, BltHciAclContinueingFragment>) -> Map<
    u16,
    FragmentModel,
> {
    Map::new(|h: u16| m.contains_key(h), |h: u16| m[h].deep_view())
}

/// What one ACL data record does to the fragment table, and what it yields.
/// `s` starts at the 16-bit fragment length; a record either continues an
/// outstanding reassembly for `handle`, finishes one (the payload then goes
/// to the ATT decoder), or starts a new one.
pub open spec fn spec_acl_parse(
    table: Map<u16, FragmentModel>,
    s: Seq<u8>,
    handle: u16,
    nr: usize,
) -> Result<(Map<u16, FragmentModel>, Option<AttModel>, Option<Diagnostic>), StructuralViolation> {
    if s.len() < 2 {
        Err(StructuralViolation::BufferUnderflow)
    } else {
        let part_data_len = u16_le(s);
        let t = s.skip(2);
        if table.contains_key(handle) {
            let frag = table[handle];
            if t.len() < part_data_len {
                Err(StructuralViolation::BufferUnderflow)
            } else {
                let data = frag.data + t.take(part_data_len);
                if data.len() < frag.total_len {
                    Ok(
                        (
                            table.insert(handle, FragmentModel { data, ..frag }),
                            None,
                            None,
                        ),
                    )
                } else if data.len() > frag.total_len {
                    Err(StructuralViolation::FragmentOverflow)
                } else {
                    match spec_att_parse(data, frag.attribute_protocol, nr) {
                        Ok((p, d)) => Ok((table.remove(handle), p, d)),
                        Err(v) => Err(v),
                    }
                }
            }
        } else {
            if t.len() < 4 {
                Err(StructuralViolation::BufferUnderflow)
            } else if part_data_len < 4 {
                Err(StructuralViolation::BufferUnderflow)
            } else {
                let data_len = u16_le(t);
                let attribute_protocol = u16_le(t.skip(2)) as u16;
                let u = t.skip(4);
                if u.len() < part_data_len - 4 {
                    Err(StructuralViolation::BufferUnderflow)
                } else {
                    let part_data = u.take(part_data_len - 4);
                    if part_data.len() < data_len {
                        Ok(
                            (
                                table.insert(
                                    handle,
                                    FragmentModel {
                                        attribute_protocol,
                                        total_len: data_len as usize,
                                        data: part_data,
                                    },
                                ),
                                None,
                                None,
                            ),
                        )
                    } else {
                        match spec_att_parse(part_data, attribute_protocol, nr) {
                            Ok((p, d)) => Ok((table, p, d)),
                            Err(v) => Err(v),
                        }
                    }
                }
            }
        }
    }
}

/// Feeds one ACL data record into the reassembler, per [`spec_acl_parse`].
/// The cursor stands right after the handle-and-flags field.
pub fn parse_blt_hci_acl(p: &mut Parser, b: &mut Bytes, handle: u16, nr: usize) -> (r: Result<
    (Option<RawAtt>, Option<Diagnostic>),
    StructuralViolation,
>)
    requires
        old(p).wf(),
    ensures
        final(p).wf(),
        ({
            let s = spec_acl_parse(old(p)@, old(b)@, handle, nr);
            match r {
                Ok((pdu, d)) => {
                    &&& s matches Ok(sp)
                    &&& sp.0 == final(p)@
                    &&& sp.1 == pdu.deep_view()
                    &&& sp.2 == d
                    &&& (pdu matches Some(x) ==> x.wf())
                },
                Err(v) => s == Err::<
                    (Map<u16, FragmentModel>, Option<AttModel>, Option<Diagnostic>),
                    StructuralViolation,
                >(v),
            }
        }),
{
    if b.len() < 2 {
        return Err(StructuralViolation::BufferUnderflow);
    }
    let part_data_len = b.drain_u16_little_endian();
    let existing = p.continueing_fragment_for_conn_handle.remove(&handle);
    match existing {
        Some(mut continue_frag) => {
            proof {
                assert(old(p)@.contains_key(handle));
                assert(continue_frag.deep_view() == old(p)@[handle]);
                assert(p@ =~= old(p)@.remove(handle));
            }
            if b.len() < part_data_len as usize {
                return Err(StructuralViolation::BufferUnderflow);
            }
            let ghost frag0 = continue_frag.deep_view();
            let mut part_data = b.drain_vec(part_data_len as usize);
            continue_frag.data.append(&mut part_data);
            if continue_frag.data.len() < continue_frag.total_len {
                let ghost frag1 = continue_frag.deep_view();
                p.continueing_fragment_for_conn_handle.insert(handle, continue_frag);
                proof {
                    assert(p@ =~= old(p)@.insert(handle, frag1));
                }
                Ok((None, None))
            } else if continue_frag.data.len() > continue_frag.total_len {
                Err(StructuralViolation::FragmentOverflow)
            } else {
                let attribute_protocol = continue_frag.attribute_protocol;
                let mut data_bytes = Bytes::new(continue_frag.data);
                RawAtt::parse(&mut data_bytes, attribute_protocol, nr)
            }
        },
        None => {
            proof {
                assert(!old(p)@.contains_key(handle));
                assert(p@ =~= old(p)@);
            }
            if b.len() < 4 {
                return Err(StructuralViolation::BufferUnderflow);
            }
            if part_data_len < 4 {
                return Err(StructuralViolation::BufferUnderflow);
            }
            let ghost t = b@;
            let data_len = b.drain_u16_little_endian();
            let attribute_protocol = b.drain_u16_little_endian();
            proof {
                assert(b@ =~= t.skip(4));
            }
            if b.len() < (part_data_len - 4) as usize {
                return Err(StructuralViolation::BufferUnderflow);
            }
            let part_data = b.drain_vec((part_data_len - 4) as usize);
            if part_data.len() < data_len as usize {
                let frag = BltHciAclContinueingFragment {
                    attribute_protocol,
                    total_len: data_len as usize,
                    data: part_data,
                };
                let ghost frag1 = frag.deep_view();
                p.continueing_fragment_for_conn_handle.insert(handle, frag);
                proof {
                    assert(p@ =~= old(p)@.insert(handle, frag1));
                }
                Ok((None, None))
            } else {
                let mut data_bytes = Bytes::new(part_data);
                RawAtt::parse(&mut data_bytes, attribute_protocol, nr)
            }
        },
    }
}

/// The total byte length of a list of fragment payloads.
pub open spec fn chunks_len(chunks: Seq<Seq<u8>>) -> int
    decreases chunks.len(),
{
    if chunks.len() == 0 {
        0
    } else {
        chunks[0].len() + chunks_len(chunks.skip(1))
    }
}

/// The concatenation of a list of fragment payloads.
pub open spec fn chunks_concat(chunks: Seq<Seq<u8>>) -> Seq<u8>
    decreases chunks.len(),
{
    if chunks.len() == 0 {
        Seq::empty()
    } else {
        chunks[0] + chunks_concat(chunks.skip(1))
    }
}

/// The record bytes that carry one continuing fragment: the payload length
/// as a little-endian 16-bit field, then the payload itself.
pub open spec fn fragment_record(chunk: Seq<u8>) -> Seq<u8>
    recommends
        chunk.len() < 0x10000,
{
    seq![(chunk.len() as int % 0x100) as u8, (chunk.len() as int / 0x100) as u8] + chunk
}

/// Feeding a list of continuing-fragment records for `handle` through the
/// reassembler, one record at a time: the final table and what each record
/// yielded.
pub open spec fn spec_feed_fragments(
    table: Map<u16, FragmentModel>,
    handle: u16,
    chunks: Seq<Seq<u8>>,
    nr: usize,
) -> Result<
    (Map<u16, FragmentModel>, Seq<(Option<AttModel>, Option<Diagnostic>)>),
    StructuralViolation,
>
    decreases chunks.len(),
{
    if chunks.len() == 0 {
        Ok((table, Seq::empty()))
    } else {
        match spec_acl_parse(table, fragment_record(chunks[0]), handle, nr) {
            Ok((t2, p, d)) => match spec_feed_fragments(t2, handle, chunks.skip(1), nr) {
                Ok((t3, outs)) => Ok((t3, seq![(p, d)] + outs)),
                Err(v) => Err(v),
            },
            Err(v) => Err(v),
        }
    }
}

/// What one continuing-fragment record does to an outstanding reassembly:
/// shorter than the declared total accumulates, equal completes and hands
/// the payload to the ATT decoder, longer is a fatal overflow.
proof fn lemma_feed_one(table: Map<u16, FragmentModel>, handle: u16, chunk: Seq<u8>, nr: usize)
    requires
        table.contains_key(handle),
        chunk.len() < 0x10000,
    ensures
        ({
            let frag = table[handle];
            let data = frag.data + chunk;
            let expected = if data.len() < frag.total_len {
                Ok::<_, StructuralViolation>(
                    (
                        table.insert(handle, FragmentModel { data, ..frag }),
                        None::<AttModel>,
                        None::<Diagnostic>,
                    ),
                )
            } else if data.len() > frag.total_len {
                Err(StructuralViolation::FragmentOverflow)
            } else {
                match spec_att_parse(data, frag.attribute_protocol, nr) {
                    Ok((p, d)) => Ok((table.remove(handle), p, d)),
                    Err(v) => Err(v),
                }
            };
            spec_acl_parse(table, fragment_record(chunk), handle, nr) == expected
        }),
{
    let s = fragment_record(chunk);
    vstd::arithmetic::div_mod::lemma_fundamental_div_mod(chunk.len() as int, 0x100);
    assert(chunk.len() as int / 0x100 < 0x100);
    assert(u16_le(s) == chunk.len());
    assert(s.skip(2) =~= chunk);
    assert(chunk.take(chunk.len() as int) =~= chunk);
}

/// Splitting the byte count of a prefix at its first entry.
proof fn lemma_chunks_len_take_step(chunks: Seq<Seq<u8>>, m: int)
    requires
        0 <= m,
        m + 1 <= chunks.len(),
    ensures
        chunks_len(chunks.take(m + 1)) == chunks[0].len() + chunks_len(chunks.skip(1).take(m)),
{
    assert(chunks.take(m + 1).skip(1) =~= chunks.skip(1).take(m));
    assert(chunks.take(m + 1)[0] == chunks[0]);
}

/// When the payload lengths of a fragment sequence sum exactly to what the
/// outstanding reassembly still expects, feeding them yields exactly one
/// completed payload, passed to the ATT decoder on the last record: every
/// earlier record accumulates silently, and the buffer is destroyed the
/// instant the declared total is reached. The declared total may be reached
/// only by the last fragment: one arriving after completion would find no
/// buffer outstanding and start a new reassembly instead.
#[verifier::rlimit(60)]
pub proof fn lemma_fragment_reassembly(
    table: Map<u16, FragmentModel>,
    handle: u16,
    chunks: Seq<Seq<u8>>,
    nr: usize,
)
    requires
        table.contains_key(handle),
        table[handle].wf(),
        chunks.len() >= 1,
        forall|k: int| 0 <= k < chunks.len() ==> (#[trigger] chunks[k]).len() < 0x10000,
        forall|m: int|
            0 <= m < chunks.len() ==> table[handle].data.len() + chunks_len(#[trigger] chunks.take(m))
                < table[handle].total_len,
        table[handle].data.len() + chunks_len(chunks) == table[handle].total_len,
    ensures
        ({
            let frag = table[handle];
            let full = frag.data + chunks_concat(chunks);
            match spec_att_parse(full, frag.attribute_protocol, nr) {
                Ok(pd) => spec_feed_fragments(table, handle, chunks, nr) == Ok::<
                    _,
                    StructuralViolation,
                >(
                    (
                        table.remove(handle),
                        Seq::new(
                            chunks.len(),
                            |k: int|
                                if k == chunks.len() - 1 {
                                    (pd.0, pd.1)
                                } else {
                                    (None::<AttModel>, None::<Diagnostic>)
                                },
                        ),
                    ),
                ),
                Err(v) => spec_feed_fragments(table, handle, chunks, nr) == Err::<
                    (Map<u16, FragmentModel>, Seq<(Option<AttModel>, Option<Diagnostic>)>),
                    StructuralViolation,
                >(v),
            }
        }),
    decreases chunks.len(),
{
    reveal_with_fuel(spec_feed_fragments, 2);
    let frag = table[handle];
    lemma_feed_one(table, handle, chunks[0], nr);
    let data1 = frag.data + chunks[0];
    if chunks.len() == 1 {
        assert(chunks.skip(1) =~= Seq::<Seq<u8>>::empty());
        assert(chunks_len(chunks.skip(1)) == 0);
        assert(chunks_concat(chunks.skip(1)) =~= Seq::<u8>::empty());
        assert(chunks_len(chunks) == chunks[0].len());
        assert(data1.len() == frag.total_len);
        let full = frag.data + chunks_concat(chunks);
        assert(full =~= data1);
        match spec_att_parse(full, frag.attribute_protocol, nr) {
            Ok(pd) => {
                assert(seq![(pd.0, pd.1)] + Seq::<(Option<AttModel>, Option<Diagnostic>)>::empty()
                    =~= Seq::new(
                    chunks.len(),
                    |k: int|
                        if k == chunks.len() - 1 {
                            (pd.0, pd.1)
                        } else {
                            (None::<AttModel>, None::<Diagnostic>)
                        },
                ));
            },
            Err(_) => {},
        }
    } else {
        assert(chunks.take(1) =~= seq![chunks[0]]);
        assert(chunks_len(chunks.take(1)) == chunks[0].len() + chunks_len(
            chunks.take(1).skip(1),
        ));
        assert(chunks.take(1).skip(1) =~= Seq::<Seq<u8>>::empty());
        assert(data1.len() < frag.total_len);
        let frag1 = FragmentModel { data: data1, ..frag };
        let table2 = table.insert(handle, frag1);
        assert(spec_acl_parse(table, fragment_record(chunks[0]), handle, nr) == Ok::<
            _,
            StructuralViolation,
        >((table2, None::<AttModel>, None::<Diagnostic>)));
        assert(table2[handle] == frag1);
        assert forall|m: int|
            0 <= m < chunks.skip(1).len() implies table2[handle].data.len() + chunks_len(
            #[trigger] chunks.skip(1).take(m),
        ) < table2[handle].total_len by {
            lemma_chunks_len_take_step(chunks, m);
            assert(frag.data.len() + chunks_len(chunks.take(m + 1)) < frag.total_len);
        }
        lemma_fragment_reassembly(table2, handle, chunks.skip(1), nr);
        assert(table2.remove(handle) =~= table.remove(handle));
        let full = frag.data + chunks_concat(chunks);
        assert(full =~= data1 + chunks_concat(chunks.skip(1)));
        assert(full == frag1.data + chunks_concat(chunks.skip(1)));
        match spec_att_parse(full, frag.attribute_protocol, nr) {
            Ok(pd) => {
                assert(seq![(None::<AttModel>, None::<Diagnostic>)] + Seq::new(
                    chunks.skip(1).len(),
                    |k: int|
                        if k == chunks.skip(1).len() - 1 {
                            (pd.0, pd.1)
                        } else {
                            (None::<AttModel>, None::<Diagnostic>)
                        },
                ) =~= Seq::new(
                    chunks.len(),
                    |k: int|
                        if k == chunks.len() - 1 {
                            (pd.0, pd.1)
                        } else {
                            (None::<AttModel>, None::<Diagnostic>)
                        },
                ));
            },
            Err(_) => {},
        }
    }
}

/// A fragment sequence whose payload lengths push the accumulated data past
/// the declared total triggers a fatal overflow on the record that crosses
/// it: nothing is ever handed to the ATT decoder.
pub proof fn lemma_fragment_overflow(
    table: Map<u16, FragmentModel>,
    handle: u16,
    chunks: Seq<Seq<u8>>,
    nr: usize,
)
    requires
        table.contains_key(handle),
        table[handle].wf(),
        chunks.len() >= 1,
        forall|k: int| 0 <= k < chunks.len() ==> (#[trigger] chunks[k]).len() < 0x10000,
        forall|m: int|
            0 <= m < chunks.len() ==> table[handle].data.len() + chunks_len(#[trigger] chunks.take(m))
                < table[handle].total_len,
        table[handle].data.len() + chunks_len(chunks) > table[handle].total_len,
    ensures
        spec_feed_fragments(table, handle, chunks, nr) == Err::<
            (Map<u16, FragmentModel>, Seq<(Option<AttModel>, Option<Diagnostic>)>),
            StructuralViolation,
        >(StructuralViolation::FragmentOverflow),
    decreases chunks.len(),
{
    let frag = table[handle];
    lemma_feed_one(table, handle, chunks[0], nr);
    let data1 = frag.data + chunks[0];
    if chunks.len() == 1 {
        assert(chunks.skip(1) =~= Seq::<Seq<u8>>::empty());
        assert(chunks_len(chunks.skip(1)) == 0);
        assert(chunks_len(chunks) == chunks[0].len());
        assert(data1.len() > frag.total_len);
    } else {
        assert(chunks.take(1) =~= seq![chunks[0]]);
        assert(chunks_len(chunks.take(1)) == chunks[0].len() + chunks_len(
            chunks.take(1).skip(1),
        ));
        assert(chunks.take(1).skip(1) =~= Seq::<Seq<u8>>::empty());
        assert(data1.len() < frag.total_len);
        let frag1 = FragmentModel { data: data1, ..frag };
        let table2 = table.insert(handle, frag1);
        assert forall|m: int|
            0 <= m < chunks.skip(1).len() implies table2[handle].data.len() + chunks_len(
            #[trigger] chunks.skip(1).take(m),
        ) < table2[handle].total_len by {
            lemma_chunks_len_take_step(chunks, m);
            assert(frag.data.len() + chunks_len(chunks.take(m + 1)) < frag.total_len);
        }
        lemma_fragment_overflow(table2, handle, chunks.skip(1), nr);
    }
}

} // verus!
