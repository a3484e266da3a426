//! Two-pass correlation: a first pass builds the attribute-handle naming
//! dictionary from record lists, a second pass pairs read/write requests
//! with their responses into transactions, in capture order.

use vstd::prelude::*;

use std::collections::HashMap;

use crate::human::hex_list_chars;
use crate::human::human_u8_list;
use crate::parser::att::canonical_chars;
use crate::parser::att::hex_digit_char;
use crate::parser::att::hex_digit_str;
use crate::parser::att::AttModel;
use crate::parser::att::AttributeGroupModel;
use crate::parser::att::AttributeModel;
use crate::parser::att::RawAtt;
use crate::parser::BltPacket;
use crate::parser::BltPacketKind;
use crate::parser::Diagnostic;
use crate::parser::PacketKindModel;
use crate::parser::PacketModel;
use vstd::string::StringExecFns;

verus! {

broadcast use vstd::std_specs::hash::group_hash_axioms;

/// One reconstructed transaction: the capture sequence number of the
/// response record and the paired content.
#[derive(Debug, PartialEq, Eq)]
pub struct ParsedAttRequest {
    pub nr: usize,
    pub content: ParsedAttRequestContent,
}

/// A paired read or write transaction.
#[derive(Debug, PartialEq, Eq)]
pub enum ParsedAttRequestContent {
    Read(AttRead),
    Write(AttWrite),
}

/// A completed read: the resolved attribute name and the response bytes.
#[derive(Debug, PartialEq, Eq)]
pub struct AttRead {
    pub human_handle: String,
    pub response_payload: Vec<u8>,
}

/// A completed write: the resolved attribute name, the bytes written and
/// the response bytes.
#[derive(Debug, PartialEq, Eq)]
pub struct AttWrite {
    pub human_handle: String,
    pub request_payload: Vec<u8>,
    pub response_payload: Vec<u8>,
}

/// A completed read, as mathematical values.
#[verifier::ext_equal]
pub struct ReadModel {
    pub human_handle: Seq<char>,
    pub response_payload: Seq<u8>,
}

/// A completed write, as mathematical values.
#[verifier::ext_equal]
pub struct WriteModel {
    pub human_handle: Seq<char>,
    pub request_payload: Seq<u8>,
    pub response_payload: Seq<u8>,
}

#[verifier::ext_equal]
pub enum TransactionContentModel {
    Read(ReadModel),
    Write(WriteModel),
}

/// A reconstructed transaction, as mathematical values.
#[verifier::ext_equal]
pub struct TransactionModel {
    pub nr: usize,
    pub content: TransactionContentModel,
}

impl DeepView for AttRead {
    type V = ReadModel;

    open spec fn deep_view(&self) -> ReadModel {
        ReadModel { human_handle: self.human_handle@, response_payload: self.response_payload@ }
    }
}

impl DeepView for AttWrite {
    type V = WriteModel;

    open spec fn deep_view(&self) -> WriteModel {
        WriteModel {
            human_handle: self.human_handle@,
            request_payload: self.request_payload@,
            response_payload: self.response_payload@,
        }
    }
}

impl DeepView for ParsedAttRequestContent {
    type V = TransactionContentModel;

    open spec fn deep_view(&self) -> TransactionContentModel {
        match self {
            ParsedAttRequestContent::Read(d) => TransactionContentModel::Read(d.deep_view()),
            ParsedAttRequestContent::Write(d) => TransactionContentModel::Write(d.deep_view()),
        }
    }
}

impl DeepView for ParsedAttRequest {
    type V = TransactionModel;

    open spec fn deep_view(&self) -> TransactionModel {
        TransactionModel { nr: self.nr, content: self.content.deep_view() }
    }
}

/// The one-line rendering of a transaction: the operation, the resolved
/// attribute name, and the relevant payload in brackets. A write renders
/// the bytes that were written.
pub open spec fn human_chars(c: TransactionContentModel) -> Seq<char> {
    match c {
        TransactionContentModel::Read(d) => "Read "@ + d.human_handle + " > ["@ + hex_list_chars(
            d.response_payload,
        ) + "]"@,
        TransactionContentModel::Write(d) => "Write "@ + d.human_handle + " > ["@
            + hex_list_chars(d.request_payload) + "]"@,
    }
}

impl ParsedAttRequestContent {
    /// Renders the transaction as one line of text, per [`human_chars`].
    pub fn human(&self) -> (r: String)
        ensures
            r@ == human_chars(self.deep_view()),
    {
        match self {
            ParsedAttRequestContent::Read(data) => {
                let mut out = String::from_str("Read ");
                out.append(data.human_handle.as_str());
                out.append(" > [");
                let listed = human_u8_list(&data.response_payload);
                out.append(listed.as_str());
                out.append("]");
                out
            },
            ParsedAttRequestContent::Write(data) => {
                let mut out = String::from_str("Write ");
                out.append(data.human_handle.as_str());
                out.append(" > [");
                let listed = human_u8_list(&data.request_payload);
                out.append(listed.as_str());
                out.append("]");
                out
            },
        }
    }
}

/// The fallback name for a handle the dictionary does not bind:
/// `(Unknown att(0x....))` with the handle as four lowercase hex digits.
pub open spec fn unknown_att_chars(u: u16) -> Seq<char> {
    "(Unknown att(0x"@ + seq![
        hex_digit_char(u as int / 4096),
        hex_digit_char((u as int / 256) % 16),
        hex_digit_char((u as int / 16) % 16),
        hex_digit_char(u as int % 16),
    ] + "))"@
}

/// The name a dictionary resolves `u` to: the bound name, or the fallback.
pub open spec fn spec_human_att(attributes: Map<u16, Seq<char>>, u: u16) -> Seq<char> {
    if attributes.contains_key(u) {
        attributes[u]
    } else {
        unknown_att_chars(u)
    }
}

/// The attribute dictionary as a map of mathematical values.
pub open spec fn attr_model(m: Map<u16, String>) -> Map<u16, Seq<char>> {
    Map::new(|h: u16| m.contains_key(h), |h: u16| m[h]@)
}

/// The correlation state: the attribute dictionary plus at most one pending
/// read handle and at most one pending write. The pending slots are held
/// once per capture, not per connection.
pub struct AnalyzeState {
    pub last_read_request: Option<u16>,
    pub last_write_reques: Option<(u16, Vec<u8>)>,
    pub attributes: HashMap<u16, String>,
}

impl AnalyzeState {
    /// Resolves a handle to its dictionary name, or the fallback form, per
    /// [`spec_human_att`].
    pub fn human_att(&self, u: &u16) -> (r: String)
        ensures
            r@ == spec_human_att(attr_model(self.attributes@), *u),
    {
        match self.attributes.get(u) {
            Some(att) => att.clone(),
            None => {
                let x = *u;
                let mut out = String::from_str("(Unknown att(0x");
                out.append(hex_digit_str((x / 4096) as u8));
                out.append(hex_digit_str(((x / 256) % 16) as u8));
                out.append(hex_digit_str(((x / 16) % 16) as u8));
                out.append(hex_digit_str((x % 16) as u8));
                out.append("))");
                proof {
                    assert(out@ =~= unknown_att_chars(x));
                }
                out
            },
        }
    }
}

/// Bindings added to the dictionary by a list of group records, first
/// record first; a later record overwrites an earlier binding of the same
/// handle.
pub open spec fn insert_group_records(
    dict: Map<u16, Seq<char>>,
    records: Seq<AttributeGroupModel>,
) -> Map<u16, Seq<char>>
    decreases records.len(),
{
    if records.len() == 0 {
        dict
    } else {
        insert_group_records(
            dict.insert(records[0].handle, canonical_chars(records[0].uuid)),
            records.skip(1),
        )
    }
}

/// Bindings added to the dictionary by a list of characteristic records.
pub open spec fn insert_type_records(
    dict: Map<u16, Seq<char>>,
    records: Seq<AttributeModel>,
) -> Map<u16, Seq<char>>
    decreases records.len(),
{
    if records.len() == 0 {
        dict
    } else {
        insert_type_records(
            dict.insert(records[0].handle, canonical_chars(records[0].uuid)),
            records.skip(1),
        )
    }
}

/// What one packet contributes to the attribute dictionary: record lists
/// bind handles to canonical UUID strings, everything else binds nothing.
pub open spec fn spec_record_bindings(dict: Map<u16, Seq<char>>, kind: PacketKindModel) -> Map<
    u16,
    Seq<char>,
> {
    match kind {
        PacketKindModel::RawAtt(a) => match a {
            AttModel::ReadByGroupTypeResponse(rs) => insert_group_records(dict, rs),
            AttModel::ReadByTypeRespense(rs) => insert_type_records(dict, rs),
            _ => dict,
        },
        PacketKindModel::MetaEvent(_) => dict,
    }
}

/// The attribute dictionary after the first `n` packets: later bindings win
/// on collision, none are ever deleted.
pub open spec fn spec_dictionary(packets: Seq<PacketModel>, n: int) -> Map<u16, Seq<char>>
    decreases n,
{
    if n <= 0 {
        Map::empty()
    } else {
        spec_record_bindings(spec_dictionary(packets, n - 1), packets[n - 1].kind)
    }
}

/// The correlation pass state, as mathematical values: the two pending
/// slots and what has been emitted so far.
#[verifier::ext_equal]
pub struct CorrelationModel {
    pub pending_read: Option<u16>,
    pub pending_write: Option<(u16, Seq<u8>)>,
    pub transactions: Seq<TransactionModel>,
    pub diagnostics: Seq<Diagnostic>,
}

/// The correlation state before any packet: both slots empty, nothing
/// emitted.
pub open spec fn initial_correlation() -> CorrelationModel {
    CorrelationModel {
        pending_read: None,
        pending_write: None,
        transactions: Seq::empty(),
        diagnostics: Seq::empty(),
    }
}

/// What one packet does in the correlation pass. A request overwrites its
/// pending slot; a response pairs with the pending request, resolving the
/// handle through the full dictionary, or is reported dangling.
pub open spec fn spec_step(
    st: CorrelationModel,
    dict: Map<u16, Seq<char>>,
    p: PacketModel,
) -> CorrelationModel {
    match p.kind {
        PacketKindModel::RawAtt(a) => match a {
            AttModel::ReadRequest(h) => CorrelationModel { pending_read: Some(h), ..st },
            AttModel::ReadResponse(payload) => match st.pending_read {
                Some(h) => CorrelationModel {
                    pending_read: None,
                    transactions: st.transactions.push(
                        TransactionModel {
                            nr: p.nr,
                            content: TransactionContentModel::Read(
                                ReadModel {
                                    human_handle: spec_human_att(dict, h),
                                    response_payload: payload,
                                },
                            ),
                        },
                    ),
                    ..st
                },
                None => CorrelationModel {
                    diagnostics: st.diagnostics.push(
                        Diagnostic::DanglingReadResponse { nr: p.nr },
                    ),
                    ..st
                },
            },
            AttModel::WriteRequest(h, payload) => CorrelationModel {
                pending_write: Some((h, payload)),
                ..st
            },
            AttModel::WriteResponse(payload) => match st.pending_write {
                Some(pw) => CorrelationModel {
                    pending_write: None,
                    transactions: st.transactions.push(
                        TransactionModel {
                            nr: p.nr,
                            content: TransactionContentModel::Write(
                                WriteModel {
                                    human_handle: spec_human_att(dict, pw.0),
                                    request_payload: pw.1,
                                    response_payload: payload,
                                },
                            ),
                        },
                    ),
                    ..st
                },
                None => CorrelationModel {
                    diagnostics: st.diagnostics.push(
                        Diagnostic::DanglingWriteResponse { nr: p.nr },
                    ),
                    ..st
                },
            },
            AttModel::ReadByGroupTypeResponse(_) => st,
            AttModel::ReadByTypeRespense(_) => st,
        },
        PacketKindModel::MetaEvent(_) => st,
    }
}

/// The correlation state after the first `n` packets.
pub open spec fn spec_correlate(
    packets: Seq<PacketModel>,
    dict: Map<u16, Seq<char>>,
    n: int,
) -> CorrelationModel
    decreases n,
{
    if n <= 0 {
        initial_correlation()
    } else {
        spec_step(spec_correlate(packets, dict, n - 1), dict, packets[n - 1])
    }
}

/// What analysis yields for a packet stream: the transactions of the
/// correlation pass run against the dictionary of the whole stream, and the
/// diagnostics, closed by a report for each request still pending at the
/// end.
pub open spec fn spec_analyze(packets: Seq<PacketModel>) -> (Seq<TransactionModel>, Seq<
    Diagnostic,
>) {
    let dict = spec_dictionary(packets, packets.len() as int);
    let st = spec_correlate(packets, dict, packets.len() as int);
    let ds = st.diagnostics + (if st.pending_read is Some {
        seq![Diagnostic::UnhandledReadRequest]
    } else {
        Seq::empty()
    }) + (if st.pending_write is Some {
        seq![Diagnostic::UnhandledWriteRequest]
    } else {
        Seq::empty()
    });
    (st.transactions, ds)
}

/// An owned copy of a byte vector.
pub fn copy_bytes(v: &Vec<u8>) -> (r: Vec<u8>)
    ensures
        r@ == v@,
{
    let mut r: Vec<u8> = Vec::new();
    let mut i: usize = 0;
    while i < v.len()
        invariant
            i <= v@.len(),
            r@ == v@.take(i as int),
        decreases v@.len() - i,
    {
        r.push(v[i]);
        proof {
            assert(r@ =~= v@.take(i + 1));
        }
        i = i + 1;
    }
    proof {
        assert(v@.take(v@.len() as int) =~= v@);
    }
    r
}

/// Correlates the packet stream into an ordered transaction sequence plus
/// diagnostics, per [`spec_analyze`]: pass one builds the attribute
/// dictionary, pass two pairs requests with responses in capture order.
#[verifier::loop_isolation(false)]
pub fn analyze(packages: Vec<BltPacket>) -> (r: (Vec<ParsedAttRequest>, Vec<Diagnostic>))
    requires
        forall|i: int| 0 <= i < packages@.len() ==> (#[trigger] packages@[i]).wf(),
    ensures
        r.0.deep_view() == spec_analyze(packages.deep_view()).0,
        r.1@ == spec_analyze(packages.deep_view()).1,
{
    let ghost pm = packages.deep_view();
    let mut state = AnalyzeState {
        last_read_request: None,
        last_write_reques: None,
        attributes: HashMap::new(),
    };

    let mut idx: usize = 0;
    proof {
        assert(attr_model(state.attributes@) =~= Map::<u16, Seq<char>>::empty());
    }
    while idx < packages.len()
        invariant
            idx <= packages@.len(),
            state.last_read_request is None,
            state.last_write_reques is None,
            attr_model(state.attributes@) == spec_dictionary(pm, idx as int),
        decreases packages@.len() - idx,
    {
        let pkg = &packages[idx];
        match &pkg.kind {
            BltPacketKind::RawAtt(ev) => match ev {
                RawAtt::ReadByGroupTypeResponse(attribute_group_data) => {
                    let ghost d0 = attr_model(state.attributes@);
                    let ghost rsm = attribute_group_data.deep_view();
                    let mut j: usize = 0;
                    proof {
                        assert(rsm.skip(0) =~= rsm);
                    }
                    while j < attribute_group_data.len()
                        invariant
                            j <= rsm.len(),
                            state.last_read_request is None,
                            state.last_write_reques is None,
                            insert_group_records(d0, rsm) == insert_group_records(
                                attr_model(state.attributes@),
                                rsm.skip(j as int),
                            ),
                        decreases rsm.len() - j,
                    {
                        let group = &attribute_group_data[j];
                        let ghost before = attr_model(state.attributes@);
                        let name = group.uuid.string();
                        state.attributes.insert(group.handle, name);
                        proof {
                            assert(attr_model(state.attributes@) =~= before.insert(
                                rsm[j as int].handle,
                                canonical_chars(rsm[j as int].uuid),
                            ));
                            assert(rsm.skip(j as int).skip(1) =~= rsm.skip(j + 1));
                        }
                        j = j + 1;
                    }
                    proof {
                        assert(rsm.skip(rsm.len() as int) =~= Seq::<AttributeGroupModel>::empty());
                        assert(pm[idx as int].kind == PacketKindModel::RawAtt(
                            AttModel::ReadByGroupTypeResponse(rsm),
                        ));
                    }
                },
                RawAtt::ReadByTypeRespense(attribute_data) => {
                    let ghost d0 = attr_model(state.attributes@);
                    let ghost rsm = attribute_data.deep_view();
                    let mut j: usize = 0;
                    proof {
                        assert(rsm.skip(0) =~= rsm);
                    }
                    while j < attribute_data.len()
                        invariant
                            j <= rsm.len(),
                            state.last_read_request is None,
                            state.last_write_reques is None,
                            insert_type_records(d0, rsm) == insert_type_records(
                                attr_model(state.attributes@),
                                rsm.skip(j as int),
                            ),
                        decreases rsm.len() - j,
                    {
                        let entry = &attribute_data[j];
                        let ghost before = attr_model(state.attributes@);
                        let name = entry.uuid.string();
                        state.attributes.insert(entry.handle, name);
                        proof {
                            assert(attr_model(state.attributes@) =~= before.insert(
                                rsm[j as int].handle,
                                canonical_chars(rsm[j as int].uuid),
                            ));
                            assert(rsm.skip(j as int).skip(1) =~= rsm.skip(j + 1));
                        }
                        j = j + 1;
                    }
                    proof {
                        assert(rsm.skip(rsm.len() as int) =~= Seq::<AttributeModel>::empty());
                        assert(pm[idx as int].kind == PacketKindModel::RawAtt(
                            AttModel::ReadByTypeRespense(rsm),
                        ));
                    }
                },
                RawAtt::ReadRequest(_) => {},
                RawAtt::ReadResponse(_) => {},
                RawAtt::WriteRequest(_, _) => {},
                RawAtt::WriteResponse(_) => {},
            },
            BltPacketKind::MetaEvent(_) => {},
        }
        idx = idx + 1;
    }

    let ghost dict = spec_dictionary(pm, pm.len() as int);

    let mut att_requests: Vec<ParsedAttRequest> = Vec::new();
    let mut diagnostics: Vec<Diagnostic> = Vec::new();

    let mut idx: usize = 0;
    proof {
        assert(att_requests.deep_view() =~= Seq::<TransactionModel>::empty());
        assert(diagnostics@ =~= Seq::<Diagnostic>::empty());
    }
    while idx < packages.len()
        invariant
            idx <= packages@.len(),
            attr_model(state.attributes@) == dict,
            (CorrelationModel {
                pending_read: state.last_read_request,
                pending_write: state.last_write_reques.deep_view(),
                transactions: att_requests.deep_view(),
                diagnostics: diagnostics@,
            }) == spec_correlate(pm, dict, idx as int),
        decreases packages@.len() - idx,
    {
        let pkg = &packages[idx];
        let ghost prev = spec_correlate(pm, dict, idx as int);
        match &pkg.kind {
            BltPacketKind::RawAtt(ev) => match ev {
                RawAtt::ReadRequest(handle) => {
                    state.last_read_request = Some(*handle);
                },
                RawAtt::ReadResponse(payload) => {
                    match state.last_read_request {
                        Some(handle) => {
                            let human_handle = state.human_att(&handle);
                            att_requests.push(
                                ParsedAttRequest {
                                    nr: pkg.nr,
                                    content: ParsedAttRequestContent::Read(
                                        AttRead {
                                            human_handle,
                                            response_payload: copy_bytes(payload),
                                        },
                                    ),
                                },
                            );
                            state.last_read_request = None;
                        },
                        None => {
                            diagnostics.push(Diagnostic::DanglingReadResponse { nr: pkg.nr });
                        },
                    }
                },
                RawAtt::WriteRequest(handle, payload) => {
                    state.last_write_reques = Some((*handle, copy_bytes(payload)));
                },
                RawAtt::WriteResponse(response_payload) => {
                    let pending = state.last_write_reques.is_some();
                    if pending {
                        let (handle, request_payload) = match &state.last_write_reques {
                            Some(pair) => (pair.0, copy_bytes(&pair.1)),
                            None => {
                                proof {
                                    assert(false);
                                }
                                (0u16, Vec::new())
                            },
                        };
                        let human_handle = state.human_att(&handle);
                        att_requests.push(
                            ParsedAttRequest {
                                nr: pkg.nr,
                                content: ParsedAttRequestContent::Write(
                                    AttWrite {
                                        human_handle,
                                        request_payload,
                                        response_payload: copy_bytes(response_payload),
                                    },
                                ),
                            },
                        );
                        state.last_write_reques = None;
                    } else {
                        diagnostics.push(Diagnostic::DanglingWriteResponse { nr: pkg.nr });
                    }
                },
                RawAtt::ReadByGroupTypeResponse(_) => {},
                RawAtt::ReadByTypeRespense(_) => {},
            },
            BltPacketKind::MetaEvent(_) => {},
        }
        proof {
            assert(pm[idx as int] == packages@[idx as int].deep_view());
            let stp = spec_step(prev, dict, pm[idx as int]);
            assert(att_requests.deep_view() =~~= stp.transactions);
            assert(state.last_write_reques.deep_view() =~~= stp.pending_write);
            assert(diagnostics@ =~= stp.diagnostics);
        }
        idx = idx + 1;
    }

    if state.last_read_request.is_some() {
        diagnostics.push(Diagnostic::UnhandledReadRequest);
    }
    if state.last_write_reques.is_some() {
        diagnostics.push(Diagnostic::UnhandledWriteRequest);
    }
    proof {
        assert(diagnostics@ =~= spec_analyze(pm).1);
    }
    (att_requests, diagnostics)
}

/// Packets that are not ATT operations leave the correlation state
/// untouched.
pub proof fn lemma_meta_steps_preserve(
    packets: Seq<PacketModel>,
    dict: Map<u16, Seq<char>>,
    a: int,
    b: int,
)
    requires
        0 <= a <= b <= packets.len(),
        forall|k: int| a <= k < b ==> (#[trigger] packets[k]).kind matches
            PacketKindModel::MetaEvent(_),
    ensures
        spec_correlate(packets, dict, b) == spec_correlate(packets, dict, a),
    decreases b - a,
{
    if b > a {
        lemma_meta_steps_preserve(packets, dict, a, b - 1);
    }
}

/// A read request followed by a read response, with only non-ATT packets
/// between them, emits exactly one read transaction: it carries the
/// response packet's sequence number and payload, the handle resolves
/// through the dictionary, and the pending slot is cleared.
pub proof fn lemma_read_pairing(
    packets: Seq<PacketModel>,
    dict: Map<u16, Seq<char>>,
    i: int,
    j: int,
    h: u16,
    payload: Seq<u8>,
)
    requires
        0 <= i < j < packets.len(),
        packets[i].kind == PacketKindModel::RawAtt(AttModel::ReadRequest(h)),
        forall|k: int| i < k < j ==> (#[trigger] packets[k]).kind matches
            PacketKindModel::MetaEvent(_),
        packets[j].kind == PacketKindModel::RawAtt(AttModel::ReadResponse(payload)),
    ensures
        spec_correlate(packets, dict, j + 1).transactions == spec_correlate(
            packets,
            dict,
            i,
        ).transactions.push(
            TransactionModel {
                nr: packets[j].nr,
                content: TransactionContentModel::Read(
                    ReadModel {
                        human_handle: spec_human_att(dict, h),
                        response_payload: payload,
                    },
                ),
            },
        ),
        spec_correlate(packets, dict, j + 1).pending_read is None,
        spec_correlate(packets, dict, j + 1).diagnostics == spec_correlate(
            packets,
            dict,
            i,
        ).diagnostics,
{
    lemma_meta_steps_preserve(packets, dict, i + 1, j);
}

/// A read response with no pending read request emits no transaction and
/// exactly one dangling-response diagnostic.
pub proof fn lemma_dangling_read_response(
    packets: Seq<PacketModel>,
    dict: Map<u16, Seq<char>>,
    j: int,
    payload: Seq<u8>,
)
    requires
        0 <= j < packets.len(),
        packets[j].kind == PacketKindModel::RawAtt(AttModel::ReadResponse(payload)),
        spec_correlate(packets, dict, j).pending_read is None,
    ensures
        spec_correlate(packets, dict, j + 1).transactions == spec_correlate(
            packets,
            dict,
            j,
        ).transactions,
        spec_correlate(packets, dict, j + 1).diagnostics == spec_correlate(
            packets,
            dict,
            j,
        ).diagnostics.push(Diagnostic::DanglingReadResponse { nr: packets[j].nr }),
{
}

/// The packet's record lists bind `h` in the dictionary pass.
pub open spec fn binds_handle(kind: PacketKindModel, h: u16) -> bool {
    match kind {
        PacketKindModel::RawAtt(a) => match a {
            AttModel::ReadByGroupTypeResponse(rs) => exists|k: int|
                0 <= k < rs.len() && rs[k].handle == h,
            AttModel::ReadByTypeRespense(rs) => exists|k: int|
                0 <= k < rs.len() && rs[k].handle == h,
            _ => false,
        },
        PacketKindModel::MetaEvent(_) => false,
    }
}

proof fn lemma_group_records_preserve(
    dict: Map<u16, Seq<char>>,
    rs: Seq<AttributeGroupModel>,
    h: u16,
)
    requires
        forall|k: int| 0 <= k < rs.len() ==> (#[trigger] rs[k]).handle != h,
    ensures
        insert_group_records(dict, rs).contains_key(h) == dict.contains_key(h),
        dict.contains_key(h) ==> insert_group_records(dict, rs)[h] == dict[h],
    decreases rs.len(),
{
    if rs.len() > 0 {
        lemma_group_records_preserve(
            dict.insert(rs[0].handle, canonical_chars(rs[0].uuid)),
            rs.skip(1),
            h,
        );
    }
}

proof fn lemma_type_records_preserve(dict: Map<u16, Seq<char>>, rs: Seq<AttributeModel>, h: u16)
    requires
        forall|k: int| 0 <= k < rs.len() ==> (#[trigger] rs[k]).handle != h,
    ensures
        insert_type_records(dict, rs).contains_key(h) == dict.contains_key(h),
        dict.contains_key(h) ==> insert_type_records(dict, rs)[h] == dict[h],
    decreases rs.len(),
{
    if rs.len() > 0 {
        lemma_type_records_preserve(
            dict.insert(rs[0].handle, canonical_chars(rs[0].uuid)),
            rs.skip(1),
            h,
        );
    }
}

/// A packet that does not bind `h` leaves the dictionary unchanged at `h`.
pub proof fn lemma_bindings_preserve(dict: Map<u16, Seq<char>>, kind: PacketKindModel, h: u16)
    requires
        !binds_handle(kind, h),
    ensures
        spec_record_bindings(dict, kind).contains_key(h) == dict.contains_key(h),
        dict.contains_key(h) ==> spec_record_bindings(dict, kind)[h] == dict[h],
{
    match kind {
        PacketKindModel::RawAtt(a) => match a {
            AttModel::ReadByGroupTypeResponse(rs) => {
                assert forall|k: int| 0 <= k < rs.len() implies (#[trigger] rs[k]).handle
                    != h by {}
                lemma_group_records_preserve(dict, rs, h);
            },
            AttModel::ReadByTypeRespense(rs) => {
                assert forall|k: int| 0 <= k < rs.len() implies (#[trigger] rs[k]).handle
                    != h by {}
                lemma_type_records_preserve(dict, rs, h);
            },
            _ => {},
        },
        PacketKindModel::MetaEvent(_) => {},
    }
}

/// When a handle is bound by one group response and later rebound by a
/// second, the later binding wins: the dictionary of the whole stream, which
/// every transaction resolves its name through, maps the handle to the
/// later UUID's canonical string, wherever the referencing transaction
/// stands relative to either binding.
pub proof fn lemma_rebinding_last_wins(
    packets: Seq<PacketModel>,
    i: int,
    j: int,
    n: int,
    h: u16,
    rs1: Seq<AttributeGroupModel>,
    rs2: Seq<AttributeGroupModel>,
)
    requires
        0 <= i < j < n <= packets.len(),
        packets[i].kind == PacketKindModel::RawAtt(AttModel::ReadByGroupTypeResponse(rs1)),
        rs1.len() == 1 && rs1[0].handle == h,
        packets[j].kind == PacketKindModel::RawAtt(AttModel::ReadByGroupTypeResponse(rs2)),
        rs2.len() == 1 && rs2[0].handle == h,
        forall|k: int| j < k < n ==> !binds_handle((#[trigger] packets[k]).kind, h),
    ensures
        spec_dictionary(packets, n).contains_key(h),
        spec_dictionary(packets, n)[h] == canonical_chars(rs2[0].uuid),
        spec_human_att(spec_dictionary(packets, n), h) == canonical_chars(rs2[0].uuid),
    decreases n,
{
    if n == j + 1 {
        let d = spec_dictionary(packets, j);
        assert(rs2.skip(1) =~= Seq::<AttributeGroupModel>::empty());
        assert(insert_group_records(d, rs2) == insert_group_records(
            d.insert(h, canonical_chars(rs2[0].uuid)),
            rs2.skip(1),
        ));
    } else {
        lemma_rebinding_last_wins(packets, i, j, n - 1, h, rs1, rs2);
        lemma_bindings_preserve(spec_dictionary(packets, n - 1), packets[n - 1].kind, h);
    }
}

} // verus!
