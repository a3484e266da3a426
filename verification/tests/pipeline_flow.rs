use att_trace::analyzer::analyze;
use att_trace::analyzer::AttRead;
use att_trace::analyzer::AttWrite;
use att_trace::analyzer::ParsedAttRequestContent;
use att_trace::parser::Diagnostic;
use att_trace::parser::StructuralViolation;
use att_trace::pipeline::run_capture;
use att_trace::pipeline::RawPacket;

/// A record payload carrying one complete ACL data packet for connection
/// handle 0x040 with the given ATT payload.
fn att_record(att: &[u8]) -> Vec<u8> {
    let part_len = (att.len() + 4) as u16;
    let total_len = att.len() as u16;
    let mut v = vec![
        0x40,
        0x00,
        part_len as u8,
        (part_len >> 8) as u8,
        total_len as u8,
        (total_len >> 8) as u8,
        0x04,
        0x00,
    ];
    v.extend_from_slice(att);
    v
}

fn capture(payloads: Vec<Vec<u8>>) -> Vec<RawPacket> {
    payloads
        .into_iter()
        .enumerate()
        .map(|(i, payload)| RawPacket { nr: i + 1, payload })
        .collect()
}

/// One group type response record binding `handle` to the 16-bit UUID
/// carried in `uuid` (wire order).
fn group_binding(handle: u16, uuid: [u8; 2]) -> Vec<u8> {
    att_record(&[
        0x11,
        6,
        handle as u8,
        (handle >> 8) as u8,
        0xff,
        0xff,
        uuid[0],
        uuid[1],
    ])
}

#[test]
fn read_pairs_with_request_across_non_att_packets() {
    let records = capture(vec![
        att_record(&[0x0a, 0x03, 0x00]), // ReadRequest(0x0003)
        vec![0x3e, 0x01, 0x99], // an intervening non-ATT packet
        vec![0x3e, 0x01, 0x98], // another one
        att_record(&[0x0b, 0x01, 0x02]), // ReadResponse([0x01, 0x02])
    ]);
    let (transactions, diagnostics) = run_capture(records).unwrap();
    assert_eq!(transactions.len(), 1);
    assert_eq!(transactions[0].nr, 4);
    assert_eq!(
        transactions[0].content,
        ParsedAttRequestContent::Read(AttRead {
            human_handle: String::from("(Unknown att(0x0003))"),
            response_payload: vec![0x01, 0x02],
        })
    );
    assert_eq!(diagnostics, vec![]);
}

#[test]
fn bare_read_response_is_dangling() {
    let records = capture(vec![att_record(&[0x0b, 0x01, 0x02])]);
    let (transactions, diagnostics) = run_capture(records).unwrap();
    assert_eq!(transactions.len(), 0);
    assert_eq!(diagnostics, vec![Diagnostic::DanglingReadResponse { nr: 1 }]);
}

#[test]
fn bare_write_response_is_dangling() {
    let records = capture(vec![att_record(&[0x13])]);
    let (transactions, diagnostics) = run_capture(records).unwrap();
    assert_eq!(transactions.len(), 0);
    assert_eq!(diagnostics, vec![Diagnostic::DanglingWriteResponse { nr: 1 }]);
}

#[test]
fn later_binding_wins_wherever_the_transaction_stands() {
    // Handle 0x0001 is bound to "1800", the read happens, and only then is
    // the handle rebound to "1801": the transaction still resolves "1801".
    let records = capture(vec![
        group_binding(0x0001, [0x00, 0x18]),
        att_record(&[0x0a, 0x01, 0x00]),
        att_record(&[0x0b, 0x09]),
        group_binding(0x0001, [0x01, 0x18]),
    ]);
    let (transactions, diagnostics) = run_capture(records).unwrap();
    assert_eq!(transactions.len(), 1);
    assert_eq!(
        transactions[0].content,
        ParsedAttRequestContent::Read(AttRead {
            human_handle: String::from("1801"),
            response_payload: vec![0x09],
        })
    );
    assert_eq!(diagnostics, vec![]);
}

#[test]
fn end_to_end_write_transaction() {
    let records = capture(vec![
        group_binding(0x0001, [0x00, 0x18]),
        att_record(&[0x12, 0x01, 0x00, 0xaa]), // WriteRequest(0x0001, [0xAA])
        att_record(&[0x13]), // WriteResponse([])
    ]);
    let (transactions, diagnostics) = run_capture(records).unwrap();
    assert_eq!(transactions.len(), 1);
    assert_eq!(transactions[0].nr, 3);
    assert_eq!(
        transactions[0].content,
        ParsedAttRequestContent::Write(AttWrite {
            human_handle: String::from("1800"),
            request_payload: vec![0xaa],
            response_payload: vec![],
        })
    );
    assert_eq!(diagnostics, vec![]);
}

#[test]
fn pipeline_is_deterministic_on_identical_input() {
    let build = || {
        capture(vec![
            group_binding(0x0001, [0x00, 0x18]),
            att_record(&[0x0a, 0x01, 0x00]),
            vec![0x3e, 0x01, 0x99],
            att_record(&[0x0b, 0x05, 0x06]),
            att_record(&[0x12, 0x02, 0x00, 0x01]),
            att_record(&[0x13]),
        ])
    };
    let first = run_capture(build()).unwrap();
    let second = run_capture(build()).unwrap();
    assert_eq!(first.0, second.0);
    assert_eq!(first.1, second.1);
}

#[test]
fn pending_requests_at_end_of_stream_are_reported() {
    let records = capture(vec![
        att_record(&[0x0a, 0x01, 0x00]),
        att_record(&[0x12, 0x02, 0x00, 0xaa]),
    ]);
    let (transactions, diagnostics) = run_capture(records).unwrap();
    assert_eq!(transactions.len(), 0);
    assert_eq!(
        diagnostics,
        vec![Diagnostic::UnhandledReadRequest, Diagnostic::UnhandledWriteRequest]
    );
}

#[test]
fn a_new_request_overwrites_the_pending_one() {
    let records = capture(vec![
        att_record(&[0x0a, 0x01, 0x00]),
        att_record(&[0x0a, 0x02, 0x00]),
        att_record(&[0x0b, 0x07]),
    ]);
    let (transactions, _diagnostics) = run_capture(records).unwrap();
    assert_eq!(transactions.len(), 1);
    assert_eq!(
        transactions[0].content,
        ParsedAttRequestContent::Read(AttRead {
            human_handle: String::from("(Unknown att(0x0002))"),
            response_payload: vec![0x07],
        })
    );
}

#[test]
fn empty_records_are_skipped() {
    let records = capture(vec![
        vec![],
        att_record(&[0x0a, 0x03, 0x00]),
        vec![],
        att_record(&[0x0b, 0x01]),
    ]);
    let (transactions, diagnostics) = run_capture(records).unwrap();
    assert_eq!(transactions.len(), 1);
    assert_eq!(diagnostics, vec![]);
}

#[test]
fn a_violation_aborts_the_run() {
    let records = capture(vec![
        att_record(&[0x0a, 0x03, 0x00]),
        att_record(&[0x11, 9, 0, 0, 0, 0, 0, 0, 0]),
    ]);
    let r = run_capture(records);
    assert_eq!(r.unwrap_err(), StructuralViolation::UnexpectedAttributeLength(9));
}

#[test]
fn type_response_records_also_bind_names() {
    // A Read By Type Response record binding handle 0x0002 to a full UUID.
    let mut att = vec![0x09u8, 21];
    att.extend_from_slice(&[0x02, 0x00, 0x08, 0x03, 0x00]);
    att.extend_from_slice(&(0x00u8..0x10).collect::<Vec<u8>>());
    let records = capture(vec![
        att_record(&att),
        att_record(&[0x0a, 0x02, 0x00]),
        att_record(&[0x0b]),
    ]);
    let (transactions, _diagnostics) = run_capture(records).unwrap();
    assert_eq!(transactions.len(), 1);
    assert_eq!(
        transactions[0].content,
        ParsedAttRequestContent::Read(AttRead {
            human_handle: String::from("0f0e0d0c-0b0a-0908-0706-050403020100"),
            response_payload: vec![],
        })
    );
}

#[test]
fn human_renders_read_and_write_lines() {
    let read = ParsedAttRequestContent::Read(AttRead {
        human_handle: String::from("1800"),
        response_payload: vec![0x01, 0x02],
    });
    assert_eq!(read.human(), "Read 1800 > [01 02]");
    let write = ParsedAttRequestContent::Write(AttWrite {
        human_handle: String::from("(Unknown att(0x0003))"),
        request_payload: vec![0xaa],
        response_payload: vec![0x00],
    });
    assert_eq!(write.human(), "Write (Unknown att(0x0003)) > [aa]");
}

#[test]
fn analyze_on_an_empty_packet_list() {
    let (transactions, diagnostics) = analyze(vec![]);
    assert_eq!(transactions, vec![]);
    assert_eq!(diagnostics, vec![]);
}
