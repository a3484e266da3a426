use att_trace::parser::att::AttributeGroupData;
use att_trace::parser::att::RawAtt;
use att_trace::parser::att::UuidKind;
use att_trace::parser::hci_event::BltEventAdvertizingReportName;
use att_trace::parser::hci_event::BltEventMeta;
use att_trace::parser::is_blt_hci_acl;
use att_trace::parser::BltPacketKind;
use att_trace::parser::Bytes;
use att_trace::parser::Diagnostic;
use att_trace::parser::Parser;
use att_trace::parser::StructuralViolation;

/// A record payload carrying one complete ACL data packet for connection
/// handle 0x040 with the given ATT payload.
fn acl_record(att: &[u8]) -> Vec<u8> {
    let part_len = (att.len() + 4) as u16;
    let total_len = att.len() as u16;
    let mut v = vec![
        0x40,
        0x00,
        part_len as u8,
        (part_len >> 8) as u8,
        total_len as u8,
        (total_len >> 8) as u8,
        0x04,
        0x00,
    ];
    v.extend_from_slice(att);
    v
}

#[test]
fn acl_flag_test_matches_spec() {
    assert!(is_blt_hci_acl(0x00)); // BC 0, PB 0
    assert!(is_blt_hci_acl(0x10)); // PB 1 (continuing fragment)
    assert!(is_blt_hci_acl(0x20)); // PB 2 (first flushable)
    assert!(!is_blt_hci_acl(0x30)); // PB 3
    assert!(!is_blt_hci_acl(0x40)); // BC flag set
    assert!(!is_blt_hci_acl(0xc0)); // BC flag set
}

#[test]
fn fixed_event_codes_are_discarded() {
    for code in [0x01u8, 0x0c, 0x0e, 0x0f, 0x13, 0x2f] {
        let mut p = Parser::new();
        let r = p.parse(Bytes::new(vec![code, 0x00, 0x00]), 1).unwrap();
        assert!(r.0.is_none());
        assert!(r.1.is_none());
    }
}

#[test]
fn one_byte_record_is_a_buffer_underflow() {
    let mut p = Parser::new();
    let r = p.parse(Bytes::new(vec![0x40]), 1);
    assert_eq!(r.unwrap_err(), StructuralViolation::BufferUnderflow);
}

#[test]
fn read_request_decodes_handle() {
    let mut p = Parser::new();
    let r = p.parse(Bytes::new(acl_record(&[0x0a, 0x03, 0x00])), 1).unwrap();
    match r.0.unwrap().kind {
        BltPacketKind::RawAtt(a) => assert_eq!(a, RawAtt::ReadRequest(0x0003)),
        _ => panic!("expected an ATT operation"),
    }
}

#[test]
fn opcode_flag_bits_are_ignored_for_dispatch() {
    let mut p = Parser::new();
    let r = p.parse(Bytes::new(acl_record(&[0x4a, 0x07, 0x00])), 1).unwrap();
    match r.0.unwrap().kind {
        BltPacketKind::RawAtt(a) => assert_eq!(a, RawAtt::ReadRequest(0x0007)),
        _ => panic!("expected an ATT operation"),
    }
}

#[test]
fn read_request_of_other_length_is_a_violation() {
    let mut p = Parser::new();
    let r = p.parse(Bytes::new(acl_record(&[0x0a, 0x01, 0x00, 0x02])), 1);
    assert_eq!(r.unwrap_err(), StructuralViolation::UnexpectedReadRequestLength);
}

#[test]
fn write_request_splits_handle_and_payload() {
    let mut p = Parser::new();
    let r = p.parse(Bytes::new(acl_record(&[0x12, 0x01, 0x00, 0xaa, 0xbb])), 1).unwrap();
    match r.0.unwrap().kind {
        BltPacketKind::RawAtt(a) => {
            assert_eq!(a, RawAtt::WriteRequest(0x0001, vec![0xaa, 0xbb]))
        },
        _ => panic!("expected an ATT operation"),
    }
}

#[test]
fn group_type_response_decodes_records() {
    let att = [0x11, 6, 0x01, 0x00, 0x05, 0x00, 0x00, 0x18, 0x06, 0x00, 0x09, 0x00, 0x01, 0x18];
    let mut p = Parser::new();
    let r = p.parse(Bytes::new(acl_record(&att)), 1).unwrap();
    match r.0.unwrap().kind {
        BltPacketKind::RawAtt(RawAtt::ReadByGroupTypeResponse(records)) => {
            assert_eq!(records.len(), 2);
            assert_eq!(
                records[0],
                AttributeGroupData {
                    handle: 0x0001,
                    group_end_handle: 0x0005,
                    uuid: UuidKind::Short(vec![0x00, 0x18]),
                }
            );
            assert_eq!(records[1].handle, 0x0006);
            assert_eq!(records[1].uuid.string(), "1801");
        },
        _ => panic!("expected a group type response"),
    }
}

#[test]
fn group_type_response_with_unknown_stride_is_a_violation() {
    let mut p = Parser::new();
    let r = p.parse(Bytes::new(acl_record(&[0x11, 7, 0, 0, 0, 0, 0])), 1);
    assert_eq!(r.unwrap_err(), StructuralViolation::UnexpectedAttributeLength(7));
}

#[test]
fn type_response_stride_18_yields_nothing() {
    let mut p = Parser::new();
    let mut att = vec![0x09u8, 18];
    att.extend_from_slice(&[0u8; 18]);
    let r = p.parse(Bytes::new(acl_record(&att)), 1).unwrap();
    assert!(r.0.is_none());
    assert!(r.1.is_none());
}

#[test]
fn type_response_stride_21_decodes_records() {
    let mut att = vec![0x09u8, 21];
    att.extend_from_slice(&[0x02, 0x00, 0x08, 0x03, 0x00]);
    att.extend_from_slice(&[0u8; 16]);
    let mut p = Parser::new();
    let r = p.parse(Bytes::new(acl_record(&att)), 1).unwrap();
    match r.0.unwrap().kind {
        BltPacketKind::RawAtt(RawAtt::ReadByTypeRespense(records)) => {
            assert_eq!(records.len(), 1);
            assert_eq!(records[0].handle, 0x0002);
            assert_eq!(records[0].characteristic_properties, 0x08);
            assert_eq!(records[0].characteristic_value_handle, 0x0003);
            assert!(matches!(records[0].uuid, UuidKind::Full(_)));
        },
        _ => panic!("expected a type response"),
    }
}

#[test]
fn unknown_att_method_yields_a_diagnostic() {
    let mut p = Parser::new();
    let r = p.parse(Bytes::new(acl_record(&[0x3f, 0x00])), 7).unwrap();
    assert!(r.0.is_none());
    assert_eq!(r.1, Some(Diagnostic::UnknownAttMethod { nr: 7, method: 0x3f }));
}

#[test]
fn non_att_protocol_yields_nothing() {
    // Same framing, but attribute protocol id 0x0006 instead of ATT.
    let att = [0x0a, 0x03, 0x00];
    let mut v = vec![0x40, 0x00, 7, 0, 3, 0, 0x06, 0x00];
    v.extend_from_slice(&att);
    let mut p = Parser::new();
    let r = p.parse(Bytes::new(v), 1).unwrap();
    assert!(r.0.is_none());
    assert!(r.1.is_none());
}

#[test]
fn fragments_reassemble_to_one_payload() {
    // An ATT read response [0x0b, 1, 2, 3, 4] split over two fragments.
    let mut p = Parser::new();
    let frag1 = vec![0x40, 0x00, 7, 0, 5, 0, 0x04, 0x00, 0x0b, 1, 2];
    let r1 = p.parse(Bytes::new(frag1), 1).unwrap();
    assert!(r1.0.is_none());
    let frag2 = vec![0x40, 0x10, 2, 0, 3, 4];
    let r2 = p.parse(Bytes::new(frag2), 2).unwrap();
    match r2.0.unwrap().kind {
        BltPacketKind::RawAtt(a) => assert_eq!(a, RawAtt::ReadResponse(vec![1, 2, 3, 4])),
        _ => panic!("expected the reassembled ATT operation"),
    }
}

#[test]
fn empty_continuing_fragment_accumulates_nothing() {
    let mut p = Parser::new();
    let frag1 = vec![0x40, 0x00, 7, 0, 5, 0, 0x04, 0x00, 0x0b, 1, 2];
    assert!(p.parse(Bytes::new(frag1), 1).unwrap().0.is_none());
    // A continuing fragment with a zero-length payload: still incomplete.
    let frag2 = vec![0x40, 0x10, 0, 0];
    assert!(p.parse(Bytes::new(frag2), 2).unwrap().0.is_none());
    let frag3 = vec![0x40, 0x10, 2, 0, 3, 4];
    let r = p.parse(Bytes::new(frag3), 3).unwrap();
    match r.0.unwrap().kind {
        BltPacketKind::RawAtt(a) => assert_eq!(a, RawAtt::ReadResponse(vec![1, 2, 3, 4])),
        _ => panic!("expected the reassembled ATT operation"),
    }
}

#[test]
fn fragment_overflow_is_a_violation() {
    let mut p = Parser::new();
    let frag1 = vec![0x40, 0x00, 7, 0, 5, 0, 0x04, 0x00, 0x0b, 1, 2];
    let r1 = p.parse(Bytes::new(frag1), 1).unwrap();
    assert!(r1.0.is_none());
    let frag2 = vec![0x40, 0x10, 3, 0, 3, 4, 5];
    let r2 = p.parse(Bytes::new(frag2), 2);
    assert_eq!(r2.unwrap_err(), StructuralViolation::FragmentOverflow);
}

#[test]
fn fragments_on_different_handles_do_not_mix() {
    let mut p = Parser::new();
    let frag1 = vec![0x40, 0x00, 7, 0, 5, 0, 0x04, 0x00, 0x0b, 1, 2];
    assert!(p.parse(Bytes::new(frag1), 1).unwrap().0.is_none());
    // A complete packet on another handle while the first reassembly waits.
    let other = {
        let mut v = vec![0x41, 0x00, 7, 0, 3, 0, 0x04, 0x00];
        v.extend_from_slice(&[0x0a, 0x09, 0x00]);
        v
    };
    let r = p.parse(Bytes::new(other), 2).unwrap();
    match r.0.unwrap().kind {
        BltPacketKind::RawAtt(a) => assert_eq!(a, RawAtt::ReadRequest(0x0009)),
        _ => panic!("expected an ATT operation"),
    }
    // The first reassembly still completes.
    let frag2 = vec![0x40, 0x10, 2, 0, 3, 4];
    let r2 = p.parse(Bytes::new(frag2), 3).unwrap();
    match r2.0.unwrap().kind {
        BltPacketKind::RawAtt(a) => assert_eq!(a, RawAtt::ReadResponse(vec![1, 2, 3, 4])),
        _ => panic!("expected the reassembled ATT operation"),
    }
}

#[test]
fn advertising_report_with_complete_name() {
    let payload = vec![
        0x3e, 0x13, 0x02, // LE meta event, advertising report
        0x01, // num_reports
        0x00, // event type: connectable undirected (has flags)
        0x00, // address type
        0x11, 0x22, 0x33, 0x44, 0x55, 0x66, // address
        0x0a, // data_len
        0x02, 0xaa, 0xbb, // flags structure
        0x04, 0x09, b'a', b'b', b'c', // complete name "abc"
    ];
    let mut p = Parser::new();
    let r = p.parse(Bytes::new(payload), 1).unwrap();
    match r.0.unwrap().kind {
        BltPacketKind::MetaEvent(BltEventMeta::AdvertizingReport(rep)) => {
            assert_eq!(rep.address, vec![0x11, 0x22, 0x33, 0x44, 0x55, 0x66]);
            match rep.device_name {
                BltEventAdvertizingReportName::Complete(name) => assert_eq!(name, "abc"),
                _ => panic!("expected a complete name"),
            }
        },
        _ => panic!("expected an advertising report"),
    }
}

#[test]
fn advertising_report_without_flags_shortened_name() {
    let payload = vec![
        0x3e, 0x10, 0x02, 0x01, 0x04, // event type: scan response (no flags)
        0x00, 0x11, 0x22, 0x33, 0x44, 0x55, 0x66, 0x05, // data_len
        0x03, 0x08, b'h', b'i', // shortened name "hi"
    ];
    let mut p = Parser::new();
    let r = p.parse(Bytes::new(payload), 1).unwrap();
    match r.0.unwrap().kind {
        BltPacketKind::MetaEvent(BltEventMeta::AdvertizingReport(rep)) => {
            match rep.device_name {
                BltEventAdvertizingReportName::Shortened(name) => assert_eq!(name, "hi"),
                _ => panic!("expected a shortened name"),
            }
        },
        _ => panic!("expected an advertising report"),
    }
}

#[test]
fn advertising_report_name_decodes_utf8_lossily() {
    // An invalid UTF-8 byte in the name becomes the replacement character.
    let payload = vec![
        0x3e, 0x10, 0x02, 0x01, 0x04, 0x00, 0x11, 0x22, 0x33, 0x44, 0x55, 0x66, 0x05, 0x03, 0x09,
        0xff, b'a',
    ];
    let mut p = Parser::new();
    let r = p.parse(Bytes::new(payload), 1).unwrap();
    match r.0.unwrap().kind {
        BltPacketKind::MetaEvent(BltEventMeta::AdvertizingReport(rep)) => {
            match rep.device_name {
                BltEventAdvertizingReportName::Complete(name) => {
                    assert_eq!(name, "\u{fffd}a")
                },
                _ => panic!("expected a complete name"),
            }
        },
        _ => panic!("expected an advertising report"),
    }
}

#[test]
fn advertising_report_with_zero_data_len_yields_nothing() {
    let payload = vec![
        0x3e, 0x0b, 0x02, 0x01, 0x00, 0x00, 0x11, 0x22, 0x33, 0x44, 0x55, 0x66, 0x00,
    ];
    let mut p = Parser::new();
    let r = p.parse(Bytes::new(payload), 1).unwrap();
    assert!(r.0.is_none());
    assert!(r.1.is_none());
}

#[test]
fn unknown_advertising_event_type_yields_a_diagnostic() {
    let payload = vec![
        0x3e, 0x0b, 0x02, 0x01, 0x55, 0x00, 0x11, 0x22, 0x33, 0x44, 0x55, 0x66, 0x01,
    ];
    let mut p = Parser::new();
    let r = p.parse(Bytes::new(payload), 4).unwrap();
    assert!(r.0.is_none());
    assert_eq!(
        r.1,
        Some(Diagnostic::UnknownAdvertisingEventType { nr: 4, event_type: 0x55 })
    );
}

#[test]
fn enhanced_connection_complete_decodes_address_and_handle() {
    let payload = vec![
        0x3e, 0x10, 0x0a, // LE meta event, enhanced connection complete
        0, 0, 0, 0, 0, // five skipped bytes
        0x0a, 0x0b, 0x0c, 0x0d, 0x0e, 0x0f, // address
        0x40, 0x00, 0x00, 0x00, // connection handle, little-endian
    ];
    let mut p = Parser::new();
    let r = p.parse(Bytes::new(payload), 1).unwrap();
    match r.0.unwrap().kind {
        BltPacketKind::MetaEvent(BltEventMeta::EnhancedConnectionComplete(e)) => {
            assert_eq!(e.address, vec![0x0a, 0x0b, 0x0c, 0x0d, 0x0e, 0x0f]);
            assert_eq!(e.connection_handle, 0x40);
        },
        _ => panic!("expected a connection complete event"),
    }
}

#[test]
fn unimportant_sub_events_yield_nothing() {
    for code in [0x03u8, 0x04, 0x06] {
        let mut p = Parser::new();
        let r = p.parse(Bytes::new(vec![0x3e, 0x01, code]), 1).unwrap();
        assert!(r.0.is_none());
        assert!(r.1.is_none());
    }
}

#[test]
fn unknown_sub_event_is_kept_as_a_packet() {
    let mut p = Parser::new();
    let r = p.parse(Bytes::new(vec![0x3e, 0x01, 0x99]), 1).unwrap();
    match r.0.unwrap().kind {
        BltPacketKind::MetaEvent(BltEventMeta::UnknownSubEvent(code)) => assert_eq!(code, 0x99),
        _ => panic!("expected an unknown sub-event packet"),
    }
}
