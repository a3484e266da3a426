//! LE Meta Event decoding: advertising reports (with device names) and
//! enhanced connection completion.

use vstd::prelude::*;

use crate::parser::u32_le;
use crate::parser::Bytes;
use crate::parser::Diagnostic;
use crate::parser::StructuralViolation;

verus! {

/// A decoded LE Meta Event.
#[derive(Debug)]
pub enum BltEventMeta {
    AdvertizingReport(BltEventAdvertizingReport),
    EnhancedConnectionComplete(BltEventEnhancedConnectionComplete),
    UnknownSubEvent(u8),
}

/// An advertising report that carried a device name.
#[derive(Debug)]
pub struct BltEventAdvertizingReport {
    pub address: Vec<u8>,
    pub device_name: BltEventAdvertizingReportName,
}

/// The advertised device name, shortened or complete.
#[derive(Debug)]
pub enum BltEventAdvertizingReportName {
    Shortened(String),
    Complete(String),
}

/// Connection establishment: the peer address and the connection handle.
#[derive(Debug)]
pub struct BltEventEnhancedConnectionComplete {
    pub address: Vec<u8>,
    pub connection_handle: u32,
}

/// A decoded LE Meta Event, as mathematical values.
pub enum MetaEventModel {
    AdvertizingReport(AdvertizingReportModel),
    EnhancedConnectionComplete(ConnectionCompleteModel),
    UnknownSubEvent(u8),
}

pub struct AdvertizingReportModel {
    pub address: Seq<u8>,
    pub device_name: ReportNameModel,
}

pub enum ReportNameModel {
    Shortened(Seq<char>),
    Complete(Seq<char>),
}

pub struct ConnectionCompleteModel {
    pub address: Seq<u8>,
    pub connection_handle: u32,
}

impl DeepView for BltEventAdvertizingReportName {
    type V = ReportNameModel;

    open spec fn deep_view(&self) -> ReportNameModel {
        match self {
            BltEventAdvertizingReportName::Shortened(s) => ReportNameModel::Shortened(s@),
            BltEventAdvertizingReportName::Complete(s) => ReportNameModel::Complete(s@),
        }
    }
}

impl DeepView for BltEventAdvertizingReport {
    type V = AdvertizingReportModel;

    open spec fn deep_view(&self) -> AdvertizingReportModel {
        AdvertizingReportModel {
            address: self.address@,
            device_name: self.device_name.deep_view(),
        }
    }
}

impl DeepView for BltEventEnhancedConnectionComplete {
    type V = ConnectionCompleteModel;

    open spec fn deep_view(&self) -> ConnectionCompleteModel {
        ConnectionCompleteModel {
            address: self.address@,
            connection_handle: self.connection_handle,
        }
    }
}

impl DeepView for BltEventMeta {
    type V = MetaEventModel;

    open spec fn deep_view(&self) -> MetaEventModel {
        match self {
            BltEventMeta::AdvertizingReport(r) => MetaEventModel::AdvertizingReport(r.deep_view()),
            BltEventMeta::EnhancedConnectionComplete(c) => {
                MetaEventModel::EnhancedConnectionComplete(c.deep_view())
            },
            BltEventMeta::UnknownSubEvent(c) => MetaEventModel::UnknownSubEvent(*c),
        }
    }
}

/// The character sequence that lossy UTF-8 decoding yields for `bytes`: a
/// pure function of the bytes alone.
pub uninterp spec fn utf8_lossy_chars(bytes: Seq<u8>) -> Seq<char>;

/// Relies on std's String::from_utf8_lossy: decodes UTF-8, replacing invalid
/// sequences; the result depends on the input bytes alone.
#[verifier::external_body]
fn utf8_lossy(bytes: &Vec<u8>) -> (r: String)
    ensures
        r@ == utf8_lossy_chars(bytes@),
{
    String::from_utf8_lossy(bytes.as_slice()).into_owned()
}

/// The advertising event types whose reports the decoder understands at all.
pub open spec fn adv_event_known(event_type: u8) -> bool {
    ||| adv_event_has_flags(event_type)
    ||| adv_event_supported(event_type)
    ||| event_type == 0x12
    ||| event_type == 0x22
    ||| event_type == 0x23
    ||| event_type == 0x02
    ||| event_type == 0x03
}

/// The advertising event types whose payload begins with a flags structure.
pub open spec fn adv_event_has_flags(event_type: u8) -> bool {
    event_type == 0x00 || event_type == 0x10 || event_type == 0x20 || event_type == 0x60
}

/// The advertising event types from which a device name is extracted.
pub open spec fn adv_event_supported(event_type: u8) -> bool {
    ||| adv_event_has_flags(event_type)
    ||| event_type == 0x04
    ||| event_type == 0x13
    ||| event_type == 0x14
    ||| event_type == 0x24
}

/// The trailing name structure of an advertising report: a length byte, a
/// name-type byte (0x08 shortened, 0x09 complete, anything else dropped) and
/// `name_len - 1` bytes of UTF-8 text.
pub open spec fn spec_adv_name(v: Seq<u8>, address: Seq<u8>) -> Result<
    Option<MetaEventModel>,
    StructuralViolation,
> {
    if v.len() < 2 {
        Err(StructuralViolation::BufferUnderflow)
    } else {
        let name_len = v[0];
        let name_type = v[1];
        if name_len < 1 {
            Err(StructuralViolation::BufferUnderflow)
        } else if v.len() < 2 + (name_len - 1) {
            Err(StructuralViolation::BufferUnderflow)
        } else {
            let text = utf8_lossy_chars(v.subrange(2, 2 + (name_len - 1)));
            if name_type == 0x08 {
                Ok(
                    Some(
                        MetaEventModel::AdvertizingReport(
                            AdvertizingReportModel {
                                address,
                                device_name: ReportNameModel::Shortened(text),
                            },
                        ),
                    ),
                )
            } else if name_type == 0x09 {
                Ok(
                    Some(
                        MetaEventModel::AdvertizingReport(
                            AdvertizingReportModel {
                                address,
                                device_name: ReportNameModel::Complete(text),
                            },
                        ),
                    ),
                )
            } else {
                Ok(None)
            }
        }
    }
}

/// An advertising report starting right after the sub-event code: report
/// count, event type, address type, 6-byte address and data length, then an
/// optional flags structure and the name structure.
pub open spec fn spec_adv_report(t: Seq<u8>, nr: usize) -> Result<
    (Option<MetaEventModel>, Option<Diagnostic>),
    StructuralViolation,
> {
    if t.len() < 10 {
        Err(StructuralViolation::BufferUnderflow)
    } else {
        let event_type = t[1];
        let address = t.subrange(3, 9);
        let data_len = t[9];
        let u = t.skip(10);
        if data_len == 0 {
            Ok((None, None))
        } else {
            let diag = if !adv_event_known(event_type) {
                Some(Diagnostic::UnknownAdvertisingEventType { nr, event_type })
            } else {
                None
            };
            if !adv_event_supported(event_type) {
                Ok((None, diag))
            } else if adv_event_has_flags(event_type) {
                if u.len() < 1 {
                    Err(StructuralViolation::BufferUnderflow)
                } else {
                    let flags_len = u[0];
                    if u.len() < 1 + flags_len {
                        Err(StructuralViolation::BufferUnderflow)
                    } else {
                        match spec_adv_name(u.skip(1 + flags_len), address) {
                            Ok(p) => Ok((p, None)),
                            Err(v) => Err(v),
                        }
                    }
                }
            } else {
                match spec_adv_name(u, address) {
                    Ok(p) => Ok((p, None)),
                    Err(v) => Err(v),
                }
            }
        }
    }
}

/// An enhanced connection complete event starting right after the sub-event
/// code: 5 skipped bytes, a 6-byte address and a 32-bit little-endian
/// connection handle.
pub open spec fn spec_conn_complete(t: Seq<u8>) -> Result<
    ConnectionCompleteModel,
    StructuralViolation,
> {
    if t.len() < 15 {
        Err(StructuralViolation::BufferUnderflow)
    } else {
        Ok(
            ConnectionCompleteModel {
                address: t.subrange(5, 11),
                connection_handle: u32_le(t.skip(11)) as u32,
            },
        )
    }
}

/// What decoding an LE Meta Event payload yields: a parameter-length byte
/// (unused beyond positioning), a sub-event code, then the sub-event body.
/// Sub-events 0x03, 0x04 and 0x06 are recognized but carry nothing of use;
/// any other unlisted code is reported as unknown.
pub open spec fn spec_event_parse(s: Seq<u8>, nr: usize) -> Result<
    (Option<MetaEventModel>, Option<Diagnostic>),
    StructuralViolation,
> {
    if s.len() < 2 {
        Err(StructuralViolation::BufferUnderflow)
    } else {
        let sub_event = s[1];
        let t = s.skip(2);
        if sub_event == 0x02 {
            spec_adv_report(t, nr)
        } else if sub_event == 0x0a {
            match spec_conn_complete(t) {
                Ok(m) => Ok((Some(MetaEventModel::EnhancedConnectionComplete(m)), None)),
                Err(v) => Err(v),
            }
        } else if sub_event == 0x04 || sub_event == 0x06 || sub_event == 0x03 {
            Ok((None, None))
        } else {
            Ok((Some(MetaEventModel::UnknownSubEvent(sub_event)), None))
        }
    }
}

impl BltEventEnhancedConnectionComplete {
    /// Decodes the body of an enhanced connection complete sub-event, per
    /// [`spec_conn_complete`].
    pub fn parse(b: &mut Bytes, _nr: usize) -> (r: Result<
        BltEventEnhancedConnectionComplete,
        StructuralViolation,
    >)
        ensures
            match r {
                Ok(e) => spec_conn_complete(old(b)@) == Ok::<
                    ConnectionCompleteModel,
                    StructuralViolation,
                >(e.deep_view()) && final(b)@ == old(b)@.skip(15),
                Err(v) => spec_conn_complete(old(b)@) == Err::<
                    ConnectionCompleteModel,
                    StructuralViolation,
                >(v),
            },
    {
        if b.len() < 15 {
            return Err(StructuralViolation::BufferUnderflow);
        }
        let ghost t = b@;
        b.drain(5);
        let address = b.drain_vec(6);
        let connection_handle = b.drain_u32_little_endian();
        proof {
            assert(address@ =~= t.subrange(5, 11));
            assert(t.skip(5).skip(6) =~= t.skip(11));
            assert(b@ =~= t.skip(15));
        }
        Ok(BltEventEnhancedConnectionComplete { address, connection_handle })
    }
}

impl BltEventMeta {
    /// Decodes an LE Meta Event record, per [`spec_event_parse`]. Yields the
    /// typed event, or nothing for recognized-but-empty sub-events, plus a
    /// diagnostic for an unknown advertising event type.
    pub fn parse(b: &mut Bytes, nr: usize) -> (r: Result<
        (Option<BltEventMeta>, Option<Diagnostic>),
        StructuralViolation,
    >)
        ensures
            ({
                let s = spec_event_parse(old(b)@, nr);
                match r {
                    Ok((p, d)) => {
                        &&& s matches Ok(sp)
                        &&& sp.0 == p.deep_view()
                        &&& sp.1 == d
                    },
                    Err(v) => s == Err::<
                        (Option<MetaEventModel>, Option<Diagnostic>),
                        StructuralViolation,
                    >(v),
                }
            }),
    {
        if b.len() < 2 {
            return Err(StructuralViolation::BufferUnderflow);
        }
        let ghost s0 = b@;
        let _parameter_total_len = b.drain_one();
        let sub_event = b.drain_one();
        proof {
            assert(b@ =~= s0.skip(2));
        }
        if sub_event == 0x02 {
            let ghost t = b@;
            if b.len() < 10 {
                return Err(StructuralViolation::BufferUnderflow);
            }
            let _num_reports = b.drain_one();
            let event_type = b.drain_one();
            let _address_type = b.drain_one();
            let address = b.drain_vec(6);
            let data_len = b.drain_one();
            proof {
                assert(event_type == t[1]);
                assert(address@ =~= t.subrange(3, 9));
                assert(data_len == t[9]);
                assert(b@ =~= t.skip(10));
            }
            if data_len == 0 {
                return Ok((None, None));
            }
            let has_flags = event_type == 0x00 || event_type == 0x10 || event_type == 0x20
                || event_type == 0x60;
            let supported = has_flags || event_type == 0x04 || event_type == 0x13 || event_type
                == 0x14 || event_type == 0x24;
            let known = supported || event_type == 0x12 || event_type == 0x22 || event_type == 0x23
                || event_type == 0x02 || event_type == 0x03;
            proof {
                assert(has_flags == adv_event_has_flags(event_type));
                assert(supported == adv_event_supported(event_type));
                assert(known == adv_event_known(event_type));
            }
            let diag: Option<Diagnostic> = if !known {
                Some(Diagnostic::UnknownAdvertisingEventType { nr, event_type })
            } else {
                None
            };
            if !supported {
                return Ok((None, diag));
            }
            let ghost u = b@;
            if has_flags {
                if b.len() < 1 {
                    return Err(StructuralViolation::BufferUnderflow);
                }
                let flags_len = b.drain_one();
                if b.len() < flags_len as usize {
                    return Err(StructuralViolation::BufferUnderflow);
                }
                b.drain(flags_len as usize);
                proof {
                    assert(b@ =~= u.skip(1 + flags_len));
                }
            }
            let ghost v = b@;
            if b.len() < 2 {
                return Err(StructuralViolation::BufferUnderflow);
            }
            let device_name_len = b.drain_one();
            let device_name_type = b.drain_one();
            if device_name_len < 1 {
                return Err(StructuralViolation::BufferUnderflow);
            }
            if b.len() < (device_name_len - 1) as usize {
                return Err(StructuralViolation::BufferUnderflow);
            }
            let name_bytes = b.drain_vec((device_name_len - 1) as usize);
            proof {
                assert(name_bytes@ =~= v.subrange(2, 2 + (device_name_len - 1)));
            }
            let device_name_string = utf8_lossy(&name_bytes);
            if device_name_type == 0x08 {
                Ok(
                    (
                        Some(
                            BltEventMeta::AdvertizingReport(
                                BltEventAdvertizingReport {
                                    address,
                                    device_name: BltEventAdvertizingReportName::Shortened(
                                        device_name_string,
                                    ),
                                },
                            ),
                        ),
                        None,
                    ),
                )
            } else if device_name_type == 0x09 {
                Ok(
                    (
                        Some(
                            BltEventMeta::AdvertizingReport(
                                BltEventAdvertizingReport {
                                    address,
                                    device_name: BltEventAdvertizingReportName::Complete(
                                        device_name_string,
                                    ),
                                },
                            ),
                        ),
                        None,
                    ),
                )
            } else {
                Ok((None, None))
            }
        } else if sub_event == 0x0a {
            match BltEventEnhancedConnectionComplete::parse(b, nr) {
                Ok(e) => Ok((Some(BltEventMeta::EnhancedConnectionComplete(e)), None)),
                Err(v) => Err(v),
            }
        } else if sub_event == 0x04 || sub_event == 0x06 || sub_event == 0x03 {
            // These sub-events carry nothing the analyzer uses.
            Ok((None, None))
        } else {
            Ok((Some(BltEventMeta::UnknownSubEvent(sub_event)), None))
        }
    }
}

} // verus!
