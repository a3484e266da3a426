//! Attribute Protocol (ATT) PDU decoding: typed operations, variable-length
//! record lists, and the two UUID forms with their canonical text rendering.

use vstd::prelude::*;

use crate::parser::u16_le;
use crate::parser::Bytes;
use crate::parser::Diagnostic;
use crate::parser::StructuralViolation;
use vstd::string::StringExecFns;

verus! {

/// The hexadecimal digit character for `n`, lowercase.
pub open spec fn hex_digit_char(n: int) -> char
    recommends
        0 <= n < 16,
{
    if n == 0 {
        '0'
    } else if n == 1 {
        '1'
    } else if n == 2 {
        '2'
    } else if n == 3 {
        '3'
    } else if n == 4 {
        '4'
    } else if n == 5 {
        '5'
    } else if n == 6 {
        '6'
    } else if n == 7 {
        '7'
    } else if n == 8 {
        '8'
    } else if n == 9 {
        '9'
    } else if n == 10 {
        'a'
    } else if n == 11 {
        'b'
    } else if n == 12 {
        'c'
    } else if n == 13 {
        'd'
    } else if n == 14 {
        'e'
    } else {
        'f'
    }
}

/// The two lowercase hex digits of one byte, high nibble first.
pub open spec fn hex_pair(b: u8) -> Seq<char> {
    seq![hex_digit_char(b as int / 16), hex_digit_char(b as int % 16)]
}

/// Lowercase hex encoding of `s` with the byte order reversed: the last byte
/// of `s` renders first. Wire order is little-endian, so this yields the
/// big-endian-looking canonical text.
pub open spec fn rev_hex(s: Seq<u8>) -> Seq<char>
    decreases s.len(),
{
    if s.len() == 0 {
        Seq::empty()
    } else {
        rev_hex(s.skip(1)) + hex_pair(s[0])
    }
}

/// The canonical text of a UUID given as its wire bytes: reverse-byte-order
/// lowercase hex, and for the 16-byte form dashes at hex-digit offsets
/// 8, 12, 16 and 20 (the standard 8-4-4-4-12 layout).
pub open spec fn canonical_chars(u: Seq<u8>) -> Seq<char> {
    if u.len() == 16 {
        let h = rev_hex(u);
        h.take(8) + seq!['-'] + h.subrange(8, 12) + seq!['-'] + h.subrange(12, 16) + seq!['-']
            + h.subrange(16, 20) + seq!['-'] + h.skip(20)
    } else {
        rev_hex(u)
    }
}

/// `c` is one of the sixteen lowercase hexadecimal digit characters.
pub open spec fn is_hex_digit_char(c: char) -> bool {
    exists|n: int| 0 <= n < 16 && c == hex_digit_char(n)
}

pub proof fn lemma_rev_hex_len(s: Seq<u8>)
    ensures
        rev_hex(s).len() == 2 * s.len(),
    decreases s.len(),
{
    if s.len() > 0 {
        lemma_rev_hex_len(s.skip(1));
    }
}

pub proof fn lemma_rev_hex_digits(s: Seq<u8>)
    ensures
        forall|i: int| 0 <= i < rev_hex(s).len() ==> is_hex_digit_char(#[trigger] rev_hex(s)[i]),
    decreases s.len(),
{
    if s.len() > 0 {
        lemma_rev_hex_digits(s.skip(1));
        assert forall|i: int| 0 <= i < rev_hex(s).len() implies is_hex_digit_char(
            #[trigger] rev_hex(s)[i],
        ) by {
            let t = rev_hex(s.skip(1));
            if i >= t.len() {
                let b = s[0];
                if i == t.len() {
                    assert(rev_hex(s)[i] == hex_digit_char(b as int / 16));
                    assert(0 <= b as int / 16 < 16);
                } else {
                    assert(rev_hex(s)[i] == hex_digit_char(b as int % 16));
                    assert(0 <= b as int % 16 < 16);
                }
            }
        }
    }
}

proof fn lemma_hex_digit_ascii(n: int)
    requires
        0 <= n < 16,
    ensures
        '\0' <= hex_digit_char(n) <= '\u{7f}',
{
}

proof fn lemma_rev_hex_ascii(s: Seq<u8>)
    ensures
        vstd::utf8::is_ascii_chars(rev_hex(s)),
{
    lemma_rev_hex_digits(s);
    assert forall|i: int| 0 <= i < rev_hex(s).len() implies '\0' <= #[trigger] rev_hex(s)[i]
        <= '\u{7f}' by {
        let c = rev_hex(s)[i];
        let n = choose|n: int| 0 <= n < 16 && c == hex_digit_char(n);
        lemma_hex_digit_ascii(n);
    }
}

/// One lowercase hex digit as a string slice.
pub fn hex_digit_str(n: u8) -> (r: &'static str)
    requires
        n < 16,
    ensures
        r@ == seq![hex_digit_char(n as int)],
{
    if n == 0 {
        proof {
            reveal_strlit("0");
            assert("0"@ =~= seq!['0']);
        }
        "0"
    } else if n == 1 {
        proof {
            reveal_strlit("1");
            assert("1"@ =~= seq!['1']);
        }
        "1"
    } else if n == 2 {
        proof {
            reveal_strlit("2");
            assert("2"@ =~= seq!['2']);
        }
        "2"
    } else if n == 3 {
        proof {
            reveal_strlit("3");
            assert("3"@ =~= seq!['3']);
        }
        "3"
    } else if n == 4 {
        proof {
            reveal_strlit("4");
            assert("4"@ =~= seq!['4']);
        }
        "4"
    } else if n == 5 {
        proof {
            reveal_strlit("5");
            assert("5"@ =~= seq!['5']);
        }
        "5"
    } else if n == 6 {
        proof {
            reveal_strlit("6");
            assert("6"@ =~= seq!['6']);
        }
        "6"
    } else if n == 7 {
        proof {
            reveal_strlit("7");
            assert("7"@ =~= seq!['7']);
        }
        "7"
    } else if n == 8 {
        proof {
            reveal_strlit("8");
            assert("8"@ =~= seq!['8']);
        }
        "8"
    } else if n == 9 {
        proof {
            reveal_strlit("9");
            assert("9"@ =~= seq!['9']);
        }
        "9"
    } else if n == 10 {
        proof {
            reveal_strlit("a");
            assert("a"@ =~= seq!['a']);
        }
        "a"
    } else if n == 11 {
        proof {
            reveal_strlit("b");
            assert("b"@ =~= seq!['b']);
        }
        "b"
    } else if n == 12 {
        proof {
            reveal_strlit("c");
            assert("c"@ =~= seq!['c']);
        }
        "c"
    } else if n == 13 {
        proof {
            reveal_strlit("d");
            assert("d"@ =~= seq!['d']);
        }
        "d"
    } else if n == 14 {
        proof {
            reveal_strlit("e");
            assert("e"@ =~= seq!['e']);
        }
        "e"
    } else {
        proof {
            reveal_strlit("f");
            assert("f"@ =~= seq!['f']);
        }
        "f"
    }
}

/// Appends the two lowercase hex digits of `b` to `out`.
pub fn push_hex_pair(out: &mut String, b: u8)
    ensures
        final(out)@ == old(out)@ + hex_pair(b),
{
    let hi = b / 16;
    let lo = b % 16;
    out.append(hex_digit_str(hi));
    out.append(hex_digit_str(lo));
    proof {
        assert(out@ =~= old(out)@ + hex_pair(b));
    }
}

/// A 16-bit (`Short`, 2 bytes) or 128-bit (`Full`, 16 bytes) attribute-type
/// identifier, held in wire (little-endian) byte order.
#[derive(Debug, PartialEq, Eq)]
pub enum UuidKind {
    Full(Vec<u8>),
    Short(Vec<u8>),
}

impl DeepView for UuidKind {
    type V = Seq<u8>;

    open spec fn deep_view(&self) -> Seq<u8> {
        match self {
            UuidKind::Full(b) => b@,
            UuidKind::Short(b) => b@,
        }
    }
}

impl UuidKind {
    /// Well-formedness: a `Full` UUID holds 16 bytes, a `Short` one 2.
    pub open spec fn wf(self) -> bool {
        match self {
            UuidKind::Full(b) => b@.len() == 16,
            UuidKind::Short(b) => b@.len() == 2,
        }
    }

    /// Classifies raw UUID bytes by length; any length other than 2 or 16 is
    /// a malformed wire record.
    pub fn from_bytes(b: Bytes) -> (r: Result<UuidKind, StructuralViolation>)
        ensures
            match r {
                Ok(u) => (b@.len() == 16 || b@.len() == 2) && u.wf() && u.deep_view() == b@
                    && ((u is Full) <==> b@.len() == 16),
                Err(v) => b@.len() != 16 && b@.len() != 2 && v
                    == StructuralViolation::MalformedUuidLength,
            },
    {
        let uuid = b.vec();
        if uuid.len() == 16 {
            Ok(UuidKind::Full(uuid))
        } else if uuid.len() == 2 {
            Ok(UuidKind::Short(uuid))
        } else {
            Err(StructuralViolation::MalformedUuidLength)
        }
    }

    /// Reverse-byte-order lowercase hex encoding of the UUID bytes.
    #[verifier::loop_isolation(false)]
    pub fn hex(&self) -> (r: String)
        ensures
            r@ == rev_hex(self.deep_view()),
    {
        let bytes: &Vec<u8> = match self {
            UuidKind::Full(b) => b,
            UuidKind::Short(b) => b,
        };
        let mut out = String::new();
        let mut i = bytes.len();
        proof {
            assert(bytes@.skip(i as int) =~= Seq::<u8>::empty());
        }
        while i > 0
            invariant
                i <= bytes.len(),
                out@ == rev_hex(bytes@.skip(i as int)),
            decreases i,
        {
            i = i - 1;
            push_hex_pair(&mut out, bytes[i]);
            proof {
                assert(bytes@.skip(i as int).skip(1) =~= bytes@.skip(i + 1));
            }
        }
        proof {
            assert(bytes@.skip(0) =~= bytes@);
        }
        out
    }

    /// Canonical text form: the `Short` form is the plain 4-digit hex code;
    /// the `Full` form carries dashes in the standard 8-4-4-4-12 layout.
    pub fn string(&self) -> (r: String)
        requires
            self.wf(),
        ensures
            r@ == canonical_chars(self.deep_view()),
    {
        let as_hex = self.hex();
        match self {
            UuidKind::Short(_) => as_hex,
            UuidKind::Full(_) => {
                proof {
                    lemma_rev_hex_len(self.deep_view());
                    lemma_rev_hex_ascii(self.deep_view());
                    reveal_strlit("-");
                }
                let h = as_hex.as_str();
                let a = h.substring_ascii(0, 8);
                let b = h.substring_ascii(8, 12);
                let c = h.substring_ascii(12, 16);
                let d = h.substring_ascii(16, 20);
                let e = h.substring_ascii(20, 32);
                let mut out = String::from_str(a);
                out.append("-");
                out.append(b);
                out.append("-");
                out.append(c);
                out.append("-");
                out.append(d);
                out.append("-");
                out.append(e);
                proof {
                    assert("-"@ =~= seq!['-']);
                    assert(out@ =~= canonical_chars(self.deep_view()));
                }
                out
            },
        }
    }
}

/// The canonical text of a 16-byte UUID is 36 characters laid out
/// 8-4-4-4-12: dashes stand exactly at offsets 8, 13, 18 and 23, every other
/// character is a lowercase hex digit, and deleting the dashes leaves the
/// reverse-byte-order hex encoding of the bytes.
pub proof fn lemma_canonical_full_shape(u: Seq<u8>)
    requires
        u.len() == 16,
    ensures
        canonical_chars(u).len() == 36,
        forall|i: int|
            0 <= i < 36 ==> ((i == 8 || i == 13 || i == 18 || i == 23) ==> canonical_chars(u)[i]
                == '-'),
        forall|i: int|
            0 <= i < 36 ==> (!(i == 8 || i == 13 || i == 18 || i == 23) ==> is_hex_digit_char(
                #[trigger] canonical_chars(u)[i],
            )),
        canonical_chars(u).subrange(0, 8) + canonical_chars(u).subrange(9, 13) + canonical_chars(
            u,
        ).subrange(14, 18) + canonical_chars(u).subrange(19, 23) + canonical_chars(u).subrange(
            24,
            36,
        ) =~= rev_hex(u),
{
    lemma_rev_hex_len(u);
    lemma_rev_hex_digits(u);
    let h = rev_hex(u);
    let cc = canonical_chars(u);
    assert(cc =~= h.take(8) + seq!['-'] + h.subrange(8, 12) + seq!['-'] + h.subrange(12, 16)
        + seq!['-'] + h.subrange(16, 20) + seq!['-'] + h.skip(20));
    assert(cc.len() == 36);
    assert forall|i: int| 0 <= i < 36 && !(i == 8 || i == 13 || i == 18 || i == 23)
        implies is_hex_digit_char(#[trigger] cc[i]) by {
        if i < 8 {
            assert(cc[i] == h[i]);
        } else if i < 13 {
            assert(cc[i] == h[i - 1]);
        } else if i < 18 {
            assert(cc[i] == h[i - 2]);
        } else if i < 23 {
            assert(cc[i] == h[i - 3]);
        } else {
            assert(cc[i] == h[i - 4]);
        }
    }
}

/// One record of a Read By Group Type Response, as mathematical values.
pub struct AttributeGroupModel {
    pub handle: u16,
    pub group_end_handle: u16,
    pub uuid: Seq<u8>,
}

/// One record of a Read By Type Response, as mathematical values.
pub struct AttributeModel {
    pub handle: u16,
    pub characteristic_properties: u8,
    pub characteristic_value_handle: u16,
    pub uuid: Seq<u8>,
}

/// A decoded ATT PDU, as mathematical values.
pub enum AttModel {
    ReadRequest(u16),
    ReadResponse(Seq<u8>),
    WriteRequest(u16, Seq<u8>),
    WriteResponse(Seq<u8>),
    ReadByGroupTypeResponse(Seq<AttributeGroupModel>),
    ReadByTypeRespense(Seq<AttributeModel>),
}

/// One record of a Read By Group Type Response: a handle range and the
/// service UUID that covers it.
#[derive(Debug, PartialEq, Eq)]
pub struct AttributeGroupData {
    pub handle: u16,
    pub group_end_handle: u16,
    pub uuid: UuidKind,
}

/// One record of a Read By Type Response: a characteristic declaration.
#[derive(Debug, PartialEq, Eq)]
pub struct AttributeData {
    pub handle: u16,
    pub characteristic_properties: u8,
    pub characteristic_value_handle: u16,
    pub uuid: UuidKind,
}

/// A decoded Attribute Protocol PDU. The payload-carrying variants hold the
/// bytes exactly as they stood on the wire.
#[derive(Debug, PartialEq, Eq)]
pub enum RawAtt {
    /// The argument is the handle.
    ReadRequest(u16),
    ReadResponse(Vec<u8>),
    /// The first argument is the handle.
    WriteRequest(u16, Vec<u8>),
    WriteResponse(Vec<u8>),
    ReadByGroupTypeResponse(Vec<AttributeGroupData>),
    ReadByTypeRespense(Vec<AttributeData>),
}

impl DeepView for AttributeGroupData {
    type V = AttributeGroupModel;

    open spec fn deep_view(&self) -> AttributeGroupModel {
        AttributeGroupModel {
            handle: self.handle,
            group_end_handle: self.group_end_handle,
            uuid: self.uuid.deep_view(),
        }
    }
}

impl DeepView for AttributeData {
    type V = AttributeModel;

    open spec fn deep_view(&self) -> AttributeModel {
        AttributeModel {
            handle: self.handle,
            characteristic_properties: self.characteristic_properties,
            characteristic_value_handle: self.characteristic_value_handle,
            uuid: self.uuid.deep_view(),
        }
    }
}

impl DeepView for RawAtt {
    type V = AttModel;

    open spec fn deep_view(&self) -> AttModel {
        match self {
            RawAtt::ReadRequest(h) => AttModel::ReadRequest(*h),
            RawAtt::ReadResponse(p) => AttModel::ReadResponse(p@),
            RawAtt::WriteRequest(h, p) => AttModel::WriteRequest(*h, p@),
            RawAtt::WriteResponse(p) => AttModel::WriteResponse(p@),
            RawAtt::ReadByGroupTypeResponse(v) => AttModel::ReadByGroupTypeResponse(v.deep_view()),
            RawAtt::ReadByTypeRespense(v) => AttModel::ReadByTypeRespense(v.deep_view()),
        }
    }
}

impl RawAtt {
    /// Well-formedness: every UUID carried in a record list has a valid
    /// length.
    pub open spec fn wf(self) -> bool {
        match self {
            RawAtt::ReadByGroupTypeResponse(v) => forall|i: int|
                0 <= i < v@.len() ==> (#[trigger] v@[i]).uuid.wf(),
            RawAtt::ReadByTypeRespense(v) => forall|i: int|
                0 <= i < v@.len() ==> (#[trigger] v@[i]).uuid.wf(),
            _ => true,
        }
    }
}

/// The records of a Read By Group Type Response read from `s` in strides of
/// `stride` bytes, while at least `stride` bytes remain: a 16-bit handle, a
/// 16-bit group end handle, and the rest of the stride as the UUID.
pub open spec fn spec_group_records(s: Seq<u8>, stride: int) -> Seq<AttributeGroupModel>
    recommends
        stride == 6 || stride == 20,
    decreases s.len(),
{
    if s.len() >= stride && stride >= 6 {
        seq![
            AttributeGroupModel {
                handle: u16_le(s) as u16,
                group_end_handle: u16_le(s.skip(2)) as u16,
                uuid: s.subrange(4, stride),
            },
        ] + spec_group_records(s.skip(stride), stride)
    } else {
        Seq::empty()
    }
}

/// The records of a Read By Type Response read from `s` in strides of
/// `stride` bytes, while at least `stride` bytes remain: a 16-bit handle, a
/// properties byte, a 16-bit value handle, and the rest of the stride as the
/// UUID.
pub open spec fn spec_type_records(s: Seq<u8>, stride: int) -> Seq<AttributeModel>
    recommends
        stride == 21,
    decreases s.len(),
{
    if s.len() >= stride && stride >= 6 {
        seq![
            AttributeModel {
                handle: u16_le(s) as u16,
                characteristic_properties: s[2],
                characteristic_value_handle: u16_le(s.skip(3)) as u16,
                uuid: s.subrange(5, stride),
            },
        ] + spec_type_records(s.skip(stride), stride)
    } else {
        Seq::empty()
    }
}

/// What decoding an ATT payload yields: a typed PDU, nothing (a recognized
/// but unmodeled element), possibly a diagnostic, or a structural violation.
/// Only attribute protocol id 0x0004 is processed; the opcode's low six bits
/// select the method.
pub open spec fn spec_att_parse(s: Seq<u8>, attribute_protocol: u16, nr: usize) -> Result<
    (Option<AttModel>, Option<Diagnostic>),
    StructuralViolation,
> {
    if attribute_protocol != 0x0004 {
        Ok((None, None))
    } else if s.len() < 1 {
        Err(StructuralViolation::BufferUnderflow)
    } else {
        let method = s[0] & 0x3f;
        let rest = s.skip(1);
        if (0x01 <= method && method <= 0x05) || method == 0x08 || method == 0x10 {
            // Recognized, intentionally undecoded (MTU exchange,
            // find-information, by-type/by-group-type requests, error
            // response).
            Ok((None, None))
        } else if method == 0x11 {
            if rest.len() < 1 {
                Err(StructuralViolation::BufferUnderflow)
            } else {
                let stride = rest[0];
                if stride == 6 || stride == 20 {
                    Ok(
                        (
                            Some(
                                AttModel::ReadByGroupTypeResponse(
                                    spec_group_records(rest.skip(1), stride as int),
                                ),
                            ),
                            None,
                        ),
                    )
                } else {
                    Err(StructuralViolation::UnexpectedAttributeLength(stride))
                }
            }
        } else if method == 0x09 {
            if rest.len() < 1 {
                Err(StructuralViolation::BufferUnderflow)
            } else {
                let stride = rest[0];
                if stride == 21 {
                    Ok(
                        (
                            Some(
                                AttModel::ReadByTypeRespense(spec_type_records(rest.skip(1), 21)),
                            ),
                            None,
                        ),
                    )
                } else if stride == 18 {
                    // Device-name discovery records carry no UUID value.
                    Ok((None, None))
                } else {
                    Err(StructuralViolation::UnexpectedAttributeLength(stride))
                }
            }
        } else if method == 0x0a {
            if rest.len() == 2 {
                Ok((Some(AttModel::ReadRequest(u16_le(rest) as u16)), None))
            } else {
                Err(StructuralViolation::UnexpectedReadRequestLength)
            }
        } else if method == 0x0b {
            Ok((Some(AttModel::ReadResponse(rest)), None))
        } else if method == 0x12 {
            if rest.len() < 2 {
                Err(StructuralViolation::BufferUnderflow)
            } else {
                Ok((Some(AttModel::WriteRequest(u16_le(rest) as u16, rest.skip(2))), None))
            }
        } else if method == 0x13 {
            Ok((Some(AttModel::WriteResponse(rest)), None))
        } else {
            Ok((None, Some(Diagnostic::UnknownAttMethod { nr, method })))
        }
    }
}

impl RawAtt {
    /// Decodes one reassembled payload into a typed ATT PDU, per
    /// [`spec_att_parse`]. Payloads of any protocol other than ATT (0x0004)
    /// and recognized-but-unmodeled methods yield no output; an unknown
    /// method yields a diagnostic; a malformed record list is a structural
    /// violation.
    #[verifier::loop_isolation(false)]
    pub fn parse(b: &mut Bytes, attribute_protocol: u16, nr: usize) -> (r: Result<
        (Option<RawAtt>, Option<Diagnostic>),
        StructuralViolation,
    >)
        ensures
            ({
                let s = spec_att_parse(old(b)@, attribute_protocol, nr);
                match r {
                    Ok((p, d)) => {
                        &&& s matches Ok(sp)
                        &&& sp.0 == p.deep_view()
                        &&& sp.1 == d
                        &&& (p matches Some(pdu) ==> pdu.wf())
                    },
                    Err(v) => s == Err::<(Option<AttModel>, Option<Diagnostic>),
                        StructuralViolation,
                    >(v),
                }
            }),
            attribute_protocol != 0x0004 ==> final(b)@ == old(b)@,
            (r matches Ok(pd) && pd.0 matches Some(RawAtt::ReadRequest(_))) ==> final(b)@
                == Seq::<u8>::empty(),
    {
        if attribute_protocol != 0x0004 {
            return Ok((None, None));
        }
        if b.len() < 1 {
            return Err(StructuralViolation::BufferUnderflow);
        }
        let ghost s0 = b@;
        let op_code = b.drain_one();
        let method = op_code & 0x3F;
        let ghost rest = s0.skip(1);
        if (0x01 <= method && method <= 0x05) || method == 0x08 || method == 0x10 {
            Ok((None, None))
        } else if method == 0x11 {
            if b.len() < 1 {
                return Err(StructuralViolation::BufferUnderflow);
            }
            let stride = b.drain_one();
            if !(stride == 6 || stride == 20) {
                return Err(StructuralViolation::UnexpectedAttributeLength(stride));
            }
            proof {
                assert(b@ =~= rest.skip(1));
            }
            let ghost tail = b@;
            let mut attributes: Vec<AttributeGroupData> = Vec::new();
            while b.len() >= stride as usize
                invariant
                    stride == 6 || stride == 20,
                    spec_group_records(tail, stride as int) =~= attributes.deep_view()
                        + spec_group_records(b@, stride as int),
                    forall|i: int| 0 <= i < attributes@.len() ==> (
                    #[trigger] attributes@[i]).uuid.wf(),
                decreases b@.len(),
            {
                let ghost pre = b@;
                let mut attribute_bytes = b.drain_bytes(stride as usize);
                let ghost record = pre.take(stride as int);
                let handle = attribute_bytes.drain_u16_little_endian();
                let group_end_handle = attribute_bytes.drain_u16_little_endian();
                proof {
                    assert(u16_le(record) == u16_le(pre));
                    assert(record.skip(2) =~= pre.skip(2).take(stride - 2));
                    assert(u16_le(record.skip(2)) == u16_le(pre.skip(2)));
                    assert(record.skip(2).skip(2) =~= pre.subrange(4, stride as int));
                }
                let uuid = match UuidKind::from_bytes(attribute_bytes) {
                    Ok(u) => u,
                    Err(_) => {
                        proof {
                            assert(false);
                        }
                        return Err(StructuralViolation::MalformedUuidLength);
                    },
                };
                attributes.push(AttributeGroupData { handle, group_end_handle, uuid });
                proof {
                    assert(attributes.deep_view() =~= attributes.deep_view().subrange(
                        0,
                        attributes.deep_view().len() - 1,
                    ) + seq![attributes.deep_view().last()]);
                    assert(spec_group_records(pre, stride as int) =~= seq![
                        AttributeGroupModel {
                            handle: u16_le(pre) as u16,
                            group_end_handle: u16_le(pre.skip(2)) as u16,
                            uuid: pre.subrange(4, stride as int),
                        },
                    ] + spec_group_records(pre.skip(stride as int), stride as int));
                    assert(spec_group_records(tail, stride as int) =~= attributes.deep_view()
                        + spec_group_records(b@, stride as int));
                }
            }
            Ok((Some(RawAtt::ReadByGroupTypeResponse(attributes)), None))
        } else if method == 0x09 {
            if b.len() < 1 {
                return Err(StructuralViolation::BufferUnderflow);
            }
            let stride = b.drain_one();
            if stride == 18 {
                // Device-name discovery records carry no UUID value.
                return Ok((None, None));
            }
            if stride != 21 {
                return Err(StructuralViolation::UnexpectedAttributeLength(stride));
            }
            proof {
                assert(b@ =~= rest.skip(1));
            }
            let ghost tail = b@;
            let mut attributes: Vec<AttributeData> = Vec::new();
            while b.len() >= stride as usize
                invariant
                    stride == 21,
                    spec_type_records(tail, stride as int) =~= attributes.deep_view()
                        + spec_type_records(b@, stride as int),
                    forall|i: int| 0 <= i < attributes@.len() ==> (
                    #[trigger] attributes@[i]).uuid.wf(),
                decreases b@.len(),
            {
                let ghost pre = b@;
                let mut attribute_bytes = b.drain_bytes(stride as usize);
                let ghost record = pre.take(stride as int);
                let handle = attribute_bytes.drain_u16_little_endian();
                let characteristic_properties = attribute_bytes.drain_one();
                let characteristic_value_handle = attribute_bytes.drain_u16_little_endian();
                proof {
                    assert(u16_le(record) == u16_le(pre));
                    assert(record[2] == pre[2]);
                    assert(record.skip(2).skip(1) =~= pre.skip(3).take(stride - 3));
                    assert(u16_le(record.skip(2).skip(1)) == u16_le(pre.skip(3)));
                    assert(record.skip(2).skip(1).skip(2) =~= pre.subrange(5, stride as int));
                }
                let uuid = match UuidKind::from_bytes(attribute_bytes) {
                    Ok(u) => u,
                    Err(_) => {
                        proof {
                            assert(false);
                        }
                        return Err(StructuralViolation::MalformedUuidLength);
                    },
                };
                attributes.push(
                    AttributeData {
                        handle,
                        characteristic_properties,
                        characteristic_value_handle,
                        uuid,
                    },
                );
                proof {
                    assert(spec_type_records(pre, stride as int) =~= seq![
                        AttributeModel {
                            handle: u16_le(pre) as u16,
                            characteristic_properties: pre[2],
                            characteristic_value_handle: u16_le(pre.skip(3)) as u16,
                            uuid: pre.subrange(5, stride as int),
                        },
                    ] + spec_type_records(pre.skip(stride as int), stride as int));
                    assert(spec_type_records(tail, stride as int) =~= attributes.deep_view()
                        + spec_type_records(b@, stride as int));
                }
            }
            Ok((Some(RawAtt::ReadByTypeRespense(attributes)), None))
        } else if method == 0x0a {
            if b.len() != 2 {
                return Err(StructuralViolation::UnexpectedReadRequestLength);
            }
            let handle = b.drain_u16_little_endian();
            proof {
                assert(b@ =~= Seq::<u8>::empty());
            }
            Ok((Some(RawAtt::ReadRequest(handle)), None))
        } else if method == 0x0b {
            let payload = b.vec();
            Ok((Some(RawAtt::ReadResponse(payload)), None))
        } else if method == 0x12 {
            if b.len() < 2 {
                return Err(StructuralViolation::BufferUnderflow);
            }
            let handle = b.drain_u16_little_endian();
            let payload = b.vec();
            proof {
                assert(b@ =~= rest.skip(2));
            }
            Ok((Some(RawAtt::WriteRequest(handle, payload)), None))
        } else if method == 0x13 {
            let payload = b.vec();
            Ok((Some(RawAtt::WriteResponse(payload)), None))
        } else {
            Ok((None, Some(Diagnostic::UnknownAttMethod { nr, method })))
        }
    }
}

} // verus!
