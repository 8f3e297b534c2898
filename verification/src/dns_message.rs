//! The DNS message codecs: the bit-packed 12-byte header, questions,
//! resource records with their type-specific RDATA, and the full message
//! built of them, all reading from and writing to a `UdpPacket`.
//!
//! Numeric wire values outside the known sets round-trip through explicit
//! `Unknown` variants instead of failing, so no received value is lost.

use crate::conversions::{be16, u16_bytes, u32_bytes};
use crate::udp_packet::{
    encode_dotted, labels_ok, name_decode, oob_index, spliced, DomainName,
    Malformation, Result, UdpPacket, UdpPacketError,
};
use vstd::string::StringSliceAdditionalSpecFns;
use vstd::prelude::*;

verus! {

/// Length in bytes of the fixed DNS header; a name can occur only after it.
pub const DNS_HEADER_LENGTH_BYTES: usize = 12;

/// The default QDCOUNT field of the DNS header.
pub const QUESTION_COUNT: u16 = 1;

/// The default RD field of the DNS header.
pub const RECURSION_DESIRED: bool = true;

/// The "example" domains are reserved for testing.
pub const TEST_DOMAIN: &'static str = "example.com";

/// The kind of query a message carries.
#[derive(Clone, Copy, Debug, PartialEq, Eq, Structural)]
pub enum OperationCode {
    /// A standard query: domain name to resource records.
    QUERY,
    /// Any other numeric opcode, preserved as received.
    Unknown(u16),
}

impl OperationCode {
    /// The numeric wire value of this opcode.
    pub open spec fn spec_to_u16(self) -> u16 {
        match self {
            OperationCode::QUERY => 0,
            OperationCode::Unknown(value) => value,
        }
    }

    /// The opcode a numeric wire value names.
    pub open spec fn spec_from_u16(value: u16) -> OperationCode {
        if value == 0 {
            OperationCode::QUERY
        } else {
            OperationCode::Unknown(value)
        }
    }

    /// Canonical form: an `Unknown` never shadows a listed value, so the
    /// numeric conversions invert each other.
    pub open spec fn wf(self) -> bool {
        OperationCode::spec_from_u16(self.spec_to_u16()) == self
    }

    /// The numeric wire value of this opcode.
    pub fn to_u16(self) -> (r: u16)
        ensures
            r == self.spec_to_u16(),
    {
        match self {
            OperationCode::QUERY => 0,
            OperationCode::Unknown(value) => value,
        }
    }

    /// The opcode a numeric wire value names; unlisted values are kept as
    /// `Unknown` rather than rejected.
    pub fn from_u16(value: u16) -> (r: OperationCode)
        ensures
            r == OperationCode::spec_from_u16(value),
            r.wf(),
    {
        if value == 0 {
            OperationCode::QUERY
        } else {
            OperationCode::Unknown(value)
        }
    }
}

impl Default for OperationCode {
    /// A standard query.
    fn default() -> (r: OperationCode)
        ensures
            r == OperationCode::QUERY,
    {
        OperationCode::QUERY
    }
}

/// The response status a name server reports.
#[derive(Clone, Copy, Debug, PartialEq, Eq, Structural)]
pub enum ResponseCode {
    /// No error.
    NOERROR,
    /// The query was malformed.
    FORMATERROR,
    /// The name server failed internally.
    SERVERFAILURE,
    /// The domain name does not exist (authoritative servers only).
    NAMEERROR,
    /// The requested functionality is not implemented by the server.
    NOTIMPLEMENTED,
    /// The name server refuses to respond.
    REFUSED,
    /// Any other numeric response code, preserved as received.
    Unknown(u16),
}

impl ResponseCode {
    /// The numeric wire value of this response code.
    pub open spec fn spec_to_u16(self) -> u16 {
        match self {
            ResponseCode::NOERROR => 0,
            ResponseCode::FORMATERROR => 1,
            ResponseCode::SERVERFAILURE => 2,
            ResponseCode::NAMEERROR => 3,
            ResponseCode::NOTIMPLEMENTED => 4,
            ResponseCode::REFUSED => 5,
            ResponseCode::Unknown(value) => value,
        }
    }

    /// The response code a numeric wire value names.
    pub open spec fn spec_from_u16(value: u16) -> ResponseCode {
        if value == 0 {
            ResponseCode::NOERROR
        } else if value == 1 {
            ResponseCode::FORMATERROR
        } else if value == 2 {
            ResponseCode::SERVERFAILURE
        } else if value == 3 {
            ResponseCode::NAMEERROR
        } else if value == 4 {
            ResponseCode::NOTIMPLEMENTED
        } else if value == 5 {
            ResponseCode::REFUSED
        } else {
            ResponseCode::Unknown(value)
        }
    }

    /// Canonical form: the numeric conversions invert each other.
    pub open spec fn wf(self) -> bool {
        ResponseCode::spec_from_u16(self.spec_to_u16()) == self
    }

    /// The numeric wire value of this response code.
    pub fn to_u16(self) -> (r: u16)
        ensures
            r == self.spec_to_u16(),
    {
        match self {
            ResponseCode::NOERROR => 0,
            ResponseCode::FORMATERROR => 1,
            ResponseCode::SERVERFAILURE => 2,
            ResponseCode::NAMEERROR => 3,
            ResponseCode::NOTIMPLEMENTED => 4,
            ResponseCode::REFUSED => 5,
            ResponseCode::Unknown(value) => value,
        }
    }

    /// The response code a numeric wire value names; unlisted values are
    /// kept as `Unknown` rather than rejected.
    pub fn from_u16(value: u16) -> (r: ResponseCode)
        ensures
            r == ResponseCode::spec_from_u16(value),
            r.wf(),
    {
        match value {
            0 => ResponseCode::NOERROR,
            1 => ResponseCode::FORMATERROR,
            2 => ResponseCode::SERVERFAILURE,
            3 => ResponseCode::NAMEERROR,
            4 => ResponseCode::NOTIMPLEMENTED,
            5 => ResponseCode::REFUSED,
            _ => ResponseCode::Unknown(value),
        }
    }
}

impl Default for ResponseCode {
    /// No error.
    fn default() -> (r: ResponseCode)
        ensures
            r == ResponseCode::NOERROR,
    {
        ResponseCode::NOERROR
    }
}

/// The type of a resource record, selecting the shape of its RDATA.
#[derive(Clone, Copy, Debug, PartialEq, Eq, Structural)]
pub enum RecordType {
    /// An IPv4 address.
    A,
    /// A name server's domain name.
    NS,
    /// The canonical name of an alias.
    CNAME,
    /// Name server zone information.
    SOA,
    /// The domain name of a mail exchange.
    MX,
    /// An IPv6 address.
    AAAA,
    /// Any other numeric record type; its RDATA stays an opaque byte blob.
    Unknown(u16),
}

impl RecordType {
    /// The numeric wire value of this record type.
    pub open spec fn spec_to_u16(self) -> u16 {
        match self {
            RecordType::A => 1,
            RecordType::NS => 2,
            RecordType::CNAME => 5,
            RecordType::SOA => 6,
            RecordType::MX => 15,
            RecordType::AAAA => 28,
            RecordType::Unknown(value) => value,
        }
    }

    /// The record type a numeric wire value names.
    pub open spec fn spec_from_u16(value: u16) -> RecordType {
        if value == 1 {
            RecordType::A
        } else if value == 2 {
            RecordType::NS
        } else if value == 5 {
            RecordType::CNAME
        } else if value == 6 {
            RecordType::SOA
        } else if value == 15 {
            RecordType::MX
        } else if value == 28 {
            RecordType::AAAA
        } else {
            RecordType::Unknown(value)
        }
    }

    /// Canonical form: the numeric conversions invert each other.
    pub open spec fn wf(self) -> bool {
        RecordType::spec_from_u16(self.spec_to_u16()) == self
    }

    /// The numeric wire value of this record type.
    pub fn to_u16(self) -> (r: u16)
        ensures
            r == self.spec_to_u16(),
    {
        match self {
            RecordType::A => 1,
            RecordType::NS => 2,
            RecordType::CNAME => 5,
            RecordType::SOA => 6,
            RecordType::MX => 15,
            RecordType::AAAA => 28,
            RecordType::Unknown(value) => value,
        }
    }

    /// The record type a numeric wire value names; unlisted values are kept
    /// as `Unknown` rather than rejected.
    pub fn from_u16(value: u16) -> (r: RecordType)
        ensures
            r == RecordType::spec_from_u16(value),
            r.wf(),
    {
        match value {
            1 => RecordType::A,
            2 => RecordType::NS,
            5 => RecordType::CNAME,
            6 => RecordType::SOA,
            15 => RecordType::MX,
            28 => RecordType::AAAA,
            _ => RecordType::Unknown(value),
        }
    }
}

impl Default for RecordType {
    /// An IPv4 address record.
    fn default() -> (r: RecordType)
        ensures
            r == RecordType::A,
    {
        RecordType::A
    }
}

/// The class of a resource record.
#[derive(Clone, Copy, Debug, PartialEq, Eq, Structural)]
pub enum RecordClass {
    /// The internet class.
    IN,
    /// Any other numeric class, preserved as received.
    Unknown(u16),
}

impl RecordClass {
    /// The numeric wire value of this record class.
    pub open spec fn spec_to_u16(self) -> u16 {
        match self {
            RecordClass::IN => 1,
            RecordClass::Unknown(value) => value,
        }
    }

    /// The record class a numeric wire value names.
    pub open spec fn spec_from_u16(value: u16) -> RecordClass {
        if value == 1 {
            RecordClass::IN
        } else {
            RecordClass::Unknown(value)
        }
    }

    /// Canonical form: the numeric conversions invert each other.
    pub open spec fn wf(self) -> bool {
        RecordClass::spec_from_u16(self.spec_to_u16()) == self
    }

    /// The numeric wire value of this record class.
    pub fn to_u16(self) -> (r: u16)
        ensures
            r == self.spec_to_u16(),
    {
        match self {
            RecordClass::IN => 1,
            RecordClass::Unknown(value) => value,
        }
    }

    /// The record class a numeric wire value names; unlisted values are
    /// kept as `Unknown` rather than rejected.
    pub fn from_u16(value: u16) -> (r: RecordClass)
        ensures
            r == RecordClass::spec_from_u16(value),
            r.wf(),
    {
        if value == 1 {
            RecordClass::IN
        } else {
            RecordClass::Unknown(value)
        }
    }
}

impl Default for RecordClass {
    /// The internet class.
    fn default() -> (r: RecordClass)
        ensures
            r == RecordClass::IN,
    {
        RecordClass::IN
    }
}

/// A query type that only questions may carry.
#[derive(Clone, Copy, Debug, PartialEq, Eq, Structural)]
pub enum QuestionType {
    /// A request for all record types.
    ANY,
}

impl QuestionType {
    /// The numeric wire value of this question type.
    pub open spec fn spec_to_u16(self) -> u16 {
        255
    }

    /// The numeric wire value of this question type.
    pub fn to_u16(self) -> (r: u16)
        ensures
            r == self.spec_to_u16(),
    {
        255
    }
}

impl Default for QuestionType {
    /// A request for all record types.
    fn default() -> (r: QuestionType)
        ensures
            r == QuestionType::ANY,
    {
        QuestionType::ANY
    }
}

/// A query class that only questions may carry.
#[derive(Clone, Copy, Debug, PartialEq, Eq, Structural)]
pub enum QuestionClass {
    /// A request covering every class.
    ANY,
}

impl QuestionClass {
    /// The numeric wire value of this question class.
    pub open spec fn spec_to_u16(self) -> u16 {
        255
    }

    /// The numeric wire value of this question class.
    pub fn to_u16(self) -> (r: u16)
        ensures
            r == self.spec_to_u16(),
    {
        255
    }
}

impl Default for QuestionClass {
    /// A request covering every class.
    fn default() -> (r: QuestionClass)
        ensures
            r == QuestionClass::ANY,
    {
        QuestionClass::ANY
    }
}

/// The type field of a question: either a question-only type or a record
/// type (unknown numeric values live inside the record type).
#[derive(Clone, Copy, Debug, PartialEq, Eq, Structural)]
pub enum CombinedType {
    /// A question-only type.
    QuestionType(QuestionType),
    /// A record type, known or preserved as an unknown numeric value.
    RecordType(RecordType),
}

impl CombinedType {
    /// The numeric wire value of this type field.
    pub open spec fn spec_to_u16(self) -> u16 {
        match self {
            CombinedType::QuestionType(qtype) => qtype.spec_to_u16(),
            CombinedType::RecordType(rtype) => rtype.spec_to_u16(),
        }
    }

    /// The type field a numeric wire value names: the question-only types
    /// take precedence, then the record types.
    pub open spec fn spec_from_u16(value: u16) -> CombinedType {
        if value == 255 {
            CombinedType::QuestionType(QuestionType::ANY)
        } else {
            CombinedType::RecordType(RecordType::spec_from_u16(value))
        }
    }

    /// Canonical form: the numeric conversions invert each other.
    pub open spec fn wf(self) -> bool {
        CombinedType::spec_from_u16(self.spec_to_u16()) == self
    }

    /// The numeric wire value of this type field.
    pub fn to_u16(self) -> (r: u16)
        ensures
            r == self.spec_to_u16(),
    {
        match self {
            CombinedType::QuestionType(qtype) => qtype.to_u16(),
            CombinedType::RecordType(rtype) => rtype.to_u16(),
        }
    }

    /// The type field a numeric wire value names; unlisted values are kept
    /// as an unknown record type rather than rejected.
    pub fn from_u16(value: u16) -> (r: CombinedType)
        ensures
            r == CombinedType::spec_from_u16(value),
            r.wf(),
    {
        if value == 255 {
            CombinedType::QuestionType(QuestionType::ANY)
        } else {
            CombinedType::RecordType(RecordType::from_u16(value))
        }
    }
}

impl Default for CombinedType {
    /// An IPv4 address record type.
    fn default() -> (r: CombinedType)
        ensures
            r == CombinedType::RecordType(RecordType::A),
    {
        CombinedType::RecordType(RecordType::A)
    }
}

/// The class field of a question: either a question-only class or a record
/// class (unknown numeric values live inside the record class).
#[derive(Clone, Copy, Debug, PartialEq, Eq, Structural)]
pub enum CombinedClass {
    /// A question-only class.
    QuestionClass(QuestionClass),
    /// A record class, known or preserved as an unknown numeric value.
    RecordClass(RecordClass),
}

impl CombinedClass {
    /// The numeric wire value of this class field.
    pub open spec fn spec_to_u16(self) -> u16 {
        match self {
            CombinedClass::QuestionClass(qclass) => qclass.spec_to_u16(),
            CombinedClass::RecordClass(rclass) => rclass.spec_to_u16(),
        }
    }

    /// The class field a numeric wire value names: the question-only
    /// classes take precedence, then the record classes.
    pub open spec fn spec_from_u16(value: u16) -> CombinedClass {
        if value == 255 {
            CombinedClass::QuestionClass(QuestionClass::ANY)
        } else {
            CombinedClass::RecordClass(RecordClass::spec_from_u16(value))
        }
    }

    /// Canonical form: the numeric conversions invert each other.
    pub open spec fn wf(self) -> bool {
        CombinedClass::spec_from_u16(self.spec_to_u16()) == self
    }

    /// The numeric wire value of this class field.
    pub fn to_u16(self) -> (r: u16)
        ensures
            r == self.spec_to_u16(),
    {
        match self {
            CombinedClass::QuestionClass(qclass) => qclass.to_u16(),
            CombinedClass::RecordClass(rclass) => rclass.to_u16(),
        }
    }

    /// The class field a numeric wire value names; unlisted values are kept
    /// as an unknown record class rather than rejected.
    pub fn from_u16(value: u16) -> (r: CombinedClass)
        ensures
            r == CombinedClass::spec_from_u16(value),
            r.wf(),
    {
        if value == 255 {
            CombinedClass::QuestionClass(QuestionClass::ANY)
        } else {
            CombinedClass::RecordClass(RecordClass::from_u16(value))
        }
    }
}

impl Default for CombinedClass {
    /// The internet record class.
    fn default() -> (r: CombinedClass)
        ensures
            r == CombinedClass::RecordClass(RecordClass::IN),
    {
        CombinedClass::RecordClass(RecordClass::IN)
    }
}

/// The fixed 12-byte DNS header: the packet id, the packed flag word, and
/// the four section counts.
#[derive(Debug, PartialEq, Eq, Structural)]
pub struct DnsHeader {
    /// Packet identifier.
    pub id: u16,
    /// Set on responses, unset on queries (1 bit).
    pub response: bool,
    /// The kind of query in the packet (4 bits).
    pub operation_code: OperationCode,
    /// Set when the responding name server is a domain authority (1 bit).
    pub authoritative_answer: bool,
    /// Set when the message was truncated for being too long (1 bit).
    pub truncated: bool,
    /// Set when the resolver desires recursive service (1 bit).
    pub recursion_desired: bool,
    /// Set when the name server offers recursive service (1 bit).
    pub recursion_available: bool,
    /// Reserved bits (3 bits).
    pub z: u16,
    /// The response status of the name server (4 bits).
    pub response_code: ResponseCode,
    /// Number of entries in the question section.
    pub question_count: u16,
    /// Number of entries in the answer section.
    pub answer_count: u16,
    /// Number of entries in the authority section.
    pub authority_count: u16,
    /// Number of entries in the additional section.
    pub additional_count: u16,
}

/// The flag bit of a boolean field.
pub open spec fn flag_bit(b: bool) -> u16 {
    if b {
        1
    } else {
        0
    }
}

impl DnsHeader {
    /// The bit-packed fields fit their widths and the enums are canonical:
    /// a 4-bit opcode, a 4-bit response code, and 3 reserved bits.
    pub open spec fn wf(self) -> bool {
        &&& self.operation_code.wf()
        &&& self.operation_code.spec_to_u16() < 16
        &&& self.response_code.wf()
        &&& self.response_code.spec_to_u16() < 16
        &&& self.z < 8
    }

    /// The packed 16-bit flag word, bit 15 down to bit 0:
    /// response(1) opcode(4) authoritative(1) truncated(1) recursion
    /// desired(1) recursion available(1) z(3) response code(4).
    pub open spec fn spec_flags_word(self) -> u16 {
        self.response_code.spec_to_u16() | (self.z << 4) | (flag_bit(self.recursion_available)
            << 7) | (flag_bit(self.recursion_desired) << 8) | (flag_bit(self.truncated) << 9) | (
        flag_bit(self.authoritative_answer) << 10) | (self.operation_code.spec_to_u16() << 11) | (
        flag_bit(self.response) << 15)
    }

    /// The 12-byte wire form of the header: six big-endian 16-bit words.
    pub open spec fn spec_bytes(self) -> Seq<u8> {
        u16_bytes(self.id) + u16_bytes(self.spec_flags_word()) + u16_bytes(self.question_count)
            + u16_bytes(self.answer_count) + u16_bytes(self.authority_count) + u16_bytes(
            self.additional_count,
        )
    }

    /// The header that six 16-bit words denote, the flag word unpacked
    /// field by field.
    pub open spec fn spec_from_words(
        id: u16,
        flags: u16,
        question_count: u16,
        answer_count: u16,
        authority_count: u16,
        additional_count: u16,
    ) -> DnsHeader {
        DnsHeader {
            id,
            response: (flags >> 15) & 1 == 1,
            operation_code: OperationCode::spec_from_u16((flags >> 11) & 0xf),
            authoritative_answer: (flags >> 10) & 1 == 1,
            truncated: (flags >> 9) & 1 == 1,
            recursion_desired: (flags >> 8) & 1 == 1,
            recursion_available: (flags >> 7) & 1 == 1,
            z: (flags >> 4) & 0x7,
            response_code: ResponseCode::spec_from_u16(flags & 0xf),
            question_count,
            answer_count,
            authority_count,
            additional_count,
        }
    }

    /// The header encoded at `pos` in a buffer, as the reader sees it.
    pub open spec fn spec_parse(buf: Seq<u8>, pos: int) -> DnsHeader {
        DnsHeader::spec_from_words(
            be16(buf[pos], buf[pos + 1]),
            be16(buf[pos + 2], buf[pos + 3]),
            be16(buf[pos + 4], buf[pos + 5]),
            be16(buf[pos + 6], buf[pos + 7]),
            be16(buf[pos + 8], buf[pos + 9]),
            be16(buf[pos + 10], buf[pos + 11]),
        )
    }
}

/// Unpacking a packed flag word yields the packed fields, provided each
/// fits its width.
proof fn lemma_flags_pack_unpack(
    rc: u16,
    z: u16,
    ra: u16,
    rd: u16,
    tc: u16,
    aa: u16,
    oc: u16,
    qr: u16,
)
    by (bit_vector)
    requires
        rc < 16,
        z < 8,
        ra < 2,
        rd < 2,
        tc < 2,
        aa < 2,
        oc < 16,
        qr < 2,
    ensures
        (rc | (z << 4) | (ra << 7) | (rd << 8) | (tc << 9) | (aa << 10) | (oc << 11) | (qr << 15))
            & 0xf == rc,
        ((rc | (z << 4) | (ra << 7) | (rd << 8) | (tc << 9) | (aa << 10) | (oc << 11) | (qr << 15))
            >> 4) & 0x7 == z,
        ((rc | (z << 4) | (ra << 7) | (rd << 8) | (tc << 9) | (aa << 10) | (oc << 11) | (qr << 15))
            >> 7) & 1 == ra,
        ((rc | (z << 4) | (ra << 7) | (rd << 8) | (tc << 9) | (aa << 10) | (oc << 11) | (qr << 15))
            >> 8) & 1 == rd,
        ((rc | (z << 4) | (ra << 7) | (rd << 8) | (tc << 9) | (aa << 10) | (oc << 11) | (qr << 15))
            >> 9) & 1 == tc,
        ((rc | (z << 4) | (ra << 7) | (rd << 8) | (tc << 9) | (aa << 10) | (oc << 11) | (qr << 15))
            >> 10) & 1 == aa,
        ((rc | (z << 4) | (ra << 7) | (rd << 8) | (tc << 9) | (aa << 10) | (oc << 11) | (qr << 15))
            >> 11) & 0xf == oc,
        ((rc | (z << 4) | (ra << 7) | (rd << 8) | (tc << 9) | (aa << 10) | (oc << 11) | (qr << 15))
            >> 15) & 1 == qr,
{
}

/// Header round trip: a header whose bit-packed fields fit their widths
/// parses back, from its own 12 encoded bytes, to exactly itself.
pub proof fn lemma_header_round_trip(h: DnsHeader, buf: Seq<u8>, pos: int)
    requires
        h.wf(),
        0 <= pos,
        pos + 12 <= buf.len(),
        buf.subrange(pos, pos + 12) == h.spec_bytes(),
    ensures
        DnsHeader::spec_parse(buf, pos) == h,
{
    let flags = h.spec_flags_word();
    lemma_flags_pack_unpack(
        h.response_code.spec_to_u16(),
        h.z,
        flag_bit(h.recursion_available),
        flag_bit(h.recursion_desired),
        flag_bit(h.truncated),
        flag_bit(h.authoritative_answer),
        h.operation_code.spec_to_u16(),
        flag_bit(h.response),
    );
    crate::conversions::lemma_u16_bytes_roundtrip(h.id);
    crate::conversions::lemma_u16_bytes_roundtrip(flags);
    crate::conversions::lemma_u16_bytes_roundtrip(h.question_count);
    crate::conversions::lemma_u16_bytes_roundtrip(h.answer_count);
    crate::conversions::lemma_u16_bytes_roundtrip(h.authority_count);
    crate::conversions::lemma_u16_bytes_roundtrip(h.additional_count);
    let bs = h.spec_bytes();
    assert(bs.len() == 12);
    assert forall|k: int| 0 <= k < 12 implies buf[pos + k] == bs[k] by {
        assert(buf.subrange(pos, pos + 12)[k] == buf[pos + k]);
    }
    assert(bs[0] == u16_bytes(h.id)[0]);
    assert(bs[1] == u16_bytes(h.id)[1]);
    assert(bs[2] == u16_bytes(flags)[0]);
    assert(bs[3] == u16_bytes(flags)[1]);
    assert(bs[4] == u16_bytes(h.question_count)[0]);
    assert(bs[5] == u16_bytes(h.question_count)[1]);
    assert(bs[6] == u16_bytes(h.answer_count)[0]);
    assert(bs[7] == u16_bytes(h.answer_count)[1]);
    assert(bs[8] == u16_bytes(h.authority_count)[0]);
    assert(bs[9] == u16_bytes(h.authority_count)[1]);
    assert(bs[10] == u16_bytes(h.additional_count)[0]);
    assert(bs[11] == u16_bytes(h.additional_count)[1]);
    assert(DnsHeader::spec_parse(buf, pos) == h);
}


/// A sequential big-endian 16-bit read at `pos`, as `read_u16` performs it.
pub open spec fn read_u16_at(buf: Seq<u8>, pos: int) -> Result<(u16, int)> {
    if pos + 2 <= 512 {
        Ok((be16(buf[pos], buf[pos + 1]), pos + 2))
    } else {
        Err(UdpPacketError::OutOfBounds { length: 512, index: (pos + 1) as usize })
    }
}

/// A sequential big-endian 32-bit read at `pos`, as `read_u32` performs it.
pub open spec fn read_u32_at(buf: Seq<u8>, pos: int) -> Result<(u32, int)> {
    if pos + 4 <= 512 {
        Ok((crate::conversions::be32(buf[pos], buf[pos + 1], buf[pos + 2], buf[pos + 3]), pos + 4))
    } else {
        Err(UdpPacketError::OutOfBounds { length: 512, index: (pos + 3) as usize })
    }
}

/// A sequential big-endian 128-bit read at `pos`, as `read_u128` performs it.
pub open spec fn read_u128_at(buf: Seq<u8>, pos: int) -> Result<(u128, int)> {
    if pos + 16 <= 512 {
        Ok((crate::udp_packet::spec_be128(buf, pos), pos + 16))
    } else {
        Err(UdpPacketError::OutOfBounds { length: 512, index: (pos + 15) as usize })
    }
}

/// The header read at `pos`: six sequential 16-bit reads, the flag word
/// unpacked, and the cursor moved 12 bytes.
pub open spec fn decode_header(buf: Seq<u8>, pos: int) -> Result<(DnsHeader, int)> {
    match read_u16_at(buf, pos) {
        Err(e) => Err(e),
        Ok(id) => match read_u16_at(buf, id.1) {
            Err(e) => Err(e),
            Ok(flags) => match read_u16_at(buf, flags.1) {
                Err(e) => Err(e),
                Ok(qd) => match read_u16_at(buf, qd.1) {
                    Err(e) => Err(e),
                    Ok(an) => match read_u16_at(buf, an.1) {
                        Err(e) => Err(e),
                        Ok(ns) => match read_u16_at(buf, ns.1) {
                            Err(e) => Err(e),
                            Ok(ar) => Ok((DnsHeader::spec_parse(buf, pos), ar.1)),
                        },
                    },
                },
            },
        },
    }
}

impl DnsHeader {
    /// Packs the header and writes its 12 bytes at the cursor. The header
    /// must occupy the first 12 bytes of a message, so the write fails,
    /// with no effect, when the cursor is not within bytes 0 to 11.
    pub fn write_to_udp_packet(&self, udp_packet: &mut UdpPacket) -> (r: Result<()>)
        requires
            old(udp_packet).wf(),
            self.wf(),
        ensures
            final(udp_packet).wf(),
            old(udp_packet).position < 12 ==> r == Ok::<(), UdpPacketError>(())
                && final(udp_packet).position == old(udp_packet).position + 12
                && final(udp_packet).buffer@ == spliced(
                old(udp_packet).buffer@,
                old(udp_packet).position as int,
                self.spec_bytes(),
            ),
            old(udp_packet).position >= 12 ==> r == Err::<(), UdpPacketError>(
                UdpPacketError::OutOfBounds { length: 12, index: old(udp_packet).position },
            ) && *final(udp_packet) == *old(udp_packet),
    {
        if udp_packet.position >= DNS_HEADER_LENGTH_BYTES {
            return Err(
                UdpPacketError::OutOfBounds {
                    length: DNS_HEADER_LENGTH_BYTES,
                    index: udp_packet.position,
                },
            );
        }
        let flags: u16 = self.response_code.to_u16() | (self.z << 4) | (crate::conversions::bool_to_u16(
            self.recursion_available,
        ) << 7) | (crate::conversions::bool_to_u16(self.recursion_desired) << 8)
            | (crate::conversions::bool_to_u16(self.truncated) << 9)
            | (crate::conversions::bool_to_u16(self.authoritative_answer) << 10)
            | (self.operation_code.to_u16() << 11) | (crate::conversions::bool_to_u16(
            self.response,
        ) << 15);
        let mut slice: Vec<u8> = Vec::new();
        let id_bytes = crate::conversions::u16_to_u8(self.id);
        let flag_bytes = crate::conversions::u16_to_u8(flags);
        let question_bytes = crate::conversions::u16_to_u8(self.question_count);
        let answer_bytes = crate::conversions::u16_to_u8(self.answer_count);
        let authority_bytes = crate::conversions::u16_to_u8(self.authority_count);
        let additional_bytes = crate::conversions::u16_to_u8(self.additional_count);
        slice.push(id_bytes[0]);
        slice.push(id_bytes[1]);
        slice.push(flag_bytes[0]);
        slice.push(flag_bytes[1]);
        slice.push(question_bytes[0]);
        slice.push(question_bytes[1]);
        slice.push(answer_bytes[0]);
        slice.push(answer_bytes[1]);
        slice.push(authority_bytes[0]);
        slice.push(authority_bytes[1]);
        slice.push(additional_bytes[0]);
        slice.push(additional_bytes[1]);
        proof {
            assert(slice@ =~= self.spec_bytes());
        }
        match udp_packet.write_from_slice(slice.as_slice(), None) {
            Ok(value) => Ok(value),
            Err(error) => Err(error),
        }
    }

    /// Reads and unpacks the 12-byte header at the cursor, advancing it.
    /// Unknown opcode and response-code values round-trip as `Unknown`
    /// rather than failing.
    pub fn read_from_udp_packet(udp_packet: &mut UdpPacket) -> (r: Result<DnsHeader>)
        requires
            old(udp_packet).wf(),
        ensures
            final(udp_packet).wf(),
            final(udp_packet).buffer == old(udp_packet).buffer,
            match decode_header(old(udp_packet).buffer@, old(udp_packet).position as int) {
                Ok(res) => r is Ok && r->Ok_0 == res.0 && r->Ok_0.wf()
                    && final(udp_packet).position == res.1,
                Err(e) => r == Err::<DnsHeader, UdpPacketError>(e) && old(udp_packet).position
                    <= final(udp_packet).position,
            },
    {
        let id = match udp_packet.read_u16() {
            Ok(value) => value,
            Err(error) => {
                return Err(error);
            },
        };
        let flags = match udp_packet.read_u16() {
            Ok(value) => value,
            Err(error) => {
                return Err(error);
            },
        };
        let question_count = match udp_packet.read_u16() {
            Ok(value) => value,
            Err(error) => {
                return Err(error);
            },
        };
        let answer_count = match udp_packet.read_u16() {
            Ok(value) => value,
            Err(error) => {
                return Err(error);
            },
        };
        let authority_count = match udp_packet.read_u16() {
            Ok(value) => value,
            Err(error) => {
                return Err(error);
            },
        };
        let additional_count = match udp_packet.read_u16() {
            Ok(value) => value,
            Err(error) => {
                return Err(error);
            },
        };
        proof {
            assert((flags >> 15) & 1 < 2 && (flags >> 11) & 0xf < 16 && (flags >> 10) & 1 < 2 && (
            flags >> 9) & 1 < 2 && (flags >> 8) & 1 < 2 && (flags >> 7) & 1 < 2 && (flags >> 4)
                & 0x7 < 8 && flags & 0xf < 16) by (bit_vector);
        }
        Ok(
            DnsHeader {
                id,
                response: crate::conversions::u16_to_bool((flags >> 15) & 1),
                operation_code: OperationCode::from_u16((flags >> 11) & 0xf),
                authoritative_answer: crate::conversions::u16_to_bool((flags >> 10) & 1),
                truncated: crate::conversions::u16_to_bool((flags >> 9) & 1),
                recursion_desired: crate::conversions::u16_to_bool((flags >> 8) & 1),
                recursion_available: crate::conversions::u16_to_bool((flags >> 7) & 1),
                z: (flags >> 4) & 0x7,
                response_code: ResponseCode::from_u16(flags & 0xf),
                question_count,
                answer_count,
                authority_count,
                additional_count,
            },
        )
    }
}

impl Default for DnsHeader {
    /// A recursive standard query with one question and no records.
    fn default() -> (r: DnsHeader)
        ensures
            r == (DnsHeader {
                id: 0,
                response: false,
                operation_code: OperationCode::QUERY,
                authoritative_answer: false,
                truncated: false,
                recursion_desired: RECURSION_DESIRED,
                recursion_available: false,
                z: 0,
                response_code: ResponseCode::NOERROR,
                question_count: QUESTION_COUNT,
                answer_count: 0,
                authority_count: 0,
                additional_count: 0,
            }),
            r.wf(),
    {
        DnsHeader {
            id: 0,
            response: false,
            operation_code: OperationCode::QUERY,
            authoritative_answer: false,
            truncated: false,
            recursion_desired: RECURSION_DESIRED,
            recursion_available: false,
            z: 0,
            response_code: ResponseCode::NOERROR,
            question_count: QUESTION_COUNT,
            answer_count: 0,
            authority_count: 0,
            additional_count: 0,
        }
    }
}


/// The mathematical view of a question: the name's wire bytes and the type
/// and class fields.
pub struct DnsQuestionV {
    /// The wire bytes of the queried name.
    pub name: Seq<u8>,
    /// The query type field.
    pub question_type: CombinedType,
    /// The query class field.
    pub question_class: CombinedClass,
}

impl DnsQuestionV {
    /// The wire form of the question: the name's bytes, then the type, then
    /// the class, each count big-endian.
    pub open spec fn spec_bytes(self) -> Seq<u8> {
        self.name + u16_bytes(self.question_type.spec_to_u16()) + u16_bytes(
            self.question_class.spec_to_u16(),
        )
    }

    /// The question's encoded length: its name plus four bytes.
    pub open spec fn spec_len(self) -> int {
        self.name.len() + 4 as int
    }
}

/// An entry of the question section: a queried name with its type and
/// class. Values outside the known type and class sets are preserved as
/// opaque numerics rather than rejected.
#[derive(Debug, PartialEq)]
pub struct DnsQuestion {
    /// The domain name queried.
    pub name: DomainName,
    /// The query type (16 bits on the wire).
    pub question_type: CombinedType,
    /// The query class, such as IN for the internet (16 bits on the wire).
    pub question_class: CombinedClass,
}

impl View for DnsQuestion {
    type V = DnsQuestionV;

    open spec fn view(&self) -> DnsQuestionV {
        DnsQuestionV {
            name: self.name.bytes@,
            question_type: self.question_type,
            question_class: self.question_class,
        }
    }
}

/// The question read at `pos`: a name decode followed by two 16-bit reads.
pub open spec fn decode_question(buf: Seq<u8>, pos: int) -> Result<(DnsQuestionV, int)> {
    match name_decode(buf, pos) {
        Err(e) => Err(e),
        Ok(nm) => match read_u16_at(buf, pos + nm.1) {
            Err(e) => Err(e),
            Ok(qtype) => match read_u16_at(buf, qtype.1) {
                Err(e) => Err(e),
                Ok(qclass) => Ok(
                    (
                        DnsQuestionV {
                            name: nm.0,
                            question_type: CombinedType::spec_from_u16(qtype.0),
                            question_class: CombinedClass::spec_from_u16(qclass.0),
                        },
                        qclass.1,
                    ),
                ),
            },
        },
    }
}

impl DnsQuestion {
    /// Writes the question at the cursor: the name's bytes, then the type,
    /// then the class. The name write reserves four trailing bytes, so the
    /// question is written whole or not at all.
    pub fn write_to_udp_packet(&self, udp_packet: &mut UdpPacket) -> (r: Result<()>)
        requires
            old(udp_packet).wf(),
        ensures
            final(udp_packet).wf(),
            old(udp_packet).position + self@.spec_len() < 512 ==> r == Ok::<(), UdpPacketError>(())
                && final(udp_packet).position == old(udp_packet).position + self@.spec_len()
                && final(udp_packet).buffer@ == spliced(
                old(udp_packet).buffer@,
                old(udp_packet).position as int,
                self@.spec_bytes(),
            ),
            old(udp_packet).position + self@.spec_len() >= 512 ==> r == Err::<(), UdpPacketError>(
                UdpPacketError::OutOfBounds {
                    length: 512,
                    index: oob_index(old(udp_packet).position + self.name.bytes@.len()),
                },
            ) && *final(udp_packet) == *old(udp_packet),
    {
        let ghost buf0 = udp_packet.buffer@;
        let ghost pos0 = udp_packet.position as int;
        match udp_packet.write_domain_name(&self.name, Some(4)) {
            Ok(value) => value,
            Err(error) => {
                return Err(error);
            },
        };
        let type_bytes = crate::conversions::u16_to_u8(self.question_type.to_u16());
        match udp_packet.write_from_slice(type_bytes.as_slice(), None) {
            Ok(value) => value,
            Err(error) => {
                return Err(error);
            },
        };
        let class_bytes = crate::conversions::u16_to_u8(self.question_class.to_u16());
        match udp_packet.write_from_slice(class_bytes.as_slice(), None) {
            Ok(value) => value,
            Err(error) => {
                return Err(error);
            },
        };
        proof {
            assert(udp_packet.buffer@ =~= spliced(buf0, pos0, self@.spec_bytes()));
        }
        Ok(())
    }

    /// Reads a question at the cursor: a name, then the type and class;
    /// unknown type and class values are preserved as opaque numerics.
    pub fn read_from_udp_packet(udp_packet: &mut UdpPacket) -> (r: Result<DnsQuestion>)
        requires
            old(udp_packet).wf(),
        ensures
            final(udp_packet).wf(),
            final(udp_packet).buffer == old(udp_packet).buffer,
            old(udp_packet).position <= final(udp_packet).position,
            match decode_question(old(udp_packet).buffer@, old(udp_packet).position as int) {
                Ok(res) => r is Ok && r->Ok_0@ == res.0 && r->Ok_0.question_type.wf()
                    && r->Ok_0.question_class.wf() && final(udp_packet).position == res.1,
                Err(e) => r == Err::<DnsQuestion, UdpPacketError>(e),
            },
    {
        let name = match udp_packet.read_domain_name() {
            Ok(value) => value,
            Err(error) => {
                return Err(error);
            },
        };
        let type_value = match udp_packet.read_u16() {
            Ok(value) => value,
            Err(error) => {
                return Err(error);
            },
        };
        let class_value = match udp_packet.read_u16() {
            Ok(value) => value,
            Err(error) => {
                return Err(error);
            },
        };
        Ok(
            DnsQuestion {
                name,
                question_type: CombinedType::from_u16(type_value),
                question_class: CombinedClass::from_u16(class_value),
            },
        )
    }
}

impl Default for DnsQuestion {
    /// A question for the reserved test domain, with the default type and
    /// class.
    fn default() -> (r: DnsQuestion)
        ensures
            r@.name == encode_dotted(TEST_DOMAIN.spec_bytes()),
            r@.question_type == CombinedType::RecordType(RecordType::A),
            r@.question_class == CombinedClass::RecordClass(RecordClass::IN),
    {
        proof {
            reveal_strlit("example.com");
            assert(vstd::string::is_ascii(TEST_DOMAIN));
            vstd::string::is_ascii_spec_bytes(TEST_DOMAIN);
            let sb = TEST_DOMAIN.spec_bytes();
            assert(sb =~= seq![
                101u8,
                120u8,
                97u8,
                109u8,
                112u8,
                108u8,
                101u8,
                46u8,
                99u8,
                111u8,
                109u8,
            ]);
            crate::udp_packet::lemma_first_dot_at(sb, 7);
            crate::udp_packet::lemma_first_dot_at(sb.skip(8), 3);
            reveal_with_fuel(crate::udp_packet::labels_ok, 3);
            assert(labels_ok(sb));
        }
        let name = match DomainName::from_str(TEST_DOMAIN) {
            Ok(value) => value,
            Err(_) => DomainName { bytes: Vec::new() },
        };
        DnsQuestion {
            name,
            question_type: CombinedType::RecordType(RecordType::A),
            question_class: CombinedClass::RecordClass(RecordClass::IN),
        }
    }
}


/// The mathematical view of a record's RDATA, names as their wire bytes.
pub enum RecordDataV {
    /// A 32-bit IPv4 address.
    A { ipv4_address: u32 },
    /// A 128-bit IPv6 address.
    AAAA { ipv6_address: u128 },
    /// The canonical name of an alias.
    CNAME { canonical_name: Seq<u8> },
    /// Zone information: two names and five 32-bit counters.
    SOA {
        domain_name: Seq<u8>,
        mailbox_address: Seq<u8>,
        serial: u32,
        refresh: u32,
        retry: u32,
        expire: u32,
        minimum: u32,
    },
    /// A mail exchange: a preference and its domain name.
    MX { preference: u16, exchange_address: Seq<u8> },
    /// A name server's domain name.
    NS { domain_name: Seq<u8> },
    /// The raw RDATA bytes of a record type this codec does not interpret.
    Unknown { bytes: Seq<u8> },
}

impl RecordDataV {
    /// The wire form of the RDATA, selected by the record type.
    pub open spec fn spec_bytes(self) -> Seq<u8> {
        match self {
            RecordDataV::A { ipv4_address } => u32_bytes(ipv4_address),
            RecordDataV::AAAA { ipv6_address } => crate::conversions::u128_bytes(ipv6_address),
            RecordDataV::CNAME { canonical_name } => canonical_name,
            RecordDataV::SOA {
                domain_name,
                mailbox_address,
                serial,
                refresh,
                retry,
                expire,
                minimum,
            } => domain_name + mailbox_address + u32_bytes(serial) + u32_bytes(refresh)
                + u32_bytes(retry) + u32_bytes(expire) + u32_bytes(minimum),
            RecordDataV::MX { preference, exchange_address } => u16_bytes(preference)
                + exchange_address,
            RecordDataV::NS { domain_name } => domain_name,
            RecordDataV::Unknown { bytes } => bytes,
        }
    }
}

/// The RDATA field of a resource record; its shape is selected by the
/// record's type. RDATA of an unrecognised type is kept as its raw bytes,
/// losslessly, rather than replaced by a placeholder.
#[derive(Debug, PartialEq)]
pub enum RecordData {
    /// An IPv4 address.
    A { ipv4_address: u32 },
    /// An IPv6 address.
    AAAA { ipv6_address: u128 },
    /// The canonical name of an alias.
    CNAME { canonical_name: DomainName },
    /// Zone information: the primary name server, the responsible mailbox,
    /// and five 32-bit counters.
    SOA {
        domain_name: DomainName,
        mailbox_address: DomainName,
        serial: u32,
        refresh: u32,
        retry: u32,
        expire: u32,
        minimum: u32,
    },
    /// A mail exchange: a preference value and the exchange's domain name.
    MX { preference: u16, exchange_address: DomainName },
    /// A name server's domain name.
    NS { domain_name: DomainName },
    /// The raw RDATA of a record type this codec does not interpret.
    Unknown { bytes: Vec<u8> },
}

impl View for RecordData {
    type V = RecordDataV;

    open spec fn view(&self) -> RecordDataV {
        match self {
            RecordData::A { ipv4_address } => RecordDataV::A { ipv4_address: *ipv4_address },
            RecordData::AAAA { ipv6_address } => RecordDataV::AAAA { ipv6_address: *ipv6_address },
            RecordData::CNAME { canonical_name } => RecordDataV::CNAME {
                canonical_name: canonical_name.bytes@,
            },
            RecordData::SOA {
                domain_name,
                mailbox_address,
                serial,
                refresh,
                retry,
                expire,
                minimum,
            } => RecordDataV::SOA {
                domain_name: domain_name.bytes@,
                mailbox_address: mailbox_address.bytes@,
                serial: *serial,
                refresh: *refresh,
                retry: *retry,
                expire: *expire,
                minimum: *minimum,
            },
            RecordData::MX { preference, exchange_address } => RecordDataV::MX {
                preference: *preference,
                exchange_address: exchange_address.bytes@,
            },
            RecordData::NS { domain_name } => RecordDataV::NS { domain_name: domain_name.bytes@ },
            RecordData::Unknown { bytes } => RecordDataV::Unknown { bytes: bytes@ },
        }
    }
}

/// The RDATA read at `pos` for a record of type `record_type` whose header
/// declared `rdata_length` bytes of RDATA. Known types give the length no
/// say; an unknown type's RDATA is exactly the declared bytes, consumed,
/// not skipped, so later sections stay aligned.
pub open spec fn decode_rdata(
    buf: Seq<u8>,
    pos: int,
    record_type: RecordType,
    rdata_length: u16,
) -> Result<(RecordDataV, int)> {
    match record_type {
        RecordType::A => match read_u32_at(buf, pos) {
            Err(e) => Err(e),
            Ok(v) => Ok((RecordDataV::A { ipv4_address: v.0 }, v.1)),
        },
        RecordType::AAAA => match read_u128_at(buf, pos) {
            Err(e) => Err(e),
            Ok(v) => Ok((RecordDataV::AAAA { ipv6_address: v.0 }, v.1)),
        },
        RecordType::CNAME => match name_decode(buf, pos) {
            Err(e) => Err(e),
            Ok(nm) => Ok((RecordDataV::CNAME { canonical_name: nm.0 }, pos + nm.1)),
        },
        RecordType::MX => match read_u16_at(buf, pos) {
            Err(e) => Err(e),
            Ok(p) => match name_decode(buf, p.1) {
                Err(e) => Err(e),
                Ok(nm) => Ok(
                    (
                        RecordDataV::MX { preference: p.0, exchange_address: nm.0 },
                        p.1 + nm.1,
                    ),
                ),
            },
        },
        RecordType::NS => match name_decode(buf, pos) {
            Err(e) => Err(e),
            Ok(nm) => Ok((RecordDataV::NS { domain_name: nm.0 }, pos + nm.1)),
        },
        RecordType::SOA => match name_decode(buf, pos) {
            Err(e) => Err(e),
            Ok(n1) => match name_decode(buf, pos + n1.1) {
                Err(e) => Err(e),
                Ok(n2) => match read_u32_at(buf, pos + n1.1 + n2.1) {
                    Err(e) => Err(e),
                    Ok(serial) => match read_u32_at(buf, serial.1) {
                        Err(e) => Err(e),
                        Ok(refresh) => match read_u32_at(buf, refresh.1) {
                            Err(e) => Err(e),
                            Ok(retry) => match read_u32_at(buf, retry.1) {
                                Err(e) => Err(e),
                                Ok(expire) => match read_u32_at(buf, expire.1) {
                                    Err(e) => Err(e),
                                    Ok(minimum) => Ok(
                                        (
                                            RecordDataV::SOA {
                                                domain_name: n1.0,
                                                mailbox_address: n2.0,
                                                serial: serial.0,
                                                refresh: refresh.0,
                                                retry: retry.0,
                                                expire: expire.0,
                                                minimum: minimum.0,
                                            },
                                            minimum.1,
                                        ),
                                    ),
                                },
                            },
                        },
                    },
                },
            },
        },
        RecordType::Unknown(_) => if pos + rdata_length < 512 {
            Ok(
                (
                    RecordDataV::Unknown { bytes: buf.subrange(pos, pos + rdata_length) },
                    pos + rdata_length,
                ),
            )
        } else {
            Err(
                UdpPacketError::OutOfBounds {
                    length: 512,
                    index: (pos + rdata_length) as usize,
                },
            )
        },
    }
}

impl RecordData {
    /// The wire bytes of this RDATA, as the record writer emits them.
    pub fn as_bytes(&self) -> (r: Vec<u8>)
        ensures
            r@ == self@.spec_bytes(),
    {
        let mut out: Vec<u8> = Vec::new();
        match self {
            RecordData::A { ipv4_address } => {
                push_u32(&mut out, *ipv4_address);
            },
            RecordData::AAAA { ipv6_address } => {
                let value = *ipv6_address;
                push_u32(&mut out, (value >> 96) as u32);
                push_u32(&mut out, (value >> 64) as u32);
                push_u32(&mut out, (value >> 32) as u32);
                push_u32(&mut out, value as u32);
                proof {
                    lemma_u128_bytes_from_u32(value);
                    assert(out@ =~= crate::conversions::u128_bytes(value));
                }
            },
            RecordData::CNAME { canonical_name } => {
                push_bytes(&mut out, &canonical_name.bytes);
            },
            RecordData::SOA {
                domain_name,
                mailbox_address,
                serial,
                refresh,
                retry,
                expire,
                minimum,
            } => {
                push_bytes(&mut out, &domain_name.bytes);
                push_bytes(&mut out, &mailbox_address.bytes);
                push_u32(&mut out, *serial);
                push_u32(&mut out, *refresh);
                push_u32(&mut out, *retry);
                push_u32(&mut out, *expire);
                push_u32(&mut out, *minimum);
                proof {
                    assert(out@ =~= self@.spec_bytes());
                }
            },
            RecordData::MX { preference, exchange_address } => {
                let preference_bytes = crate::conversions::u16_to_u8(*preference);
                out.push(preference_bytes[0]);
                out.push(preference_bytes[1]);
                push_bytes(&mut out, &exchange_address.bytes);
                proof {
                    assert(out@ =~= self@.spec_bytes());
                }
            },
            RecordData::NS { domain_name } => {
                push_bytes(&mut out, &domain_name.bytes);
            },
            RecordData::Unknown { bytes } => {
                push_bytes(&mut out, bytes);
            },
        }
        out
    }

    /// Reads the RDATA of a record of type `record_type` at the cursor. The
    /// declared `rdata_length` selects how many raw bytes an unknown type's
    /// RDATA holds; known types carry their own structure. The bytes of an
    /// unknown type are consumed, byte for byte, never skipped.
    pub fn read_from_udp_packet(
        udp_packet: &mut UdpPacket,
        record_type: RecordType,
        rdata_length: u16,
    ) -> (r: Result<RecordData>)
        requires
            old(udp_packet).wf(),
        ensures
            final(udp_packet).wf(),
            final(udp_packet).buffer == old(udp_packet).buffer,
            old(udp_packet).position <= final(udp_packet).position,
            match decode_rdata(
                old(udp_packet).buffer@,
                old(udp_packet).position as int,
                record_type,
                rdata_length,
            ) {
                Ok(res) => r is Ok && r->Ok_0@ == res.0 && final(udp_packet).position == res.1,
                Err(e) => r == Err::<RecordData, UdpPacketError>(e),
            },
    {
        match record_type {
            RecordType::A => {
                let ipv4_address = match udp_packet.read_u32() {
                    Ok(value) => value,
                    Err(error) => {
                        return Err(error);
                    },
                };
                Ok(RecordData::A { ipv4_address })
            },
            RecordType::AAAA => {
                let ipv6_address = match udp_packet.read_u128() {
                    Ok(value) => value,
                    Err(error) => {
                        return Err(error);
                    },
                };
                Ok(RecordData::AAAA { ipv6_address })
            },
            RecordType::CNAME => {
                let canonical_name = match udp_packet.read_domain_name() {
                    Ok(value) => value,
                    Err(error) => {
                        return Err(error);
                    },
                };
                Ok(RecordData::CNAME { canonical_name })
            },
            RecordType::MX => {
                let preference = match udp_packet.read_u16() {
                    Ok(value) => value,
                    Err(error) => {
                        return Err(error);
                    },
                };
                let exchange_address = match udp_packet.read_domain_name() {
                    Ok(value) => value,
                    Err(error) => {
                        return Err(error);
                    },
                };
                Ok(RecordData::MX { preference, exchange_address })
            },
            RecordType::NS => {
                let domain_name = match udp_packet.read_domain_name() {
                    Ok(value) => value,
                    Err(error) => {
                        return Err(error);
                    },
                };
                Ok(RecordData::NS { domain_name })
            },
            RecordType::SOA => {
                let domain_name = match udp_packet.read_domain_name() {
                    Ok(value) => value,
                    Err(error) => {
                        return Err(error);
                    },
                };
                let mailbox_address = match udp_packet.read_domain_name() {
                    Ok(value) => value,
                    Err(error) => {
                        return Err(error);
                    },
                };
                let serial = match udp_packet.read_u32() {
                    Ok(value) => value,
                    Err(error) => {
                        return Err(error);
                    },
                };
                let refresh = match udp_packet.read_u32() {
                    Ok(value) => value,
                    Err(error) => {
                        return Err(error);
                    },
                };
                let retry = match udp_packet.read_u32() {
                    Ok(value) => value,
                    Err(error) => {
                        return Err(error);
                    },
                };
                let expire = match udp_packet.read_u32() {
                    Ok(value) => value,
                    Err(error) => {
                        return Err(error);
                    },
                };
                let minimum = match udp_packet.read_u32() {
                    Ok(value) => value,
                    Err(error) => {
                        return Err(error);
                    },
                };
                Ok(
                    RecordData::SOA {
                        domain_name,
                        mailbox_address,
                        serial,
                        refresh,
                        retry,
                        expire,
                        minimum,
                    },
                )
            },
            RecordType::Unknown(_) => {
                let length = rdata_length as usize;
                let slice = match udp_packet.read_to_slice(udp_packet.position, length) {
                    Ok(value) => value,
                    Err(error) => {
                        return Err(error);
                    },
                };
                let bytes = vstd::slice::slice_to_vec(slice);
                udp_packet.position = udp_packet.position + length;
                Ok(RecordData::Unknown { bytes })
            },
        }
    }
}

/// Appends a 32-bit value's four big-endian bytes to a byte vector.
fn push_u32(out: &mut Vec<u8>, value: u32)
    ensures
        final(out)@ == old(out)@ + u32_bytes(value),
{
    let bytes = crate::conversions::u32_to_u8(value);
    out.push(bytes[0]);
    out.push(bytes[1]);
    out.push(bytes[2]);
    out.push(bytes[3]);
    proof {
        assert(out@ =~= old(out)@ + u32_bytes(value));
    }
}

/// Appends a byte vector's contents to another byte vector.
fn push_bytes(out: &mut Vec<u8>, bytes: &Vec<u8>)
    ensures
        final(out)@ == old(out)@ + bytes@,
{
    let mut index: usize = 0;
    while index < bytes.len()
        invariant
            index <= bytes@.len(),
            out@ == old(out)@ + bytes@.take(index as int),
        decreases bytes@.len() - index,
    {
        let value = bytes[index];
        out.push(value);
        index = index + 1;
        proof {
            assert(out@ =~= old(out)@ + bytes@.take(index as int));
        }
    }
    proof {
        assert(bytes@.take(bytes@.len() as int) =~= bytes@);
    }
}

/// A u128 split into four big-endian u32 quarters, most significant first,
/// gives the same bytes as splitting it directly.
proof fn lemma_u128_bytes_from_u32(value: u128)
    ensures
        u32_bytes((value >> 96) as u32) + u32_bytes((value >> 64) as u32) + u32_bytes(
            (value >> 32) as u32,
        ) + u32_bytes(value as u32) =~= crate::conversions::u128_bytes(value),
{
    assert((((value >> 96) as u32) >> 24) as u8 == (value >> 120) as u8
        && (((value >> 96) as u32) >> 16) as u8 == (value >> 112) as u8
        && (((value >> 96) as u32) >> 8) as u8 == (value >> 104) as u8
        && ((value >> 96) as u32) as u8 == (value >> 96) as u8
        && (((value >> 64) as u32) >> 24) as u8 == (value >> 88) as u8
        && (((value >> 64) as u32) >> 16) as u8 == (value >> 80) as u8
        && (((value >> 64) as u32) >> 8) as u8 == (value >> 72) as u8
        && ((value >> 64) as u32) as u8 == (value >> 64) as u8
        && (((value >> 32) as u32) >> 24) as u8 == (value >> 56) as u8
        && (((value >> 32) as u32) >> 16) as u8 == (value >> 48) as u8
        && (((value >> 32) as u32) >> 8) as u8 == (value >> 40) as u8
        && ((value >> 32) as u32) as u8 == (value >> 32) as u8
        && ((value as u32) >> 24) as u8 == (value >> 24) as u8
        && ((value as u32) >> 16) as u8 == (value >> 16) as u8
        && ((value as u32) >> 8) as u8 == (value >> 8) as u8
        && (value as u32) as u8 == value as u8) by (bit_vector);
}


/// The mathematical view of a resource record.
pub struct DnsRecordV {
    /// The wire bytes of the record's name.
    pub name: Seq<u8>,
    /// The record type.
    pub record_type: RecordType,
    /// The record class.
    pub record_class: RecordClass,
    /// Time to live, in seconds.
    pub ttl: u32,
    /// The declared RDATA length field.
    pub length: u16,
    /// The RDATA payload.
    pub data: RecordDataV,
}

impl DnsRecordV {
    /// The wire form of the record: name, type, class, TTL, declared RDATA
    /// length, then the RDATA bytes.
    pub open spec fn spec_bytes(self) -> Seq<u8> {
        self.name + u16_bytes(self.record_type.spec_to_u16()) + u16_bytes(
            self.record_class.spec_to_u16(),
        ) + u32_bytes(self.ttl) + u16_bytes(self.length) + self.data.spec_bytes()
    }

    /// The record's encoded length: its name, ten fixed bytes, and its
    /// RDATA.
    pub open spec fn spec_len(self) -> int {
        self.name.len() + 10 + self.data.spec_bytes().len() as int
    }
}

/// A resource record: a name, its type and class, a time to live, the
/// declared RDATA length, and the RDATA itself.
#[derive(Debug, PartialEq)]
pub struct DnsRecord {
    /// The domain name the record belongs to.
    pub name: DomainName,
    /// The record type, selecting the shape of the RDATA (16 bits).
    pub record_type: RecordType,
    /// The record class (16 bits).
    pub record_class: RecordClass,
    /// How long, in seconds, the record may be cached (32 bits).
    pub ttl: u32,
    /// The declared length, in bytes, of the RDATA field (16 bits).
    pub length: u16,
    /// The RDATA field: the name server's response data.
    pub data: RecordData,
}

impl View for DnsRecord {
    type V = DnsRecordV;

    open spec fn view(&self) -> DnsRecordV {
        DnsRecordV {
            name: self.name.bytes@,
            record_type: self.record_type,
            record_class: self.record_class,
            ttl: self.ttl,
            length: self.length,
            data: self.data@,
        }
    }
}

/// The record read at `pos`: a name, the type, class, TTL and declared
/// RDATA length, then the RDATA as the type just read dictates.
pub open spec fn decode_record(buf: Seq<u8>, pos: int) -> Result<(DnsRecordV, int)> {
    match name_decode(buf, pos) {
        Err(e) => Err(e),
        Ok(nm) => match read_u16_at(buf, pos + nm.1) {
            Err(e) => Err(e),
            Ok(rtype) => match read_u16_at(buf, rtype.1) {
                Err(e) => Err(e),
                Ok(rclass) => match read_u32_at(buf, rclass.1) {
                    Err(e) => Err(e),
                    Ok(ttl) => match read_u16_at(buf, ttl.1) {
                        Err(e) => Err(e),
                        Ok(len) => match decode_rdata(
                            buf,
                            len.1,
                            RecordType::spec_from_u16(rtype.0),
                            len.0,
                        ) {
                            Err(e) => Err(e),
                            Ok(data) => Ok(
                                (
                                    DnsRecordV {
                                        name: nm.0,
                                        record_type: RecordType::spec_from_u16(rtype.0),
                                        record_class: RecordClass::spec_from_u16(rclass.0),
                                        ttl: ttl.0,
                                        length: len.0,
                                        data: data.0,
                                    },
                                    data.1,
                                ),
                            ),
                        },
                    },
                },
            },
        },
    }
}

impl DnsRecord {
    /// Writes the record at the cursor: the name (reserving the ten fixed
    /// bytes that follow it), then type, class, TTL, declared RDATA length,
    /// and the RDATA bytes. When the name fits with its reserve but the
    /// RDATA does not, the name stays written and the error is returned.
    pub fn write_to_udp_packet(&self, udp_packet: &mut UdpPacket) -> (r: Result<()>)
        requires
            old(udp_packet).wf(),
        ensures
            final(udp_packet).wf(),
            old(udp_packet).position + self@.spec_len() < 512 ==> r == Ok::<(), UdpPacketError>(())
                && final(udp_packet).position == old(udp_packet).position + self@.spec_len()
                && final(udp_packet).buffer@ == spliced(
                old(udp_packet).buffer@,
                old(udp_packet).position as int,
                self@.spec_bytes(),
            ),
            old(udp_packet).position + self.name.bytes@.len() + 10 >= 512 ==> r == Err::<
                (),
                UdpPacketError,
            >(
                UdpPacketError::OutOfBounds {
                    length: 512,
                    index: oob_index(old(udp_packet).position + self.name.bytes@.len()),
                },
            ) && *final(udp_packet) == *old(udp_packet),
            old(udp_packet).position + self.name.bytes@.len() + 10 < 512 && old(udp_packet).position + self@.spec_len() >= 512 ==> r == Err::<(), UdpPacketError>(
                UdpPacketError::OutOfBounds {
                    length: 512,
                    index: oob_index(old(udp_packet).position + self@.spec_len()),
                },
            ) && final(udp_packet).position == old(udp_packet).position
                + self.name.bytes@.len() && final(udp_packet).buffer@ == spliced(
                old(udp_packet).buffer@,
                old(udp_packet).position as int,
                self.name.bytes@,
            ),
    {
        let ghost buf0 = udp_packet.buffer@;
        let ghost pos0 = udp_packet.position as int;
        match udp_packet.write_domain_name(&self.name, Some(10)) {
            Ok(value) => value,
            Err(error) => {
                return Err(error);
            },
        };
        let mut rest: Vec<u8> = Vec::new();
        let type_bytes = crate::conversions::u16_to_u8(self.record_type.to_u16());
        rest.push(type_bytes[0]);
        rest.push(type_bytes[1]);
        let class_bytes = crate::conversions::u16_to_u8(self.record_class.to_u16());
        rest.push(class_bytes[0]);
        rest.push(class_bytes[1]);
        push_u32(&mut rest, self.ttl);
        let length_bytes = crate::conversions::u16_to_u8(self.length);
        rest.push(length_bytes[0]);
        rest.push(length_bytes[1]);
        let mut data_bytes = self.data.as_bytes();
        push_bytes(&mut rest, &data_bytes);
        proof {
            assert(self.name.bytes@ + rest@ =~= self@.spec_bytes());
        }
        match udp_packet.write_from_slice(rest.as_slice(), None) {
            Ok(value) => value,
            Err(error) => {
                return Err(error);
            },
        };
        proof {
            assert(udp_packet.buffer@ =~= spliced(buf0, pos0, self@.spec_bytes()));
        }
        Ok(())
    }

    /// Reads a record at the cursor: a name, the fixed fields, then the
    /// RDATA as the type field dictates. An unknown type's RDATA is read as
    /// exactly the declared number of raw bytes.
    pub fn read_from_udp_packet(udp_packet: &mut UdpPacket) -> (r: Result<DnsRecord>)
        requires
            old(udp_packet).wf(),
        ensures
            final(udp_packet).wf(),
            final(udp_packet).buffer == old(udp_packet).buffer,
            old(udp_packet).position <= final(udp_packet).position,
            match decode_record(old(udp_packet).buffer@, old(udp_packet).position as int) {
                Ok(res) => r is Ok && r->Ok_0@ == res.0 && r->Ok_0.record_type.wf()
                    && r->Ok_0.record_class.wf() && final(udp_packet).position == res.1,
                Err(e) => r == Err::<DnsRecord, UdpPacketError>(e),
            },
    {
        let name = match udp_packet.read_domain_name() {
            Ok(value) => value,
            Err(error) => {
                return Err(error);
            },
        };
        let type_value = match udp_packet.read_u16() {
            Ok(value) => value,
            Err(error) => {
                return Err(error);
            },
        };
        let record_type = RecordType::from_u16(type_value);
        let class_value = match udp_packet.read_u16() {
            Ok(value) => value,
            Err(error) => {
                return Err(error);
            },
        };
        let record_class = RecordClass::from_u16(class_value);
        let ttl = match udp_packet.read_u32() {
            Ok(value) => value,
            Err(error) => {
                return Err(error);
            },
        };
        let length = match udp_packet.read_u16() {
            Ok(value) => value,
            Err(error) => {
                return Err(error);
            },
        };
        let data = match RecordData::read_from_udp_packet(udp_packet, record_type, length) {
            Ok(value) => value,
            Err(error) => {
                return Err(error);
            },
        };
        Ok(DnsRecord { name, record_type, record_class, ttl, length, data })
    }
}


/// The concatenated wire forms of a question section, in order.
pub open spec fn questions_bytes(questions: Seq<DnsQuestionV>) -> Seq<u8>
    decreases questions.len(),
{
    if questions.len() == 0 {
        Seq::empty()
    } else {
        questions_bytes(questions.drop_last()) + questions.last().spec_bytes()
    }
}

/// The concatenated wire forms of a record section, in order.
pub open spec fn records_bytes(records: Seq<DnsRecordV>) -> Seq<u8>
    decreases records.len(),
{
    if records.len() == 0 {
        Seq::empty()
    } else {
        records_bytes(records.drop_last()) + records.last().spec_bytes()
    }
}

/// Extending a question prefix by one entry appends that entry's bytes.
proof fn lemma_questions_bytes_step(questions: Seq<DnsQuestionV>, i: int)
    requires
        0 <= i < questions.len(),
    ensures
        questions_bytes(questions.take(i + 1)) == questions_bytes(questions.take(i))
            + questions[i].spec_bytes(),
{
    assert(questions.take(i + 1).drop_last() =~= questions.take(i));
    assert(questions.take(i + 1).last() == questions[i]);
}

/// A question prefix never encodes to more bytes than the whole section.
proof fn lemma_questions_bytes_prefix_len(questions: Seq<DnsQuestionV>, i: int)
    requires
        0 <= i <= questions.len(),
    ensures
        questions_bytes(questions.take(i)).len() <= questions_bytes(questions).len(),
    decreases questions.len() - i,
{
    if i == questions.len() {
        assert(questions.take(i) =~= questions);
    } else {
        lemma_questions_bytes_step(questions, i);
        lemma_questions_bytes_prefix_len(questions, i + 1);
    }
}

/// Extending a record prefix by one entry appends that entry's bytes.
proof fn lemma_records_bytes_step(records: Seq<DnsRecordV>, i: int)
    requires
        0 <= i < records.len(),
    ensures
        records_bytes(records.take(i + 1)) == records_bytes(records.take(i))
            + records[i].spec_bytes(),
{
    assert(records.take(i + 1).drop_last() =~= records.take(i));
    assert(records.take(i + 1).last() == records[i]);
}

/// A record prefix never encodes to more bytes than the whole section.
proof fn lemma_records_bytes_prefix_len(records: Seq<DnsRecordV>, i: int)
    requires
        0 <= i <= records.len(),
    ensures
        records_bytes(records.take(i)).len() <= records_bytes(records).len(),
    decreases records.len() - i,
{
    if i == records.len() {
        assert(records.take(i) =~= records);
    } else {
        lemma_records_bytes_step(records, i);
        lemma_records_bytes_prefix_len(records, i + 1);
    }
}

/// The mathematical view of a whole message.
pub struct DnsMessageV {
    /// The header, counts included.
    pub header: DnsHeader,
    /// The question section.
    pub questions: Seq<DnsQuestionV>,
    /// The answer section.
    pub answers: Seq<DnsRecordV>,
    /// The authority section.
    pub authorities: Seq<DnsRecordV>,
    /// The additional section.
    pub additional: Seq<DnsRecordV>,
}

impl DnsMessageV {
    /// The wire form of the whole message: the header, then the four
    /// sections in their fixed order.
    pub open spec fn spec_bytes(self) -> Seq<u8> {
        self.header.spec_bytes() + questions_bytes(self.questions) + records_bytes(self.answers)
            + records_bytes(self.authorities) + records_bytes(self.additional)
    }
}

/// A full DNS message: the header and its four sections. The header's
/// counts must equal the section lengths when the message is serialized.
#[derive(Debug, PartialEq)]
pub struct DnsMessage {
    /// The header: request metadata and the four section counts.
    pub header: DnsHeader,
    /// The question section.
    pub questions: Vec<DnsQuestion>,
    /// The answer section.
    pub answers: Vec<DnsRecord>,
    /// The authority section.
    pub authorities: Vec<DnsRecord>,
    /// The additional section.
    pub additional: Vec<DnsRecord>,
}

impl View for DnsMessage {
    type V = DnsMessageV;

    open spec fn view(&self) -> DnsMessageV {
        DnsMessageV {
            header: self.header,
            questions: self.questions@.map_values(|q: DnsQuestion| q@),
            answers: self.answers@.map_values(|a: DnsRecord| a@),
            authorities: self.authorities@.map_values(|a: DnsRecord| a@),
            additional: self.additional@.map_values(|a: DnsRecord| a@),
        }
    }
}

/// Writes a whole question section at the cursor, question by question.
fn write_question_section(udp_packet: &mut UdpPacket, questions: &Vec<DnsQuestion>) -> (r: Result<
    (),
>)
    requires
        old(udp_packet).wf(),
    ensures
        final(udp_packet).wf(),
        questions@.len() == 0 || old(udp_packet).position + questions_bytes(
            questions@.map_values(|q: DnsQuestion| q@),
        ).len() < 512 ==> r == Ok::<(), UdpPacketError>(()) && final(udp_packet).position == old(udp_packet).position + questions_bytes(questions@.map_values(|q: DnsQuestion| q@)).len() && final(udp_packet).buffer@ == spliced(
            old(udp_packet).buffer@,
            old(udp_packet).position as int,
            questions_bytes(questions@.map_values(|q: DnsQuestion| q@)),
        ),
        !(questions@.len() == 0 || old(udp_packet).position + questions_bytes(
            questions@.map_values(|q: DnsQuestion| q@),
        ).len() < 512) ==> r is Err && r->Err_0 is OutOfBounds,
{
    let ghost qs = questions@.map_values(|q: DnsQuestion| q@);
    let ghost buf0 = udp_packet.buffer@;
    let ghost pos0 = udp_packet.position as int;
    let mut index: usize = 0;
    proof {
        assert(qs.take(0) =~= Seq::<DnsQuestionV>::empty());
        assert(spliced(buf0, pos0, Seq::<u8>::empty()) =~= buf0);
    }
    while index < questions.len()
        invariant
            udp_packet.wf(),
            index <= questions@.len(),
            qs == questions@.map_values(|q: DnsQuestion| q@),
            qs.len() == questions@.len(),
            buf0 == old(udp_packet).buffer@,
            pos0 == old(udp_packet).position as int,
            buf0.len() == 512,
            0 <= pos0 <= 512,
            udp_packet.position == pos0 + questions_bytes(qs.take(index as int)).len(),
            udp_packet.buffer@ == spliced(buf0, pos0, questions_bytes(qs.take(index as int))),
            index > 0 ==> pos0 + questions_bytes(qs.take(index as int)).len() < 512,
        decreases questions@.len() - index,
    {
        let ghost prefix = questions_bytes(qs.take(index as int));
        let question = &questions[index];
        proof {
            assert(question@ == qs[index as int]);
        }
        match question.write_to_udp_packet(udp_packet) {
            Ok(_) => {},
            Err(error) => {
                proof {
                    lemma_questions_bytes_step(qs, index as int);
                    lemma_questions_bytes_prefix_len(qs, index + 1);
                    assert(qs[index as int].spec_bytes().len() == qs[index as int].spec_len());
                    assert(pos0 + questions_bytes(qs).len() >= 512);
                }
                return Err(error);
            },
        };
        proof {
            lemma_questions_bytes_step(qs, index as int);
            assert(spliced(spliced(buf0, pos0, prefix), pos0 + prefix.len(), qs[
                index as int].spec_bytes()) =~= spliced(
                buf0,
                pos0,
                prefix + qs[index as int].spec_bytes(),
            ));
        }
        index = index + 1;
    }
    proof {
        assert(qs.take(questions@.len() as int) =~= qs);
    }
    Ok(())
}

/// Writes a whole record section at the cursor, record by record.
fn write_record_section(udp_packet: &mut UdpPacket, records: &Vec<DnsRecord>) -> (r: Result<()>)
    requires
        old(udp_packet).wf(),
    ensures
        final(udp_packet).wf(),
        records@.len() == 0 || old(udp_packet).position + records_bytes(
            records@.map_values(|a: DnsRecord| a@),
        ).len() < 512 ==> r == Ok::<(), UdpPacketError>(()) && final(udp_packet).position == old(udp_packet).position + records_bytes(records@.map_values(|a: DnsRecord| a@)).len() && final(udp_packet).buffer@ == spliced(
            old(udp_packet).buffer@,
            old(udp_packet).position as int,
            records_bytes(records@.map_values(|a: DnsRecord| a@)),
        ),
        !(records@.len() == 0 || old(udp_packet).position + records_bytes(
            records@.map_values(|a: DnsRecord| a@),
        ).len() < 512) ==> r is Err && r->Err_0 is OutOfBounds,
{
    let ghost rs = records@.map_values(|a: DnsRecord| a@);
    let ghost buf0 = udp_packet.buffer@;
    let ghost pos0 = udp_packet.position as int;
    let mut index: usize = 0;
    proof {
        assert(rs.take(0) =~= Seq::<DnsRecordV>::empty());
        assert(spliced(buf0, pos0, Seq::<u8>::empty()) =~= buf0);
    }
    while index < records.len()
        invariant
            udp_packet.wf(),
            index <= records@.len(),
            rs == records@.map_values(|a: DnsRecord| a@),
            rs.len() == records@.len(),
            buf0 == old(udp_packet).buffer@,
            pos0 == old(udp_packet).position as int,
            buf0.len() == 512,
            0 <= pos0 <= 512,
            udp_packet.position == pos0 + records_bytes(rs.take(index as int)).len(),
            udp_packet.buffer@ == spliced(buf0, pos0, records_bytes(rs.take(index as int))),
            index > 0 ==> pos0 + records_bytes(rs.take(index as int)).len() < 512,
        decreases records@.len() - index,
    {
        let ghost prefix = records_bytes(rs.take(index as int));
        let record = &records[index];
        proof {
            assert(record@ == rs[index as int]);
        }
        match record.write_to_udp_packet(udp_packet) {
            Ok(_) => {},
            Err(error) => {
                proof {
                    lemma_records_bytes_step(rs, index as int);
                    lemma_records_bytes_prefix_len(rs, index + 1);
                    assert(rs[index as int].spec_bytes().len() == rs[index as int].spec_len());
                    assert(pos0 + records_bytes(rs).len() >= 512);
                }
                return Err(error);
            },
        };
        proof {
            lemma_records_bytes_step(rs, index as int);
            assert(spliced(spliced(buf0, pos0, prefix), pos0 + prefix.len(), rs[
                index as int].spec_bytes()) =~= spliced(
                buf0,
                pos0,
                prefix + rs[index as int].spec_bytes(),
            ));
        }
        index = index + 1;
    }
    proof {
        assert(rs.take(records@.len() as int) =~= rs);
    }
    Ok(())
}

impl DnsMessage {
    /// Serializes the message: the header, then exactly the declared number
    /// of questions, answers, authorities and additional records, in that
    /// order. The contract requires each header count to equal its
    /// section's length; the write succeeds exactly when the header starts
    /// within bytes 0 to 11 and the whole message fits the buffer.
    #[verifier::rlimit(60)]
    pub fn write_to_udp_packet(&self, udp_packet: &mut UdpPacket) -> (r: Result<()>)
        requires
            old(udp_packet).wf(),
            self.header.wf(),
            self.header.question_count == self.questions@.len(),
            self.header.answer_count == self.answers@.len(),
            self.header.authority_count == self.authorities@.len(),
            self.header.additional_count == self.additional@.len(),
        ensures
            final(udp_packet).wf(),
            old(udp_packet).position < 12 && old(udp_packet).position + self@.spec_bytes().len()
                < 512 ==> r == Ok::<(), UdpPacketError>(()) && final(udp_packet).position == old(udp_packet).position + self@.spec_bytes().len() && final(udp_packet).buffer@ == spliced(
                old(udp_packet).buffer@,
                old(udp_packet).position as int,
                self@.spec_bytes(),
            ),
            !(old(udp_packet).position < 12 && old(udp_packet).position + self@.spec_bytes().len()
                < 512) ==> r is Err && r->Err_0 is OutOfBounds,
    {
        let ghost mv = self@;
        let ghost buf0 = udp_packet.buffer@;
        let ghost pos0 = udp_packet.position as int;
        match self.header.write_to_udp_packet(udp_packet) {
            Ok(_) => {},
            Err(error) => {
                return Err(error);
            },
        };
        match write_question_section(udp_packet, &self.questions) {
            Ok(_) => {},
            Err(error) => {
                return Err(error);
            },
        };
        proof {
            assert(spliced(
                spliced(buf0, pos0, self.header.spec_bytes()),
                pos0 + 12,
                questions_bytes(mv.questions),
            ) =~= spliced(buf0, pos0, self.header.spec_bytes() + questions_bytes(mv.questions)));
        }
        match write_record_section(udp_packet, &self.answers) {
            Ok(_) => {},
            Err(error) => {
                return Err(error);
            },
        };
        proof {
            assert(spliced(
                spliced(buf0, pos0, self.header.spec_bytes() + questions_bytes(mv.questions)),
                pos0 + 12 + questions_bytes(mv.questions).len(),
                records_bytes(mv.answers),
            ) =~= spliced(
                buf0,
                pos0,
                self.header.spec_bytes() + questions_bytes(mv.questions) + records_bytes(
                    mv.answers,
                ),
            ));
        }
        match write_record_section(udp_packet, &self.authorities) {
            Ok(_) => {},
            Err(error) => {
                return Err(error);
            },
        };
        proof {
            assert(spliced(
                spliced(
                    buf0,
                    pos0,
                    self.header.spec_bytes() + questions_bytes(mv.questions) + records_bytes(
                        mv.answers,
                    ),
                ),
                pos0 + 12 + questions_bytes(mv.questions).len() + records_bytes(mv.answers).len(),
                records_bytes(mv.authorities),
            ) =~= spliced(
                buf0,
                pos0,
                self.header.spec_bytes() + questions_bytes(mv.questions) + records_bytes(
                    mv.answers,
                ) + records_bytes(mv.authorities),
            ));
        }
        match write_record_section(udp_packet, &self.additional) {
            Ok(_) => {},
            Err(error) => {
                return Err(error);
            },
        };
        proof {
            assert(spliced(
                spliced(
                    buf0,
                    pos0,
                    self.header.spec_bytes() + questions_bytes(mv.questions) + records_bytes(
                        mv.answers,
                    ) + records_bytes(mv.authorities),
                ),
                pos0 + 12 + questions_bytes(mv.questions).len() + records_bytes(mv.answers).len()
                    + records_bytes(mv.authorities).len(),
                records_bytes(mv.additional),
            ) =~= spliced(buf0, pos0, mv.spec_bytes()));
            assert(mv.spec_bytes() =~= self.header.spec_bytes() + questions_bytes(mv.questions)
                + records_bytes(mv.answers) + records_bytes(mv.authorities) + records_bytes(
                mv.additional,
            ));
        }
        Ok(())
    }
}


/// `count` questions read in sequence from `pos`: the views in order and
/// the position after the last.
pub open spec fn decode_questions(buf: Seq<u8>, pos: int, count: int) -> Result<
    (Seq<DnsQuestionV>, int),
>
    decreases count,
{
    if count <= 0 {
        Ok((Seq::empty(), pos))
    } else {
        match decode_question(buf, pos) {
            Err(e) => Err(e),
            Ok(q) => match decode_questions(buf, q.1, count - 1) {
                Err(e) => Err(e),
                Ok(rest) => Ok((seq![q.0] + rest.0, rest.1)),
            },
        }
    }
}

/// `count` records read in sequence from `pos`: the views in order and the
/// position after the last.
pub open spec fn decode_records(buf: Seq<u8>, pos: int, count: int) -> Result<
    (Seq<DnsRecordV>, int),
>
    decreases count,
{
    if count <= 0 {
        Ok((Seq::empty(), pos))
    } else {
        match decode_record(buf, pos) {
            Err(e) => Err(e),
            Ok(record) => match decode_records(buf, record.1, count - 1) {
                Err(e) => Err(e),
                Ok(rest) => Ok((seq![record.0] + rest.0, rest.1)),
            },
        }
    }
}

/// The whole message read at `pos`: the header first, then exactly as many
/// questions and records as the header's counts declare.
pub open spec fn decode_message(buf: Seq<u8>, pos: int) -> Result<(DnsMessageV, int)> {
    match decode_header(buf, pos) {
        Err(e) => Err(e),
        Ok(h) => match decode_questions(buf, h.1, h.0.question_count as int) {
            Err(e) => Err(e),
            Ok(qs) => match decode_records(buf, qs.1, h.0.answer_count as int) {
                Err(e) => Err(e),
                Ok(answers) => match decode_records(buf, answers.1, h.0.authority_count as int) {
                    Err(e) => Err(e),
                    Ok(authorities) => match decode_records(
                        buf,
                        authorities.1,
                        h.0.additional_count as int,
                    ) {
                        Err(e) => Err(e),
                        Ok(additional) => Ok(
                            (
                                DnsMessageV {
                                    header: h.0,
                                    questions: qs.0,
                                    answers: answers.0,
                                    authorities: authorities.0,
                                    additional: additional.0,
                                },
                                additional.1,
                            ),
                        ),
                    },
                },
            },
        },
    }
}

/// Reads `count` questions in sequence at the cursor.
fn read_question_section(udp_packet: &mut UdpPacket, count: u16) -> (r: Result<Vec<DnsQuestion>>)
    requires
        old(udp_packet).wf(),
    ensures
        final(udp_packet).wf(),
        final(udp_packet).buffer@ == old(udp_packet).buffer@,
        old(udp_packet).position <= final(udp_packet).position,
        match decode_questions(
            old(udp_packet).buffer@,
            old(udp_packet).position as int,
            count as int,
        ) {
            Ok(res) => r is Ok && r->Ok_0@.map_values(|q: DnsQuestion| q@) == res.0 && final(udp_packet).position == res.1,
            Err(e) => r == Err::<Vec<DnsQuestion>, UdpPacketError>(e),
        },
{
    let ghost buf = old(udp_packet).buffer@;
    let ghost pos0 = old(udp_packet).position as int;
    let mut questions: Vec<DnsQuestion> = Vec::new();
    let mut index: u16 = 0;
    proof {
        assert(questions@.map_values(|q: DnsQuestion| q@) =~= Seq::<DnsQuestionV>::empty());
        if decode_questions(buf, pos0, count as int) is Ok {
            let res = decode_questions(buf, pos0, count as int)->Ok_0;
            assert(Seq::<DnsQuestionV>::empty() + res.0 =~= res.0);
        }
    }
    while index < count
        invariant
            udp_packet.wf(),
            index <= count,
            buf == old(udp_packet).buffer@,
            pos0 == old(udp_packet).position as int,
            udp_packet.buffer@ == buf,
            pos0 <= udp_packet.position,
            decode_questions(buf, pos0, count as int) == (match decode_questions(
                buf,
                udp_packet.position as int,
                count - index,
            ) {
                Ok(rest) => Ok::<(Seq<DnsQuestionV>, int), UdpPacketError>(
                    (questions@.map_values(|q: DnsQuestion| q@) + rest.0, rest.1),
                ),
                Err(e) => Err(e),
            }),
        decreases count - index,
    {
        let ghost acc = questions@.map_values(|q: DnsQuestion| q@);
        let question = match DnsQuestion::read_from_udp_packet(udp_packet) {
            Ok(value) => value,
            Err(error) => {
                return Err(error);
            },
        };
        questions.push(question);
        index = index + 1;
        proof {
            assert(questions@.map_values(|q: DnsQuestion| q@) =~= acc + seq![question@]);
            if decode_questions(buf, udp_packet.position as int, count - index) is Ok {
                let rest = decode_questions(buf, udp_packet.position as int, count - index)->Ok_0;
                assert(acc + (seq![question@] + rest.0) =~= (acc + seq![question@]) + rest.0);
            }
        }
    }
    Ok(questions)
}

/// Reads `count` records in sequence at the cursor.
fn read_record_section(udp_packet: &mut UdpPacket, count: u16) -> (r: Result<Vec<DnsRecord>>)
    requires
        old(udp_packet).wf(),
    ensures
        final(udp_packet).wf(),
        final(udp_packet).buffer@ == old(udp_packet).buffer@,
        old(udp_packet).position <= final(udp_packet).position,
        match decode_records(
            old(udp_packet).buffer@,
            old(udp_packet).position as int,
            count as int,
        ) {
            Ok(res) => r is Ok && r->Ok_0@.map_values(|a: DnsRecord| a@) == res.0 && final(udp_packet).position == res.1,
            Err(e) => r == Err::<Vec<DnsRecord>, UdpPacketError>(e),
        },
{
    let ghost buf = old(udp_packet).buffer@;
    let ghost pos0 = old(udp_packet).position as int;
    let mut records: Vec<DnsRecord> = Vec::new();
    let mut index: u16 = 0;
    proof {
        assert(records@.map_values(|a: DnsRecord| a@) =~= Seq::<DnsRecordV>::empty());
        if decode_records(buf, pos0, count as int) is Ok {
            let res = decode_records(buf, pos0, count as int)->Ok_0;
            assert(Seq::<DnsRecordV>::empty() + res.0 =~= res.0);
        }
    }
    while index < count
        invariant
            udp_packet.wf(),
            index <= count,
            buf == old(udp_packet).buffer@,
            pos0 == old(udp_packet).position as int,
            udp_packet.buffer@ == buf,
            pos0 <= udp_packet.position,
            decode_records(buf, pos0, count as int) == (match decode_records(
                buf,
                udp_packet.position as int,
                count - index,
            ) {
                Ok(rest) => Ok::<(Seq<DnsRecordV>, int), UdpPacketError>(
                    (records@.map_values(|a: DnsRecord| a@) + rest.0, rest.1),
                ),
                Err(e) => Err(e),
            }),
        decreases count - index,
    {
        let ghost acc = records@.map_values(|a: DnsRecord| a@);
        let record = match DnsRecord::read_from_udp_packet(udp_packet) {
            Ok(value) => value,
            Err(error) => {
                return Err(error);
            },
        };
        records.push(record);
        index = index + 1;
        proof {
            assert(records@.map_values(|a: DnsRecord| a@) =~= acc + seq![record@]);
            if decode_records(buf, udp_packet.position as int, count - index) is Ok {
                let rest = decode_records(buf, udp_packet.position as int, count - index)->Ok_0;
                assert(acc + (seq![record@] + rest.0) =~= (acc + seq![record@]) + rest.0);
            }
        }
    }
    Ok(records)
}

impl DnsMessage {
    /// Deserializes a message at the cursor: the header first, then exactly
    /// as many questions and records as the header's counts declare.
    /// Declared counts that exceed what the buffer holds surface as the
    /// underlying out-of-bounds error.
    pub fn read_from_udp_packet(udp_packet: &mut UdpPacket) -> (r: Result<DnsMessage>)
        requires
            old(udp_packet).wf(),
        ensures
            final(udp_packet).wf(),
            final(udp_packet).buffer@ == old(udp_packet).buffer@,
            old(udp_packet).position <= final(udp_packet).position,
            match decode_message(old(udp_packet).buffer@, old(udp_packet).position as int) {
                Ok(res) => r is Ok && r->Ok_0@ == res.0 && final(udp_packet).position == res.1,
                Err(e) => r == Err::<DnsMessage, UdpPacketError>(e),
            },
    {
        let header = match DnsHeader::read_from_udp_packet(udp_packet) {
            Ok(value) => value,
            Err(error) => {
                return Err(error);
            },
        };
        let questions = match read_question_section(udp_packet, header.question_count) {
            Ok(value) => value,
            Err(error) => {
                return Err(error);
            },
        };
        let answers = match read_record_section(udp_packet, header.answer_count) {
            Ok(value) => value,
            Err(error) => {
                return Err(error);
            },
        };
        let authorities = match read_record_section(udp_packet, header.authority_count) {
            Ok(value) => value,
            Err(error) => {
                return Err(error);
            },
        };
        let additional = match read_record_section(udp_packet, header.additional_count) {
            Ok(value) => value,
            Err(error) => {
                return Err(error);
            },
        };
        Ok(DnsMessage { header, questions, answers, authorities, additional })
    }
}

impl Default for DnsMessage {
    /// A recursive standard query for the reserved test domain: the default
    /// header with one question and empty record sections.
    fn default() -> (r: DnsMessage)
        ensures
            r.header == (DnsHeader {
                id: 0,
                response: false,
                operation_code: OperationCode::QUERY,
                authoritative_answer: false,
                truncated: false,
                recursion_desired: RECURSION_DESIRED,
                recursion_available: false,
                z: 0,
                response_code: ResponseCode::NOERROR,
                question_count: QUESTION_COUNT,
                answer_count: 0,
                authority_count: 0,
                additional_count: 0,
            }),
            r.header.wf(),
            r.questions@.len() == 1,
            r.questions@[0]@.name == encode_dotted(TEST_DOMAIN.spec_bytes()),
            r.questions@[0]@.question_type == CombinedType::RecordType(RecordType::A),
            r.questions@[0]@.question_class == CombinedClass::RecordClass(RecordClass::IN),
            r.answers@.len() == 0,
            r.authorities@.len() == 0,
            r.additional@.len() == 0,
    {
        let mut questions: Vec<DnsQuestion> = Vec::new();
        questions.push(DnsQuestion::default());
        DnsMessage {
            header: DnsHeader::default(),
            questions,
            answers: Vec::new(),
            authorities: Vec::new(),
            additional: Vec::new(),
        }
    }
}


/// Unknown-type opacity: a record of a type this codec does not interpret,
/// whose declared RDATA length matches its raw bytes, decodes from its own
/// encoding back to exactly itself: the RDATA crosses the wire as raw
/// bytes, uninterpreted, and the cursor moves over exactly the record.
pub proof fn lemma_unknown_record_round_trip(buf: Seq<u8>, pos: int, record: DnsRecordV)
    requires
        buf.len() == 512,
        0 <= pos,
        crate::udp_packet::wire_name_wf(record.name),
        record.record_type is Unknown,
        record.record_type.wf(),
        record.record_class.wf(),
        record.data is Unknown,
        record.data->Unknown_bytes.len() == record.length,
        pos + record.spec_len() < 512,
        buf.subrange(pos, pos + record.spec_len()) == record.spec_bytes(),
    ensures
        decode_record(buf, pos) == Ok::<(DnsRecordV, int), UdpPacketError>(
            (record, pos + record.spec_len()),
        ),
{
    let bytes = record.spec_bytes();
    let nl = record.name.len() as int;
    let data = record.data->Unknown_bytes;
    assert(record.data.spec_bytes() == data);
    assert(bytes.len() == record.spec_len());
    assert forall|k: int| 0 <= k < bytes.len() implies buf[pos + k] == bytes[k] by {
        assert(buf.subrange(pos, pos + record.spec_len())[k] == buf[pos + k]);
    }
    let tw = u16_bytes(record.record_type.spec_to_u16());
    let cw = u16_bytes(record.record_class.spec_to_u16());
    let ttlw = u32_bytes(record.ttl);
    let lw = u16_bytes(record.length);
    assert(bytes[nl] == tw[0] && bytes[nl + 1] == tw[1]);
    assert(bytes[nl + 2] == cw[0] && bytes[nl + 3] == cw[1]);
    assert(bytes[nl + 4] == ttlw[0] && bytes[nl + 5] == ttlw[1] && bytes[nl + 6] == ttlw[2]
        && bytes[nl + 7] == ttlw[3]);
    assert(bytes[nl + 8] == lw[0] && bytes[nl + 9] == lw[1]);
    assert(buf.subrange(pos, pos + nl) =~= record.name);
    crate::udp_packet::lemma_name_round_trip(buf, pos, record.name);
    crate::conversions::lemma_u16_bytes_roundtrip(record.record_type.spec_to_u16());
    crate::conversions::lemma_u16_bytes_roundtrip(record.record_class.spec_to_u16());
    crate::conversions::lemma_u32_bytes_roundtrip(record.ttl);
    crate::conversions::lemma_u16_bytes_roundtrip(record.length);
    assert forall|k: int| 0 <= k < data.len() implies bytes[nl + 10 + k] == data[k] by {
        assert((record.name + tw + cw + ttlw + lw).len() == nl + 10);
    }
    assert(buf.subrange(pos + nl + 10, pos + nl + 10 + record.length) =~= data);
    assert(decode_rdata(buf, pos + nl + 10, record.record_type, record.length) == Ok::<
        (RecordDataV, int),
        UdpPacketError,
    >((record.data, pos + record.spec_len())));
}

} // verus!
