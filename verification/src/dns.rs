//! DNS messages as plain values, and the two calls into `trust_dns_proto`
//! that turn wire bytes into such values and back.

use vstd::prelude::*;
use trust_dns_proto::error::ProtoError;
use trust_dns_proto::op::{Message, MessageType, OpCode, Query};
use trust_dns_proto::rr::{rdata, DNSClass, Name, RData, Record, RecordType};

verus! {

/// DNS class `IN`.
pub const DNS_CLASS_IN: u16 = 1;

/// Record type `A`.
pub const RECORD_TYPE_A: u16 = 1;

/// Record type `AAAA`.
pub const RECORD_TYPE_AAAA: u16 = 28;

/// Record type `HTTPS`.
pub const RECORD_TYPE_HTTPS: u16 = 65;

/// Operation code `QUERY`.
pub const OP_CODE_QUERY: u8 = 0;

/// Response code `NOERROR`.
pub const RESPONSE_CODE_NO_ERROR: u16 = 0;

/// One question of a DNS message.
pub struct DnsQuery {
    /// The raw labels of the queried name, in wire order.
    pub labels: Vec<Vec<u8>>,
    /// Whether the name is fully qualified (ends with the root).
    pub is_fqdn: bool,
    /// The name in escaped ASCII text form, with a final '.' when fully qualified.
    pub ascii: String,
    pub query_type: u16,
    pub query_class: u16,
}

/// The header fields and questions of a decoded DNS request.
pub struct DnsRequest {
    pub id: u16,
    pub op_code: u8,
    pub recursion_desired: bool,
    pub checking_disabled: bool,
    pub queries: Vec<DnsQuery>,
}

/// An `A` record answer, of class `IN`.
pub struct DnsARecord {
    pub labels: Vec<Vec<u8>>,
    pub ttl: u32,
    pub address: [u8; 4],
}

/// A DNS response to be encoded.
pub struct DnsResponse {
    pub id: u16,
    pub op_code: u8,
    pub recursion_desired: bool,
    pub checking_disabled: bool,
    pub response_code: u16,
    pub queries: Vec<DnsQuery>,
    pub answers: Vec<DnsARecord>,
}

/// Failure of the DNS codec.
#[derive(Debug, Clone, Copy, PartialEq, Eq)]
pub struct DnsCodecError;

pub struct DnsQueryModel {
    pub labels: Seq<Seq<u8>>,
    pub is_fqdn: bool,
    pub ascii: Seq<char>,
    pub query_type: u16,
    pub query_class: u16,
}

pub struct DnsRequestModel {
    pub id: u16,
    pub op_code: u8,
    pub recursion_desired: bool,
    pub checking_disabled: bool,
    pub queries: Seq<DnsQueryModel>,
}

pub struct DnsARecordModel {
    pub labels: Seq<Seq<u8>>,
    pub ttl: u32,
    pub address: Seq<u8>,
}

pub struct DnsResponseModel {
    pub id: u16,
    pub op_code: u8,
    pub recursion_desired: bool,
    pub checking_disabled: bool,
    pub response_code: u16,
    pub queries: Seq<DnsQueryModel>,
    pub answers: Seq<DnsARecordModel>,
}

pub open spec fn labels_view(l: Seq<Vec<u8>>) -> Seq<Seq<u8>> {
    Seq::new(l.len(), |i: int| l[i]@)
}

impl View for DnsQuery {
    type V = DnsQueryModel;

    open spec fn view(&self) -> DnsQueryModel {
        DnsQueryModel {
            labels: labels_view(self.labels@),
            is_fqdn: self.is_fqdn,
            ascii: self.ascii@,
            query_type: self.query_type,
            query_class: self.query_class,
        }
    }
}

pub open spec fn queries_view(q: Seq<DnsQuery>) -> Seq<DnsQueryModel> {
    Seq::new(q.len(), |i: int| q[i]@)
}

impl View for DnsRequest {
    type V = DnsRequestModel;

    open spec fn view(&self) -> DnsRequestModel {
        DnsRequestModel {
            id: self.id,
            op_code: self.op_code,
            recursion_desired: self.recursion_desired,
            checking_disabled: self.checking_disabled,
            queries: queries_view(self.queries@),
        }
    }
}

impl View for DnsARecord {
    type V = DnsARecordModel;

    open spec fn view(&self) -> DnsARecordModel {
        DnsARecordModel {
            labels: labels_view(self.labels@),
            ttl: self.ttl,
            address: self.address@,
        }
    }
}

impl View for DnsResponse {
    type V = DnsResponseModel;

    open spec fn view(&self) -> DnsResponseModel {
        DnsResponseModel {
            id: self.id,
            op_code: self.op_code,
            recursion_desired: self.recursion_desired,
            checking_disabled: self.checking_disabled,
            response_code: self.response_code,
            queries: queries_view(self.queries@),
            answers: Seq::new(self.answers@.len(), |i: int| self.answers@[i]@),
        }
    }
}

/// What `trust_dns_proto` decodes from the given wire bytes, if they form a
/// DNS message.
pub uninterp spec fn dns_decode(bytes: Seq<u8>) -> Option<DnsRequestModel>;

/// The wire bytes that `trust_dns_proto` encodes for the given message, if it
/// can encode it.
pub uninterp spec fn dns_encode(message: DnsResponseModel) -> Option<Seq<u8>>;

/// The error of `trust_dns_proto`, carried through untouched.
#[verifier::external_type_specification]
#[verifier::external_body]
pub struct ExProtoError(ProtoError);

/// Decodes a DNS message with `Message::from_vec` and reads out its header
/// flags and questions; each name is read as its raw labels, its
/// fully-qualified flag and `Name::to_ascii`. The contract claims only that
/// the result is a function of the bytes (named `dns_decode`).
#[verifier::external_body]
fn decode_message(bytes: &[u8]) -> (r: Result<DnsRequest, ProtoError>)
    ensures
        match r {
            Ok(m) => dns_decode(bytes@) == Some(m@),
            Err(_) => dns_decode(bytes@) is None,
        },
{
    let m = Message::from_vec(bytes)?;
    let queries = m.queries().iter().map(|q| DnsQuery {
        labels: q.name().iter().map(|l| l.to_vec()).collect(),
        is_fqdn: q.name().is_fqdn(),
        ascii: q.name().to_ascii(),
        query_type: u16::from(q.query_type()),
        query_class: u16::from(q.query_class()),
    }).collect();
    Ok(DnsRequest { id: m.id(), op_code: u8::from(m.op_code()), recursion_desired: m.recursion_desired(),
        checking_disabled: m.checking_disabled(), queries })
}

/// Builds a `trust_dns_proto::op::Message` of type response from the plain
/// values (names with `Name::from_labels`, which makes them fully qualified;
/// answers with `Record::from_rdata`, which gives them class `IN`) and
/// encodes it with `Message::to_vec`. The contract claims only that the
/// result is a function of the message (named `dns_encode`).
#[verifier::external_body]
fn encode_message(r: &DnsResponse) -> (out: Result<Vec<u8>, ProtoError>)
    ensures
        match out {
            Ok(b) => dns_encode(r@) == Some(b@),
            Err(_) => dns_encode(r@) is None,
        },
{
    let mut m = Message::new();
    m.set_id(r.id).set_message_type(MessageType::Response).set_op_code(OpCode::from_u8(r.op_code)?)
        .set_recursion_desired(r.recursion_desired).set_checking_disabled(r.checking_disabled)
        .set_response_code(r.response_code.into());
    for q in &r.queries {
        m.add_query(Query::query(Name::from_labels(q.labels.clone())?, RecordType::from(q.query_type)).set_query_class(DNSClass::from_u16(q.query_class)?).clone());
    }
    for a in &r.answers {
        m.add_answer(Record::from_rdata(Name::from_labels(a.labels.clone())?, a.ttl, RData::A(rdata::A(a.address.into()))));
    }
    m.to_vec()
}

/// Decodes a DNS message from wire bytes.
pub fn decode_request(bytes: &[u8]) -> (r: Result<DnsRequest, DnsCodecError>)
    ensures
        match r {
            Ok(m) => dns_decode(bytes@) == Some(m@),
            Err(_) => dns_decode(bytes@) is None,
        },
{
    match decode_message(bytes) {
        Ok(m) => Ok(m),
        Err(_) => Err(DnsCodecError),
    }
}

/// Encodes a DNS response to wire bytes.
pub fn encode_response(r: &DnsResponse) -> (out: Result<Vec<u8>, DnsCodecError>)
    ensures
        match out {
            Ok(b) => dns_encode(r@) == Some(b@),
            Err(_) => dns_encode(r@) is None,
        },
{
    match encode_message(r) {
        Ok(b) => Ok(b),
        Err(_) => Err(DnsCodecError),
    }
}

} // verus!
