//! Requests and replies.

use vstd::prelude::*;

use crate::dns::DnsName;

verus! {

/// Whether a message asks or answers.
#[derive(Clone, Copy, Debug, PartialEq, Eq, Structural)]
pub enum MessageType {
    Query,
    Response,
}

/// The kind of operation that a message is about.
#[derive(Clone, Copy, Debug, PartialEq, Eq, Structural)]
pub enum OpCode {
    Query,
    Status,
    Notify,
    Update,
}

/// The outcome that a reply reports. `Other` holds the number of a code that
/// this server never gives.
#[derive(Clone, Copy, Debug, PartialEq, Eq, Structural)]
pub enum ResponseCode {
    NoError,
    ServFail,
    NXDomain,
    NotImp,
    Refused,
    Other(u16),
}

/// The type of record that is asked for. `Other` holds the number of a type
/// that containers have no records of.
#[derive(Clone, Copy, Debug, PartialEq, Eq, Structural)]
pub enum RecordType {
    A,
    AAAA,
    SRV,
    Other(u16),
}

/// A message header, without the counts of its sections.
#[derive(Clone, Copy, Debug, PartialEq, Eq, Structural)]
pub struct Header {
    pub id: u16,
    pub message_type: MessageType,
    pub op_code: OpCode,
    pub authoritative: bool,
    pub truncated: bool,
    pub recursion_desired: bool,
    pub recursion_available: bool,
    pub authentic_data: bool,
    pub checking_disabled: bool,
    pub response_code: ResponseCode,
}

/// The header of a reply to `request`: its id, operation, RD and CD are
/// copied, everything else is off.
pub open spec fn response_header(request: Header) -> Header {
    Header {
        id: request.id,
        message_type: MessageType::Response,
        op_code: request.op_code,
        authoritative: false,
        truncated: false,
        recursion_desired: request.recursion_desired,
        recursion_available: false,
        authentic_data: false,
        checking_disabled: request.checking_disabled,
        response_code: ResponseCode::NoError,
    }
}

impl Header {
    /// The header of a reply to `header`.
    pub fn response_from_request(header: &Header) -> (r: Header)
        ensures
            r == response_header(*header),
    {
        Header {
            id: header.id,
            message_type: MessageType::Response,
            op_code: header.op_code,
            authoritative: false,
            truncated: false,
            recursion_desired: header.recursion_desired,
            recursion_available: false,
            authentic_data: false,
            checking_disabled: header.checking_disabled,
            response_code: ResponseCode::NoError,
        }
    }
}

/// The data of a record.
#[derive(Debug, PartialEq, Eq)]
pub enum RecordData {
    A(u32),
    AAAA(u128),
    SRV { priority: u16, weight: u16, port: u16, target: DnsName },
}

/// A resource record of the Internet class.
#[derive(Debug, PartialEq, Eq)]
pub struct Record {
    pub name: DnsName,
    pub ttl: u32,
    pub data: RecordData,
}

/// What `RecordData` holds, names as labels.
pub enum DataView {
    A(u32),
    AAAA(u128),
    SRV { priority: u16, weight: u16, port: u16, target: Seq<Seq<u8>> },
}

/// What a `Record` holds, names as labels.
pub struct RecordView {
    pub name: Seq<Seq<u8>>,
    pub ttl: u32,
    pub data: DataView,
}

impl View for RecordData {
    type V = DataView;

    open spec fn view(&self) -> DataView {
        match self {
            RecordData::A(v) => DataView::A(*v),
            RecordData::AAAA(v) => DataView::AAAA(*v),
            RecordData::SRV { priority, weight, port, target } => DataView::SRV {
                priority: *priority,
                weight: *weight,
                port: *port,
                target: target@,
            },
        }
    }
}

impl View for Record {
    type V = RecordView;

    open spec fn view(&self) -> RecordView {
        RecordView { name: self.name@, ttl: self.ttl, data: self.data@ }
    }
}

/// The records of a list.
pub open spec fn records(list: Seq<Record>) -> Seq<RecordView> {
    list.map_values(|r: Record| r@)
}

/// A request with its one question, the case of the name preserved.
#[derive(Debug)]
pub struct Request {
    pub header: Header,
    pub name: DnsName,
    pub qtype: RecordType,
}

/// A reply. The authority section is always empty.
#[derive(Debug, PartialEq, Eq)]
pub struct Reply {
    pub header: Header,
    pub answers: Vec<Record>,
    pub additionals: Vec<Record>,
}

/// What a `Reply` holds.
#[verifier::ext_equal]
pub struct ReplyView {
    pub header: Header,
    pub answers: Seq<RecordView>,
    pub additionals: Seq<RecordView>,
}

impl View for Reply {
    type V = ReplyView;

    open spec fn view(&self) -> ReplyView {
        ReplyView {
            header: self.header,
            answers: records(self.answers@),
            additionals: records(self.additionals@),
        }
    }
}

/// A reply that only reports `code`.
pub open spec fn error_view(request: Header, code: ResponseCode) -> ReplyView {
    ReplyView {
        header: Header { response_code: code, ..response_header(request) },
        answers: Seq::empty(),
        additionals: Seq::empty(),
    }
}

/// An authoritative reply with these records; recursion is not on offer.
pub open spec fn success_view(
    request: Header,
    answers: Seq<RecordView>,
    additionals: Seq<RecordView>,
) -> ReplyView {
    ReplyView {
        header: Header {
            authoritative: true,
            recursion_available: false,
            ..response_header(request)
        },
        answers,
        additionals,
    }
}

impl Reply {
    /// A reply to `request` that only reports `code`.
    pub fn error_msg(request: &Header, code: ResponseCode) -> (r: Reply)
        ensures
            r@ == error_view(*request, code),
    {
        let mut header = Header::response_from_request(request);
        header.response_code = code;
        let r = Reply { header, answers: Vec::new(), additionals: Vec::new() };
        assert(r@ =~= error_view(*request, code));
        r
    }

    /// An authoritative reply to `request` with these records.
    pub fn success(request: &Header, answers: Vec<Record>, additionals: Vec<Record>) -> (r: Reply)
        ensures
            r@ == success_view(*request, records(answers@), records(additionals@)),
    {
        let mut header = Header::response_from_request(request);
        header.authoritative = true;
        header.recursion_available = false;
        Reply { header, answers, additionals }
    }
}

} // verus!
