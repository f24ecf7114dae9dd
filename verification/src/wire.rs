//! The DNS message format and the text form of names.
//!
//! Both come from `hickory-proto`. The functions here hand plain values to that
//! crate and take plain values back; everything that they assume of it is stated
//! in their contracts.

use vstd::prelude::*;

use crate::addr::{Ipv4Addr, Ipv6Addr};
use crate::dns::{
    empty_message, label_octets, type_of_code, Message, MessageType, MessageView, Name, NameView,
    Question, QuestionView, RData, RDataView, Record, RecordType, RecordView,
};
use crate::seqs::views;

use hickory_proto::op::Message as WireMessage;
use hickory_proto::rr::rdata;
use hickory_proto::rr::Name as WireName;
use hickory_proto::rr::RData as WireData;
use hickory_proto::rr::Record as WireRecord;
use hickory_proto::serialize::binary::DecodeError;
use hickory_proto::serialize::binary::{BinEncodable, BinEncoder, NameEncoding};
use hickory_proto::ProtoError;

verus! {

/// The error with which `hickory-proto` refuses a name or a message to encode.
#[verifier::external_type_specification]
#[verifier::external_body]
pub struct ExProtoError(hickory_proto::ProtoError);

/// The error with which `hickory-proto` refuses octets to decode.
#[verifier::external_type_specification]
#[verifier::external_body]
pub struct ExDecodeError(hickory_proto::serialize::binary::DecodeError);

/// A message in the form that `hickory-proto` reads and writes.
#[verifier::external_type_specification]
#[verifier::external_body]
pub struct ExWireMessage(WireMessage);

/// A name in the form that `hickory-proto` reads and writes.
#[verifier::external_type_specification]
#[verifier::external_body]
pub struct ExWireName(WireName);

/// What the text `s` denotes as a name, if anything.
pub uninterp spec fn parsed_name(s: Seq<char>) -> Option<NameView>;

/// A lower-case letter or a digit.
pub open spec fn plain_char(c: char) -> bool {
    'a' <= c <= 'z' || '0' <= c <= '9'
}

/// A label whose text needs no mapping: a lower-case letter followed by lower-case
/// letters, digits and hyphens, or the same with underscores behind a leading
/// underscore. It does not end in a hyphen, and the third and fourth characters
/// are not both hyphens, which marks encoded labels such as `xn--`.
pub open spec fn plain_label(l: Seq<char>) -> bool {
    &&& 1 <= l.len() <= 63
    &&& 'a' <= l[0] <= 'z' || l[0] == '_'
    &&& forall|i: int| #![trigger l[i]]
        0 <= i < l.len() ==> plain_char(l[i]) || l[i] == '-' || (l[0] == '_' && l[i] == '_')
    &&& l.last() != '-'
    &&& l.len() >= 4 ==> !(l[2] == '-' && l[3] == '-')
}

/// The octets of a label of ASCII characters.
pub open spec fn ascii_octets(l: Seq<char>) -> Seq<u8> {
    l.map_values(|c: char| c as u8)
}

/// The fully qualified name with the given labels.
pub open spec fn plain_name(labels: Seq<Seq<char>>) -> NameView {
    NameView { labels: labels.map_values(|l: Seq<char>| ascii_octets(l)), fqdn: true }
}

/// One or more plain labels that make up a name of legal length.
pub open spec fn plain_labels(labels: Seq<Seq<char>>) -> bool {
    &&& labels.len() > 0
    &&& forall|i: int| #![trigger labels[i]] 0 <= i < labels.len() ==> plain_label(labels[i])
    &&& plain_name(labels).valid()
}

/// The labels in order, each followed by a dot.
pub open spec fn dotted(labels: Seq<Seq<char>>) -> Seq<char>
    decreases labels.len(),
{
    if labels.len() == 0 {
        Seq::empty()
    } else {
        dotted(labels.drop_last()) + labels.last().push('.')
    }
}

/// `Name::from_str` of `hickory-proto`. What a text denotes is a function of the
/// text. Plain labels, each followed by a dot, denote the fully qualified name
/// with just these labels.
#[verifier::external_body]
pub(crate) fn parse_name(s: &str) -> (r: Result<Name, ProtoError>)
    ensures
        match r {
            Ok(n) => parsed_name(s@) == Some(n@) && n@.valid(),
            Err(_) => parsed_name(s@) is None,
        },
        forall|labels: Seq<Seq<char>>|
            plain_labels(labels) && s@ == #[trigger] dotted(labels) ==> match r {
                Ok(n) => n@ == plain_name(labels),
                Err(_) => false,
            },
{
    s.parse::<WireName>().map(
        |n| Name { labels: n.iter().map(|l| l.to_vec()).collect(), fqdn: n.is_fqdn() },
    )
}

/// `Name::from_labels` of `hickory-proto` on labels of arbitrary octets: it
/// accepts them when they make up a name of legal size, and the name is then
/// fully qualified.
#[verifier::external_body]
pub(crate) fn name_of_labels(labels: &Vec<Vec<u8>>) -> (r: Result<Name, ProtoError>)
    ensures
        match r {
            Ok(n) => n@ == (NameView { labels: views(labels@), fqdn: true }) && n@.valid(),
            Err(_) => !(NameView { labels: views(labels@), fqdn: true }).valid(),
        },
{
    WireName::from_labels(labels.iter().map(|l| l.as_slice())).map(
        |n| Name { labels: n.iter().map(|l| l.to_vec()).collect(), fqdn: n.is_fqdn() },
    )
}

/// `Name::append_name` of `hickory-proto`: the labels of `head` before those of
/// `tail`, fully qualified where `tail` is; refused when the result would be
/// longer than 255 octets.
#[verifier::external_body]
pub(crate) fn join_names(head: &Name, tail: &Name) -> (r: Result<Name, ProtoError>)
    ensures
        match r {
            Ok(n) => n@ == (NameView { labels: head@.labels + tail@.labels, fqdn: tail@.fqdn })
                && n@.valid(),
            Err(_) => label_octets(head@.labels + tail@.labels) + 1 > 255,
        },
{
    let wire = |n: &Name|
        {
            let mut w = WireName::from_labels(n.labels.iter().map(|l| l.as_slice())).unwrap();
            w.set_fqdn(n.fqdn);
            w
        };
    wire(head).append_name(&wire(tail)).map(
        |n| Name { labels: n.iter().map(|l| l.to_vec()).collect(), fqdn: n.is_fqdn() },
    )
}

/// The text of the name `n`.
pub uninterp spec fn printed_name(n: NameView) -> Seq<char>;

/// `Display` of `Name` of `hickory-proto`. The text is a function of the name. A
/// fully qualified name of plain labels is written as these labels, each followed
/// by a dot.
#[verifier::external_body]
fn print_name(n: &Name) -> (r: String)
    ensures
        r@ == printed_name(n@),
        forall|labels: Seq<Seq<char>>|
            plain_labels(labels) && n@ == #[trigger] plain_name(labels) ==> r@ == dotted(labels),
{
    let mut name = WireName::from_labels(n.labels.iter().map(|l| l.as_slice())).unwrap();
    name.set_fqdn(n.fqdn);
    name.to_string()
}

/// What the octets `b` say when read as a message, if they are one.
pub uninterp spec fn decoded(b: Seq<u8>) -> Option<MessageView>;

/// What a message that was read holds.
pub uninterp spec fn received(m: WireMessage) -> MessageView;

/// The record section with number `section`: answers, authorities, additionals.
pub open spec fn section_of(m: MessageView, section: int) -> Seq<RecordView> {
    if section == 0 {
        m.answers
    } else if section == 1 {
        m.authorities
    } else {
        m.additionals
    }
}

/// Data of an address or text record.
pub open spec fn plain_data(d: RDataView) -> bool {
    d is A || d is AAAA || d is TXT
}

/// Data of a pointer or service record.
pub open spec fn named_data(d: RDataView) -> bool {
    d is PTR || d is SRV
}

/// `Message::from_vec` of `hickory-proto`. What the octets say is a function of
/// the octets.
#[verifier::external_body]
fn read_message(bytes: &[u8]) -> (r: Result<WireMessage, DecodeError>)
    ensures
        match r {
            Ok(m) => decoded(bytes@) == Some(received(m)),
            Err(_) => decoded(bytes@) is None,
        },
{
    WireMessage::from_vec(bytes)
}

/// The header fields of a message that was read: identifier, whether it is a
/// response, whether it is authoritative, whether it is truncated.
#[verifier::external_body]
fn read_header(m: &WireMessage) -> (r: (u16, bool, bool, bool))
    ensures
        r.0 == received(*m).id,
        r.1 == (received(*m).message_type == MessageType::Response),
        r.2 == received(*m).authoritative,
        r.3 == received(*m).truncation,
{
    let response = m.metadata.message_type == hickory_proto::op::MessageType::Response;
    (m.metadata.id, response, m.metadata.authoritative, m.metadata.truncation)
}

/// The number of questions in a message that was read.
#[verifier::external_body]
fn read_question_count(m: &WireMessage) -> (r: usize)
    ensures
        r == received(*m).queries.len(),
{
    m.queries.len()
}

/// One question of a message that was read: its name, which is of legal size, its type
/// number, class and unicast-response bit.
#[verifier::external_body]
fn read_question(m: &WireMessage, i: usize) -> (r: (Name, u16, u16, bool))
    requires
        i < received(*m).queries.len(),
    ensures
        received(*m).queries[i as int] == (QuestionView {
            name: r.0@,
            qtype: type_of_code(r.1),
            qclass: r.2,
            unicast_response: r.3,
        }),
        r.0@.valid(),
{
    let q = &m.queries[i];
    let n = q.name();
    let name = Name { labels: n.iter().map(|l| l.to_vec()).collect(), fqdn: n.is_fqdn() };
    (name, q.query_type().into(), q.query_class().into(), q.mdns_unicast_response())
}

/// The number of records in a section of a message that was read.
#[verifier::external_body]
fn read_record_count(m: &WireMessage, section: usize) -> (r: usize)
    requires
        section < 3,
    ensures
        r == section_of(received(*m), section as int).len(),
{
    [&m.answers, &m.authorities, &m.additionals][section].len()
}

/// The owner name, which is of legal size, the class, lifetime and cache-flush bit of one
/// record of a message that was read.
#[verifier::external_body]
fn read_record_head(m: &WireMessage, section: usize, i: usize) -> (r: (Name, u16, u32, bool))
    requires
        section < 3,
        i < section_of(received(*m), section as int).len(),
    ensures
        r.0@ == section_of(received(*m), section as int)[i as int].name,
        r.1 == section_of(received(*m), section as int)[i as int].class,
        r.2 == section_of(received(*m), section as int)[i as int].ttl,
        r.3 == section_of(received(*m), section as int)[i as int].cache_flush,
        r.0@.valid(),
{
    let rec = &[&m.answers, &m.authorities, &m.additionals][section][i];
    let n = &rec.name;
    let name = Name { labels: n.iter().map(|l| l.to_vec()).collect(), fqdn: n.is_fqdn() };
    (name, rec.dns_class.into(), rec.ttl, rec.mdns_cache_flush)
}

/// The data of an address or text record of a message that was read; nothing for
/// any other data.
#[verifier::external_body]
fn read_plain_data(m: &WireMessage, section: usize, i: usize) -> (r: Option<RData>)
    requires
        section < 3,
        i < section_of(received(*m), section as int).len(),
    ensures
        match r {
            Some(d) => d@ == section_of(received(*m), section as int)[i as int].data,
            None => !plain_data(section_of(received(*m), section as int)[i as int].data),
        },
{
    match &[&m.answers, &m.authorities, &m.additionals][section][i].data {
        WireData::A(a) => Some(RData::A(Ipv4Addr { bits: a.0.into() })),
        WireData::AAAA(a) => Some(RData::AAAA(Ipv6Addr { bits: a.0.into() })),
        WireData::TXT(t) => Some(RData::TXT(t.txt_data.iter().map(|s| s.to_vec()).collect())),
        _ => None,
    }
}

/// The data of a pointer or service record of a message that was read, whose name is of
/// legal size; nothing for any other data.
#[verifier::external_body]
fn read_named_data(m: &WireMessage, section: usize, i: usize) -> (r: Option<RData>)
    requires
        section < 3,
        i < section_of(received(*m), section as int).len(),
    ensures
        match r {
            Some(d) => d@ == section_of(received(*m), section as int)[i as int].data,
            None => !named_data(section_of(received(*m), section as int)[i as int].data),
        },
        r matches Some(RData::PTR(n)) ==> n@.valid(),
        r matches Some(RData::SRV { target, .. }) ==> target@.valid(),
{
    let name = |n: &WireName|
        Name { labels: n.iter().map(|l| l.to_vec()).collect(), fqdn: n.is_fqdn() };
    match &[&m.answers, &m.authorities, &m.additionals][section][i].data {
        WireData::PTR(p) => Some(RData::PTR(name(&p.0))),
        WireData::SRV(s) => Some(
            RData::SRV {
                priority: s.priority,
                weight: s.weight,
                port: s.port,
                target: name(&s.target),
            },
        ),
        _ => None,
    }
}

/// The type number and the octets of the data of one record of a message that was
/// read, with names written out in full, and in the canonical form of RFC 4034
/// where `canonical` is set; of data that cannot be written out, as much as was written.
/// The claim covers the data that neither `read_plain_data` nor `read_named_data` hands
/// out.
#[verifier::external_body]
fn read_other_data(m: &WireMessage, section: usize, i: usize, canonical: bool) -> (r: (
    u16,
    Vec<u8>,
))
    requires
        section < 3,
        i < section_of(received(*m), section as int).len(),
    ensures
        section_of(received(*m), section as int)[i as int].data matches RDataView::Other {
            code,
            wire,
            canonical: canon,
        } ==> r.0 == code && r.1@ == (if canonical {
            canon
        } else {
            wire
        }),
{
    let data = &[&m.answers, &m.authorities, &m.additionals][section][i].data;
    let mut octets = Vec::new();
    let mut encoder = BinEncoder::new(&mut octets);
    encoder.set_name_encoding(NameEncoding::Uncompressed);
    encoder.set_canonical_form(canonical);
    let _ = data.emit(&mut encoder);
    (data.record_type().into(), octets)
}

fn decode_question(m: &WireMessage, i: usize) -> (r: Question)
    requires
        i < received(*m).queries.len(),
    ensures
        r@ == received(*m).queries[i as int],
{
    let (name, code, qclass, unicast_response) = read_question(m, i);
    Question { name, qtype: RecordType::from_code(code), qclass, unicast_response }
}

fn decode_record(m: &WireMessage, section: usize, i: usize) -> (r: Record)
    requires
        section < 3,
        i < section_of(received(*m), section as int).len(),
    ensures
        r@ == section_of(received(*m), section as int)[i as int],
{
    let (name, dns_class, ttl, mdns_cache_flush) = read_record_head(m, section, i);
    let data = match read_plain_data(m, section, i) {
        Some(d) => d,
        None => match read_named_data(m, section, i) {
            Some(d) => d,
            None => {
                let (code, wire) = read_other_data(m, section, i, false);
                let (_, canonical) = read_other_data(m, section, i, true);
                RData::Other { code, wire, canonical }
            },
        },
    };
    Record { name, dns_class, ttl, data, mdns_cache_flush }
}

fn decode_section(m: &WireMessage, section: usize) -> (r: Vec<Record>)
    requires
        section < 3,
    ensures
        views(r@) == section_of(received(*m), section as int),
{
    let n: usize = read_record_count(m, section);
    let mut out: Vec<Record> = Vec::new();
    let mut i: usize = 0;
    while i < n
        invariant
            section < 3,
            n == section_of(received(*m), section as int).len(),
            i <= n,
            views(out@) == section_of(received(*m), section as int).take(i as int),
        decreases n - i,
    {
        let rec = decode_record(m, section, i);
        let ghost before = out@;
        out.push(rec);
        i += 1;
        assert(views(out@) =~= views(before).push(rec@));
        assert(section_of(received(*m), section as int).take(i as int) =~= section_of(
            received(*m),
            section as int,
        ).take(i - 1).push(rec@));
    }
    assert(section_of(received(*m), section as int).take(n as int) =~= section_of(
        received(*m),
        section as int,
    ));
    out
}

impl Message {
    /// Reads a message from the octets of a datagram.
    pub fn from_vec(bytes: &[u8]) -> (r: Result<Message, DecodeError>)
        ensures
            match r {
                Ok(m) => decoded(bytes@) == Some(m@),
                Err(_) => decoded(bytes@) is None,
            },
    {
        let m = match read_message(bytes) {
            Ok(m) => m,
            Err(e) => return Err(e),
        };
        let (id, response, authoritative, truncation) = read_header(&m);
        let n: usize = read_question_count(&m);
        let mut queries: Vec<Question> = Vec::new();
        let mut i: usize = 0;
        while i < n
            invariant
                n == received(m).queries.len(),
                i <= n,
                views(queries@) == received(m).queries.take(i as int),
            decreases n - i,
        {
            let q = decode_question(&m, i);
            let ghost before = queries@;
            queries.push(q);
            i += 1;
            assert(views(queries@) =~= views(before).push(q@));
            assert(received(m).queries.take(i as int) =~= received(m).queries.take(i - 1).push(q@));
        }
        assert(received(m).queries.take(n as int) =~= received(m).queries);
        let message_type = if response {
            MessageType::Response
        } else {
            MessageType::Query
        };
        let out = Message {
            id,
            message_type,
            authoritative,
            truncation,
            queries,
            answers: decode_section(&m, 0),
            authorities: decode_section(&m, 1),
            additionals: decode_section(&m, 2),
        };
        assert(out@ =~= received(m));
        Ok(out)
    }
}

/// What a message to be sent holds, for one that was started by `draft_message`.
pub uninterp spec fn drafted(m: WireMessage) -> Option<MessageView>;

/// The octets in which a message is sent, if it can be written.
pub uninterp spec fn encoded(m: MessageView) -> Option<Seq<u8>>;

/// The data as far as the octets of a message show it.
pub open spec fn sent_data(d: RDataView) -> RDataView {
    match d {
        RDataView::Other { code, wire, canonical: _ } => RDataView::Other {
            code,
            wire,
            canonical: Seq::empty(),
        },
        _ => d,
    }
}

pub open spec fn sent_record(r: RecordView) -> RecordView {
    RecordView { data: sent_data(r.data), ..r }
}

pub open spec fn sent_records(s: Seq<RecordView>) -> Seq<RecordView> {
    s.map_values(|r: RecordView| sent_record(r))
}

/// The question as far as its octets show it.
pub open spec fn sent_question(q: QuestionView) -> QuestionView {
    QuestionView { qtype: type_of_code(q.qtype.number()), ..q }
}

pub open spec fn sent_questions(s: Seq<QuestionView>) -> Seq<QuestionView> {
    s.map_values(|q: QuestionView| sent_question(q))
}

/// The message as far as its octets show it.
pub open spec fn sent(m: MessageView) -> MessageView {
    MessageView {
        queries: sent_questions(m.queries),
        answers: sent_records(m.answers),
        authorities: sent_records(m.authorities),
        additionals: sent_records(m.additionals),
        ..m
    }
}

/// A fully qualified name of legal size.
pub open spec fn legible_name(n: NameView) -> bool {
    n.fqdn && n.valid()
}

/// A question whose class leaves room for the unicast-response bit and whose type is
/// written in its own variant.
pub open spec fn legible_question(q: QuestionView) -> bool {
    &&& legible_name(q.name)
    &&& q.qclass < 0x8000
    &&& type_of_code(q.qtype.number()) == q.qtype
}

/// Data of the types that the daemon publishes: addresses, a pointer or service with a
/// legible name, or one or more strings of at most 255 octets.
pub open spec fn legible_data(d: RDataView) -> bool {
    match d {
        RDataView::A(_) => true,
        RDataView::AAAA(_) => true,
        RDataView::PTR(target) => legible_name(target),
        RDataView::SRV { target, .. } => legible_name(target),
        RDataView::TXT(strings) => {
            &&& strings.len() > 0
            &&& forall|i: int| #![trigger strings[i]]
                0 <= i < strings.len() ==> strings[i].len() <= 255
        },
        RDataView::Other { .. } => false,
    }
}

/// A record of such data, whose class leaves room for the cache-flush bit.
pub open spec fn legible_record(r: RecordView) -> bool {
    legible_name(r.name) && r.class < 0x8000 && legible_data(r.data)
}

pub open spec fn legible_records(s: Seq<RecordView>) -> bool {
    forall|i: int| #![trigger s[i]] 0 <= i < s.len() ==> legible_record(s[i])
}

/// The octets of a name that is written out in full.
pub open spec fn name_octets(n: NameView) -> nat {
    label_octets(n.labels) + 1
}

/// The octets of data, with names written out in full.
pub open spec fn data_octets(d: RDataView) -> nat {
    match d {
        RDataView::A(_) => 4,
        RDataView::AAAA(_) => 16,
        RDataView::PTR(target) => name_octets(target),
        RDataView::SRV { target, .. } => 6 + name_octets(target),
        RDataView::TXT(strings) => label_octets(strings),
        RDataView::Other { wire, .. } => wire.len(),
    }
}

/// The octets of questions, with names written out in full.
pub open spec fn question_octets(s: Seq<QuestionView>) -> nat
    decreases s.len(),
{
    if s.len() == 0 {
        0
    } else {
        question_octets(s.drop_last()) + name_octets(s.last().name) + 4
    }
}

/// The octets of records, with names written out in full.
pub open spec fn record_octets(s: Seq<RecordView>) -> nat
    decreases s.len(),
{
    if s.len() == 0 {
        0
    } else {
        record_octets(s.drop_last()) + name_octets(s.last().name) + 10 + data_octets(s.last().data)
    }
}

/// The octets of a message, with names written out in full.
pub open spec fn message_octets(m: MessageView) -> nat {
    12 + question_octets(m.queries) + record_octets(m.answers) + record_octets(m.authorities)
        + record_octets(m.additionals)
}

/// A message that arrives as it was sent: legible questions and records that fit into a
/// message even without name compression.
pub open spec fn legible(m: MessageView) -> bool {
    &&& forall|i: int| #![trigger m.queries[i]]
        0 <= i < m.queries.len() ==> legible_question(m.queries[i])
    &&& legible_records(m.answers)
    &&& legible_records(m.authorities)
    &&& legible_records(m.additionals)
    &&& message_octets(m) <= 65535
}

/// `m` with `r` at the end of the given section.
pub open spec fn with_record(m: MessageView, section: int, r: RecordView) -> MessageView {
    if section == 0 {
        MessageView { answers: m.answers.push(r), ..m }
    } else if section == 1 {
        MessageView { authorities: m.authorities.push(r), ..m }
    } else {
        MessageView { additionals: m.additionals.push(r), ..m }
    }
}

/// `Message::new` of `hickory-proto` for a standard query or its response, with
/// the authoritative and truncation bits as given and empty sections.
#[verifier::external_body]
fn draft_message(id: u16, response: bool, authoritative: bool, truncation: bool) -> (r: WireMessage)
    ensures
        drafted(r) == Some(
            MessageView {
                authoritative,
                truncation,
                ..empty_message(
                    id,
                    if response {
                        MessageType::Response
                    } else {
                        MessageType::Query
                    },
                )
            },
        ),
{
    let kind = match response {
        true => hickory_proto::op::MessageType::Response,
        false => hickory_proto::op::MessageType::Query,
    };
    let mut m = WireMessage::new(id, kind, hickory_proto::op::OpCode::Query);
    m.metadata.authoritative = authoritative;
    m.metadata.truncation = truncation;
    m
}

/// What a name of `hickory-proto` holds.
pub uninterp spec fn name_contents(n: WireName) -> NameView;

/// The name in the form that `hickory-proto` takes, made by its `Name::from_labels`.
#[verifier::external_body]
fn wire_name(n: &Name) -> (r: WireName)
    ensures
        name_contents(r) == n@,
{
    let mut name = WireName::from_labels(n.labels.iter().map(|l| l.as_slice())).unwrap();
    name.set_fqdn(n.fqdn);
    name
}

/// `Message::add_query` of `hickory-proto`: the question, with the type that has number
/// `code`, is put at the end of the question section.
#[verifier::external_body]
fn draft_question(m: &mut WireMessage, name: WireName, code: u16, class: u16, unicast: bool)
    requires
        drafted(*old(m)) is Some,
    ensures
        drafted(*final(m)) == Some(
            MessageView {
                queries: drafted(*old(m))->0.queries.push(
                    QuestionView {
                        name: name_contents(name),
                        qtype: type_of_code(code),
                        qclass: class,
                        unicast_response: unicast,
                    },
                ),
                ..drafted(*old(m))->0
            },
        ),
{
    let mut query = hickory_proto::op::Query::new();
    query.set_name(name).set_query_type(code.into());
    query.set_query_class(class.into()).set_mdns_unicast_response(unicast);
    m.add_query(query);
}

/// Class, lifetime and cache-flush bit of a record to be sent.
#[derive(Clone, Copy)]
struct RecordHead {
    class: u16,
    ttl: u32,
    cache_flush: bool,
}

impl RecordHead {
    spec fn with_data(self, name: NameView, data: RDataView) -> RecordView {
        RecordView {
            name,
            class: self.class,
            ttl: self.ttl,
            cache_flush: self.cache_flush,
            data,
        }
    }
}

/// `Record::from_rdata` of `hickory-proto` with an IPv4 address; the record is put at the
/// end of a section.
#[verifier::external_body]
fn draft_a(m: &mut WireMessage, section: usize, name: WireName, head: RecordHead, bits: u32)
    requires
        drafted(*old(m)) is Some,
        section < 3,
    ensures
        drafted(*final(m)) == Some(
            with_record(
                drafted(*old(m))->0,
                section as int,
                head.with_data(name_contents(name), RDataView::A(Ipv4Addr { bits })),
            ),
        ),
{
    let mut rec = WireRecord::from_rdata(name, head.ttl, WireData::A(rdata::A(bits.into())));
    rec.dns_class = head.class.into();
    rec.mdns_cache_flush = head.cache_flush;
    [&mut m.answers, &mut m.authorities, &mut m.additionals][section].push(rec);
}

/// `Record::from_rdata` of `hickory-proto` with an IPv6 address; the record is put at the
/// end of a section.
#[verifier::external_body]
fn draft_aaaa(m: &mut WireMessage, section: usize, name: WireName, head: RecordHead, bits: u128)
    requires
        drafted(*old(m)) is Some,
        section < 3,
    ensures
        drafted(*final(m)) == Some(
            with_record(
                drafted(*old(m))->0,
                section as int,
                head.with_data(name_contents(name), RDataView::AAAA(Ipv6Addr { bits })),
            ),
        ),
{
    let mut rec = WireRecord::from_rdata(name, head.ttl, WireData::AAAA(rdata::AAAA(bits.into())));
    rec.dns_class = head.class.into();
    rec.mdns_cache_flush = head.cache_flush;
    [&mut m.answers, &mut m.authorities, &mut m.additionals][section].push(rec);
}

/// `Record::from_rdata` of `hickory-proto` with a pointer; the record is put at the end of
/// a section.
#[verifier::external_body]
fn draft_ptr(
    m: &mut WireMessage,
    section: usize,
    name: WireName,
    head: RecordHead,
    target: WireName,
)
    requires
        drafted(*old(m)) is Some,
        section < 3,
    ensures
        drafted(*final(m)) == Some(
            with_record(
                drafted(*old(m))->0,
                section as int,
                head.with_data(name_contents(name), RDataView::PTR(name_contents(target))),
            ),
        ),
{
    let mut rec = WireRecord::from_rdata(name, head.ttl, WireData::PTR(rdata::PTR(target)));
    rec.dns_class = head.class.into();
    rec.mdns_cache_flush = head.cache_flush;
    [&mut m.answers, &mut m.authorities, &mut m.additionals][section].push(rec);
}

/// `Record::from_rdata` of `hickory-proto` with a service of the given priority, weight,
/// port and target; the record is put at the end of a section.
#[verifier::external_body]
fn draft_srv(
    m: &mut WireMessage,
    section: usize,
    name: WireName,
    head: RecordHead,
    priority: u16,
    weight: u16,
    port: u16,
    target: WireName,
)
    requires
        drafted(*old(m)) is Some,
        section < 3,
    ensures
        drafted(*final(m)) == Some(
            with_record(
                drafted(*old(m))->0,
                section as int,
                head.with_data(
                    name_contents(name),
                    RDataView::SRV { priority, weight, port, target: name_contents(target) },
                ),
            ),
        ),
{
    let data = WireData::SRV(rdata::SRV::new(priority, weight, port, target));
    let mut rec = WireRecord::from_rdata(name, head.ttl, data);
    rec.dns_class = head.class.into();
    rec.mdns_cache_flush = head.cache_flush;
    [&mut m.answers, &mut m.authorities, &mut m.additionals][section].push(rec);
}

/// `Record::from_rdata` of `hickory-proto` with character strings; the record is put at
/// the end of a section.
#[verifier::external_body]
fn draft_txt(
    m: &mut WireMessage,
    section: usize,
    name: WireName,
    head: RecordHead,
    text: &Vec<Vec<u8>>,
)
    requires
        drafted(*old(m)) is Some,
        section < 3,
    ensures
        drafted(*final(m)) == Some(
            with_record(
                drafted(*old(m))->0,
                section as int,
                head.with_data(name_contents(name), RDataView::TXT(views(text@))),
            ),
        ),
{
    let data = rdata::TXT::from_bytes(text.iter().map(|s| s.as_slice()).collect());
    let mut rec = WireRecord::from_rdata(name, head.ttl, WireData::TXT(data));
    rec.dns_class = head.class.into();
    rec.mdns_cache_flush = head.cache_flush;
    [&mut m.answers, &mut m.authorities, &mut m.additionals][section].push(rec);
}

/// `Record::from_rdata` of `hickory-proto` with data of unknown structure, of which there
/// is at least one octet, under the type number `code`; the record is put at the end of a
/// section.
#[verifier::external_body]
fn draft_other(
    m: &mut WireMessage,
    section: usize,
    name: WireName,
    head: RecordHead,
    code: u16,
    wire: &Vec<u8>,
)
    requires
        drafted(*old(m)) is Some,
        section < 3,
        wire@.len() > 0,
    ensures
        drafted(*final(m)) == Some(
            with_record(
                drafted(*old(m))->0,
                section as int,
                head.with_data(
                    name_contents(name),
                    RDataView::Other { code, wire: wire@, canonical: Seq::empty() },
                ),
            ),
        ),
{
    let data = WireData::Unknown { code: code.into(), rdata: rdata::NULL::with(wire.clone()) };
    let mut rec = WireRecord::from_rdata(name, head.ttl, data);
    rec.dns_class = head.class.into();
    rec.mdns_cache_flush = head.cache_flush;
    [&mut m.answers, &mut m.authorities, &mut m.additionals][section].push(rec);
}

/// `Record::update0` of `hickory-proto`: a record of the type with number `code` and no
/// data, which is put at the end of a section.
#[verifier::external_body]
fn draft_bare(m: &mut WireMessage, section: usize, name: WireName, head: RecordHead, code: u16)
    requires
        drafted(*old(m)) is Some,
        section < 3,
    ensures
        drafted(*final(m)) == Some(
            with_record(
                drafted(*old(m))->0,
                section as int,
                head.with_data(
                    name_contents(name),
                    RDataView::Other { code, wire: Seq::empty(), canonical: Seq::empty() },
                ),
            ),
        ),
{
    let mut rec = WireRecord::update0(name, head.ttl, code.into());
    rec.dns_class = head.class.into();
    rec.mdns_cache_flush = head.cache_flush;
    [&mut m.answers, &mut m.authorities, &mut m.additionals][section].push(rec);
}

/// `Message::to_vec` of `hickory-proto`. The octets are a function of what the
/// message holds. A legible message is always written, and `Message::from_vec` reads
/// the same message back. Of what is read back from other messages nothing is said.
#[verifier::external_body]
fn write_message(m: &WireMessage) -> (r: Result<Vec<u8>, ProtoError>)
    requires
        drafted(*m) is Some,
    ensures
        match r {
            Ok(b) => encoded(drafted(*m)->0) == Some(b@),
            Err(_) => encoded(drafted(*m)->0) is None,
        },
        legible(drafted(*m)->0) ==> match r {
            Ok(b) => decoded(b@) == Some(drafted(*m)->0),
            Err(_) => false,
        },
{
    m.to_vec()
}

proof fn lemma_legible_records_are_sent(s: Seq<RecordView>)
    requires
        legible_records(s),
    ensures
        sent_records(s) == s,
{
    assert forall|i: int| 0 <= i < s.len() implies sent_records(s)[i] == s[i] by {
        assert(legible_record(s[i]));
    }
    assert(sent_records(s) =~= s);
}

/// A legible message is sent as it is.
proof fn lemma_legible_is_sent(m: MessageView)
    requires
        legible(m),
    ensures
        sent(m) == m,
{
    lemma_legible_records_are_sent(m.answers);
    lemma_legible_records_are_sent(m.authorities);
    lemma_legible_records_are_sent(m.additionals);
    assert forall|i: int| 0 <= i < m.queries.len() implies sent_questions(m.queries)[i]
        == m.queries[i] by {
        assert(legible_question(m.queries[i]));
    }
    assert(sent_questions(m.queries) =~= m.queries);
}

fn draft_record(m: &mut WireMessage, section: usize, r: &Record)
    requires
        drafted(*old(m)) is Some,
        section < 3,
    ensures
        drafted(*final(m)) == Some(
            with_record(drafted(*old(m))->0, section as int, sent_record(r@)),
        ),
{
    let name = wire_name(&r.name);
    let head = RecordHead {
        class: r.dns_class,
        ttl: r.ttl,
        cache_flush: r.mdns_cache_flush,
    };
    match &r.data {
        RData::A(a) => draft_a(m, section, name, head, a.bits),
        RData::AAAA(a) => draft_aaaa(m, section, name, head, a.bits),
        RData::PTR(target) => draft_ptr(m, section, name, head, wire_name(target)),
        RData::SRV { priority, weight, port, target } => {
            draft_srv(m, section, name, head, *priority, *weight, *port, wire_name(target))
        },
        RData::TXT(text) => draft_txt(m, section, name, head, text),
        RData::Other { code, wire, .. } => {
            if wire.len() == 0 {
                assert(wire@ =~= Seq::empty());
                draft_bare(m, section, name, head, *code)
            } else {
                draft_other(m, section, name, head, *code, wire)
            }
        },
    }
}

/// `m` with `records` at the end of the given section.
pub open spec fn with_records(
    m: MessageView,
    section: int,
    records: Seq<RecordView>,
) -> MessageView {
    if section == 0 {
        MessageView { answers: m.answers + records, ..m }
    } else if section == 1 {
        MessageView { authorities: m.authorities + records, ..m }
    } else {
        MessageView { additionals: m.additionals + records, ..m }
    }
}

fn draft_section(m: &mut WireMessage, section: usize, records: &Vec<Record>)
    requires
        drafted(*old(m)) is Some,
        section < 3,
    ensures
        drafted(*final(m)) == Some(
            with_records(
                drafted(*old(m))->0,
                section as int,
                sent_records(views(records@)),
            ),
        ),
{
    let ghost start = drafted(*m)->0;
    let ghost all = sent_records(views(records@));
    let mut i: usize = 0;
    assert(with_records(start, section as int, all.take(0)) =~= start);
    while i < records.len()
        invariant
            section < 3,
            i <= records.len(),
            all == sent_records(views(records@)),
            drafted(*m) == Some(with_records(start, section as int, all.take(i as int))),
        decreases records.len() - i,
    {
        draft_record(m, section, &records[i]);
        i += 1;
        assert(all.take(i as int) =~= all.take(i - 1).push(sent_record(records@[i - 1]@)));
        assert(drafted(*m)->0 =~= with_records(start, section as int, all.take(i as int)));
    }
    assert(all.take(i as int) =~= all);
}

impl Message {
    /// Writes the message in the form in which it is sent. A legible message can be
    /// written, and whoever reads the octets has the same message.
    pub fn to_vec(&self) -> (r: Result<Vec<u8>, ProtoError>)
        ensures
            match r {
                Ok(b) => encoded(sent(self@)) == Some(b@),
                Err(_) => encoded(sent(self@)) is None,
            },
            legible(self@) ==> match r {
                Ok(b) => decoded(b@) == Some(self@),
                Err(_) => false,
            },
    {
        let response = match self.message_type {
            MessageType::Response => true,
            MessageType::Query => false,
        };
        let mut m = draft_message(self.id, response, self.authoritative, self.truncation);
        let ghost start = drafted(m)->0;
        let ghost all = sent_questions(self@.queries);
        let mut i: usize = 0;
        while i < self.queries.len()
            invariant
                i <= self.queries.len(),
                all == sent_questions(self@.queries),
                start == (MessageView {
                    authoritative: self.authoritative,
                    truncation: self.truncation,
                    ..empty_message(self.id, self.message_type)
                }),
                drafted(m) is Some,
                drafted(m)->0 == (MessageView {
                    queries: all.take(i as int),
                    ..start
                }),
            decreases self.queries.len() - i,
        {
            let q = &self.queries[i];
            let name = wire_name(&q.name);
            draft_question(&mut m, name, q.qtype.code(), q.qclass, q.unicast_response);
            i += 1;
            assert(all.take(i as int) =~= all.take(i - 1).push(
                sent_question(self.queries@[i - 1]@),
            ));
        }
        assert(all.take(i as int) =~= all);
        draft_section(&mut m, 0, &self.answers);
        draft_section(&mut m, 1, &self.authorities);
        draft_section(&mut m, 2, &self.additionals);
        assert(drafted(m)->0 =~= sent(self@));
        proof {
            if legible(self@) {
                lemma_legible_is_sent(self@);
            }
        }
        write_message(&m)
    }
}

impl Name {
    /// The name that the text `s` denotes: labels between dots, fully qualified
    /// when it ends in a dot.
    pub fn from_str(s: &str) -> (r: Result<Name, ProtoError>)
        ensures
            match r {
                Ok(n) => parsed_name(s@) == Some(n@) && n@.valid(),
                Err(_) => parsed_name(s@) is None,
            },
            forall|labels: Seq<Seq<char>>|
                plain_labels(labels) && s@ == #[trigger] dotted(labels) ==> match r {
                    Ok(n) => n@ == plain_name(labels),
                    Err(_) => false,
                },
    {
        parse_name(s)
    }

    /// The text of the name, with characters escaped that would be read otherwise.
    pub fn to_string(&self) -> (r: String)
        ensures
            r@ == printed_name(self@),
            forall|labels: Seq<Seq<char>>|
                plain_labels(labels) && self@ == #[trigger] plain_name(labels) ==> r@ == dotted(
                    labels,
                ),
    {
        print_name(self)
    }

    /// The fully qualified name made of `labels`, which may hold any octets.
    pub fn from_labels(labels: &Vec<Vec<u8>>) -> (r: Result<Name, ProtoError>)
        ensures
            match r {
                Ok(n) => n@ == (NameView { labels: views(labels@), fqdn: true }) && n@.valid(),
                Err(_) => !(NameView { labels: views(labels@), fqdn: true }).valid(),
            },
    {
        name_of_labels(labels)
    }

    /// The labels of `self` followed by those of `other`.
    pub fn append_name(&self, other: &Name) -> (r: Result<Name, ProtoError>)
        ensures
            match r {
                Ok(n) => n@ == (NameView {
                    labels: self@.labels + other@.labels,
                    fqdn: other@.fqdn,
                }) && n@.valid(),
                Err(_) => label_octets(self@.labels + other@.labels) + 1 > 255,
            },
    {
        join_names(self, other)
    }
}

} // verus!
