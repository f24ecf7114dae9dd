//! Laws of messages on the wire.

use vstd::prelude::*;

use hickory_proto::ProtoError;

use crate::announce::{probe_view, probe_written};
use crate::dns::{MessageView, NameView, QuestionView, RDataView, RecordType, RecordView};
use crate::wire::{
    decoded, dotted, legible, legible_question, legible_record, message_octets, name_octets,
    plain_name, question_octets, record_octets, sent,
};

verus! {

/// Every record goes out with its name, class, lifetime and cache-flush bit, and with the data
/// that it has; data of other types goes out as the octets that it came in.
pub open spec fn same_on_the_wire(a: RecordView, b: RecordView) -> bool {
    &&& a.name == b.name
    &&& a.class == b.class
    &&& a.ttl == b.ttl
    &&& a.cache_flush == b.cache_flush
    &&& match a.data {
        RDataView::Other { code, wire, .. } => b.data is Other && b.data->code == code
            && b.data->wire == wire,
        _ => a.data == b.data,
    }
}

/// A message goes out with all its questions and records, each in its own section and place,
/// and with its header as it is.
pub proof fn messages_go_out_whole(m: MessageView, i: int)
    ensures
        ({
            let s = sent(m);
            &&& s.id == m.id
            &&& s.message_type == m.message_type
            &&& s.authoritative == m.authoritative
            &&& s.truncation == m.truncation
            &&& s.queries.len() == m.queries.len()
            &&& s.answers.len() == m.answers.len()
            &&& s.authorities.len() == m.authorities.len()
            &&& s.additionals.len() == m.additionals.len()
            &&& 0 <= i < m.queries.len() ==> s.queries[i].name == m.queries[i].name
                && s.queries[i].qclass == m.queries[i].qclass && s.queries[i].unicast_response
                == m.queries[i].unicast_response && s.queries[i].qtype.number()
                == m.queries[i].qtype.number()
            &&& 0 <= i < m.answers.len() ==> same_on_the_wire(m.answers[i], s.answers[i])
            &&& 0 <= i < m.authorities.len() ==> same_on_the_wire(
                m.authorities[i],
                s.authorities[i],
            )
            &&& 0 <= i < m.additionals.len() ==> same_on_the_wire(
                m.additionals[i],
                s.additionals[i],
            )
        }),
{
}

/// A fully qualified name that has labels of 1 to 63 octets, and 255 octets at most in all.
pub open spec fn proper_name(n: NameView) -> bool {
    &&& n.fqdn
    &&& forall|l: Seq<u8>| #[trigger] n.labels.contains(l) ==> 1 <= l.len() <= 63
    &&& name_octets(n) <= 255
}

/// A record of the types that the daemon publishes, in the Internet class.
pub open spec fn proper_record(r: RecordView) -> bool {
    &&& proper_name(r.name)
    &&& r.class == 1
    &&& match r.data {
        RDataView::A(_) => true,
        RDataView::AAAA(_) => true,
        RDataView::PTR(target) => proper_name(target),
        RDataView::SRV { target, .. } => proper_name(target),
        RDataView::TXT(strings) => strings.len() > 0 && forall|s: Seq<u8>| #[trigger]
            strings.contains(s) ==> s.len() <= 255,
        RDataView::Other { .. } => false,
    }
}

proof fn lemma_proper_name(n: NameView)
    requires
        proper_name(n),
    ensures
        n.valid(),
{
    assert forall|i: int| #![trigger n.labels[i]] 0 <= i < n.labels.len() implies 1
        <= n.labels[i].len() <= 63 by {
        assert(n.labels.contains(n.labels[i]));
    }
}

proof fn lemma_proper_record(r: RecordView)
    requires
        proper_record(r),
    ensures
        legible_record(r),
{
    lemma_proper_name(r.name);
    match r.data {
        RDataView::PTR(target) => {
            lemma_proper_name(target);
        },
        RDataView::SRV { target, .. } => {
            lemma_proper_name(target);
        },
        RDataView::TXT(strings) => {
            assert forall|i: int| #![trigger strings[i]]
                0 <= i < strings.len() implies strings[i].len() <= 255 by {
                assert(strings.contains(strings[i]));
            }
        },
        _ => {},
    }
}

/// Every message of proper questions and records that fits into 65535 octets is read by peers
/// as it was written, whatever its sections hold.
pub proof fn proper_messages_are_legible(m: MessageView)
    requires
        forall|q: QuestionView| #[trigger]
            m.queries.contains(q) ==> proper_name(q.name) && q.qclass == 1 && (q.qtype
                == RecordType::A || q.qtype == RecordType::AAAA || q.qtype == RecordType::PTR
                || q.qtype == RecordType::SRV || q.qtype == RecordType::TXT || q.qtype
                == RecordType::ANY),
        forall|r: RecordView| #[trigger] m.answers.contains(r) ==> proper_record(r),
        forall|r: RecordView| #[trigger] m.authorities.contains(r) ==> proper_record(r),
        forall|r: RecordView| #[trigger] m.additionals.contains(r) ==> proper_record(r),
        message_octets(m) <= 65535,
    ensures
        legible(m),
{
    assert forall|i: int| #![trigger m.queries[i]]
        0 <= i < m.queries.len() implies legible_question(m.queries[i]) by {
        assert(m.queries.contains(m.queries[i]));
        lemma_proper_name(m.queries[i].name);
    }
    assert forall|i: int| #![trigger m.answers[i]] 0 <= i < m.answers.len() implies legible_record(
        m.answers[i],
    ) by {
        assert(m.answers.contains(m.answers[i]));
        lemma_proper_record(m.answers[i]);
    }
    assert forall|i: int| #![trigger m.authorities[i]]
        0 <= i < m.authorities.len() implies legible_record(m.authorities[i]) by {
        assert(m.authorities.contains(m.authorities[i]));
        lemma_proper_record(m.authorities[i]);
    }
    assert forall|i: int| #![trigger m.additionals[i]]
        0 <= i < m.additionals.len() implies legible_record(m.additionals[i]) by {
        assert(m.additionals.contains(m.additionals[i]));
        lemma_proper_record(m.additionals[i]);
    }
}

/// The size of a message is that of its header, its questions and its records: twelve octets,
/// four more than its name for a question, ten more than its name and data for a record.
pub proof fn sizes_of_messages_add_up(
    questions: Seq<QuestionView>,
    q: QuestionView,
    records: Seq<RecordView>,
    r: RecordView,
    m: MessageView,
)
    ensures
        question_octets(Seq::empty()) == 0,
        question_octets(questions.push(q)) == question_octets(questions) + name_octets(q.name) + 4,
        record_octets(Seq::empty()) == 0,
        record_octets(records.push(r)) == record_octets(records) + name_octets(r.name) + 10
            + crate::wire::data_octets(r.data),
        message_octets(m) == 12 + question_octets(m.queries) + record_octets(m.answers)
            + record_octets(m.authorities) + record_octets(m.additionals),
{
    assert(questions.push(q).drop_last() =~= questions);
    assert(records.push(r).drop_last() =~= records);
}

/// A probe that peers can read is written, and they read it with its identifier, its
/// questions and the records that it proposes.
pub proof fn probes_are_read_as_they_were_planned(
    r: Result<Vec<u8>, ProtoError>,
    id: u16,
    unique: Seq<RecordView>,
)
    requires
        probe_written(r, id, unique),
        legible(probe_view(id, unique)),
    ensures
        r matches Ok(b) && decoded(b@) == Some(probe_view(id, unique)),
{
}

/// The text of a name has its labels in order, with a dot behind each; a name has the octets
/// of its labels.
pub proof fn names_are_written_label_by_label(labels: Seq<Seq<char>>, label: Seq<char>, i: int)
    ensures
        dotted(Seq::empty()) == Seq::<char>::empty(),
        dotted(labels.push(label)) == dotted(labels) + label + seq!['.'],
        plain_name(labels).fqdn,
        plain_name(labels).labels.len() == labels.len(),
        0 <= i < labels.len() ==> crate::laws::services::octets_are(
            plain_name(labels).labels[i],
            labels[i],
        ),
{
    assert(labels.push(label).drop_last() =~= labels);
    assert(dotted(labels) + label.push('.') =~= dotted(labels) + label + seq!['.']);
}

} // verus!
