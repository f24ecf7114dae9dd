//! Laws of names, types and the identity of records.

use vstd::prelude::*;

use crate::dns::{
    folded_octets, label_end, label_octets, lower, lower_label, lower_name_at, lower_range,
    type_of_code, window_end, with_types, with_window, NameView, RDataView, RecordType, RecordView,
};

verus! {

/// Two octets are the same letter: equal, or one the upper-case and the other the lower-case
/// form of an ASCII letter.
pub open spec fn same_letter(a: u8, b: u8) -> bool {
    ||| a == b
    ||| 0x41 <= a <= 0x5a && b == a + 0x20
    ||| 0x41 <= b <= 0x5a && a == b + 0x20
}

/// Two labels have the same letters.
pub open spec fn same_letters(a: Seq<u8>, b: Seq<u8>) -> bool {
    &&& a.len() == b.len()
    &&& forall|j: int| #![trigger a[j]] #![trigger b[j]] 0 <= j < a.len() ==> same_letter(a[j], b[j])
}

/// Two names are written alike but for the case of ASCII letters.
pub open spec fn same_name(a: NameView, b: NameView) -> bool {
    &&& a.fqdn == b.fqdn
    &&& a.labels.len() == b.labels.len()
    &&& forall|i: int| #![trigger a.labels[i]] #![trigger b.labels[i]]
        0 <= i < a.labels.len() ==> same_letters(a.labels[i], b.labels[i])
}

proof fn lemma_same_letters(a: Seq<u8>, b: Seq<u8>)
    ensures
        lower_label(a) == lower_label(b) <==> same_letters(a, b),
{
    let x = lower_label(a);
    let y = lower_label(b);
    if x == y {
        assert(x.len() == a.len() && y.len() == b.len());
        assert forall|j: int| 0 <= j < a.len() implies same_letter(a[j], b[j]) by {
            assert(x[j] == lower(a[j]));
            assert(y[j] == lower(b[j]));
        }
    }
    if same_letters(a, b) {
        assert forall|j: int| 0 <= j < a.len() implies x[j] == y[j] by {
            assert(same_letter(a[j], b[j]));
        }
        assert(x =~= y);
    }
}

/// Names are the same up to the case of ASCII letters, and only so.
pub proof fn names_are_the_same_in_any_case(a: NameView, b: NameView)
    ensures
        a.folded() == b.folded() <==> same_name(a, b),
{
    let x = a.folded();
    let y = b.folded();
    if x == y {
        assert(x.labels.len() == a.labels.len() && y.labels.len() == b.labels.len());
        assert forall|i: int| 0 <= i < a.labels.len() implies same_letters(
            a.labels[i],
            b.labels[i],
        ) by {
            assert(x.labels[i] == lower_label(a.labels[i]));
            assert(y.labels[i] == lower_label(b.labels[i]));
            lemma_same_letters(a.labels[i], b.labels[i]);
        }
    }
    if same_name(a, b) {
        assert forall|i: int| 0 <= i < a.labels.len() implies x.labels[i] == y.labels[i] by {
            lemma_same_letters(a.labels[i], b.labels[i]);
            assert(same_letters(a.labels[i], b.labels[i]));
        }
        assert(x.labels =~= y.labels);
    }
}

/// Data of the types that the daemon reads is the same when every field is: addresses and
/// strings exactly, names in any case.
pub proof fn data_is_the_same_field_by_field(a: RDataView, b: RDataView)
    requires
        !(a is Other && b is Other),
    ensures
        a.folded() == b.folded() <==> match (a, b) {
            (RDataView::A(x), RDataView::A(y)) => x.bits == y.bits,
            (RDataView::AAAA(x), RDataView::AAAA(y)) => x.bits == y.bits,
            (RDataView::PTR(x), RDataView::PTR(y)) => same_name(x, y),
            (
                RDataView::SRV { priority, weight, port, target },
                RDataView::SRV { priority: p2, weight: w2, port: q2, target: t2 },
            ) => priority == p2 && weight == w2 && port == q2 && same_name(target, t2),
            (RDataView::TXT(x), RDataView::TXT(y)) => x == y,
            _ => false,
        },
{
    match (a, b) {
        (RDataView::PTR(x), RDataView::PTR(y)) => {
            names_are_the_same_in_any_case(x, y);
        },
        (RDataView::SRV { target: x, .. }, RDataView::SRV { target: y, .. }) => {
            names_are_the_same_in_any_case(x, y);
        },
        _ => {},
    }
}

/// Data of other types is the same only under the same type number. But for the types that
/// hold a name or a list of types behind fixed fields, it is the same when the canonical
/// octets are.
pub proof fn other_data_is_the_same_by_its_octets(
    code: u16,
    wire: Seq<u8>,
    canonical: Seq<u8>,
    code2: u16,
    wire2: Seq<u8>,
    canonical2: Seq<u8>,
)
    ensures
        ({
            let a = RDataView::Other { code, wire, canonical };
            let b = RDataView::Other { code: code2, wire: wire2, canonical: canonical2 };
            &&& a.folded() == b.folded() ==> code == code2
            &&& code == code2 && canonical == canonical2 ==> a.folded() == b.folded()
            &&& code == code2 && code != 64 && code != 65 && code != 65305 && code != 62 ==> (
            a.folded() == b.folded() <==> canonical == canonical2)
        }),
{
    let a = RDataView::Other { code, wire, canonical };
    let b = RDataView::Other { code: code2, wire: wire2, canonical: canonical2 };
    assert(a.folded() == (RDataView::Other {
        code,
        wire: Seq::empty(),
        canonical: folded_octets(code, canonical),
    }));
    assert(b.folded() == (RDataView::Other {
        code: code2,
        wire: Seq::empty(),
        canonical: folded_octets(code2, canonical2),
    }));
}

proof fn lemma_lower_name_at(s: Seq<u8>, at: int)
    requires
        0 <= at,
    ensures
        same_letters(s, lower_name_at(s, at)),
        forall|i: int| 0 <= i < at && i < s.len() ==> #[trigger] lower_name_at(s, at)[i]
            == s[i],
    decreases s.len() - at,
{
    let out = lower_name_at(s, at);
    if at < s.len() && s[at] != 0 {
        let end = label_end(s, at);
        let next = lower_range(s, at + 1, end);
        lemma_lower_name_at(next, end);
        assert forall|j: int| 0 <= j < s.len() implies same_letter(s[j], out[j]) by {
            assert(same_letter(next[j], out[j]));
            assert(next[j] == s[j] || next[j] == lower(s[j]));
        }
    }
}

/// Of SVCB, HTTPS and ANAME data, octets that are the same differ at most in the case of
/// letters, and not at all in the fields before the target name.
pub proof fn data_with_a_target_differs_in_case_at_most(code: u16, a: Seq<u8>, b: Seq<u8>)
    requires
        code == 64 || code == 65 || code == 65305,
        folded_octets(code, a) == folded_octets(code, b),
    ensures
        a.len() == b.len(),
        forall|j: int| #![trigger a[j]] 0 <= j < a.len() ==> lower(a[j]) == lower(b[j]),
        code != 65305 ==> forall|j: int| #![trigger a[j]]
            0 <= j < 2 && j < a.len() ==> a[j] == b[j],
{
    let at = if code == 65305 {
        0int
    } else {
        2
    };
    lemma_lower_name_at(a, at);
    lemma_lower_name_at(b, at);
    let x = lower_name_at(a, at);
    assert forall|j: int| #![trigger a[j]] 0 <= j < a.len() implies lower(a[j]) == lower(b[j]) by {
        assert(same_letter(a[j], x[j]));
        assert(same_letter(b[j], x[j]));
    }
    assert forall|j: int| #![trigger a[j]] 0 <= j < at && j < a.len() implies a[j] == b[j] by {
        assert(x[j] == a[j]);
        assert(x[j] == b[j]);
    }
}

/// CSYNC data that is the same has the same serial number and flags.
pub proof fn csync_data_agrees_in_its_fields(a: Seq<u8>, b: Seq<u8>)
    requires
        a.len() >= 6,
        folded_octets(62, a) == folded_octets(62, b),
        b.len() >= 6,
    ensures
        a.take(6) == b.take(6),
{
    let x = folded_octets(62, a);
    let y = folded_octets(62, b);
    assert forall|i: int| 0 <= i < 6 implies a.take(6)[i] == b.take(6)[i] by {
        assert(x[i] == a.take(6)[i]);
        assert(y[i] == b.take(6)[i]);
    }
    assert(a.take(6) =~= b.take(6));
}

/// Two records are the same resource when name, type, class and data are the same; their
/// lifetimes and cache-flush bits do not count.
pub proof fn identity_is_name_type_class_and_data(a: RecordView, b: RecordView)
    ensures
        a.key() == b.key() <==> same_name(a.name, b.name) && a.rtype() == b.rtype() && a.class
            == b.class && a.data.folded() == b.data.folded(),
        a.name == b.name && a.class == b.class && a.data == b.data ==> a.key() == b.key(),
{
    names_are_the_same_in_any_case(a.name, b.name);
}

/// A record answers a question for its name, in any case, and for its type or for every type.
pub proof fn records_answer_questions_for_their_name_and_type(
    r: RecordView,
    name: NameView,
    qtype: RecordType,
)
    ensures
        r.answers(name, qtype) <==> same_name(r.name, name) && (qtype == RecordType::ANY || qtype
            == r.rtype()),
{
    names_are_the_same_in_any_case(r.name, name);
}

/// Every number is that of one type, and the types that the daemon knows have the numbers
/// of RFC 1035, RFC 2782 and RFC 3596.
pub proof fn types_have_their_numbers(code: u16, data: RDataView)
    ensures
        type_of_code(code).number() == code,
        data is A <==> data.rtype().number() == 1 && !(data is Other),
        data is AAAA <==> data.rtype().number() == 28 && !(data is Other),
        data is PTR <==> data.rtype().number() == 12 && !(data is Other),
        data is SRV <==> data.rtype().number() == 33 && !(data is Other),
        data is TXT <==> data.rtype().number() == 16 && !(data is Other),
        data matches RDataView::Other { code: c, .. } ==> data.rtype().number() == c,
        RecordType::ANY.number() == 255,
        code == 1 <==> type_of_code(code) == RecordType::A,
        code == 28 <==> type_of_code(code) == RecordType::AAAA,
        code == 12 <==> type_of_code(code) == RecordType::PTR,
        code == 33 <==> type_of_code(code) == RecordType::SRV,
        code == 16 <==> type_of_code(code) == RecordType::TXT,
        code == 255 <==> type_of_code(code) == RecordType::ANY,
{
}

/// A name is of legal size when its labels have 1 to 63 octets and take, with a length octet
/// each and one for the root, at most 255.
pub proof fn sizes_of_names_add_up(a: Seq<Seq<u8>>, label: Seq<u8>, n: NameView)
    ensures
        label_octets(Seq::empty()) == 0,
        label_octets(a.push(label)) == label_octets(a) + 1 + label.len(),
        n.valid() <==> label_octets(n.labels) + 1 <= 255 && forall|l: Seq<u8>| #[trigger]
            n.labels.contains(l) ==> 1 <= l.len() <= 63,
{
    assert(a.push(label).drop_last() =~= a);
    if n.valid() {
        assert forall|l: Seq<u8>| #[trigger] n.labels.contains(l) implies 1 <= l.len() <= 63 by {
            let k = choose|k: int| 0 <= k < n.labels.len() && n.labels[k] == l;
        }
    }
    if forall|l: Seq<u8>| #[trigger] n.labels.contains(l) ==> 1 <= l.len() <= 63 {
        assert forall|i: int| #![trigger n.labels[i]] 0 <= i < n.labels.len() implies 1
            <= n.labels[i].len() <= 63 by {
            assert(n.labels.contains(n.labels[i]));
        }
    }
}

/// A name as it is written out in data: each label behind its length, and a zero at the end.
pub open spec fn written_out(labels: Seq<Seq<u8>>) -> Seq<u8>
    decreases labels.len(),
{
    if labels.len() == 0 {
        seq![0u8]
    } else {
        seq![labels[0].len() as u8] + labels[0] + written_out(labels.skip(1))
    }
}

/// Every label has 1 to 63 octets.
pub open spec fn short_labels(labels: Seq<Seq<u8>>) -> bool {
    forall|i: int| #![trigger labels[i]] 0 <= i < labels.len() ==> 1 <= labels[i].len() <= 63
}

proof fn lemma_short_rest(labels: Seq<Seq<u8>>)
    requires
        short_labels(labels),
        labels.len() > 0,
    ensures
        short_labels(labels.skip(1)),
{
    assert forall|i: int| #![trigger labels.skip(1)[i]]
        0 <= i < labels.skip(1).len() implies 1 <= labels.skip(1)[i].len() <= 63 by {
        assert(labels.skip(1)[i] == labels[i + 1]);
    }
}

proof fn lemma_written_lower(head: Seq<u8>, labels: Seq<Seq<u8>>, tail: Seq<u8>)
    requires
        short_labels(labels),
    ensures
        lower_name_at(head + written_out(labels) + tail, head.len() as int) == head + written_out(
            labels.map_values(|l: Seq<u8>| lower_label(l)),
        ) + tail,
    decreases labels.len(),
{
    let f = |l: Seq<u8>| lower_label(l);
    let s = head + written_out(labels) + tail;
    let n = head.len() as int;
    let small = labels.map_values(f);
    if labels.len() == 0 {
        assert(s[n] == 0);
        assert(small =~= labels);
    } else {
        let l = labels[0];
        let rest = labels.skip(1);
        let k = l.len() as int;
        assert(1 <= labels[0].len() <= 63);
        lemma_short_rest(labels);
        assert(s[n] == k);
        assert(written_out(rest).len() >= 1);
        let end = label_end(s, n);
        assert(end == n + 1 + k);
        let next = head + seq![k as u8] + lower_label(l);
        assert(lower_label(l).len() == k);
        assert(lower_range(s, n + 1, end) =~= next + written_out(rest) + tail);
        lemma_written_lower(next, rest, tail);
        assert(next.len() == end);
        assert(small.skip(1) =~= rest.map_values(f));
        assert(small[0] == lower_label(l));
        assert(next + written_out(rest.map_values(f)) + tail =~= head + written_out(small) + tail);
    }
}

proof fn lemma_written_once(a: Seq<Seq<u8>>, ta: Seq<u8>, b: Seq<Seq<u8>>, tb: Seq<u8>)
    requires
        short_labels(a),
        short_labels(b),
        written_out(a) + ta == written_out(b) + tb,
    ensures
        a == b,
        ta == tb,
    decreases a.len(),
{
    let x = written_out(a) + ta;
    let y = written_out(b) + tb;
    if a.len() > 0 {
        assert(1 <= a[0].len() <= 63);
        assert(x[0] == a[0].len());
    } else {
        assert(x[0] == 0);
    }
    if b.len() > 0 {
        assert(1 <= b[0].len() <= 63);
        assert(y[0] == b[0].len());
    } else {
        assert(y[0] == 0);
    }
    if a.len() == 0 {
        assert(a =~= b);
        assert(ta =~= x.skip(1));
        assert(tb =~= y.skip(1));
    } else {
        let k = a[0].len() as int;
        assert(a[0] =~= x.subrange(1, k + 1));
        assert(b[0] =~= y.subrange(1, k + 1));
        assert(written_out(a.skip(1)) + ta =~= x.skip(k + 1));
        assert(written_out(b.skip(1)) + tb =~= y.skip(k + 1));
        assert(b.len() > 0);
        lemma_short_rest(a);
        lemma_short_rest(b);
        lemma_written_once(a.skip(1), ta, b.skip(1), tb);
        assert(a =~= seq![a[0]] + a.skip(1));
        assert(b =~= seq![b[0]] + b.skip(1));
    }
}

/// Of data with a target name (SVCB and HTTPS behind two octets, ANAME at the start) the
/// target is the same in any case of its letters, and everything around it only where it is
/// equal.
pub proof fn targets_are_the_same_in_any_case(
    code: u16,
    head: Seq<u8>,
    labels: Seq<Seq<u8>>,
    tail: Seq<u8>,
    head2: Seq<u8>,
    labels2: Seq<Seq<u8>>,
    tail2: Seq<u8>,
)
    requires
        code == 64 || code == 65 || code == 65305,
        head.len() == (if code == 65305 { 0int } else { 2 }),
        head2.len() == head.len(),
        short_labels(labels),
        short_labels(labels2),
    ensures
        folded_octets(code, head + written_out(labels) + tail) == folded_octets(
            code,
            head2 + written_out(labels2) + tail2,
        ) <==> head == head2 && tail == tail2 && same_name(
            NameView { labels, fqdn: true },
            NameView { labels: labels2, fqdn: true },
        ),
{
    let f = |l: Seq<u8>| lower_label(l);
    let a = labels.map_values(f);
    let b = labels2.map_values(f);
    lemma_written_lower(head, labels, tail);
    lemma_written_lower(head2, labels2, tail2);
    let x = head + written_out(a) + tail;
    let y = head2 + written_out(b) + tail2;
    let m = NameView { labels, fqdn: true };
    let n = NameView { labels: labels2, fqdn: true };
    names_are_the_same_in_any_case(m, n);
    assert(m.folded().labels =~= a);
    assert(n.folded().labels =~= b);
    if x == y {
        assert forall|i: int| #![trigger a[i]] 0 <= i < a.len() implies 1 <= a[i].len() <= 63 by {
            assert(1 <= labels[i].len() <= 63);
        }
        assert forall|i: int| #![trigger b[i]] 0 <= i < b.len() implies 1 <= b[i].len() <= 63 by {
            assert(1 <= labels2[i].len() <= 63);
        }
        let k = head.len() as int;
        assert(head =~= x.take(k));
        assert(head2 =~= y.take(k));
        assert(written_out(a) + tail =~= x.skip(k));
        assert(written_out(b) + tail2 =~= y.skip(k));
        lemma_written_once(a, tail, b, tail2);
    }
}

/// One window of a list of types.
pub struct Window {
    pub number: u8,
    pub bits: Seq<u8>,
}

/// The windows as they are written, each behind its number and its length.
pub open spec fn written_windows(windows: Seq<Window>) -> Seq<u8>
    decreases windows.len(),
{
    if windows.len() == 0 {
        Seq::empty()
    } else {
        seq![windows[0].number, windows[0].bits.len() as u8] + windows[0].bits + written_windows(
            windows.skip(1),
        )
    }
}

/// Some bit of `mask` is set in octet `i` of the map of all types by one of the windows.
pub open spec fn some_window_sets(windows: Seq<Window>, i: int, mask: u8) -> bool {
    exists|j: int| #![trigger windows[j]]
        0 <= j < windows.len() && 0 <= i - 32 * windows[j].number < windows[j].bits.len()
            && windows[j].bits[i - 32 * windows[j].number] & mask != 0
}

proof fn lemma_windows(map: Seq<u8>, head: Seq<u8>, windows: Seq<Window>, i: int, mask: u8)
    requires
        0 <= i < map.len(),
        forall|j: int| #![trigger windows[j]]
            0 <= j < windows.len() ==> windows[j].bits.len() <= 32,
    ensures
        ({
            let out = with_types(map, head + written_windows(windows), head.len() as int);
            &&& out.len() == map.len()
            &&& out[i] & mask != 0 <==> map[i] & mask != 0 || some_window_sets(windows, i, mask)
        }),
    decreases windows.len(),
{
    let s = head + written_windows(windows);
    let at = head.len() as int;
    if windows.len() > 0 {
        let w = windows[0];
        let rest = windows.skip(1);
        assert(windows[0].bits.len() <= 32);
        assert forall|j: int| #![trigger rest[j]] 0 <= j < rest.len() implies rest[j].bits.len()
            <= 32 by {
            assert(rest[j] == windows[j + 1]);
        }
        let next = head + seq![w.number, w.bits.len() as u8] + w.bits;
        assert(s =~= next + written_windows(rest));
        assert(s[at] == w.number);
        assert(s[at + 1] == w.bits.len());
        let end = window_end(s, at);
        assert(end == next.len());
        assert(s.subrange(at + 2, end) =~= w.bits);
        let grown = with_window(map, w.number, w.bits);
        lemma_windows(grown, next, rest, i, mask);
        let a = map[i];
        if 0 <= i - 32 * w.number < w.bits.len() {
            let b = w.bits[i - 32 * w.number];
            assert((a | b) & mask != 0 <==> a & mask != 0 || b & mask != 0) by (bit_vector);
        }
        if some_window_sets(rest, i, mask) {
            let j = choose|j: int|
                #![trigger rest[j]]
                0 <= j < rest.len() && 0 <= i - 32 * rest[j].number < rest[j].bits.len()
                    && rest[j].bits[i - 32 * rest[j].number] & mask != 0;
            assert(windows[j + 1] == rest[j]);
        }
        if some_window_sets(windows, i, mask) {
            let j = choose|j: int|
                #![trigger windows[j]]
                0 <= j < windows.len() && 0 <= i - 32 * windows[j].number < windows[j].bits.len()
                    && windows[j].bits[i - 32 * windows[j].number] & mask != 0;
            if j > 0 {
                assert(rest[j - 1] == windows[j]);
            }
        }
    } else {
        assert(s =~= head);
    }
}

/// CSYNC data is the same where its first fields are equal and the windows list the same
/// types, in whatever way they are written: a type counts as listed when any window has its
/// bit.
pub proof fn csync_data_lists_the_types_of_all_windows(
    fields: Seq<u8>,
    windows: Seq<Window>,
    i: int,
    mask: u8,
)
    requires
        fields.len() == 6,
        forall|j: int| #![trigger windows[j]]
            0 <= j < windows.len() ==> windows[j].bits.len() <= 32,
        0 <= i < 8192,
    ensures
        ({
            let out = folded_octets(62, fields + written_windows(windows));
            &&& out.len() == 6 + 8192
            &&& out.take(6) == fields
            &&& out[6 + i] & mask != 0 <==> some_window_sets(windows, i, mask)
        }),
{
    let s = fields + written_windows(windows);
    let map = Seq::new(8192, |i: int| 0u8);
    lemma_windows(map, fields, windows, i, mask);
    assert(s.take(6) =~= fields);
    assert(0u8 & mask == 0) by (bit_vector);
    let out = folded_octets(62, s);
    assert(out.take(6) =~= fields);
}

} // verus!
