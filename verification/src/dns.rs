//! Domain names, resource records and messages.
//!
//! Every type has a view made of sequences and integers, and contracts speak of
//! the views. Two names denote the same thing when they differ only in the case
//! of ASCII letters; the *folded* view of a value has those letters in lower
//! case, so that equal folded views mean equal names, data or records.

use vstd::prelude::*;

use crate::addr::{Ipv4Addr, Ipv6Addr};
use crate::seqs::views;

verus! {

/// `b` with an ASCII upper-case letter replaced by its lower-case form.
pub open spec fn lower(b: u8) -> u8 {
    if 65 <= b <= 90 {
        (b + 32) as u8
    } else {
        b
    }
}

/// A label with its ASCII letters in lower case.
pub open spec fn lower_label(label: Seq<u8>) -> Seq<u8> {
    label.map_values(|b: u8| lower(b))
}

/// The octets that `labels` take in a message, their length octets included and
/// the terminating root label left out.
pub open spec fn label_octets(labels: Seq<Seq<u8>>) -> nat
    decreases labels.len(),
{
    if labels.len() == 0 {
        0
    } else {
        label_octets(labels.drop_last()) + labels.last().len() + 1
    }
}

/// What a [`Name`] denotes.
#[verifier::ext_equal]
pub struct NameView {
    pub labels: Seq<Seq<u8>>,
    pub fqdn: bool,
}

impl NameView {
    pub open spec fn folded(self) -> NameView {
        NameView { labels: self.labels.map_values(|l: Seq<u8>| lower_label(l)), fqdn: self.fqdn }
    }

    /// Labels of 1 to 63 octets, at most 255 octets in all (RFC 1035).
    pub open spec fn valid(self) -> bool {
        &&& forall|i: int| #![trigger self.labels[i]]
            0 <= i < self.labels.len() ==> 1 <= self.labels[i].len() <= 63
        &&& label_octets(self.labels) + 1 <= 255
    }
}

/// A domain name: labels from the most specific one to the top. Every value is of legal
/// size.
#[derive(Debug)]
pub struct Name {
    pub(crate) labels: Vec<Vec<u8>>,
    pub(crate) fqdn: bool,
}

impl View for Name {
    type V = NameView;

    closed spec fn view(&self) -> NameView {
        NameView { labels: views(self.labels@), fqdn: self.fqdn }
    }
}

fn lower_octet(b: u8) -> (r: u8)
    ensures
        r == lower(b),
{
    if 65 <= b && b <= 90 {
        b + 32
    } else {
        b
    }
}

fn same_label(a: &Vec<u8>, b: &Vec<u8>) -> (r: bool)
    ensures
        r == (lower_label(a@) == lower_label(b@)),
{
    if a.len() != b.len() {
        assert(lower_label(a@).len() != lower_label(b@).len());
        return false;
    }
    let mut i: usize = 0;
    while i < a.len()
        invariant
            i <= a.len(),
            a.len() == b.len(),
            forall|k: int| 0 <= k < i ==> lower(a@[k]) == lower(b@[k]),
        decreases a.len() - i,
    {
        if lower_octet(a[i]) != lower_octet(b[i]) {
            assert(lower_label(a@)[i as int] != lower_label(b@)[i as int]);
            return false;
        }
        i += 1;
    }
    assert(lower_label(a@) =~= lower_label(b@));
    true
}

pub(crate) fn clone_octets(v: &Vec<u8>) -> (r: Vec<u8>)
    ensures
        r@ == v@,
{
    let mut out: Vec<u8> = Vec::new();
    out.extend_from_slice(v.as_slice());
    assert(out@ =~= v@);
    out
}

pub(crate) fn clone_labels(v: &Vec<Vec<u8>>) -> (r: Vec<Vec<u8>>)
    ensures
        views(r@) == views(v@),
{
    let mut out: Vec<Vec<u8>> = Vec::new();
    let mut i: usize = 0;
    while i < v.len()
        invariant
            i <= v.len(),
            out.len() == i,
            forall|k: int| 0 <= k < i ==> #[trigger] out@[k]@ == v@[k]@,
        decreases v.len() - i,
    {
        out.push(clone_octets(&v[i]));
        i += 1;
    }
    assert(views(out@) =~= views(v@));
    out
}

impl Name {
    #[verifier::type_invariant]
    closed spec fn well_formed(self) -> bool {
        self@.valid()
    }

    /// The root: no labels, fully qualified.
    pub fn root() -> (r: Name)
        ensures
            r@ == (NameView { labels: Seq::empty(), fqdn: true }),
    {
        let labels: Vec<Vec<u8>> = Vec::new();
        assert(views(labels@) =~= Seq::<Seq<u8>>::empty());
        Name { labels, fqdn: true }
    }

    pub fn is_fqdn(&self) -> (r: bool)
        ensures
            r == self@.fqdn,
    {
        self.fqdn
    }

    pub fn num_labels(&self) -> (r: usize)
        ensures
            r == self@.labels.len(),
    {
        self.labels.len()
    }
}

impl Clone for Name {
    fn clone(&self) -> (r: Name)
        ensures
            r@ == self@,
    {
        proof {
            use_type_invariant(self);
        }
        Name { labels: clone_labels(&self.labels), fqdn: self.fqdn }
    }
}

impl PartialEq for Name {
    fn eq(&self, other: &Name) -> (r: bool) {
        let ghost mine = self@.folded();
        let ghost theirs = other@.folded();
        if self.fqdn != other.fqdn {
            assert(mine.fqdn != theirs.fqdn);
            return false;
        }
        if self.labels.len() != other.labels.len() {
            assert(mine.labels.len() != theirs.labels.len());
            return false;
        }
        let mut i: usize = 0;
        while i < self.labels.len()
            invariant
                i <= self.labels.len(),
                self.labels.len() == other.labels.len(),
                mine == self@.folded(),
                theirs == other@.folded(),
                forall|k: int| 0 <= k < i ==> mine.labels[k] == theirs.labels[k],
            decreases self.labels.len() - i,
        {
            assert(mine.labels[i as int] == lower_label(self.labels@[i as int]@));
            assert(theirs.labels[i as int] == lower_label(other.labels@[i as int]@));
            if !same_label(&self.labels[i], &other.labels[i]) {
                return false;
            }
            i += 1;
        }
        assert(mine.labels =~= theirs.labels);
        true
    }
}

impl vstd::std_specs::cmp::PartialEqSpecImpl for Name {
    open spec fn obeys_eq_spec() -> bool {
        true
    }

    open spec fn eq_spec(&self, other: &Name) -> bool {
        self@.folded() == other@.folded()
    }
}

/// The type of a record or question.
#[derive(Debug, Clone, Copy, PartialEq, Eq, Structural)]
pub enum RecordType {
    A,
    AAAA,
    PTR,
    SRV,
    TXT,
    /// In a question: every type.
    ANY,
    /// Any other type, by its number.
    Other(u16),
}

/// The type with number `code`.
pub open spec fn type_of_code(code: u16) -> RecordType {
    if code == 1 {
        RecordType::A
    } else if code == 28 {
        RecordType::AAAA
    } else if code == 12 {
        RecordType::PTR
    } else if code == 33 {
        RecordType::SRV
    } else if code == 16 {
        RecordType::TXT
    } else if code == 255 {
        RecordType::ANY
    } else {
        RecordType::Other(code)
    }
}

impl RecordType {
    pub fn from_code(code: u16) -> (r: RecordType)
        ensures
            r == type_of_code(code),
    {
        match code {
            1 => RecordType::A,
            28 => RecordType::AAAA,
            12 => RecordType::PTR,
            33 => RecordType::SRV,
            16 => RecordType::TXT,
            255 => RecordType::ANY,
            _ => RecordType::Other(code),
        }
    }

    pub open spec fn number(self) -> u16 {
        match self {
            RecordType::A => 1,
            RecordType::AAAA => 28,
            RecordType::PTR => 12,
            RecordType::SRV => 33,
            RecordType::TXT => 16,
            RecordType::ANY => 255,
            RecordType::Other(code) => code,
        }
    }

    pub fn code(self) -> (r: u16)
        ensures
            r == self.number(),
    {
        match self {
            RecordType::A => 1,
            RecordType::AAAA => 28,
            RecordType::PTR => 12,
            RecordType::SRV => 33,
            RecordType::TXT => 16,
            RecordType::ANY => 255,
            RecordType::Other(code) => code,
        }
    }

    /// Whether a record of type `t` answers a question of type `self`.
    pub open spec fn covers(self, t: RecordType) -> bool {
        self == RecordType::ANY || t == self
    }
}

/// The Internet class.
pub const CLASS_IN: u16 = 1;

/// In a question: every class.
pub const CLASS_ANY: u16 = 255;

/// Where the target name starts in the octets of the data types that hold one and are not
/// among those whose canonical form has names in lower case: SVCB, HTTPS and ANAME.
pub open spec fn target_offset(code: u16) -> Option<int> {
    if code == 64 || code == 65 {
        Some(2)
    } else if code == 65305 {
        Some(0)
    } else {
        None
    }
}

/// Where the label that starts at `at` ends, within `s`.
pub open spec fn label_end(s: Seq<u8>, at: int) -> int {
    if at + 1 + s[at] < s.len() {
        at + 1 + s[at]
    } else {
        s.len() as int
    }
}

/// `s` with the octets from `from` up to `to` in lower case.
pub open spec fn lower_range(s: Seq<u8>, from: int, to: int) -> Seq<u8> {
    Seq::new(
        s.len(),
        |i: int|
            if from <= i < to {
                lower(s[i])
            } else {
                s[i]
            },
    )
}

/// `s` with the name that is written out at `at`, label by label, in lower case.
pub open spec fn lower_name_at(s: Seq<u8>, at: int) -> Seq<u8>
    decreases s.len() - at,
{
    if 0 <= at < s.len() && s[at] != 0 {
        lower_name_at(lower_range(s, at + 1, label_end(s, at)), label_end(s, at))
    } else {
        s
    }
}

/// The number of the CSYNC type.
pub const TYPE_CSYNC: u16 = 62;

/// Octets of a bit map of all types.
pub const TYPE_MAP_OCTETS: usize = 8192;

/// `map` with the types of one window added: `bits` stands for the octets from
/// `32 * window` on, of which the window has 32.
pub open spec fn with_window(map: Seq<u8>, window: u8, bits: Seq<u8>) -> Seq<u8> {
    Seq::new(
        map.len(),
        |i: int|
            if 0 <= i - 32 * window < 32 && i - 32 * window < bits.len() {
                map[i] | bits[i - 32 * window]
            } else {
                map[i]
            },
    )
}

/// Where the window block that starts at `at` ends, within `s`: behind its number, its
/// length and as many octets as that says.
pub open spec fn window_end(s: Seq<u8>, at: int) -> int {
    if at + 2 + s[at + 1] < s.len() {
        at + 2 + s[at + 1]
    } else {
        s.len() as int
    }
}

/// `map` with the types that the window blocks of `s` from `at` on list (RFC 4034 section
/// 4.1.2).
pub open spec fn with_types(map: Seq<u8>, s: Seq<u8>, at: int) -> Seq<u8>
    decreases s.len() - at,
{
    if 0 <= at && at + 1 < s.len() {
        with_types(
            with_window(map, s[at], s.subrange(at + 2, window_end(s, at))),
            s,
            window_end(s, at),
        )
    } else {
        map
    }
}

/// CSYNC data with the list of types, which may be written in several ways, as one bit map
/// of all types.
pub open spec fn with_type_map(s: Seq<u8>) -> Seq<u8> {
    if s.len() < 6 {
        s
    } else {
        s.take(6) + with_types(Seq::new(TYPE_MAP_OCTETS as nat, |i: int| 0u8), s, 6)
    }
}

/// What decides whether two values of other types are the same: the canonical octets,
/// with the target name in lower case where the type has one, and for CSYNC with the types
/// that are listed in place of how they are.
pub open spec fn folded_octets(code: u16, canonical: Seq<u8>) -> Seq<u8> {
    match target_offset(code) {
        Some(at) => lower_name_at(canonical, at),
        None => if code == TYPE_CSYNC {
            with_type_map(canonical)
        } else {
            canonical
        },
    }
}

/// What an [`RData`] denotes.
#[verifier::ext_equal]
pub enum RDataView {
    A(Ipv4Addr),
    AAAA(Ipv6Addr),
    PTR(NameView),
    SRV { priority: u16, weight: u16, port: u16, target: NameView },
    TXT(Seq<Seq<u8>>),
    Other { code: u16, wire: Seq<u8>, canonical: Seq<u8> },
}

impl RDataView {
    /// What decides whether two values are the same data.
    pub open spec fn folded(self) -> RDataView {
        match self {
            RDataView::PTR(target) => RDataView::PTR(target.folded()),
            RDataView::SRV { priority, weight, port, target } => RDataView::SRV {
                priority,
                weight,
                port,
                target: target.folded(),
            },
            RDataView::Other { code, wire: _, canonical } => RDataView::Other {
                code,
                wire: Seq::empty(),
                canonical: folded_octets(code, canonical),
            },
            _ => self,
        }
    }

    pub open spec fn rtype(self) -> RecordType {
        match self {
            RDataView::A(_) => RecordType::A,
            RDataView::AAAA(_) => RecordType::AAAA,
            RDataView::PTR(_) => RecordType::PTR,
            RDataView::SRV { .. } => RecordType::SRV,
            RDataView::TXT(_) => RecordType::TXT,
            RDataView::Other { code, .. } => type_of_code(code),
        }
    }
}

/// The data of a record.
#[derive(Debug)]
pub enum RData {
    A(Ipv4Addr),
    AAAA(Ipv6Addr),
    PTR(Name),
    SRV { priority: u16, weight: u16, port: u16, target: Name },
    /// The character strings of a TXT record.
    TXT(Vec<Vec<u8>>),
    /// Data of a type that the daemon only stores and relays: its octets with
    /// names written out in full, and the same in the canonical form of RFC 4034
    /// section 6.2, by which two such values are compared. Names that this form leaves
    /// as they are count in any case, and of a list of types only which are in it.
    Other { code: u16, wire: Vec<u8>, canonical: Vec<u8> },
}

impl View for RData {
    type V = RDataView;

    open spec fn view(&self) -> RDataView {
        match self {
            RData::A(a) => RDataView::A(*a),
            RData::AAAA(a) => RDataView::AAAA(*a),
            RData::PTR(n) => RDataView::PTR(n@),
            RData::SRV { priority, weight, port, target } => RDataView::SRV {
                priority: *priority,
                weight: *weight,
                port: *port,
                target: target@,
            },
            RData::TXT(t) => RDataView::TXT(views(t@)),
            RData::Other { code, wire, canonical } => RDataView::Other {
                code: *code,
                wire: wire@,
                canonical: canonical@,
            },
        }
    }
}

pub(crate) fn same_octets(a: &Vec<u8>, b: &Vec<u8>) -> (r: bool)
    ensures
        r == (a@ == b@),
{
    if a.len() != b.len() {
        return false;
    }
    let mut i: usize = 0;
    while i < a.len()
        invariant
            i <= a.len(),
            a.len() == b.len(),
            forall|k: int| 0 <= k < i ==> a@[k] == b@[k],
        decreases a.len() - i,
    {
        if a[i] != b[i] {
            return false;
        }
        i += 1;
    }
    assert(a@ =~= b@);
    true
}

fn same_strings(a: &Vec<Vec<u8>>, b: &Vec<Vec<u8>>) -> (r: bool)
    ensures
        r == (views(a@) == views(b@)),
{
    if a.len() != b.len() {
        assert(views(a@).len() != views(b@).len());
        return false;
    }
    let mut i: usize = 0;
    while i < a.len()
        invariant
            i <= a.len(),
            a.len() == b.len(),
            forall|k: int| 0 <= k < i ==> #[trigger] a@[k]@ == b@[k]@,
        decreases a.len() - i,
    {
        if !same_octets(&a[i], &b[i]) {
            assert(views(a@)[i as int] != views(b@)[i as int]);
            return false;
        }
        i += 1;
    }
    assert(views(a@) =~= views(b@));
    true
}

fn lower_name(octets: &Vec<u8>, at: usize) -> (r: Vec<u8>)
    ensures
        r@ == lower_name_at(octets@, at as int),
{
    let mut out = clone_octets(octets);
    let mut pos: usize = at;
    while pos < out.len() && out[pos] != 0
        invariant
            lower_name_at(octets@, at as int) == lower_name_at(out@, pos as int),
        decreases out.len() - pos,
    {
        let ghost before = out@;
        let rest: usize = out.len() - pos - 1;
        let len: usize = out[pos] as usize;
        let end: usize = if len < rest {
            pos + 1 + len
        } else {
            out.len()
        };
        assert(end == label_end(before, pos as int));
        let mut i: usize = pos + 1;
        while i < end
            invariant
                pos < i <= end <= out.len(),
                out@ == lower_range(before, pos + 1, i as int),
            decreases end - i,
        {
            let b: u8 = lower_octet(out[i]);
            out.set(i, b);
            i += 1;
            assert(out@ =~= lower_range(before, pos + 1, i as int));
        }
        pos = end;
    }
    out
}

fn add_window(map: &mut Vec<u8>, octets: &Vec<u8>, from: usize, to: usize, window: u8)
    requires
        from <= to <= octets.len(),
        old(map).len() == TYPE_MAP_OCTETS,
    ensures
        final(map)@ == with_window(
            old(map)@,
            window,
            octets@.subrange(from as int, to as int),
        ),
{
    let ghost before = map@;
    let ghost bits = octets@.subrange(from as int, to as int);
    let base: usize = window as usize * 32;
    let mut k: usize = 0;
    assert(with_window(before, window, bits.take(0)) =~= before);
    while k < 32 && k < to - from
        invariant
            k <= 32,
            k <= to - from,
            from <= to <= octets.len(),
            base == 32 * window,
            before.len() == TYPE_MAP_OCTETS,
            bits == octets@.subrange(from as int, to as int),
            map@ == with_window(before, window, bits.take(k as int)),
        decreases 32 - k,
    {
        let b: u8 = map[base + k] | octets[from + k];
        map.set(base + k, b);
        k += 1;
        assert(map@ =~= with_window(before, window, bits.take(k as int)));
    }
    assert(map@ =~= with_window(before, window, bits));
}

/// CSYNC data with its types as one bit map.
fn map_types(octets: &Vec<u8>) -> (r: Vec<u8>)
    ensures
        r@ == with_type_map(octets@),
{
    if octets.len() < 6 {
        return clone_octets(octets);
    }
    let ghost none = Seq::new(TYPE_MAP_OCTETS as nat, |i: int| 0u8);
    let mut map: Vec<u8> = Vec::new();
    while map.len() < TYPE_MAP_OCTETS
        invariant
            map.len() <= TYPE_MAP_OCTETS,
            forall|k: int| 0 <= k < map.len() ==> map@[k] == 0,
        decreases TYPE_MAP_OCTETS - map.len(),
    {
        map.push(0);
    }
    assert(map@ =~= none);
    let mut pos: usize = 6;
    while pos < octets.len() && octets.len() - pos > 1
        invariant
            6 <= pos <= octets.len(),
            map.len() == TYPE_MAP_OCTETS,
            with_types(none, octets@, 6) == with_types(map@, octets@, pos as int),
        decreases octets.len() - pos,
    {
        let rest: usize = octets.len() - pos - 2;
        let len: usize = octets[pos + 1] as usize;
        let end: usize = if len < rest {
            pos + 2 + len
        } else {
            octets.len()
        };
        assert(end == window_end(octets@, pos as int));
        add_window(&mut map, octets, pos + 2, end, octets[pos]);
        pos = end;
    }
    let mut out: Vec<u8> = Vec::new();
    let mut i: usize = 0;
    while i < 6
        invariant
            i <= 6 <= octets.len(),
            out@ == octets@.take(i as int),
        decreases 6 - i,
    {
        out.push(octets[i]);
        i += 1;
        assert(out@ =~= octets@.take(i as int));
    }
    out.append(&mut map);
    out
}

/// The octets that decide whether two values of other types are the same.
fn fold_octets(code: u16, canonical: &Vec<u8>) -> (r: Vec<u8>)
    ensures
        r@ == folded_octets(code, canonical@),
{
    if code == 64 || code == 65 {
        lower_name(canonical, 2)
    } else if code == 65305 {
        lower_name(canonical, 0)
    } else if code == TYPE_CSYNC {
        map_types(canonical)
    } else {
        clone_octets(canonical)
    }
}

impl Clone for RData {
    fn clone(&self) -> (r: RData)
        ensures
            r@ == self@,
    {
        match self {
            RData::A(a) => RData::A(*a),
            RData::AAAA(a) => RData::AAAA(*a),
            RData::PTR(n) => RData::PTR(n.clone()),
            RData::SRV { priority, weight, port, target } => RData::SRV {
                priority: *priority,
                weight: *weight,
                port: *port,
                target: target.clone(),
            },
            RData::TXT(t) => RData::TXT(clone_labels(t)),
            RData::Other { code, wire, canonical } => RData::Other {
                code: *code,
                wire: clone_octets(wire),
                canonical: clone_octets(canonical),
            },
        }
    }
}

impl PartialEq for RData {
    fn eq(&self, other: &RData) -> (r: bool) {
        match (self, other) {
            (RData::A(a), RData::A(b)) => *a == *b,
            (RData::AAAA(a), RData::AAAA(b)) => *a == *b,
            (RData::PTR(a), RData::PTR(b)) => *a == *b,
            (
                RData::SRV { priority: p, weight: w, port: q, target: t },
                RData::SRV { priority: p2, weight: w2, port: q2, target: t2 },
            ) => *p == *p2 && *w == *w2 && *q == *q2 && *t == *t2,
            (RData::TXT(a), RData::TXT(b)) => same_strings(a, b),
            (
                RData::Other { code: c, wire: _, canonical: a },
                RData::Other { code: c2, wire: _, canonical: b },
            ) => *c == *c2 && same_octets(&fold_octets(*c, a), &fold_octets(*c2, b)),
            _ => false,
        }
    }
}

impl vstd::std_specs::cmp::PartialEqSpecImpl for RData {
    open spec fn obeys_eq_spec() -> bool {
        true
    }

    open spec fn eq_spec(&self, other: &RData) -> bool {
        self@.folded() == other@.folded()
    }
}

impl RData {
    pub fn record_type(&self) -> (r: RecordType)
        ensures
            r == self@.rtype(),
    {
        match self {
            RData::A(_) => RecordType::A,
            RData::AAAA(_) => RecordType::AAAA,
            RData::PTR(_) => RecordType::PTR,
            RData::SRV { .. } => RecordType::SRV,
            RData::TXT(_) => RecordType::TXT,
            RData::Other { code, .. } => RecordType::from_code(*code),
        }
    }
}

/// The identity of a record: two records are the same resource when these
/// agree, whatever their lifetime.
#[verifier::ext_equal]
pub struct KeyView {
    pub name: NameView,
    pub rtype: RecordType,
    pub class: u16,
    pub data: RDataView,
}

/// What a [`Record`] denotes.
#[verifier::ext_equal]
pub struct RecordView {
    pub name: NameView,
    pub class: u16,
    pub ttl: u32,
    pub cache_flush: bool,
    pub data: RDataView,
}

impl RecordView {
    pub open spec fn rtype(self) -> RecordType {
        self.data.rtype()
    }

    pub open spec fn key(self) -> KeyView {
        KeyView {
            name: self.name.folded(),
            rtype: self.rtype(),
            class: self.class,
            data: self.data.folded(),
        }
    }

    /// Whether the record answers a question for `name` and `rtype`.
    pub open spec fn answers(self, name: NameView, rtype: RecordType) -> bool {
        self.name.folded() == name.folded() && rtype.covers(self.rtype())
    }

    pub open spec fn with_ttl(self, ttl: u32) -> RecordView {
        RecordView { ttl, ..self }
    }

    pub open spec fn with_cache_flush(self, cache_flush: bool) -> RecordView {
        RecordView { cache_flush, ..self }
    }
}

/// A resource record.
#[derive(Debug)]
pub struct Record {
    pub name: Name,
    pub dns_class: u16,
    /// Lifetime in seconds; zero announces that the record is gone.
    pub ttl: u32,
    pub data: RData,
    /// The sender owns the record alone, so that other data for the same name,
    /// type and class is out of date (RFC 6762 section 10.2).
    pub mdns_cache_flush: bool,
}

impl View for Record {
    type V = RecordView;

    open spec fn view(&self) -> RecordView {
        RecordView {
            name: self.name@,
            class: self.dns_class,
            ttl: self.ttl,
            cache_flush: self.mdns_cache_flush,
            data: self.data@,
        }
    }
}

impl Clone for Record {
    fn clone(&self) -> (r: Record)
        ensures
            r@ == self@,
    {
        Record {
            name: self.name.clone(),
            dns_class: self.dns_class,
            ttl: self.ttl,
            data: self.data.clone(),
            mdns_cache_flush: self.mdns_cache_flush,
        }
    }
}

impl PartialEq for Record {
    fn eq(&self, other: &Record) -> (r: bool) {
        self.name == other.name && self.dns_class == other.dns_class && self.data == other.data
    }
}

impl vstd::std_specs::cmp::PartialEqSpecImpl for Record {
    open spec fn obeys_eq_spec() -> bool {
        true
    }

    open spec fn eq_spec(&self, other: &Record) -> bool {
        self@.key() == other@.key()
    }
}

impl Record {
    /// A record of the Internet class with the cache-flush bit clear.
    pub fn from_rdata(name: Name, ttl: u32, data: RData) -> (r: Record)
        ensures
            r@ == (RecordView {
                name: name@,
                class: CLASS_IN,
                ttl,
                cache_flush: false,
                data: data@,
            }),
    {
        Record { name, dns_class: CLASS_IN, ttl, data, mdns_cache_flush: false }
    }

    pub fn record_type(&self) -> (r: RecordType)
        ensures
            r == self@.rtype(),
    {
        self.data.record_type()
    }
}

/// A copy of `records`.
pub(crate) fn clone_records(records: &Vec<Record>) -> (r: Vec<Record>)
    ensures
        views(r@) == views(records@),
{
    let mut out: Vec<Record> = Vec::new();
    let mut i: usize = 0;
    while i < records.len()
        invariant
            i <= records.len(),
            out.len() == i,
            forall|k: int| 0 <= k < i ==> #[trigger] out@[k]@ == records@[k]@,
        decreases records.len() - i,
    {
        out.push(records[i].clone());
        i += 1;
    }
    assert(views(out@) =~= views(records@));
    out
}

/// What a [`Question`] denotes.
#[verifier::ext_equal]
pub struct QuestionView {
    pub name: NameView,
    pub qtype: RecordType,
    pub qclass: u16,
    pub unicast_response: bool,
}

/// One entry of the question section.
#[derive(Debug)]
pub struct Question {
    pub name: Name,
    pub qtype: RecordType,
    pub qclass: u16,
    /// The sender would take a unicast reply (RFC 6762 section 5.4).
    pub unicast_response: bool,
}

impl View for Question {
    type V = QuestionView;

    open spec fn view(&self) -> QuestionView {
        QuestionView {
            name: self.name@,
            qtype: self.qtype,
            qclass: self.qclass,
            unicast_response: self.unicast_response,
        }
    }
}

#[derive(Debug, Clone, Copy, PartialEq, Eq, Structural)]
pub enum MessageType {
    Query,
    Response,
}

/// What a [`Message`] denotes.
#[verifier::ext_equal]
pub struct MessageView {
    pub id: u16,
    pub message_type: MessageType,
    pub authoritative: bool,
    pub truncation: bool,
    pub queries: Seq<QuestionView>,
    pub answers: Seq<RecordView>,
    pub authorities: Seq<RecordView>,
    pub additionals: Seq<RecordView>,
}

/// A DNS message.
#[derive(Debug)]
pub struct Message {
    pub id: u16,
    pub message_type: MessageType,
    pub authoritative: bool,
    pub truncation: bool,
    pub queries: Vec<Question>,
    pub answers: Vec<Record>,
    pub authorities: Vec<Record>,
    pub additionals: Vec<Record>,
}

impl View for Message {
    type V = MessageView;

    open spec fn view(&self) -> MessageView {
        MessageView {
            id: self.id,
            message_type: self.message_type,
            authoritative: self.authoritative,
            truncation: self.truncation,
            queries: views(self.queries@),
            answers: views(self.answers@),
            authorities: views(self.authorities@),
            additionals: views(self.additionals@),
        }
    }
}

/// A message with empty sections.
pub open spec fn empty_message(id: u16, message_type: MessageType) -> MessageView {
    MessageView {
        id,
        message_type,
        authoritative: false,
        truncation: false,
        queries: Seq::empty(),
        answers: Seq::empty(),
        authorities: Seq::empty(),
        additionals: Seq::empty(),
    }
}

impl Message {
    pub fn new(id: u16, message_type: MessageType) -> (r: Message)
        ensures
            r@ == empty_message(id, message_type),
    {
        let r = Message {
            id,
            message_type,
            authoritative: false,
            truncation: false,
            queries: Vec::new(),
            answers: Vec::new(),
            authorities: Vec::new(),
            additionals: Vec::new(),
        };
        assert(r@ =~= empty_message(id, message_type));
        r
    }
}

} // verus!
