//! Records that the daemon publishes on every interface.
//!
//! * Host records: `<hostname>.local.` with the addresses of each interface.
//! * Service records: each DNS-SD instance of the configuration gives
//!   `<service>` PTR `<instance>.<service>`,
//!   `_services._dns-sd._udp.local.` PTR `<service>` (RFC 6763 section 9),
//!   `<instance>.<service>` SRV host:port and
//!   `<instance>.<service>` TXT key=value entries.

use vstd::prelude::*;
use vstd::string::StringExecFns;
use vstd::utf8::encode_utf8;

use crate::addr::{Ipv4Addr, Ipv6Addr};
use crate::config::ServiceConfig;
use crate::dns::{
    clone_records, label_octets, Name, NameView, RData, RDataView, Record, RecordType, RecordView,
    CLASS_IN,
};
use crate::iface::Iface;
use crate::seqs::{lemma_views_add, lemma_views_push, retain, views};
use crate::text::{chars_of, find_char, octets_of, until};
use crate::wire::{dotted, parsed_name, plain_label, plain_labels, plain_name};

use hickory_proto::ProtoError;

verus! {

/// A reason why a service cannot be published.
#[verifier::ext_equal]
pub enum ServiceFault {
    BadServiceType { service: Seq<char> },
    BadInstanceName { name: Seq<char> },
    BadInstanceCompose { name: Seq<char>, service: Seq<char> },
    BadHost { host: Seq<char> },
    Internal,
}

/// The error of a service that cannot be published, with the reason that the
/// name was refused for.
#[derive(Debug)]
pub enum ServiceError {
    BadServiceType(String, ProtoError),
    BadInstanceName(String, ProtoError),
    BadInstanceCompose(String, String, ProtoError),
    BadHost(String, ProtoError),
    Internal(ProtoError),
}

impl View for ServiceError {
    type V = ServiceFault;

    open spec fn view(&self) -> ServiceFault {
        match self {
            ServiceError::BadServiceType(service, _) => ServiceFault::BadServiceType {
                service: service@,
            },
            ServiceError::BadInstanceName(name, _) => ServiceFault::BadInstanceName { name: name@ },
            ServiceError::BadInstanceCompose(name, service, _) =>
                ServiceFault::BadInstanceCompose { name: name@, service: service@ },
            ServiceError::BadHost(host, _) => ServiceFault::BadHost { host: host@ },
            ServiceError::Internal(_) => ServiceFault::Internal,
        }
    }
}

/// Lifetime of records that hold a host's address or name.
pub const TTL_HOST: u32 = 120;

/// Lifetime of the other records.
pub const TTL_SERVICE: u32 = 4500;

/// The labels of the name under which service types are listed.
pub open spec fn meta_labels() -> Seq<Seq<char>> {
    seq!["_services"@, "_dns-sd"@, "_udp"@, "local"@]
}

/// The labels of the host name of last resort.
pub open spec fn router_labels() -> Seq<Seq<char>> {
    seq!["router"@, "local"@]
}

pub(crate) proof fn lemma_meta_labels()
    ensures
        plain_labels(meta_labels()),
        dotted(meta_labels()) == "_services._dns-sd._udp.local."@,
{
    reveal_strlit("_services");
    reveal_strlit("_dns-sd");
    reveal_strlit("_udp");
    reveal_strlit("local");
    reveal_strlit("_services._dns-sd._udp.local.");
    let l = meta_labels();
    reveal_with_fuel(dotted, 5);
    assert(l.drop_last() =~= seq!["_services"@, "_dns-sd"@, "_udp"@]);
    assert(l.drop_last().drop_last() =~= seq!["_services"@, "_dns-sd"@]);
    assert(l.drop_last().drop_last().drop_last() =~= seq!["_services"@]);
    assert(l.drop_last().drop_last().drop_last().drop_last() =~= seq![]);
    assert(dotted(l) =~= "_services._dns-sd._udp.local."@);
    let n = plain_name(l).labels;
    reveal_with_fuel(label_octets, 5);
    assert(n.len() == 4);
    assert(n[0].len() == 9 && n[1].len() == 7 && n[2].len() == 4 && n[3].len() == 5);
    assert(n.drop_last().last() == n[2]);
    assert(n.drop_last().drop_last().last() == n[1]);
    assert(n.drop_last().drop_last().drop_last().last() == n[0]);
    assert(label_octets(n) == 29);
    assert(plain_name(l).valid());
}

proof fn lemma_router_labels()
    ensures
        plain_labels(router_labels()),
        dotted(router_labels()) == "router.local."@,
{
    reveal_strlit("router");
    reveal_strlit("local");
    reveal_strlit("router.local.");
    let l = router_labels();
    reveal_with_fuel(dotted, 3);
    assert(l.drop_last() =~= seq!["router"@]);
    assert(l.drop_last().drop_last() =~= seq![]);
    assert(dotted(l) =~= "router.local."@);
    let n = plain_name(l).labels;
    reveal_with_fuel(label_octets, 3);
    assert(n.len() == 2);
    assert(n[0].len() == 6 && n[1].len() == 5);
    assert(n.drop_last().last() == n[0]);
    assert(label_octets(n) == 13);
    assert(plain_name(l).valid());
}

/// `gethostname` of `nix`, where it is valid text. Nothing is claimed of the name,
/// which is the machine's.
#[verifier::external_body]
fn system_hostname() -> (r: Option<String>) {
    nix::unistd::gethostname().ok().and_then(|os| os.into_string().ok())
}

/// The host name for the machine name `raw`: its first label under `local.`, or
/// `router.local.` where that is no name.
pub open spec fn hostname_of(raw: Seq<char>) -> NameView {
    match parsed_name(until(raw, '.') + ".local."@) {
        Some(n) => n,
        None => plain_name(router_labels()),
    }
}

/// A plain label under `local.`
pub open spec fn local_labels(label: Seq<char>) -> Seq<Seq<char>> {
    seq![label, "local"@]
}

proof fn lemma_local_labels(label: Seq<char>)
    requires
        plain_label(label),
    ensures
        plain_labels(local_labels(label)),
        dotted(local_labels(label)) == label + ".local."@,
{
    reveal_strlit("local");
    reveal_strlit(".local.");
    let l = local_labels(label);
    reveal_with_fuel(dotted, 3);
    assert(l.drop_last() =~= seq![label]);
    assert(l.drop_last().drop_last() =~= seq![]);
    assert(dotted(l) =~= label + ".local."@);
    let n = plain_name(l).labels;
    reveal_with_fuel(label_octets, 3);
    assert(n.len() == 2);
    assert(n[0].len() == label.len() && n[1].len() == 5);
    assert(n.drop_last().last() == n[0]);
    assert(plain_name(l).valid());
}

fn local_name(raw: &str) -> (r: Name)
    ensures
        r@ == hostname_of(raw@),
        plain_label(until(raw@, '.')) ==> r@ == plain_name(local_labels(until(raw@, '.'))),
{
    proof {
        if plain_label(until(raw@, '.')) {
            lemma_local_labels(until(raw@, '.'));
        }
    }
    let text = chars_of(raw);
    let bare: &str = match find_char(&text, '.') {
        Some(i) => {
            assert(raw@.subrange(0, i as int) =~= raw@.take(i as int));
            raw.substring_char(0, i)
        },
        None => raw,
    };
    let mut full = bare.to_owned();
    full.append(".local.");
    match Name::from_str(full.as_str()) {
        Ok(n) => n,
        Err(_) => {
            proof {
                lemma_router_labels();
            }
            match Name::from_str("router.local.") {
                Ok(n) => n,
                Err(_) => {
                    assert(false);
                    Name::root()
                },
            }
        },
    }
}

/// The machine name that counts: the configured one, else the system's, else
/// `router`.
pub open spec fn machine_name(
    explicit: Option<Seq<char>>,
    system: Option<Seq<char>>,
) -> Seq<char> {
    match explicit {
        Some(s) => s,
        None => match system {
            Some(s) => s,
            None => "router"@,
        },
    }
}

pub open spec fn text_of(s: Option<String>) -> Option<Seq<char>> {
    match s {
        Some(s) => Some(s@),
        None => None,
    }
}

/// The host name, given what the system calls the machine.
pub fn resolve_hostname_from(explicit: &Option<String>, system: &Option<String>) -> (r: Name)
    ensures
        r@ == hostname_of(machine_name(text_of(*explicit), text_of(*system))),
        ({
            let label = until(machine_name(text_of(*explicit), text_of(*system)), '.');
            plain_label(label) ==> r@ == plain_name(local_labels(label))
        }),
{
    match explicit {
        Some(s) => local_name(s.as_str()),
        None => match system {
            Some(s) => local_name(s.as_str()),
            None => local_name("router"),
        },
    }
}

/// The host name: from the configuration, or else from the system. Where the first
/// label of the machine's name is plain, the host name is that label under `local.`
pub fn resolve_hostname(explicit: &Option<String>) -> (r: Name)
    ensures
        explicit matches Some(s) ==> r@ == hostname_of(s@),
        explicit matches Some(s) ==> (plain_label(until(s@, '.')) ==> r@ == plain_name(
            local_labels(until(s@, '.')),
        )),
        explicit is None ==> exists|system: Option<Seq<char>>|
            r@ == hostname_of(#[trigger] machine_name(None, system)),
{
    match explicit {
        Some(_) => resolve_hostname_from(explicit, &None),
        None => {
            let system = system_hostname();
            let r = resolve_hostname_from(explicit, &system);
            assert(r@ == hostname_of(machine_name(None, text_of(system))));
            r
        },
    }
}

/// The label of an instance: any text of 1 to 63 octets.
pub open spec fn instance_label(sc: ServiceConfig) -> Seq<u8> {
    encode_utf8(sc.name@)
}

/// The name of the service type, where it is one.
pub open spec fn service_type_of(sc: ServiceConfig) -> NameView {
    parsed_name(sc.service@)->0
}

/// `<instance>.<service>`
pub open spec fn instance_name(sc: ServiceConfig) -> NameView {
    NameView {
        labels: seq![instance_label(sc)] + service_type_of(sc).labels,
        fqdn: service_type_of(sc).fqdn,
    }
}

/// Why a service cannot be published, if it cannot.
pub open spec fn service_fault(sc: ServiceConfig) -> Option<ServiceFault> {
    if parsed_name(sc.service@) is None {
        Some(ServiceFault::BadServiceType { service: sc.service@ })
    } else if !(1 <= instance_label(sc).len() <= 63) {
        Some(ServiceFault::BadInstanceName { name: sc.name@ })
    } else if label_octets(instance_name(sc).labels) + 1 > 255 {
        Some(ServiceFault::BadInstanceCompose { name: sc.name@, service: sc.service@ })
    } else if sc.host matches Some(h) && parsed_name(h@) is None {
        Some(ServiceFault::BadHost { host: sc.host->0@ })
    } else {
        None
    }
}

/// The fault of the first service that has one.
pub open spec fn first_fault(services: Seq<ServiceConfig>) -> Option<ServiceFault>
    decreases services.len(),
{
    if services.len() == 0 {
        None
    } else {
        match first_fault(services.drop_last()) {
            Some(f) => Some(f),
            None => service_fault(services.last()),
        }
    }
}

proof fn lemma_fault_prefix(services: Seq<ServiceConfig>, k: int)
    requires
        0 <= k <= services.len(),
        first_fault(services.take(k)) is Some,
    ensures
        first_fault(services) == first_fault(services.take(k)),
    decreases services.len() - k,
{
    if k < services.len() {
        assert(services.take(k + 1).drop_last() =~= services.take(k));
        lemma_fault_prefix(services, k + 1);
    } else {
        assert(services.take(k) =~= services);
    }
}

/// The names that the records of a service are made of.
struct ServiceNames {
    service_type: Name,
    instance: Name,
    target: Name,
}

/// The host that a service points at.
pub open spec fn target_name(hostname: NameView, sc: ServiceConfig) -> NameView {
    match sc.host {
        Some(h) => parsed_name(h@)->0,
        None => hostname,
    }
}

fn service_names(hostname: &Name, sc: &ServiceConfig) -> (r: Result<ServiceNames, ServiceError>)
    ensures
        match r {
            Ok(n) => {
                &&& service_fault(*sc) is None
                &&& n.service_type@ == service_type_of(*sc)
                &&& n.instance@ == instance_name(*sc)
                &&& n.target@ == target_name(hostname@, *sc)
            },
            Err(e) => service_fault(*sc) == Some(e@),
        },
{
    let service_type = match Name::from_str(sc.service.as_str()) {
        Ok(n) => n,
        Err(e) => return Err(ServiceError::BadServiceType(sc.service.clone(), e)),
    };
    let mut labels: Vec<Vec<u8>> = Vec::new();
    labels.push(octets_of(sc.name.as_str()));
    assert(views(labels@) =~= seq![instance_label(*sc)]);
    proof {
        reveal_with_fuel(label_octets, 2);
        assert(seq![instance_label(*sc)].drop_last() =~= seq![]);
        assert(seq![instance_label(*sc)].last() == instance_label(*sc));
        assert(views(labels@)[0] == instance_label(*sc));
    }
    let head = match Name::from_labels(&labels) {
        Ok(n) => n,
        Err(e) => return Err(ServiceError::BadInstanceName(sc.name.clone(), e)),
    };
    let instance = match head.append_name(&service_type) {
        Ok(n) => n,
        Err(e) => return Err(
            ServiceError::BadInstanceCompose(sc.name.clone(), sc.service.clone(), e),
        ),
    };
    let target = match &sc.host {
        Some(h) => match Name::from_str(h.as_str()) {
            Ok(n) => n,
            Err(e) => return Err(ServiceError::BadHost(h.clone(), e)),
        },
        None => hostname.clone(),
    };
    Ok(ServiceNames { service_type, instance, target })
}

/// Checks the names of every service without making any records.
pub fn validate(hostname: &Name, services: &Vec<ServiceConfig>) -> (r: Result<(), ServiceError>)
    ensures
        match r {
            Ok(_) => first_fault(services@) is None,
            Err(e) => first_fault(services@) == Some(e@),
        },
{
    let mut i: usize = 0;
    while i < services.len()
        invariant
            i <= services.len(),
            first_fault(services@.take(i as int)) is None,
        decreases services.len() - i,
    {
        assert(services@.take(i + 1).drop_last() =~= services@.take(i as int));
        assert(services@.take(i + 1).last() == services@[i as int]);
        match service_names(hostname, &services[i]) {
            Ok(_) => {},
            Err(e) => {
                proof {
                    lemma_fault_prefix(services@, i + 1);
                }
                return Err(e);
            },
        }
        i += 1;
    }
    assert(services@.take(i as int) =~= services@);
    Ok(())
}

/// What a [`ServiceRecords`] denotes.
#[verifier::ext_equal]
pub struct ServiceRecordsView {
    pub instance_name: NameView,
    pub service_type: NameView,
    pub ptr_type_to_instance: RecordView,
    pub ptr_meta_to_type: RecordView,
    pub srv: RecordView,
    pub txt: RecordView,
}

/// The records of one service.
#[derive(Debug)]
pub struct ServiceRecords {
    /// For example `Router Admin._http._tcp.local.`
    pub instance_name: Name,
    /// For example `_http._tcp.local.`
    pub service_type: Name,
    pub ptr_type_to_instance: Record,
    /// `_services._dns-sd._udp.local.` PTR `<type>`
    pub ptr_meta_to_type: Record,
    pub srv: Record,
    pub txt: Record,
}

impl View for ServiceRecords {
    type V = ServiceRecordsView;

    open spec fn view(&self) -> ServiceRecordsView {
        ServiceRecordsView {
            instance_name: self.instance_name@,
            service_type: self.service_type@,
            ptr_type_to_instance: self.ptr_type_to_instance@,
            ptr_meta_to_type: self.ptr_meta_to_type@,
            srv: self.srv@,
            txt: self.txt@,
        }
    }
}

/// What a [`Published`] denotes.
#[verifier::ext_equal]
pub struct PublishedView {
    pub hostname: NameView,
    pub host_a: Seq<RecordView>,
    pub host_aaaa: Seq<RecordView>,
    pub services: Seq<ServiceRecordsView>,
}

/// All records that the daemon publishes, made at startup.
#[derive(Debug)]
pub struct Published {
    pub hostname: Name,
    /// One A record per interface with an IPv4 address.
    pub host_a: Vec<Record>,
    /// One AAAA record per interface with an IPv6 address.
    pub host_aaaa: Vec<Record>,
    pub services: Vec<ServiceRecords>,
}

impl View for Published {
    type V = PublishedView;

    open spec fn view(&self) -> PublishedView {
        PublishedView {
            hostname: self.hostname@,
            host_a: views(self.host_a@),
            host_aaaa: views(self.host_aaaa@),
            services: views(self.services@),
        }
    }
}

/// A record that the daemon alone answers for: its cache-flush bit is set.
pub open spec fn unique_record(name: NameView, ttl: u32, data: RDataView) -> RecordView {
    RecordView { name, class: CLASS_IN, ttl, cache_flush: true, data }
}

/// A record that other hosts may answer for too: its cache-flush bit is clear.
pub open spec fn shared_record(name: NameView, ttl: u32, data: RDataView) -> RecordView {
    RecordView { name, class: CLASS_IN, ttl, cache_flush: false, data }
}

/// The strings of the TXT record: an empty one where there are no entries
/// (RFC 6763 section 6.1).
pub open spec fn txt_strings(txt: Seq<String>) -> Seq<Seq<u8>> {
    if txt.len() == 0 {
        seq![Seq::empty()]
    } else {
        txt.map_values(|s: String| encode_utf8(s@))
    }
}

/// The records of a service whose names are in order.
pub open spec fn records_of(hostname: NameView, sc: ServiceConfig) -> ServiceRecordsView {
    ServiceRecordsView {
        instance_name: instance_name(sc),
        service_type: service_type_of(sc),
        ptr_type_to_instance: shared_record(
            service_type_of(sc),
            TTL_SERVICE,
            RDataView::PTR(instance_name(sc)),
        ),
        ptr_meta_to_type: shared_record(
            plain_name(meta_labels()),
            TTL_SERVICE,
            RDataView::PTR(service_type_of(sc)),
        ),
        srv: unique_record(
            instance_name(sc),
            TTL_HOST,
            RDataView::SRV {
                priority: 0,
                weight: 0,
                port: sc.port,
                target: target_name(hostname, sc),
            },
        ),
        txt: unique_record(instance_name(sc), TTL_SERVICE, RDataView::TXT(txt_strings(sc.txt@))),
    }
}

/// The A record of an interface.
pub open spec fn host_a_of(hostname: NameView, iface: Iface) -> Option<RecordView> {
    match iface.v4 {
        Some(v4) => Some(unique_record(hostname, TTL_HOST, RDataView::A(v4.addr))),
        None => None,
    }
}

/// The AAAA record of an interface.
pub open spec fn host_aaaa_of(hostname: NameView, iface: Iface) -> Option<RecordView> {
    match iface.v6 {
        Some(v6) => Some(unique_record(hostname, TTL_HOST, RDataView::AAAA(v6.addr))),
        None => None,
    }
}

/// Everything that is published.
pub open spec fn published(
    hostname: NameView,
    services: Seq<ServiceConfig>,
    ifaces: Seq<Iface>,
) -> PublishedView {
    PublishedView {
        hostname,
        host_a: ifaces.filter_map(|i: Iface| host_a_of(hostname, i)),
        host_aaaa: ifaces.filter_map(|i: Iface| host_aaaa_of(hostname, i)),
        services: services.map_values(|sc: ServiceConfig| records_of(hostname, sc)),
    }
}

fn make_unique(name: &Name, ttl: u32, data: RData) -> (r: Record)
    ensures
        r@ == unique_record(name@, ttl, data@),
{
    let mut r = Record::from_rdata(name.clone(), ttl, data);
    r.mdns_cache_flush = true;
    r
}

fn make_shared(name: &Name, ttl: u32, data: RData) -> (r: Record)
    ensures
        r@ == shared_record(name@, ttl, data@),
{
    Record::from_rdata(name.clone(), ttl, data)
}

fn make_txt(txt: &Vec<String>) -> (r: Vec<Vec<u8>>)
    ensures
        views(r@) == txt_strings(txt@),
{
    let mut out: Vec<Vec<u8>> = Vec::new();
    if txt.len() == 0 {
        out.push(Vec::new());
        assert(views(out@) =~= txt_strings(txt@));
        return out;
    }
    let mut i: usize = 0;
    while i < txt.len()
        invariant
            i <= txt.len(),
            out.len() == i,
            forall|k: int| #![trigger out@[k]] 0 <= k < i ==> out@[k]@ == encode_utf8(txt@[k]@),
        decreases txt.len() - i,
    {
        out.push(octets_of(txt[i].as_str()));
        i += 1;
    }
    assert(views(out@) =~= txt_strings(txt@));
    out
}

fn host_records(hostname: &Name, ifaces: &Vec<Iface>) -> (r: (Vec<Record>, Vec<Record>))
    ensures
        views(r.0@) == ifaces@.filter_map(|i: Iface| host_a_of(hostname@, i)),
        views(r.1@) == ifaces@.filter_map(|i: Iface| host_aaaa_of(hostname@, i)),
{
    let ghost f4 = |i: Iface| host_a_of(hostname@, i);
    let ghost f6 = |i: Iface| host_aaaa_of(hostname@, i);
    let mut host_a: Vec<Record> = Vec::new();
    let mut host_aaaa: Vec<Record> = Vec::new();
    let mut i: usize = 0;
    assert(ifaces@.take(0) =~= Seq::<Iface>::empty());
    while i < ifaces.len()
        invariant
            f4 == (|i: Iface| host_a_of(hostname@, i)),
            f6 == (|i: Iface| host_aaaa_of(hostname@, i)),
            i <= ifaces.len(),
            views(host_a@) == ifaces@.take(i as int).filter_map(f4),
            views(host_aaaa@) == ifaces@.take(i as int).filter_map(f6),
        decreases ifaces.len() - i,
    {
        proof {
            ifaces@.lemma_filter_map_take_succ(f4, i as int);
            ifaces@.lemma_filter_map_take_succ(f6, i as int);
        }
        if let Some(v4) = &ifaces[i].v4 {
            let r = make_unique(hostname, TTL_HOST, RData::A(v4.addr));
            proof {
                lemma_views_push(host_a@, r);
            }
            host_a.push(r);
        }
        if let Some(v6) = &ifaces[i].v6 {
            let r = make_unique(hostname, TTL_HOST, RData::AAAA(v6.addr));
            proof {
                lemma_views_push(host_aaaa@, r);
            }
            host_aaaa.push(r);
        }
        i += 1;
        assert(views(host_a@) =~= ifaces@.take(i as int).filter_map(f4));
        assert(views(host_aaaa@) =~= ifaces@.take(i as int).filter_map(f6));
    }
    assert(ifaces@.take(i as int) =~= ifaces@);
    (host_a, host_aaaa)
}

/// Makes all records that are published: of the host, per interface, and of the
/// services. The first service with a name that is none is the error.
pub fn build(hostname: Name, services: &Vec<ServiceConfig>, ifaces: &Vec<Iface>) -> (r: Result<
    Published,
    ServiceError,
>)
    ensures
        match r {
            Ok(p) => first_fault(services@) is None && p@ == published(
                hostname@,
                services@,
                ifaces@,
            ),
            Err(e) => first_fault(services@) == Some(e@),
        },
{
    let (host_a, host_aaaa) = host_records(&hostname, ifaces);
    proof {
        lemma_meta_labels();
    }
    let meta = match Name::from_str("_services._dns-sd._udp.local.") {
        Ok(n) => n,
        Err(e) => return Err(ServiceError::Internal(e)),
    };
    let ghost all = published(hostname@, services@, ifaces@).services;
    let mut recs: Vec<ServiceRecords> = Vec::new();
    let mut i: usize = 0;
    while i < services.len()
        invariant
            i <= services.len(),
            meta@ == plain_name(meta_labels()),
            all == published(hostname@, services@, ifaces@).services,
            first_fault(services@.take(i as int)) is None,
            views(recs@) == all.take(i as int),
        decreases services.len() - i,
    {
        let sc = &services[i];
        assert(services@.take(i + 1).drop_last() =~= services@.take(i as int));
        assert(services@.take(i + 1).last() == *sc);
        let names = match service_names(&hostname, sc) {
            Ok(n) => n,
            Err(e) => {
                proof {
                    lemma_fault_prefix(services@, i + 1);
                }
                return Err(e);
            },
        };
        let rec = ServiceRecords {
            ptr_type_to_instance: make_shared(
                &names.service_type,
                TTL_SERVICE,
                RData::PTR(names.instance.clone()),
            ),
            ptr_meta_to_type: make_shared(
                &meta,
                TTL_SERVICE,
                RData::PTR(names.service_type.clone()),
            ),
            srv: make_unique(
                &names.instance,
                TTL_HOST,
                RData::SRV { priority: 0, weight: 0, port: sc.port, target: names.target },
            ),
            txt: make_unique(&names.instance, TTL_SERVICE, RData::TXT(make_txt(&sc.txt))),
            instance_name: names.instance,
            service_type: names.service_type,
        };
        proof {
            lemma_views_push(recs@, rec);
            assert(rec@ =~= records_of(hostname@, *sc));
            assert(all[i as int] == records_of(hostname@, *sc));
            assert(all.take(i + 1) =~= all.take(i as int).push(rec@));
        }
        recs.push(rec);
        i += 1;
    }
    assert(services@.take(i as int) =~= services@);
    assert(all.take(i as int) =~= all);
    let p = Published { hostname, host_a, host_aaaa, services: recs };
    assert(p@ =~= published(hostname@, services@, ifaces@));
    Ok(p)
}

/// What a service answers to a question.
pub open spec fn service_answers(
    s: ServiceRecordsView,
    qname: NameView,
    qtype: RecordType,
) -> Seq<RecordView> {
    let q = qname.folded();
    (if qtype.covers(RecordType::PTR) && q == s.service_type.folded() {
        seq![s.ptr_type_to_instance]
    } else {
        Seq::empty()
    }) + (if qtype.covers(RecordType::PTR) && q == s.ptr_meta_to_type.name.folded() {
        seq![s.ptr_meta_to_type]
    } else {
        Seq::empty()
    }) + (if qtype.covers(RecordType::SRV) && q == s.instance_name.folded() {
        seq![s.srv]
    } else {
        Seq::empty()
    }) + (if qtype.covers(RecordType::TXT) && q == s.instance_name.folded() {
        seq![s.txt]
    } else {
        Seq::empty()
    })
}

/// The records among `records` that are named `qname`, where the question asks for
/// their type.
pub open spec fn named_records(
    records: Seq<RecordView>,
    rtype: RecordType,
    qname: NameView,
    qtype: RecordType,
) -> Seq<RecordView> {
    if qtype.covers(rtype) {
        records.filter(|r: RecordView| r.name.folded() == qname.folded())
    } else {
        Seq::empty()
    }
}

/// What is published for a question.
pub open spec fn published_answers(p: PublishedView, qname: NameView, qtype: RecordType) -> Seq<
    RecordView,
> {
    named_records(p.host_a, RecordType::A, qname, qtype) + named_records(
        p.host_aaaa,
        RecordType::AAAA,
        qname,
        qtype,
    ) + p.services.flat_map(|s: ServiceRecordsView| service_answers(s, qname, qtype))
}

/// The A records with the given address.
pub open spec fn with_address_v4(p: PublishedView, addr: Ipv4Addr) -> Seq<RecordView> {
    p.host_a.filter(|r: RecordView| r.data == RDataView::A(addr))
}

/// The AAAA records with the given address.
pub open spec fn with_address_v6(p: PublishedView, addr: Ipv6Addr) -> Seq<RecordView> {
    p.host_aaaa.filter(|r: RecordView| r.data == RDataView::AAAA(addr))
}

/// The host records with an address of the interface.
pub open spec fn host_records_on(p: PublishedView, iface: Iface) -> Seq<RecordView> {
    (match iface.v4 {
        Some(v4) => with_address_v4(p, v4.addr),
        None => Seq::empty(),
    }) + (match iface.v6 {
        Some(v6) => with_address_v6(p, v6.addr),
        None => Seq::empty(),
    })
}

/// The SRV and TXT records of all services.
pub open spec fn service_uniques(p: PublishedView) -> Seq<RecordView> {
    p.services.flat_map(|s: ServiceRecordsView| seq![s.srv, s.txt])
}

/// The records that the daemon alone answers for on an interface.
pub open spec fn uniques_on(p: PublishedView, iface: Iface) -> Seq<RecordView> {
    host_records_on(p, iface) + service_uniques(p)
}

/// The record, announced as gone.
pub open spec fn gone(r: RecordView) -> RecordView {
    r.with_ttl(0)
}

/// The records of a service that are announced as gone.
pub open spec fn service_goodbyes(s: ServiceRecordsView) -> Seq<RecordView> {
    seq![gone(s.ptr_type_to_instance), gone(s.ptr_meta_to_type), gone(s.srv), gone(s.txt)]
}

/// All records that are announced as gone.
pub open spec fn goodbyes(p: PublishedView) -> Seq<RecordView> {
    p.host_a.map_values(|r: RecordView| gone(r)) + p.host_aaaa.map_values(|r: RecordView| gone(r))
        + p.services.flat_map(|s: ServiceRecordsView| service_goodbyes(s))
}

fn select_named(records: &Vec<Record>, rtype: RecordType, qname: &Name, qtype: RecordType) -> (r:
    Vec<Record>)
    ensures
        views(r@) == named_records(views(records@), rtype, qname@, qtype),
{
    if !(qtype == RecordType::ANY || qtype == rtype) {
        let none: Vec<Record> = Vec::new();
        assert(views(none@) =~= Seq::<RecordView>::empty());
        return none;
    }
    let mut out = clone_records(records);
    let keep = |r: &Record| -> (b: bool)
        ensures
            b == (r@.name.folded() == qname@.folded()),
        { r.name == *qname };
    retain(&mut out, keep, Ghost(|r: RecordView| r.name.folded() == qname@.folded()));
    out
}

fn push_view(out: &mut Vec<Record>, r: &Record)
    ensures
        views(final(out)@) == views(old(out)@).push(r@),
{
    let copy = r.clone();
    proof {
        lemma_views_push(out@, copy);
    }
    out.push(copy);
}

fn push_gone(out: &mut Vec<Record>, r: &Record)
    ensures
        views(final(out)@) == views(old(out)@).push(gone(r@)),
{
    let mut copy = r.clone();
    copy.ttl = 0;
    proof {
        lemma_views_push(out@, copy);
    }
    out.push(copy);
}

fn push_all_gone(out: &mut Vec<Record>, records: &Vec<Record>)
    ensures
        views(final(out)@) == views(old(out)@) + views(records@).map_values(
            |r: RecordView| gone(r),
        ),
{
    let ghost start = views(out@);
    let ghost all = views(records@).map_values(|r: RecordView| gone(r));
    let mut i: usize = 0;
    assert(start + all.take(0) =~= start);
    while i < records.len()
        invariant
            i <= records.len(),
            all == views(records@).map_values(|r: RecordView| gone(r)),
            views(out@) == start + all.take(i as int),
        decreases records.len() - i,
    {
        push_gone(out, &records[i]);
        i += 1;
        assert(start + all.take(i as int) =~= (start + all.take(i - 1)).push(
            gone(records@[i - 1]@),
        ));
    }
    assert(all.take(i as int) =~= all);
}

fn append_views(out: &mut Vec<Record>, more: Vec<Record>)
    ensures
        views(final(out)@) == views(old(out)@) + views(more@),
{
    let mut more = more;
    proof {
        lemma_views_add(out@, more@);
    }
    out.append(&mut more);
}

impl Published {
    /// The published records that answer a question; `ANY` asks for every type.
    pub fn answer(&self, qname: &Name, qtype: RecordType) -> (r: Vec<Record>)
        ensures
            views(r@) == published_answers(self@, qname@, qtype),
    {
        let mut out = select_named(&self.host_a, RecordType::A, qname, qtype);
        append_views(&mut out, select_named(&self.host_aaaa, RecordType::AAAA, qname, qtype));
        let any = qtype == RecordType::ANY;
        let ghost f = |s: ServiceRecordsView| service_answers(s, qname@, qtype);
        let ghost start = views(out@);
        let mut i: usize = 0;
        assert(self@.services.take(0) =~= Seq::<ServiceRecordsView>::empty());
        assert(start + self@.services.take(0).flat_map(f) =~= start) by {
            broadcast use vstd::seq_lib::group_seq_properties;

            assert(self@.services.take(0).flat_map(f) =~= Seq::<RecordView>::empty());
        }
        while i < self.services.len()
            invariant
                i <= self.services.len(),
                any == (qtype == RecordType::ANY),
                f == (|s: ServiceRecordsView| service_answers(s, qname@, qtype)),
                views(out@) == start + self@.services.take(i as int).flat_map(f),
            decreases self.services.len() - i,
        {
            let s = &self.services[i];
            let ghost before = views(out@);
            if (any || qtype == RecordType::PTR) && *qname == s.service_type {
                push_view(&mut out, &s.ptr_type_to_instance);
            }
            if (any || qtype == RecordType::PTR) && *qname == s.ptr_meta_to_type.name {
                push_view(&mut out, &s.ptr_meta_to_type);
            }
            if (any || qtype == RecordType::SRV) && *qname == s.instance_name {
                push_view(&mut out, &s.srv);
            }
            if (any || qtype == RecordType::TXT) && *qname == s.instance_name {
                push_view(&mut out, &s.txt);
            }
            assert(views(out@) =~= before + service_answers(s@, qname@, qtype));
            proof {
                self@.services.lemma_flat_map_take_append(f, i as int);
            }
            i += 1;
            assert(views(out@) =~= start + self@.services.take(i as int).flat_map(f));
        }
        assert(self@.services.take(i as int) =~= self@.services);
        out
    }

    /// The A records with the address `addr`, so that an interface's address is not
    /// advertised on another link.
    pub fn host_a_for(&self, addr: Ipv4Addr) -> (r: Vec<Record>)
        ensures
            views(r@) == with_address_v4(self@, addr),
    {
        let mut out = clone_records(&self.host_a);
        let keep = |r: &Record| -> (b: bool)
            ensures
                b == (r@.data == RDataView::A(addr)),
            {
                match &r.data {
                    RData::A(a) => *a == addr,
                    _ => false,
                }
            };
        retain(&mut out, keep, Ghost(|r: RecordView| r.data == RDataView::A(addr)));
        out
    }

    /// The AAAA records with the address `addr`.
    pub fn host_aaaa_for(&self, addr: Ipv6Addr) -> (r: Vec<Record>)
        ensures
            views(r@) == with_address_v6(self@, addr),
    {
        let mut out = clone_records(&self.host_aaaa);
        let keep = |r: &Record| -> (b: bool)
            ensures
                b == (r@.data == RDataView::AAAA(addr)),
            {
                match &r.data {
                    RData::AAAA(a) => *a == addr,
                    _ => false,
                }
            };
        retain(&mut out, keep, Ghost(|r: RecordView| r.data == RDataView::AAAA(addr)));
        out
    }

    /// The host records with the addresses of `iface`.
    pub fn host_records_for_iface(&self, iface: &Iface) -> (r: Vec<Record>)
        ensures
            views(r@) == host_records_on(self@, *iface),
    {
        let mut out: Vec<Record> = Vec::new();
        assert(views(out@) =~= Seq::<RecordView>::empty());
        if let Some(v4) = &iface.v4 {
            append_views(&mut out, self.host_a_for(v4.addr));
        }
        if let Some(v6) = &iface.v6 {
            append_views(&mut out, self.host_aaaa_for(v6.addr));
        }
        assert(views(out@) =~= host_records_on(self@, *iface));
        out
    }

    /// The SRV and TXT records of the services, which are the same on every
    /// interface and candidates for probing (RFC 6762 section 8.1).
    pub fn unique_service_records(&self) -> (r: Vec<Record>)
        ensures
            views(r@) == service_uniques(self@),
    {
        let ghost f = |s: ServiceRecordsView| seq![s.srv, s.txt];
        let mut out: Vec<Record> = Vec::new();
        let mut i: usize = 0;
        assert(self@.services.take(0) =~= Seq::<ServiceRecordsView>::empty());
        assert(views(out@) =~= self@.services.take(0).flat_map(f));
        while i < self.services.len()
            invariant
                i <= self.services.len(),
                f == (|s: ServiceRecordsView| seq![s.srv, s.txt]),
                views(out@) == self@.services.take(i as int).flat_map(f),
            decreases self.services.len() - i,
        {
            let ghost before = views(out@);
            push_view(&mut out, &self.services[i].srv);
            push_view(&mut out, &self.services[i].txt);
            assert(views(out@) =~= before + f(self@.services[i as int]));
            proof {
                self@.services.lemma_flat_map_take_append(f, i as int);
            }
            i += 1;
        }
        assert(self@.services.take(i as int) =~= self@.services);
        out
    }

    /// All unique records to advertise on `iface`: its host records, and the SRV and
    /// TXT records of the services.
    pub fn unique_for_iface(&self, iface: &Iface) -> (r: Vec<Record>)
        ensures
            views(r@) == uniques_on(self@, *iface),
    {
        let mut out = self.host_records_for_iface(iface);
        append_views(&mut out, self.unique_service_records());
        out
    }
}

/// Every published record with a lifetime of zero, for a graceful shutdown (RFC 6762
/// section 10.1).
pub fn goodbye(p: &Published) -> (r: Vec<Record>)
    ensures
        views(r@) == goodbyes(p@),
{
    let ghost f = |s: ServiceRecordsView| service_goodbyes(s);
    let mut out: Vec<Record> = Vec::new();
    assert(views(out@) =~= Seq::<RecordView>::empty());
    push_all_gone(&mut out, &p.host_a);
    push_all_gone(&mut out, &p.host_aaaa);
    let ghost start = views(out@);
    let mut i: usize = 0;
    assert(p@.services.take(0) =~= Seq::<ServiceRecordsView>::empty());
    assert(start + p@.services.take(0).flat_map(f) =~= start);
    while i < p.services.len()
        invariant
            i <= p.services.len(),
            f == (|s: ServiceRecordsView| service_goodbyes(s)),
            views(out@) == start + p@.services.take(i as int).flat_map(f),
        decreases p.services.len() - i,
    {
        let ghost before = views(out@);
        push_gone(&mut out, &p.services[i].ptr_type_to_instance);
        push_gone(&mut out, &p.services[i].ptr_meta_to_type);
        push_gone(&mut out, &p.services[i].srv);
        push_gone(&mut out, &p.services[i].txt);
        assert(views(out@) =~= before + f(p@.services[i as int]));
        proof {
            p@.services.lemma_flat_map_take_append(f, i as int);
        }
        i += 1;
        assert(views(out@) =~= start + p@.services.take(i as int).flat_map(f));
    }
    assert(p@.services.take(i as int) =~= p@.services);
    assert(views(out@) =~= goodbyes(p@));
    out
}

} // verus!
