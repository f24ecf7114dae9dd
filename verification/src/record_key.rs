//! Stable identity of a resource record.
//!
//! The cache ([`crate::cache`]) and the per-interface multicast rate limiter
//! ([`crate::timing`]) tell records apart by it.

use vstd::prelude::*;

use crate::dns::{KeyView, Name, RData, Record, RecordType};

verus! {

/// Name, type, class and data of a record, without its lifetime.
#[derive(Debug)]
pub struct RecordKey {
    pub name: Name,
    pub rtype: RecordType,
    pub class: u16,
    pub rdata: RData,
}

impl View for RecordKey {
    type V = KeyView;

    open spec fn view(&self) -> KeyView {
        KeyView {
            name: self.name@.folded(),
            rtype: self.rtype,
            class: self.class,
            data: self.rdata@.folded(),
        }
    }
}

impl RecordKey {
    /// The identity of `rec`.
    pub fn of(rec: &Record) -> (r: RecordKey)
        ensures
            r@ == rec@.key(),
    {
        RecordKey {
            name: rec.name.clone(),
            rtype: rec.record_type(),
            class: rec.dns_class,
            rdata: rec.data.clone(),
        }
    }
}

impl Clone for RecordKey {
    fn clone(&self) -> (r: RecordKey)
        ensures
            r@ == self@,
    {
        RecordKey {
            name: self.name.clone(),
            rtype: self.rtype,
            class: self.class,
            rdata: self.rdata.clone(),
        }
    }
}

impl PartialEq for RecordKey {
    fn eq(&self, other: &RecordKey) -> (r: bool) {
        self.name == other.name && self.rtype == other.rtype && self.class == other.class
            && self.rdata == other.rdata
    }
}

impl vstd::std_specs::cmp::PartialEqSpecImpl for RecordKey {
    open spec fn obeys_eq_spec() -> bool {
        true
    }

    open spec fn eq_spec(&self, other: &RecordKey) -> bool {
        self@ == other@
    }
}

/// True when two record data values are the same.
pub fn rdata_eq(a: &RData, b: &RData) -> (r: bool)
    ensures
        r == (a@.folded() == b@.folded()),
{
    *a == *b
}

} // verus!
