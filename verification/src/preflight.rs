//! The names of a configuration, checked before the daemon starts.

use vstd::prelude::*;

use crate::config::Resolved;
use crate::dns::Name;
use crate::services::{first_fault, resolve_hostname, validate, ServiceError, ServiceFault};
use crate::wire::parsed_name;

use hickory_proto::ProtoError;

verus! {

/// A reason why the names of a configuration are refused.
#[verifier::ext_equal]
pub enum PreflightFault {
    Service(ServiceFault),
    Browse { target: Seq<char> },
}

/// The error of a configuration with a name that is none.
#[derive(Debug)]
pub enum PreflightError {
    Service(ServiceError),
    Browse(String, ProtoError),
}

impl View for PreflightError {
    type V = PreflightFault;

    open spec fn view(&self) -> PreflightFault {
        match self {
            PreflightError::Service(e) => PreflightFault::Service(e@),
            PreflightError::Browse(s, _) => PreflightFault::Browse { target: s@ },
        }
    }
}

/// The first browse target that is no name.
pub open spec fn first_bad_target(browse: Seq<String>) -> Option<Seq<char>>
    decreases browse.len(),
{
    if browse.len() == 0 {
        None
    } else {
        match first_bad_target(browse.drop_last()) {
            Some(s) => Some(s),
            None => if parsed_name(browse.last()@) is None {
                Some(browse.last()@)
            } else {
                None
            },
        }
    }
}

/// Why the names of a configuration are refused, if they are.
pub open spec fn preflight_fault(config: Resolved) -> Option<PreflightFault> {
    match first_fault(config.services@) {
        Some(f) => Some(PreflightFault::Service(f)),
        None => match first_bad_target(config.browse@) {
            Some(target) => Some(PreflightFault::Browse { target }),
            None => None,
        },
    }
}

proof fn lemma_bad_target_prefix(browse: Seq<String>, k: int)
    requires
        0 <= k <= browse.len(),
        first_bad_target(browse.take(k)) is Some,
    ensures
        first_bad_target(browse) == first_bad_target(browse.take(k)),
    decreases browse.len() - k,
{
    if k < browse.len() {
        assert(browse.take(k + 1).drop_last() =~= browse.take(k));
        lemma_bad_target_prefix(browse, k + 1);
    } else {
        assert(browse.take(k) =~= browse);
    }
}

/// Checks the names of the services and of the browse targets, as the daemon would read
/// them at its start.
pub fn preflight(config: &Resolved) -> (r: Result<(), PreflightError>)
    ensures
        match r {
            Ok(_) => preflight_fault(*config) is None,
            Err(e) => preflight_fault(*config) == Some(e@),
        },
{
    let hostname = resolve_hostname(&config.hostname);
    if let Err(e) = validate(&hostname, &config.services) {
        return Err(PreflightError::Service(e));
    }
    let browse = &config.browse;
    let mut i: usize = 0;
    while i < browse.len()
        invariant
            i <= browse.len(),
            *browse == config.browse,
            first_fault(config.services@) is None,
            first_bad_target(browse@.take(i as int)) is None,
        decreases browse.len() - i,
    {
        assert(browse@.take(i + 1).drop_last() =~= browse@.take(i as int));
        assert(browse@.take(i + 1).last() == browse@[i as int]);
        match Name::from_str(browse[i].as_str()) {
            Ok(_) => {},
            Err(e) => {
                proof {
                    lemma_bad_target_prefix(browse@, i + 1);
                }
                return Err(PreflightError::Browse(browse[i].clone(), e));
            },
        }
        i += 1;
    }
    assert(browse@.take(i as int) =~= browse@);
    Ok(())
}

} // verus!
