//! Active browser: queries for service types of interest at growing intervals, so
//! that the cache stays warm (RFC 6762 section 5.2).
//!
//! * The first query is delayed by a random 20 to 120 ms, so that hosts that boot
//!   together do not fall into step.
//! * The interval doubles from query to query (1 s, 2 s, 4 s, ...) up to a
//!   configured ceiling.

use vstd::prelude::*;

use crate::dns::{
    Message, MessageType, MessageView, Name, NameView, Question, QuestionView, RecordType,
    CLASS_IN,
};
use crate::seqs::{lemma_views_push, views};
use crate::wire::parsed_name;

verus! {

/// The names among the browse targets; targets that are no names are skipped.
pub fn browse_names(browse: &Vec<String>) -> (r: Vec<Name>)
    ensures
        views(r@) == browse@.filter_map(|s: String| parsed_name(s@)),
{
    let ghost f = |s: String| parsed_name(s@);
    let mut names: Vec<Name> = Vec::new();
    let mut i: usize = 0;
    assert(browse@.take(0) =~= Seq::<String>::empty());
    assert(views(names@) =~= browse@.take(0).filter_map(f));
    while i < browse.len()
        invariant
            i <= browse.len(),
            f == (|s: String| parsed_name(s@)),
            views(names@) == browse@.take(i as int).filter_map(f),
        decreases browse.len() - i,
    {
        proof {
            browse@.lemma_filter_map_take_succ(f, i as int);
        }
        if let Ok(n) = Name::from_str(browse[i].as_str()) {
            proof {
                lemma_views_push(names@, n);
            }
            names.push(n);
        }
        i += 1;
        assert(views(names@) =~= browse@.take(i as int).filter_map(f));
    }
    assert(browse@.take(i as int) =~= browse@);
    names
}

/// A browse question: for pointers, of the Internet class.
pub open spec fn browse_question(name: NameView) -> QuestionView {
    QuestionView { name, qtype: RecordType::PTR, qclass: CLASS_IN, unicast_response: false }
}

/// The query for all browse targets.
pub open spec fn browse_view(names: Seq<NameView>) -> MessageView {
    MessageView {
        id: 0,
        message_type: MessageType::Query,
        authoritative: false,
        truncation: false,
        queries: names.map_values(|n: NameView| browse_question(n)),
        answers: Seq::empty(),
        authorities: Seq::empty(),
        additionals: Seq::empty(),
    }
}

/// The query for all browse targets.
pub fn query_message(names: &Vec<Name>) -> (r: Message)
    ensures
        r@ == browse_view(views(names@)),
{
    let ghost all = views(names@);
    let mut queries: Vec<Question> = Vec::new();
    let mut i: usize = 0;
    while i < names.len()
        invariant
            i <= names.len(),
            all == views(names@),
            queries.len() == i,
            forall|k: int| #![trigger queries@[k]] 0 <= k < i ==> queries@[k]@ == browse_question(
                all[k],
            ),
        decreases names.len() - i,
    {
        queries.push(
            Question {
                name: names[i].clone(),
                qtype: RecordType::PTR,
                qclass: CLASS_IN,
                unicast_response: false,
            },
        );
        i += 1;
    }
    let mut msg = Message::new(0, MessageType::Query);
    msg.queries = queries;
    assert(msg@.queries =~= browse_view(all).queries);
    assert(msg@ =~= browse_view(all));
    msg
}

/// The longest interval in seconds: the configured one, but at least one second.
pub open spec fn ceiling(interval_secs: u64) -> u64 {
    if interval_secs == 0 {
        1
    } else {
        interval_secs
    }
}

/// The interval after `delay`: twice as long, up to the ceiling.
pub open spec fn doubled(delay: u64, cap: u64) -> u64 {
    if 2 * delay < cap {
        (2 * delay) as u64
    } else {
        cap
    }
}

/// The interval before the query with number `n`, counted from zero for the first
/// repetition.
pub open spec fn interval_at(n: nat, cap: u64) -> u64
    decreases n,
{
    if n == 0 {
        1
    } else {
        doubled(interval_at((n - 1) as nat, cap), cap)
    }
}

/// A step of browsing. `delay` is the interval in seconds after the next query.
#[derive(Debug, Clone, Copy, PartialEq, Eq, Structural)]
pub enum BrowseState {
    /// Wait for a random 20 to 120 ms.
    FirstWait,
    /// Send the query.
    Query { delay: u64 },
    /// Wait for `delay` seconds.
    Wait { delay: u64 },
    /// Browsing is over.
    Done,
}

/// What came of a step of browsing.
#[derive(Debug, Clone, Copy, PartialEq, Eq, Structural)]
pub enum BrowseEvent {
    /// The wait is over, or the query was sent or could not be.
    Proceed,
    /// The daemon is to shut down.
    Cancelled,
}

/// The state after `state`.
pub open spec fn browse_after(state: BrowseState, event: BrowseEvent, cap: u64) -> BrowseState {
    if event == BrowseEvent::Cancelled {
        BrowseState::Done
    } else {
        match state {
            BrowseState::FirstWait => BrowseState::Query { delay: 1 },
            BrowseState::Query { delay } => BrowseState::Wait { delay },
            BrowseState::Wait { delay } => BrowseState::Query { delay: doubled(delay, cap) },
            BrowseState::Done => BrowseState::Done,
        }
    }
}

/// Starts browsing for `targets` names; there is nothing to do without any.
pub fn browse_start(targets: usize) -> (r: BrowseState)
    ensures
        r == (if targets == 0 {
            BrowseState::Done
        } else {
            BrowseState::FirstWait
        }),
{
    if targets == 0 {
        BrowseState::Done
    } else {
        BrowseState::FirstWait
    }
}

/// The interval after `delay`, in seconds: twice as long, up to the ceiling.
pub fn next_delay(delay: u64, cap: u64) -> (r: u64)
    ensures
        r == doubled(delay, cap),
{
    let twice: u128 = delay as u128 * 2;
    if twice < cap as u128 {
        delay * 2
    } else {
        cap
    }
}

/// Moves on from a state of browsing, with the configured interval as ceiling.
pub fn browse_next(state: BrowseState, event: BrowseEvent, interval_secs: u64) -> (r: BrowseState)
    ensures
        r == browse_after(state, event, ceiling(interval_secs)),
{
    if event == BrowseEvent::Cancelled {
        return BrowseState::Done;
    }
    let cap: u64 = if interval_secs == 0 {
        1
    } else {
        interval_secs
    };
    match state {
        BrowseState::FirstWait => BrowseState::Query { delay: 1 },
        BrowseState::Query { delay } => BrowseState::Wait { delay },
        BrowseState::Wait { delay } => BrowseState::Query { delay: next_delay(delay, cap) },
        BrowseState::Done => BrowseState::Done,
    }
}

} // verus!
