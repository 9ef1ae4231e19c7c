//! Specification of a topic's peers.

use vstd::prelude::*;
use crate::ids::ActivityId;

verus! {

/// Describes the direction of the data flow for one topic of one component
#[derive(Debug, Clone, Copy, PartialEq, Eq)]
pub enum Direction {
    /// incoming / received data
    Incoming,
    /// outgoing / sent data
    Outgoing,
}

impl Default for Direction {
    fn default() -> (r: Self)
        ensures
            r == Direction::Incoming,
    {
        Direction::Incoming
    }
}

/// Specification of a topic and its peers
pub struct TopicSpecification {
    /// The topic
    pub topic: String,
    /// Peers with [ActivityId] and communication [Direction] for this topic
    pub peers: Vec<(ActivityId, Direction)>,
}

impl TopicSpecification {
    /// Creates the specification of `topic` with the given peers.
    pub fn new(topic: String, peers: Vec<(ActivityId, Direction)>) -> (r: Self)
        ensures
            r.topic == topic,
            r.peers == peers,
    {
        TopicSpecification { topic, peers }
    }
}

} // verus!
