//! Identifiers of activities, agents, channels, relays and workers.

use core::cmp::Ordering;
use core::marker::PhantomData;
use vstd::prelude::*;
use vstd::std_specs::cmp::PartialOrdSpec;
use vstd::std_specs::convert::FromSpecImpl;
use vstd::string::*;
use crate::text::{append_decimal, decimal_chars};

verus! {

/// Marker of activity identifiers
#[derive(Debug, Clone, Copy, Hash, PartialEq, Eq, PartialOrd, Ord)]
pub struct ActivityIdMarker;

/// Marker of agent identifiers
#[derive(Debug, Clone, Copy, Hash, PartialEq, Eq, PartialOrd, Ord)]
pub struct AgentIdMarker;

/// Marker of worker identifiers
#[derive(Debug, Clone, Copy, Hash, PartialEq, Eq)]
pub struct WorkerIdMarker;

/// Marker of signalling relay identifiers
#[derive(Debug, Clone, Copy, Hash, PartialEq, Eq)]
pub struct RelayIdMarker;

/// A marker type that carries the textual prefix of its identifiers.
pub trait GetPrefix: Copy {
    /// The prefix as a sequence of characters.
    spec fn spec_prefix() -> Seq<char>;

    /// The prefix used when an identifier is rendered as text.
    fn prefix() -> (r: &'static str)
        ensures
            r@ == Self::spec_prefix(),
    ;
}

impl GetPrefix for ActivityIdMarker {
    open spec fn spec_prefix() -> Seq<char> {
        seq!['A']
    }

    fn prefix() -> (r: &'static str) {
        proof {
            reveal_strlit("A");
        }
        "A"
    }
}

impl GetPrefix for AgentIdMarker {
    open spec fn spec_prefix() -> Seq<char> {
        seq!['A', 'g', 't', '-']
    }

    fn prefix() -> (r: &'static str) {
        proof {
            reveal_strlit("Agt-");
        }
        "Agt-"
    }
}

impl GetPrefix for WorkerIdMarker {
    open spec fn spec_prefix() -> Seq<char> {
        seq!['W']
    }

    fn prefix() -> (r: &'static str) {
        proof {
            reveal_strlit("W");
        }
        "W"
    }
}

impl GetPrefix for RelayIdMarker {
    open spec fn spec_prefix() -> Seq<char> {
        seq!['R']
    }

    fn prefix() -> (r: &'static str) {
        proof {
            reveal_strlit("R");
        }
        "R"
    }
}

/// A numeric identifier whose marker keeps identifiers of different kinds apart.
#[derive(Debug, Copy, Hash, PartialEq, Eq, Ord)]
pub struct GenericId<T: GetPrefix> {
    id: u64,
    _discriminator: PhantomData<T>,
}

/// Identifies an activity / task
pub type ActivityId = GenericId<ActivityIdMarker>;

/// Identifies an agent / process
pub type AgentId = GenericId<AgentIdMarker>;

/// Identifies a worker
pub type WorkerId = GenericId<WorkerIdMarker>;

/// Identifies a signalling relay
pub type RelayId = GenericId<RelayIdMarker>;

impl<T: GetPrefix> GenericId<T> {
    /// The numeric value of the identifier.
    pub closed spec fn value(self) -> u64 {
        self.id
    }

    /// Two identifiers of one kind are the same exactly when their values are.
    pub proof fn lemma_value_injective(a: Self, b: Self)
        ensures
            (a.value() == b.value()) <==> (a == b),
    {
    }

    pub fn new(id: u64) -> (r: Self)
        ensures
            r.value() == id,
    {
        Self { id, _discriminator: PhantomData }
    }

    pub fn id(&self) -> (r: u64)
        ensures
            r == self.value(),
    {
        self.id
    }

    /// The text of the identifier: its kind's prefix followed by its decimal value.
    pub fn to_string(&self) -> (r: String)
        ensures
            r@ == T::spec_prefix() + decimal_chars(self.value() as nat),
    {
        let mut s = String::new();
        s.append(T::prefix());
        append_decimal(&mut s, self.id);
        assert(s@ =~= T::spec_prefix() + decimal_chars(self.value() as nat));
        s
    }
}

impl<T: GetPrefix> Clone for GenericId<T> {
    fn clone(&self) -> (r: Self)
        ensures
            r == *self,
    {
        *self
    }
}

impl<T: GetPrefix> From<u64> for GenericId<T> {
    fn from(value: u64) -> (r: Self)
        ensures
            r.value() == value,
    {
        Self { id: value, _discriminator: PhantomData }
    }
}

impl<T: GetPrefix> FromSpecImpl<u64> for GenericId<T> {
    open spec fn obeys_from_spec() -> bool {
        true
    }

    closed spec fn from_spec(v: u64) -> Self {
        GenericId { id: v, _discriminator: PhantomData }
    }
}

impl<T: GetPrefix> From<GenericId<T>> for u64 {
    fn from(value: GenericId<T>) -> (r: u64)
        ensures
            r == value.value(),
    {
        value.id
    }
}

impl<T: GetPrefix> FromSpecImpl<GenericId<T>> for u64 {
    open spec fn obeys_from_spec() -> bool {
        true
    }

    open spec fn from_spec(v: GenericId<T>) -> u64 {
        v.value()
    }
}

/// Identifiers of one kind are ordered by their values.
impl<T: GetPrefix + PartialEq> PartialOrd for GenericId<T> {
    fn partial_cmp(&self, other: &Self) -> (r: Option<Ordering>) {
        if self.id < other.id {
            Some(Ordering::Less)
        } else if self.id == other.id {
            Some(Ordering::Equal)
        } else {
            Some(Ordering::Greater)
        }
    }
}

impl<T: GetPrefix + PartialEq> vstd::std_specs::cmp::PartialOrdSpecImpl for GenericId<T> {
    open spec fn obeys_partial_cmp_spec() -> bool {
        true
    }

    open spec fn partial_cmp_spec(&self, other: &Self) -> Option<Ordering> {
        if self.value() < other.value() {
            Some(Ordering::Less)
        } else if self.value() == other.value() {
            Some(Ordering::Equal)
        } else {
            Some(Ordering::Greater)
        }
    }
}

/// Comparing two identifiers of one kind compares their values: `a < b` exactly
/// when `a`'s value is smaller, and they are equal exactly when their values are.
pub proof fn lemma_ids_ordered_by_value<T: GetPrefix + PartialEq>(a: GenericId<T>, b: GenericId<T>)
    ensures
        (a.partial_cmp_spec(&b) == Some(Ordering::Less)) <==> a.value() < b.value(),
        (a.partial_cmp_spec(&b) == Some(Ordering::Equal)) <==> a == b,
        (a.partial_cmp_spec(&b) == Some(Ordering::Greater)) <==> a.value() > b.value(),
{
    GenericId::<T>::lemma_value_injective(a, b);
}

/// Identifies a communication channel peer
#[derive(Debug, Clone, PartialEq, Eq, Copy, Hash)]
#[non_exhaustive]
pub enum ChannelId {
    Activity(ActivityId),
    Agent(AgentId),
    Worker(WorkerId),
    Relay(RelayId),
}

/// The text of a channel identifier, `C(` prefix value `)`.
pub open spec fn channel_text(c: ChannelId) -> Seq<char> {
    let inner = match c {
        ChannelId::Activity(id) => ActivityIdMarker::spec_prefix() + decimal_chars(id.value() as nat),
        ChannelId::Agent(id) => AgentIdMarker::spec_prefix() + decimal_chars(id.value() as nat),
        ChannelId::Worker(id) => WorkerIdMarker::spec_prefix() + decimal_chars(id.value() as nat),
        ChannelId::Relay(id) => RelayIdMarker::spec_prefix() + decimal_chars(id.value() as nat),
    };
    seq!['C', '('] + inner + seq![')']
}

impl ChannelId {
    /// Renders the channel identifier as text.
    pub fn to_string(&self) -> (r: String)
        ensures
            r@ == channel_text(*self),
    {
        proof {
            reveal_strlit("C(");
            reveal_strlit(")");
        }
        let mut s = String::new();
        s.append("C(");
        let inner = match self {
            ChannelId::Activity(id) => id.to_string(),
            ChannelId::Agent(id) => id.to_string(),
            ChannelId::Worker(id) => id.to_string(),
            ChannelId::Relay(id) => id.to_string(),
        };
        s.append(inner.as_str());
        s.append(")");
        assert(s@ =~= channel_text(*self));
        s
    }
}

} // verus!
