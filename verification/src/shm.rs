//! Shared-memory communication backend: access control of mapped topics, the
//! registry of topics of an agent, and the protocol by which a secondary agent
//! asks the primary agent for a topic's mapping.
//!
//! The access rules of a topic's memory are preconditions, so that verified
//! callers are shown never to mix read and write access. Creating, opening and
//! mapping the memory itself is left to the caller.

use vstd::prelude::*;
use crate::text::{decimal_bytes, hex_bytes, parse_usize, parse_usize_spec, push_all, push_decimal_bytes, push_hex_bytes};

verus! {

/// Role of the agent initializing a topic
#[derive(Debug, Clone, Copy)]
pub enum TopicInitializationAgentRole {
    Primary {
        /// Also map the topic locally
        also_map: bool,
    },
    Secondary,
}

/// Mode of shared memory mapping
#[derive(Debug, Clone, Copy, PartialEq, Eq)]
pub enum MappingMode {
    Read,
    Write,
}

/// Lock state meaning "locked for writing"
pub const WRITE_LOCKED: u16 = 65535u16;

/// Access control of the memory of one topic.
///
/// `lock_state` is 0 when unlocked, `WRITE_LOCKED` when locked for writing, and
/// otherwise the number of active readers.
#[derive(Debug)]
pub struct ReadWriteAccessControlPtr {
    /// Identifies the type of the data in the memory
    pub type_tag: u64,
    /// Size of the data in bytes
    pub size: usize,
    lock_state: u16,
    mapped: bool,
    writable: bool,
}

/// The abstract state of the access control of a topic
pub struct AccessView {
    pub type_tag: u64,
    pub size: usize,
    pub lock_state: u16,
    pub mapped: bool,
    pub writable: bool,
}

impl ReadWriteAccessControlPtr {
    pub closed spec fn view(&self) -> AccessView {
        AccessView {
            type_tag: self.type_tag,
            size: self.size,
            lock_state: self.lock_state,
            mapped: self.mapped,
            writable: self.writable,
        }
    }

    /// Access control for data of type `type_tag` and `size` bytes, not mapped yet,
    /// unlocked, writable exactly when mapped for writing.
    pub fn new_unmapped(type_tag: u64, size: usize, mapping_mode: MappingMode) -> (r: Self)
        requires
            size != 0,
            size <= isize::MAX,
        ensures
            r@ == (AccessView {
                type_tag,
                size,
                lock_state: 0,
                mapped: false,
                writable: mapping_mode == MappingMode::Write,
            }),
    {
        ReadWriteAccessControlPtr {
            type_tag,
            size,
            lock_state: 0,
            mapped: false,
            writable: matches!(mapping_mode, MappingMode::Write),
        }
    }

    /// Records that the memory has been mapped.
    pub fn map(&mut self)
        requires
            !old(self)@.mapped,
        ensures
            final(self)@ == (AccessView { mapped: true, ..old(self)@ }),
    {
        self.mapped = true;
    }

    pub fn is_mapped(&self) -> (r: bool)
        ensures
            r == self@.mapped,
    {
        self.mapped
    }

    pub fn is_writable(&self) -> (r: bool)
        ensures
            r == self@.writable,
    {
        self.writable
    }

    pub fn lock_state(&self) -> (r: u16)
        ensures
            r == self@.lock_state,
    {
        self.lock_state
    }

    /// Adds a reader; there must be no writer and fewer than `WRITE_LOCKED - 1` readers.
    fn lock_read(&mut self)
        requires
            old(self)@.lock_state != WRITE_LOCKED - 1,
            old(self)@.lock_state != WRITE_LOCKED,
        ensures
            final(self)@ == (AccessView { lock_state: (old(self)@.lock_state + 1) as u16, ..old(self)@ }),
    {
        self.lock_state = self.lock_state + 1;
    }

    /// Removes a reader; there must be one.
    fn unlock_read(&mut self)
        requires
            old(self)@.lock_state != WRITE_LOCKED,
            old(self)@.lock_state != 0,
        ensures
            final(self)@ == (AccessView { lock_state: (old(self)@.lock_state - 1) as u16, ..old(self)@ }),
    {
        self.lock_state = self.lock_state - 1;
    }

    /// Locks for writing; there must be no reader and no writer.
    fn lock_write(&mut self)
        requires
            old(self)@.lock_state == 0,
        ensures
            final(self)@ == (AccessView { lock_state: WRITE_LOCKED, ..old(self)@ }),
    {
        self.lock_state = WRITE_LOCKED;
    }

    /// Whether there is a reader or a writer.
    pub fn is_locked(&self) -> (r: bool)
        ensures
            r == (self@.lock_state != 0),
    {
        self.lock_state != 0
    }

    /// Unlocks after writing; it must be locked for writing.
    fn unlock_write(&mut self)
        requires
            old(self)@.lock_state == WRITE_LOCKED,
        ensures
            final(self)@ == (AccessView { lock_state: 0, ..old(self)@ }),
    {
        self.lock_state = 0;
    }

    /// Read access to the mapped data of type `type_tag`.
    pub fn get(&mut self, type_tag: u64) -> (r: MappedPtrReadGuard)
        requires
            old(self)@.mapped,
            old(self)@.type_tag == type_tag,
            old(self)@.lock_state != WRITE_LOCKED - 1,
            old(self)@.lock_state != WRITE_LOCKED,
        ensures
            final(self)@ == (AccessView { lock_state: (old(self)@.lock_state + 1) as u16, ..old(self)@ }),
            r.type_tag == type_tag,
    {
        self.lock_read();
        MappedPtrReadGuard { type_tag }
    }

    /// Write access to the mapped data of type `type_tag`.
    pub fn get_mut(&mut self, type_tag: u64) -> (r: MappedPtrWriteGuard)
        requires
            old(self)@.mapped,
            old(self)@.type_tag == type_tag,
            old(self)@.writable,
            old(self)@.lock_state == 0,
        ensures
            final(self)@ == (AccessView { lock_state: WRITE_LOCKED, ..old(self)@ }),
            r.type_tag == type_tag,
    {
        self.lock_write();
        MappedPtrWriteGuard { type_tag }
    }
}

/// Read access to the memory of a topic, held until released
#[derive(Debug)]
pub struct MappedPtrReadGuard {
    pub type_tag: u64,
}

impl MappedPtrReadGuard {
    /// Ends the read access.
    pub fn release(self, ptr: &mut ReadWriteAccessControlPtr)
        requires
            old(ptr)@.lock_state != WRITE_LOCKED,
            old(ptr)@.lock_state != 0,
        ensures
            final(ptr)@ == (AccessView { lock_state: (old(ptr)@.lock_state - 1) as u16, ..old(ptr)@ }),
    {
        ptr.unlock_read();
    }
}

/// Write access to the memory of a topic, held until the data is sent
#[derive(Debug)]
pub struct MappedPtrWriteGuard {
    pub type_tag: u64,
}

impl MappedPtrWriteGuard {
    /// Publishes the written data and ends the write access.
    pub fn send(self, ptr: &mut ReadWriteAccessControlPtr)
        requires
            old(ptr)@.lock_state == WRITE_LOCKED,
        ensures
            final(ptr)@ == (AccessView { lock_state: 0, ..old(ptr)@ }),
    {
        ptr.unlock_write();
    }
}

/// Read access and then its release restore the access state.
pub proof fn lemma_read_release_restores(a: AccessView)
    requires
        a.lock_state != WRITE_LOCKED - 1,
        a.lock_state != WRITE_LOCKED,
    ensures
        ({
            let locked = AccessView { lock_state: (a.lock_state + 1) as u16, ..a };
            &&& locked.lock_state != WRITE_LOCKED
            &&& locked.lock_state != 0
            &&& (AccessView { lock_state: (locked.lock_state - 1) as u16, ..locked }) == a
        }),
{
}

/// While a topic is locked for writing no read access can be granted, and while it
/// is read no write access can be granted.
pub proof fn lemma_read_write_exclusive(a: AccessView)
    ensures
        a.lock_state == WRITE_LOCKED ==> !(a.lock_state != WRITE_LOCKED - 1 && a.lock_state != WRITE_LOCKED),
        a.lock_state != 0 ==> !(a.lock_state == 0),
{
}

/// Write access followed by sending: `get_mut` on an unlocked topic marks it
/// locked for writing (so `is_locked` holds, and neither a reader nor a second
/// writer is admitted), and `send` then restores the unlocked state.
pub proof fn lemma_write_send_restores(a: AccessView)
    requires
        a.lock_state == 0,
    ensures
        ({
            let locked = AccessView { lock_state: WRITE_LOCKED, ..a };
            &&& locked.lock_state == WRITE_LOCKED
            &&& locked.lock_state != 0
            &&& !(locked.lock_state != WRITE_LOCKED - 1 && locked.lock_state != WRITE_LOCKED)
            &&& !(locked.lock_state == 0)
            &&& (AccessView { lock_state: 0, ..locked }) == a
        }),
{
}

/// The mapping of one topic
pub struct TopicMapping {
    /// Access control of the topic's memory
    pub ptr: ReadWriteAccessControlPtr,
    /// Unique mapping id (name of the shared memory object)
    pub mapping_id: Vec<u8>,
}

/// COM runtime state: the topics of this agent
pub struct ComRuntime {
    names: Vec<Vec<u8>>,
    mappings: Vec<TopicMapping>,
}

/// Whether no name occurs twice.
pub open spec fn distinct_names(names: Seq<Seq<u8>>) -> bool {
    forall|i: int, j: int| 0 <= i < j < names.len() ==> names[i] != names[j]
}

/// Returns whether `a` and `b` hold the same bytes.
pub fn bytes_eq(a: &[u8], b: &[u8]) -> (r: bool)
    ensures
        r == (a@ == b@),
{
    if a.len() != b.len() {
        return false;
    }
    let mut i: usize = 0;
    while i < a.len()
        invariant
            a@.len() == b@.len(),
            i <= a@.len(),
            forall|k: int| 0 <= k < i ==> a@[k] == b@[k],
        decreases a@.len() - i,
    {
        if a[i] != b[i] {
            return false;
        }
        i = i + 1;
    }
    assert(a@ =~= b@);
    true
}

impl ComRuntime {
    /// Names of the registered topics
    pub closed spec fn names(&self) -> Seq<Seq<u8>> {
        self.names@.map_values(|n: Vec<u8>| n@)
    }

    /// Access states of the registered topics, in the order of their names
    pub closed spec fn accesses(&self) -> Seq<AccessView> {
        self.mappings@.map_values(|m: TopicMapping| m.ptr@)
    }

    /// Mapping ids of the registered topics, in the order of their names
    pub closed spec fn mapping_ids(&self) -> Seq<Seq<u8>> {
        self.mappings@.map_values(|m: TopicMapping| m.mapping_id@)
    }

    pub closed spec fn wf(&self) -> bool {
        &&& self.names@.len() == self.mappings@.len()
        &&& distinct_names(self.names())
    }

    /// Whether `topic` is registered.
    pub open spec fn has_topic(&self, topic: Seq<u8>) -> bool {
        self.names().contains(topic)
    }

    /// An empty runtime.
    pub fn new() -> (r: Self)
        ensures
            r.wf(),
            r.names().len() == 0,
            r.accesses().len() == 0,
            r.mapping_ids().len() == 0,
    {
        let r = ComRuntime { names: Vec::new(), mappings: Vec::new() };
        assert(r.names() =~= Seq::<Seq<u8>>::empty());
        r
    }

    /// Position of `topic` among the registered topics.
    pub fn find(&self, topic: &[u8]) -> (r: Option<usize>)
        requires
            self.wf(),
        ensures
            match r {
                Some(i) => i < self.names().len() && self.names()[i as int] == topic@,
                None => !self.has_topic(topic@),
            },
    {
        let mut i: usize = 0;
        while i < self.names.len()
            invariant
                self.wf(),
                i <= self.names@.len(),
                forall|k: int| 0 <= k < i ==> self.names()[k] != topic@,
            decreases self.names@.len() - i,
        {
            if bytes_eq(self.names[i].as_slice(), topic) {
                return Some(i);
            }
            i = i + 1;
        }
        None
    }

    /// Registers the mapping of a topic that is not registered yet.
    pub fn register(&mut self, topic: &[u8], mapping: TopicMapping)
        requires
            old(self).wf(),
            !old(self).has_topic(topic@),
        ensures
            final(self).wf(),
            final(self).names() == old(self).names().push(topic@),
            final(self).accesses() == old(self).accesses().push(mapping.ptr@),
            final(self).mapping_ids() == old(self).mapping_ids().push(mapping.mapping_id@),
    {
        let mut name: Vec<u8> = Vec::new();
        push_all(&mut name, topic);
        let ghost pv = mapping.ptr@;
        let ghost mv = mapping.mapping_id@;
        self.names.push(name);
        self.mappings.push(mapping);
        assert(self.names() =~= old(self).names().push(topic@));
        assert(self.accesses() =~= old(self).accesses().push(pv));
        assert(self.mapping_ids() =~= old(self).mapping_ids().push(mv));
        assert forall|i: int, j: int| 0 <= i < j < self.names().len() implies self.names()[i] != self.names()[j] by {
            if j == self.names().len() - 1 {
                assert(old(self).names().contains(old(self).names()[i]));
            }
        }
    }

    /// The access control of `topic`, checked for writability when `mode` is `Write`.
    pub fn topic_mapping(&mut self, topic: &[u8], mode: MappingMode) -> (r: &mut ReadWriteAccessControlPtr)
        requires
            old(self).wf(),
            old(self).has_topic(topic@),
            mode == MappingMode::Write ==> exists|i: int| 0 <= i < old(self).names().len()
                && old(self).names()[i] == topic@ && old(self).accesses()[i].writable,
        ensures
            exists|i: int| 0 <= i < old(self).names().len() && old(self).names()[i] == topic@
                && r@ == old(self).accesses()[i]
                && final(self).names() == old(self).names()
                && final(self).mapping_ids() == old(self).mapping_ids()
                && final(self).accesses() == old(self).accesses().update(i, final(r)@),
            final(self).wf(),
    {
        let i = self.find(topic).unwrap();
        proof {
            if mode == MappingMode::Write {
                let j = choose|j: int| 0 <= j < old(self).names().len()
                    && old(self).names()[j] == topic@ && old(self).accesses()[j].writable;
                if j != i {
                    assert(old(self).names()[j] == old(self).names()[i as int]);
                }
            }
        }
        let m = &mut self.mappings[i];
        &mut m.ptr
    }

    /// Answer to a secondary agent asking for the mapping of the topic named by
    /// `request`, and whether the topic was found.
    pub fn serve_request(&self, request: &[u8]) -> (r: (Vec<u8>, bool))
        requires
            self.wf(),
        ensures
            match self.find_spec(request@) {
                Some(i) => r.0@ == ok_response(self.accesses()[i].size, self.mapping_ids()[i]) && r.1,
                None => r.0@ == error_response() && !r.1,
            },
    {
        match self.find(request) {
            Some(i) => {
                proof {
                    self.lemma_find_spec(request@, i as int);
                }
                let m = &self.mappings[i];
                (format_ok_response(m.ptr.size, m.mapping_id.as_slice()), true)
            },
            None => {
                proof {
                    self.lemma_find_spec_none(request@);
                }
                (format_error_response(), false)
            },
        }
    }

    /// The position of `topic`, if registered.
    pub open spec fn find_spec(&self, topic: Seq<u8>) -> Option<int> {
        if self.has_topic(topic) {
            Some(choose|i: int| 0 <= i < self.names().len() && self.names()[i] == topic)
        } else {
            None
        }
    }

    /// A registered topic is found at its position, so a request for it is answered
    /// with the size and mapping id it was registered with.
    pub proof fn lemma_registered_topic_served(&self, i: int)
        requires
            self.wf(),
            0 <= i < self.names().len(),
        ensures
            self.find_spec(self.names()[i]) == Some(i),
    {
        self.lemma_find_spec(self.names()[i], i);
    }

    proof fn lemma_find_spec(&self, topic: Seq<u8>, i: int)
        requires
            self.wf(),
            0 <= i < self.names().len(),
            self.names()[i] == topic,
        ensures
            self.find_spec(topic) == Some(i),
    {
        let j = choose|j: int| 0 <= j < self.names().len() && self.names()[j] == topic;
        if j != i {
            assert(self.names()[j] == self.names()[i]);
        }
    }

    proof fn lemma_find_spec_none(&self, topic: Seq<u8>)
        requires
            !self.has_topic(topic),
        ensures
            self.find_spec(topic).is_none(),
    {
    }
}

/// Initializes the topic and registers it in the runtime. The primary agent creates the
/// memory and maps it locally if asked to; a secondary agent always maps it.
pub fn init_topic(
    runtime: &mut ComRuntime,
    topic: &[u8],
    type_tag: u64,
    size: usize,
    mapping_mode: MappingMode,
    agent_role: TopicInitializationAgentRole,
    mapping_id: Vec<u8>,
)
    requires
        old(runtime).wf(),
        !old(runtime).has_topic(topic@),
        size != 0,
        size <= isize::MAX,
    ensures
        final(runtime).wf(),
        final(runtime).names() == old(runtime).names().push(topic@),
        final(runtime).mapping_ids() == old(runtime).mapping_ids().push(mapping_id@),
        final(runtime).accesses() == old(runtime).accesses().push(AccessView {
            type_tag,
            size,
            lock_state: 0,
            mapped: match agent_role {
                TopicInitializationAgentRole::Primary { also_map } => also_map,
                TopicInitializationAgentRole::Secondary => true,
            },
            writable: mapping_mode == MappingMode::Write,
        }),
{
    let mut ptr = ReadWriteAccessControlPtr::new_unmapped(type_tag, size, mapping_mode);
    match agent_role {
        TopicInitializationAgentRole::Primary { also_map } => {
            if also_map {
                ptr.map();
            }
        },
        TopicInitializationAgentRole::Secondary => {
            ptr.map();
        },
    }
    runtime.register(topic, TopicMapping { ptr, mapping_id });
}

/// Bytes of `ok\n`
pub open spec fn ok_prefix() -> Seq<u8> {
    seq![111u8, 107u8, 10u8]
}

/// The answer to a request for an existing topic: `ok`, the size in decimal and the
/// mapping id, each on its own line.
pub open spec fn ok_response(size: usize, mapping_id: Seq<u8>) -> Seq<u8> {
    ok_prefix() + decimal_bytes(size as nat) + seq![10u8] + mapping_id
}

/// The answer to a request for an unknown topic: `error\ntopic not found`.
pub open spec fn error_response() -> Seq<u8> {
    seq![101u8, 114, 114, 111, 114, 10, 116, 111, 112, 105, 99, 32, 110, 111, 116, 32, 102, 111, 117, 110, 100]
}

/// Builds the answer for an existing topic.
pub fn format_ok_response(size: usize, mapping_id: &[u8]) -> (r: Vec<u8>)
    ensures
        r@ == ok_response(size, mapping_id@),
{
    let mut out: Vec<u8> = Vec::new();
    out.push(111);
    out.push(107);
    out.push(10);
    push_decimal_bytes(&mut out, size as u64);
    out.push(10);
    push_all(&mut out, mapping_id);
    assert(out@ =~= ok_response(size, mapping_id@));
    out
}

/// Builds the answer for an unknown topic.
pub fn format_error_response() -> (r: Vec<u8>)
    ensures
        r@ == error_response(),
{
    let mut out: Vec<u8> = Vec::new();
    let mut i: usize = 0;
    let letters: [u8; 21] = [101u8, 114, 114, 111, 114, 10, 116, 111, 112, 105, 99, 32, 110, 111, 116, 32, 102, 111, 117, 110, 100];
    while i < 21
        invariant
            i <= 21,
            letters@ == error_response(),
            out@ == error_response().take(i as int),
        decreases 21 - i,
    {
        out.push(letters[i]);
        assert(error_response().take(i + 1) =~= error_response().take(i as int).push(error_response()[i as int]));
        i = i + 1;
    }
    assert(error_response().take(21) =~= error_response());
    out
}

/// The prefix of shared memory object names: `score_feo_`
pub open spec fn mapping_id_prefix() -> Seq<u8> {
    seq![115u8, 99, 111, 114, 101, 95, 102, 101, 111, 95]
}

/// The name of the shared memory object for the random number `n`.
pub open spec fn mapping_id_spec(n: u64) -> Seq<u8> {
    mapping_id_prefix() + hex_bytes(n as nat)
}

/// Builds the name of the shared memory object for the random number `n`: the prefix
/// `score_feo_` followed by `n` in upper-case hexadecimal.
pub fn mapping_id_for(n: u64) -> (r: Vec<u8>)
    ensures
        r@ == mapping_id_spec(n),
{
    let mut out: Vec<u8> = Vec::new();
    out.push(115);
    out.push(99);
    out.push(111);
    out.push(114);
    out.push(101);
    out.push(95);
    out.push(102);
    out.push(101);
    out.push(111);
    out.push(95);
    push_hex_bytes(&mut out, n);
    assert(out@ =~= mapping_id_spec(n));
    out
}

/// Calls `rand::random::<u64>()`: a uniformly random number from the thread-local
/// generator. Nothing is claimed of its value.
#[verifier::external_body]
pub(crate) fn random_u64() -> (r: u64) {
    rand::random::<u64>()
}

/// A unique name for a new shared memory object: the prefix and a random number in
/// upper-case hexadecimal.
pub fn unique_mapping_id() -> (r: Vec<u8>)
    ensures
        exists|n: u64| r@ == mapping_id_spec(n),
{
    let n = random_u64();
    mapping_id_for(n)
}

/// Index of the first newline in `s` at or after `from`, if any.
pub open spec fn next_newline(s: Seq<u8>, from: int) -> Option<int>
    decreases s.len() - from,
{
    if from >= s.len() || from < 0 {
        None
    } else if s[from] == 10 {
        Some(from)
    } else {
        next_newline(s, from + 1)
    }
}

/// The lines of `s` after position `from`, separated by newlines (as `str::split('\n')`).
pub open spec fn lines_from(s: Seq<u8>, from: int) -> Seq<Seq<u8>>
    decreases s.len() - from,
{
    if from < 0 || from > s.len() {
        Seq::empty()
    } else {
        match next_newline(s, from) {
            None => seq![s.subrange(from, s.len() as int)],
            Some(i) => if i < from || i >= s.len() {
                Seq::empty()
            } else {
                seq![s.subrange(from, i)] + lines_from(s, i + 1)
            },
        }
    }
}

/// The lines of `s`, separated by newlines.
pub open spec fn lines(s: Seq<u8>) -> Seq<Seq<u8>> {
    lines_from(s, 0)
}

/// The size and mapping id in an answer of the primary agent: the answer must have
/// exactly three lines, the first being `ok` and the second a decimal size.
pub open spec fn parse_response_spec(s: Seq<u8>) -> Option<(usize, Seq<u8>)> {
    let l = lines(s);
    if l.len() == 3 && l[0] == seq![111u8, 107u8] && parse_usize_spec(l[1]) is Some {
        Some((parse_usize_spec(l[1]).unwrap(), l[2]))
    } else {
        None
    }
}

proof fn lemma_next_newline(s: Seq<u8>, from: int)
    requires
        0 <= from,
    ensures
        match next_newline(s, from) {
            Some(i) => from <= i < s.len() && s[i] == 10
                && forall|k: int| from <= k < i ==> s[k] != 10,
            None => forall|k: int| from <= k < s.len() ==> s[k] != 10,
        },
    decreases s.len() - from,
{
    if from < s.len() && s[from] != 10 {
        lemma_next_newline(s, from + 1);
    }
}

proof fn lemma_next_newline_is(s: Seq<u8>, from: int, i: int)
    requires
        0 <= from <= i < s.len(),
        s[i] == 10,
        forall|k: int| from <= k < i ==> s[k] != 10,
    ensures
        next_newline(s, from) == Some(i),
    decreases i - from,
{
    if from < i {
        lemma_next_newline_is(s, from + 1, i);
    }
}

proof fn lemma_next_newline_none(s: Seq<u8>, from: int)
    requires
        0 <= from,
        forall|k: int| from <= k < s.len() ==> s[k] != 10,
    ensures
        next_newline(s, from).is_none(),
    decreases s.len() - from,
{
    if from < s.len() {
        lemma_next_newline_none(s, from + 1);
    }
}

proof fn lemma_lines_nonempty(s: Seq<u8>, from: int)
    requires
        0 <= from <= s.len(),
    ensures
        lines_from(s, from).len() >= 1,
    decreases s.len() - from,
{
    lemma_next_newline(s, from);
    match next_newline(s, from) {
        Some(i) => {
            lemma_lines_nonempty(s, i + 1);
        },
        None => {},
    }
}

/// Position of the first newline in `s` at or after `from`.
fn find_newline(s: &[u8], from: usize) -> (r: Option<usize>)
    requires
        from <= s@.len(),
    ensures
        match r {
            Some(i) => next_newline(s@, from as int) == Some(i as int),
            None => next_newline(s@, from as int).is_none(),
        },
{
    let mut i = from;
    while i < s.len()
        invariant
            from <= i <= s@.len(),
            forall|k: int| from <= k < i ==> s@[k] != 10,
        decreases s@.len() - i,
    {
        if s[i] == 10 {
            proof {
                lemma_next_newline_is(s@, from as int, i as int);
            }
            return Some(i);
        }
        i = i + 1;
    }
    proof {
        lemma_next_newline_none(s@, from as int);
    }
    None
}

/// Copies `s[from..to]`.
fn copy_range(s: &[u8], from: usize, to: usize) -> (r: Vec<u8>)
    requires
        from <= to <= s@.len(),
    ensures
        r@ == s@.subrange(from as int, to as int),
{
    let mut out: Vec<u8> = Vec::new();
    let mut i = from;
    while i < to
        invariant
            from <= i <= to,
            to <= s@.len(),
            out@ == s@.subrange(from as int, i as int),
        decreases to - i,
    {
        out.push(s[i]);
        assert(out@ =~= s@.subrange(from as int, i + 1));
        i = i + 1;
    }
    out
}

/// Parses the answer of the primary agent into the topic's size and mapping id.
pub fn parse_primary_response(s: &[u8]) -> (r: Option<(usize, Vec<u8>)>)
    ensures
        match r {
            Some((size, id)) => parse_response_spec(s@) == Some((size, id@)),
            None => parse_response_spec(s@).is_none(),
        },
{
    let ghost sv = s@;
    let first = find_newline(s, 0);
    match first {
        None => {
            proof {
                assert(lines(sv) == seq![sv.subrange(0, sv.len() as int)]);
            }
            None
        },
        Some(i1) => {
            proof {
                lemma_next_newline(sv, 0);
            }
            assert(i1 < s.len());
            let second = find_newline(s, i1 + 1);
            match second {
                None => {
                    proof {
                        assert(lines_from(sv, i1 + 1) == seq![sv.subrange(i1 + 1, sv.len() as int)]);
                        assert(lines(sv) == seq![sv.subrange(0, i1 as int)] + lines_from(sv, i1 + 1));
                    }
                    None
                },
                Some(i2) => {
                    proof {
                        lemma_next_newline(sv, i1 + 1);
                    }
                    assert(i2 < s.len());
                    let third = find_newline(s, i2 + 1);
                    let ghost l = lines(sv);
                    proof {
                        assert(l == seq![sv.subrange(0, i1 as int)] + lines_from(sv, i1 + 1));
                        assert(lines_from(sv, i1 + 1) == seq![sv.subrange(i1 + 1, i2 as int)] + lines_from(sv, i2 + 1));
                    }
                    match third {
                        Some(i3) => {
                            proof {
                                lemma_next_newline(sv, i2 + 1);
                                assert(lines_from(sv, i2 + 1) == seq![sv.subrange(i2 + 1, i3 as int)] + lines_from(sv, i3 + 1));
                                lemma_lines_nonempty(sv, i3 + 1);
                                assert(l.len() >= 4);
                            }
                            None
                        },
                        None => {
                            proof {
                                assert(lines_from(sv, i2 + 1) == seq![sv.subrange(i2 + 1, sv.len() as int)]);
                                assert(l =~= seq![
                                    sv.subrange(0, i1 as int),
                                    sv.subrange(i1 + 1, i2 as int),
                                    sv.subrange(i2 + 1, sv.len() as int),
                                ]);
                            }
                            let status_ok = i1 == 2 && s[0] == 111 && s[1] == 107;
                            if !status_ok {
                                proof {
                                    if l[0] == seq![111u8, 107u8] {
                                        assert(l[0].len() == 2);
                                        assert(l[0][0] == sv[0] && l[0][1] == sv[1]);
                                    }
                                }
                                return None;
                            }
                            assert(l[0] =~= seq![111u8, 107u8]);
                            let size_text = copy_range(s, i1 + 1, i2);
                            let size = parse_usize(size_text.as_slice());
                            match size {
                                None => None,
                                Some(n) => {
                                    let id = copy_range(s, i2 + 1, s.len());
                                    Some((n, id))
                                },
                            }
                        },
                    }
                },
            }
        },
    }
}

/// Parsing an answer built for an existing topic gives back its size and mapping id,
/// provided the mapping id holds no newline.
pub proof fn lemma_response_roundtrip(size: usize, mapping_id: Seq<u8>)
    requires
        forall|k: int| 0 <= k < mapping_id.len() ==> mapping_id[k] != 10,
    ensures
        parse_response_spec(ok_response(size, mapping_id)) == Some((size, mapping_id)),
{
    let s = ok_response(size, mapping_id);
    let d = decimal_bytes(size as nat);
    crate::text::lemma_parse_decimal_roundtrip(size);
    lemma_decimal_bytes_no_newline(size as nat);
    let i2: int = 3 + d.len() as int;
    assert(s[2] == 10);
    lemma_next_newline_is(s, 0, 2);
    assert forall|k: int| 3 <= k < i2 implies s[k] != 10 by {
        assert(s[k] == d[k - 3]);
    }
    assert(s[i2] == 10);
    lemma_next_newline_is(s, 3, i2);
    assert forall|k: int| i2 + 1 <= k < s.len() implies s[k] != 10 by {
        assert(s[k] == mapping_id[k - i2 - 1]);
    }
    lemma_next_newline_none(s, i2 + 1);
    assert(lines_from(s, i2 + 1) == seq![s.subrange(i2 + 1, s.len() as int)]);
    assert(lines_from(s, 3) == seq![s.subrange(3, i2)] + lines_from(s, i2 + 1));
    assert(lines(s) == seq![s.subrange(0, 2)] + lines_from(s, 3));
    assert(s.subrange(0, 2) =~= seq![111u8, 107u8]);
    assert(s.subrange(3, i2) =~= d);
    assert(s.subrange(i2 + 1, s.len() as int) =~= mapping_id);
    assert(lines(s) =~= seq![seq![111u8, 107u8], d, mapping_id]);
}

proof fn lemma_decimal_bytes_no_newline(n: nat)
    ensures
        forall|k: int| 0 <= k < decimal_bytes(n).len() ==> decimal_bytes(n)[k] != 10,
    decreases n,
{
    if n >= 10 {
        lemma_decimal_bytes_no_newline(n / 10);
        let s = decimal_bytes(n);
        assert(s == decimal_bytes(n / 10).push(crate::text::digit_byte(n % 10)));
        assert forall|k: int| 0 <= k < s.len() implies s[k] != 10 by {
            if k < s.len() - 1 {
                assert(s[k] == decimal_bytes(n / 10)[k]);
            }
        }
    }
}

/// An answer for an unknown topic is never taken for a mapping.
pub proof fn lemma_error_response_rejected()
    ensures
        parse_response_spec(error_response()).is_none(),
{
    let s = error_response();
    assert(s[5] == 10);
    lemma_next_newline_is(s, 0, 5);
    assert forall|k: int| 6 <= k < s.len() implies s[k] != 10 by {}
    lemma_next_newline_none(s, 6);
    assert(lines_from(s, 6) == seq![s.subrange(6, s.len() as int)]);
    assert(lines(s) == seq![s.subrange(0, 5)] + lines_from(s, 6));
    assert(lines(s).len() == 2);
}


impl ComRuntime {
    /// The access state of registered `topic`.
    pub open spec fn access_of(&self, topic: Seq<u8>) -> AccessView {
        self.accesses()[self.find_spec(topic).unwrap()]
    }

    /// The runtime after the access state of registered `topic` became `a`.
    pub open spec fn with_access(&self, topic: Seq<u8>, a: AccessView, other: &ComRuntime) -> bool {
        &&& other.names() =~= self.names()
        &&& other.mapping_ids() =~= self.mapping_ids()
        &&& other.accesses() =~= self.accesses().update(self.find_spec(topic).unwrap(), a)
    }

    /// The access control of registered `topic`.
    fn access_mut(&mut self, topic: &[u8]) -> (r: &mut ReadWriteAccessControlPtr)
        requires
            old(self).wf(),
            old(self).has_topic(topic@),
        ensures
            r@ == old(self).access_of(topic@),
            final(self).wf(),
            old(self).with_access(topic@, final(r)@, final(self)),
    {
        let i = self.find(topic).unwrap();
        proof {
            self.lemma_find_spec(topic@, i as int);
        }
        let m = &mut self.mappings[i];
        &mut m.ptr
    }
}

/// Input of a topic
#[derive(Debug)]
pub struct LinuxShmInput {
    topic: Vec<u8>,
    type_tag: u64,
}

/// Read access to the data of a topic, which it belongs to
pub struct LinuxShmInputGuard {
    ptr: MappedPtrReadGuard,
    topic: Ghost<Seq<u8>>,
}

impl LinuxShmInput {
    pub closed spec fn topic(&self) -> Seq<u8> {
        self.topic@
    }

    pub closed spec fn type_tag(&self) -> u64 {
        self.type_tag
    }

    /// Input of a registered topic carrying data of type `type_tag`.
    pub fn new(runtime: &ComRuntime, topic: &[u8], type_tag: u64) -> (r: Self)
        requires
            runtime.wf(),
            runtime.has_topic(topic@),
        ensures
            r.topic() == topic@,
            r.type_tag() == type_tag,
    {
        let mut t: Vec<u8> = Vec::new();
        push_all(&mut t, topic);
        LinuxShmInput { topic: t, type_tag }
    }

    /// Read access to the topic's data, counted as one more reader.
    pub fn read(&self, runtime: &mut ComRuntime) -> (r: LinuxShmInputGuard)
        requires
            old(runtime).wf(),
            old(runtime).has_topic(self.topic()),
            old(runtime).access_of(self.topic()).mapped,
            old(runtime).access_of(self.topic()).type_tag == self.type_tag(),
            old(runtime).access_of(self.topic()).lock_state != WRITE_LOCKED - 1,
            old(runtime).access_of(self.topic()).lock_state != WRITE_LOCKED,
        ensures
            final(runtime).wf(),
            old(runtime).with_access(self.topic(), AccessView {
                lock_state: (old(runtime).access_of(self.topic()).lock_state + 1) as u16,
                ..old(runtime).access_of(self.topic())
            }, final(runtime)),
            r.topic() == self.topic(),
            r.type_tag() == self.type_tag(),
    {
        let ptr = runtime.access_mut(self.topic.as_slice());
        LinuxShmInputGuard { ptr: ptr.get(self.type_tag), topic: Ghost(self.topic@) }
    }
}

/// Output of a topic
#[derive(Debug)]
pub struct LinuxShmOutput {
    topic: Vec<u8>,
    type_tag: u64,
}

/// Write access to the data of a topic whose value is to be set
pub struct LinuxShmOutputUninitGuard {
    ptr: MappedPtrWriteGuard,
    topic: Ghost<Seq<u8>>,
}

/// Write access to the data of a topic, to be ended by sending
pub struct LinuxShmOutputGuard {
    ptr: MappedPtrWriteGuard,
    topic: Ghost<Seq<u8>>,
}

impl LinuxShmOutput {
    pub closed spec fn topic(&self) -> Seq<u8> {
        self.topic@
    }

    pub closed spec fn type_tag(&self) -> u64 {
        self.type_tag
    }

    /// Output of a registered, writable topic carrying data of type `type_tag`.
    pub fn new(runtime: &ComRuntime, topic: &[u8], type_tag: u64) -> (r: Self)
        requires
            runtime.wf(),
            runtime.has_topic(topic@),
            runtime.access_of(topic@).writable,
        ensures
            r.topic() == topic@,
            r.type_tag() == type_tag,
    {
        let mut t: Vec<u8> = Vec::new();
        push_all(&mut t, topic);
        LinuxShmOutput { topic: t, type_tag }
    }

    /// Exclusive write access to the topic's data.
    pub fn write_uninit(&mut self, runtime: &mut ComRuntime) -> (r: LinuxShmOutputUninitGuard)
        requires
            old(runtime).wf(),
            old(runtime).has_topic(old(self).topic()),
            old(runtime).access_of(old(self).topic()).mapped,
            old(runtime).access_of(old(self).topic()).writable,
            old(runtime).access_of(old(self).topic()).type_tag == old(self).type_tag(),
            old(runtime).access_of(old(self).topic()).lock_state == 0,
        ensures
            *final(self) == *old(self),
            final(runtime).wf(),
            old(runtime).with_access(old(self).topic(), AccessView {
                lock_state: WRITE_LOCKED,
                ..old(runtime).access_of(old(self).topic())
            }, final(runtime)),
            r.topic() == old(self).topic(),
            r.type_tag() == old(self).type_tag(),
    {
        let ptr = runtime.access_mut(self.topic.as_slice());
        LinuxShmOutputUninitGuard { ptr: ptr.get_mut(self.type_tag), topic: Ghost(self.topic@) }
    }
}

impl LinuxShmOutputUninitGuard {
    /// The topic whose data this guard gives access to.
    pub closed spec fn topic(&self) -> Seq<u8> {
        self.topic@
    }

    pub closed spec fn type_tag(&self) -> u64 {
        self.ptr.type_tag
    }

    /// The data is already initialized (memory is initialized when allocated).
    pub fn assume_init(self) -> (r: LinuxShmOutputGuard)
        ensures
            r.topic() == self.topic(),
            r.type_tag() == self.type_tag(),
    {
        LinuxShmOutputGuard { ptr: self.ptr, topic: self.topic }
    }
}

impl LinuxShmOutputGuard {
    /// The topic whose data this guard gives access to.
    pub closed spec fn topic(&self) -> Seq<u8> {
        self.topic@
    }

    pub closed spec fn type_tag(&self) -> u64 {
        self.ptr.type_tag
    }

    /// Publishes the written data and ends the write access; the guard must come
    /// from `output`.
    pub fn send(self, output: &LinuxShmOutput, runtime: &mut ComRuntime) -> (r: Result<(), ()>)
        requires
            self.topic() == output.topic(),
            self.type_tag() == output.type_tag(),
            old(runtime).wf(),
            old(runtime).has_topic(output.topic()),
            old(runtime).access_of(output.topic()).lock_state == WRITE_LOCKED,
        ensures
            r is Ok,
            final(runtime).wf(),
            old(runtime).with_access(output.topic(), AccessView {
                lock_state: 0,
                ..old(runtime).access_of(output.topic())
            }, final(runtime)),
    {
        let ptr = runtime.access_mut(output.topic.as_slice());
        self.ptr.send(ptr);
        Ok(())
    }
}

impl LinuxShmInputGuard {
    /// The topic whose data this guard gives access to.
    pub closed spec fn topic(&self) -> Seq<u8> {
        self.topic@
    }

    pub closed spec fn type_tag(&self) -> u64 {
        self.ptr.type_tag
    }

    /// Ends the read access; the guard must come from `input`.
    pub fn release(self, input: &LinuxShmInput, runtime: &mut ComRuntime)
        requires
            self.topic() == input.topic(),
            self.type_tag() == input.type_tag(),
            old(runtime).wf(),
            old(runtime).has_topic(input.topic()),
            old(runtime).access_of(input.topic()).lock_state != WRITE_LOCKED,
            old(runtime).access_of(input.topic()).lock_state != 0,
        ensures
            final(runtime).wf(),
            old(runtime).with_access(input.topic(), AccessView {
                lock_state: (old(runtime).access_of(input.topic()).lock_state - 1) as u16,
                ..old(runtime).access_of(input.topic())
            }, final(runtime)),
    {
        let ptr = runtime.access_mut(input.topic.as_slice());
        self.ptr.release(ptr);
    }
}

} // verus!
