//! Producer and consumer sessions, the keepalive protocol, and the
//! dispatcher's per-connection decisions.
//!
//! A session owns one handle on the external log engine.  The producer
//! session appends one record per received line, in order; the consumer
//! session delivers records from its cursor in log order.  The
//! dispatcher maps a parsed handshake to the session to start, and
//! starts none once shutdown has been signalled.

use vstd::prelude::*;
use vstd::slice::slice_subrange;

use crate::log_engine::{
    anon_log, anon_pos, grouped_group, grouped_log, mgr_log, receiver_new_anon,
    receiver_new_grouped, receiver_pop_anon, receiver_pop_grouped, sender_log, sender_new,
    sender_push, MAX_RECEIVER_GROUPS, MAX_RECORD_BYTES,
};
use crate::protocol::{bytes_eq, copy_range, trim, trim_in, Handshake};
use disk_mpmc::manager::DataPagesManager;
use disk_mpmc::{Anonymous, Grouped, Receiver, Sender};

verus! {

/// Why an active session ended abnormally; the session's resources are
/// released and the client must reconnect.
#[derive(Debug, Clone, Copy, PartialEq, Eq)]
pub enum SessionError {
    /// The log engine failed (disk I/O).
    Io,
    /// A record exceeds the page capacity the engine was built with.
    RecordTooLong,
    /// The consumer group id is beyond the engine's group-slot range.
    GroupOutOfRange,
}

// --- roles and dispatch ------------------------------------------------

/// What a connection asked to do.
#[derive(Debug, Clone, Copy, PartialEq, Eq)]
pub enum Role {
    Produce,
    Consume,
    Info,
}

pub open spec fn api_produce() -> Seq<u8> {
    seq![112u8, 114u8, 111u8, 100u8, 117u8, 99u8, 101u8]
}

pub open spec fn api_consume() -> Seq<u8> {
    seq![99u8, 111u8, 110u8, 115u8, 117u8, 109u8, 101u8]
}

pub open spec fn api_info() -> Seq<u8> {
    seq![105u8, 110u8, 102u8, 111u8]
}

/// The role an `api` field denotes: exactly `produce`, `consume` or
/// `info`; anything else is unknown.
pub open spec fn spec_role_of(a: Seq<u8>) -> Option<Role> {
    if a == api_produce() {
        Some(Role::Produce)
    } else if a == api_consume() {
        Some(Role::Consume)
    } else if a == api_info() {
        Some(Role::Info)
    } else {
        None
    }
}

/// The bytes of the api value `produce`.
fn api_produce_vec() -> (r: Vec<u8>)
    ensures
        r@ == api_produce(),
{
    let mut v: Vec<u8> = Vec::new();
    v.push(112);
    v.push(114);
    v.push(111);
    v.push(100);
    v.push(117);
    v.push(99);
    v.push(101);
    proof {
        assert(v@ =~= api_produce());
    }
    v
}

/// The bytes of the api value `consume`.
fn api_consume_vec() -> (r: Vec<u8>)
    ensures
        r@ == api_consume(),
{
    let mut v: Vec<u8> = Vec::new();
    v.push(99);
    v.push(111);
    v.push(110);
    v.push(115);
    v.push(117);
    v.push(109);
    v.push(101);
    proof {
        assert(v@ =~= api_consume());
    }
    v
}

/// The bytes of the api value `info`.
fn api_info_vec() -> (r: Vec<u8>)
    ensures
        r@ == api_info(),
{
    let mut v: Vec<u8> = Vec::new();
    v.push(105);
    v.push(110);
    v.push(102);
    v.push(111);
    proof {
        assert(v@ =~= api_info());
    }
    v
}

/// The role `api` denotes, as [`spec_role_of`] states.
pub fn role_of(api: &[u8]) -> (r: Option<Role>)
    ensures
        r == spec_role_of(api@),
{
    let p = api_produce_vec();
    if bytes_eq(api, p.as_slice()) {
        return Some(Role::Produce);
    }
    let c = api_consume_vec();
    if bytes_eq(api, c.as_slice()) {
        return Some(Role::Consume);
    }
    let i = api_info_vec();
    if bytes_eq(api, i.as_slice()) {
        return Some(Role::Info);
    }
    None
}

/// What the dispatcher does with one accepted connection.
#[derive(Debug, Clone, Copy, PartialEq, Eq)]
pub enum Dispatch {
    /// Shutdown was signalled: admit no session, stop accepting.
    Shutdown,
    /// Start a producer session on the handshake's topic.
    StartProducer,
    /// Start a consumer session on the handshake's topic, with the
    /// optional group.
    StartConsumer(Option<u16>),
    /// Acknowledge the info request and close without a tracked
    /// session; the protocol defines no reply bytes for it.
    RespondInfo,
    /// Unknown api: close without a session.
    Ignore,
}

/// The dispatcher's decision: shutdown wins over everything; otherwise
/// the handshake's role decides.
pub open spec fn spec_dispatch(cancelled: bool, role: Option<Role>, group: Option<u16>) -> Dispatch {
    if cancelled {
        Dispatch::Shutdown
    } else {
        match role {
            Some(Role::Produce) => Dispatch::StartProducer,
            Some(Role::Consume) => Dispatch::StartConsumer(group),
            Some(Role::Info) => Dispatch::RespondInfo,
            None => Dispatch::Ignore,
        }
    }
}

/// Decides what to do with a connection whose handshake parsed, as
/// [`spec_dispatch`] states: once the cancellation token is signalled
/// no session is started.
pub fn dispatcher_step(cancelled: bool, h: &Handshake) -> (d: Dispatch)
    ensures
        d == spec_dispatch(cancelled, spec_role_of(h.api@), h.group),
{
    if cancelled {
        return Dispatch::Shutdown;
    }
    match role_of(h.api.as_slice()) {
        Some(Role::Produce) => Dispatch::StartProducer,
        Some(Role::Consume) => Dispatch::StartConsumer(h.group),
        Some(Role::Info) => Dispatch::RespondInfo,
        None => Dispatch::Ignore,
    }
}

/// Law: after the cancellation token is signalled the dispatcher starts
/// no session and admits no work, whatever the handshake says.
pub proof fn lemma_shutdown_admits_nothing(role: Option<Role>, group: Option<u16>)
    ensures
        spec_dispatch(true, role, group) == Dispatch::Shutdown,
{
}

// --- producer sessions -------------------------------------------------

/// The mathematical records behind a sequence of byte vectors.
pub open spec fn records_view(lines: Seq<Vec<u8>>) -> Seq<Seq<u8>> {
    Seq::new(lines.len(), |i: int| lines[i]@)
}

/// A producer session: reads lines, appends one record per line.
pub struct ProducerSession {
    tx: Sender,
}

impl ProducerSession {
    /// The records of the topic this session appends to.
    pub closed spec fn log(self) -> Seq<Seq<u8>> {
        sender_log(self.tx)
    }

    /// Opens a producer session on a resolved topic.
    pub fn start(mgr: &DataPagesManager) -> (r: Result<ProducerSession, SessionError>)
        ensures
            r matches Ok(p) ==> p.log() == mgr_log(*mgr),
            r matches Err(e) ==> e == SessionError::Io,
    {
        match sender_new(mgr) {
            Ok(tx) => Ok(ProducerSession { tx }),
            Err(_) => Err(SessionError::Io),
        }
    }

    /// Appends one received line as one record at the topic's tail.
    /// Nothing is appended on failure.
    pub fn append_line(&mut self, line: &[u8]) -> (r: Result<(), SessionError>)
        ensures
            r is Ok ==> line@.len() <= MAX_RECORD_BYTES && final(self).log() == old(self).log().push(line@),
            r == Err::<(), SessionError>(SessionError::RecordTooLong) ==> line@.len()
                > MAX_RECORD_BYTES && final(self).log() == old(self).log(),
            r == Err::<(), SessionError>(SessionError::Io) ==> line@.len() <= MAX_RECORD_BYTES
                && final(self).log() == old(self).log(),
            r != Err::<(), SessionError>(SessionError::GroupOutOfRange),
    {
        if line.len() > MAX_RECORD_BYTES {
            return Err(SessionError::RecordTooLong);
        }
        match sender_push(&mut self.tx, line) {
            Ok(u) => Ok(u),
            Err(_) => Err(SessionError::Io),
        }
    }

    /// Law: a producer session appends exactly the lines it was fed, in
    /// arrival order, one record per line, none split or merged; an
    /// error keeps the lines appended so far (no rollback) and loses
    /// only the rest.
    pub fn append_lines(&mut self, lines: &Vec<Vec<u8>>) -> (r: Result<(), SessionError>)
        ensures
            r is Ok ==> final(self).log() == old(self).log() + records_view(lines@),
            r is Err ==> exists|k: int|
                0 <= k <= lines@.len() && final(self).log() == old(self).log()
                    + #[trigger] records_view(lines@).take(k),
    {
        let ghost target = records_view(lines@);
        let n = lines.len();
        proof {
            assert(self.log() =~= old(self).log() + target.take(0));
        }
        let mut i: usize = 0;
        while i < n
            invariant
                i <= n,
                n == lines@.len(),
                target == records_view(lines@),
                self.log() == old(self).log() + target.take(i as int),
            decreases n - i,
        {
            let line = &lines[i];
            match self.append_line(line.as_slice()) {
                Ok(_) => {
                    proof {
                        assert(target.take(i + 1) =~= target.take(i as int).push(target[i as int]));
                        assert((old(self).log() + target.take(i as int)).push(lines@[i as int]@)
                            =~= old(self).log() + target.take(i + 1));
                    }
                },
                Err(e) => {
                    proof {
                        assert(0 <= i <= target.len() && self.log() == old(self).log()
                            + target.take(i as int));
                    }
                    return Err(e);
                },
            }
            i += 1;
        }
        proof {
            assert(target.take(n as int) =~= target);
        }
        Ok(())
    }
}

// --- consumer sessions -------------------------------------------------

enum CursorKind {
    Grouped(Receiver<Grouped>),
    Anonymous(Receiver<Anonymous>),
}

/// A consumer session: delivers records from one cursor, grouped or
/// anonymous, in log order.
pub struct ConsumerSession {
    cur: CursorKind,
}

impl ConsumerSession {
    /// The records of the topic this session consumes.
    pub closed spec fn log(self) -> Seq<Seq<u8>> {
        match self.cur {
            CursorKind::Grouped(rx) => grouped_log(rx),
            CursorKind::Anonymous(rx) => anon_log(rx),
        }
    }

    /// True of sessions with a private, anonymous cursor; a grouped
    /// session's cursor is shared on disk by its whole group and has no
    /// per-handle position.
    pub closed spec fn is_anonymous(self) -> bool {
        self.cur is Anonymous
    }

    /// An anonymous session's private cursor position: how many records
    /// of its log view lie behind it.
    pub closed spec fn pos(self) -> int
        recommends
            self.is_anonymous(),
    {
        match self.cur {
            CursorKind::Grouped(_) => 0,
            CursorKind::Anonymous(rx) => anon_pos(rx),
        }
    }

    /// True of sessions whose group slot is within the engine's range.
    pub closed spec fn wf(self) -> bool {
        match self.cur {
            CursorKind::Grouped(rx) => grouped_group(rx) < MAX_RECEIVER_GROUPS,
            CursorKind::Anonymous(_) => true,
        }
    }

    /// Opens a consumer session on a resolved topic with the durable
    /// cursor of consumer group `group`, shared by all the group's
    /// members.  A group id beyond the engine's slot range is rejected
    /// up front.
    pub fn start_grouped(mgr: &DataPagesManager, group: u16) -> (r: Result<
        ConsumerSession,
        SessionError,
    >)
        ensures
            r matches Ok(c) ==> c.wf() && !c.is_anonymous() && c.log() == mgr_log(*mgr) && group
                < MAX_RECEIVER_GROUPS,
            r == Err::<ConsumerSession, SessionError>(SessionError::GroupOutOfRange) <==> group
                >= MAX_RECEIVER_GROUPS,
            r == Err::<ConsumerSession, SessionError>(SessionError::RecordTooLong) ==> false,
    {
        if group as usize >= MAX_RECEIVER_GROUPS {
            Err(SessionError::GroupOutOfRange)
        } else {
            match receiver_new_grouped(group, mgr) {
                Ok(rx) => Ok(ConsumerSession { cur: CursorKind::Grouped(rx) }),
                Err(_) => Err(SessionError::Io),
            }
        }
    }

    /// Opens an anonymous consumer session positioned at the log's
    /// current tail, so it receives only records appended after its own
    /// start, and its cursor is never shared.  The engine's private
    /// cursor begins at the retained log's start, so the session first
    /// discards the `tail` records already present; `tail` is the
    /// record count the caller observed on the topic at accept time.
    pub fn start_anonymous_at_tail(mgr: &DataPagesManager, tail: usize) -> (r: Result<
        ConsumerSession,
        SessionError,
    >)
        requires
            tail <= mgr_log(*mgr).len(),
        ensures
            r matches Ok(c) ==> c.wf() && c.is_anonymous() && c.log() == mgr_log(*mgr) && c.pos()
                == tail,
            r matches Err(e) ==> e == SessionError::Io,
    {
        let rx = match receiver_new_anon(mgr) {
            Ok(rx) => rx,
            Err(_) => {
                return Err(SessionError::Io);
            },
        };
        let mut c = ConsumerSession { cur: CursorKind::Anonymous(rx) };
        let mut i: usize = 0;
        while i < tail
            invariant
                i <= tail,
                c.wf(),
                c.is_anonymous(),
                c.log() == mgr_log(*mgr),
                tail <= mgr_log(*mgr).len(),
                c.pos() == i,
            decreases tail - i,
        {
            match c.pop_next() {
                Ok(_) => {},
                Err(_) => {
                    return Err(SessionError::Io);
                },
            }
            i += 1;
        }
        Ok(c)
    }

    /// Takes the next record from the cursor, advancing it by one; the
    /// cursor's kind and group are untouched.  With the cursor at the
    /// log's end the engine blocks until a record arrives, of which
    /// nothing is promised.  The engine offers no cancellable blocking
    /// read (its timed variant consumes the group's next slot even on a
    /// timeout, which would silently skip a record), so cancellation is
    /// observed between deliveries, not inside one.
    pub fn pop_next(&mut self) -> (r: Result<Vec<u8>, SessionError>)
        requires
            old(self).wf(),
        ensures
            final(self).wf(),
            final(self).is_anonymous() == old(self).is_anonymous(),
            final(self).log() == old(self).log(),
            r matches Ok(rec) ==> (old(self).is_anonymous() && old(self).pos() < old(self).log().len() ==> rec@ == old(self).log()[old(self).pos()] && final(self).pos() == old(self).pos() + 1),
            r is Err && old(self).is_anonymous() ==> final(self).pos() <= old(self).pos(),
    {
        match &mut self.cur {
            CursorKind::Grouped(rx) => match receiver_pop_grouped(rx) {
                Ok(rec) => Ok(rec),
                Err(_) => Err(SessionError::Io),
            },
            CursorKind::Anonymous(rx) => match receiver_pop_anon(rx) {
                Ok(rec) => Ok(rec),
                Err(_) => Err(SessionError::Io),
            },
        }
    }

    /// Delivers the next `n` records of an anonymous session's log:
    /// exactly the records at positions `pos .. pos + n`, in log order,
    /// none skipped, repeated or reordered, and the cursor moves past
    /// them.  This is the delivery-order law in runnable form: its
    /// bound on `n` is met by harnesses that know how many records they
    /// appended, as the tests do; the live loop delivers one record at
    /// a time through `consumer_step` instead.
    pub fn deliver_n(&mut self, n: usize) -> (r: Result<Vec<Vec<u8>>, SessionError>)
        requires
            old(self).wf(),
            old(self).is_anonymous(),
            0 <= old(self).pos(),
            old(self).pos() + n <= old(self).log().len(),
        ensures
            final(self).wf(),
            r matches Ok(out) ==> {
                &&& final(self).log() == old(self).log()
                &&& final(self).pos() == old(self).pos() + n
                &&& out@.len() == n
                &&& forall|i: int|
                    0 <= i < n ==> out@[i]@ == old(self).log()[old(self).pos() + i]
            },
    {
        let mut out: Vec<Vec<u8>> = Vec::new();
        let mut i: usize = 0;
        while i < n
            invariant
                i <= n,
                self.wf(),
                self.is_anonymous(),
                self.log() == old(self).log(),
                self.pos() == old(self).pos() + i,
                0 <= old(self).pos(),
                old(self).pos() + n <= old(self).log().len(),
                out@.len() == i,
                forall|j: int| 0 <= j < i ==> out@[j]@ == old(self).log()[old(self).pos() + j],
            decreases n - i,
        {
            match self.pop_next() {
                Ok(rec) => {
                    out.push(rec);
                },
                Err(e) => {
                    return Err(e);
                },
            }
            i += 1;
        }
        Ok(out)
    }

    /// Law: consecutive deliveries from one anonymous cursor cover
    /// exactly one contiguous stretch of the log: together they are the
    /// records between the start and end positions, in order — so no
    /// record position is ever delivered twice through that cursor, and
    /// none is skipped.
    pub proof fn lemma_deliveries_contiguous(
        log: Seq<Seq<u8>>,
        p0: int,
        out1: Seq<Seq<u8>>,
        out2: Seq<Seq<u8>>,
    )
        requires
            0 <= p0,
            p0 + out1.len() + out2.len() <= log.len(),
            forall|i: int| 0 <= i < out1.len() ==> out1[i] == log[p0 + i],
            forall|i: int| 0 <= i < out2.len() ==> out2[i] == log[p0 + out1.len() + i],
        ensures
            out1 + out2 == log.subrange(p0, p0 + out1.len() + out2.len()),
    {
        assert(out1 + out2 =~= log.subrange(p0, p0 + out1.len() + out2.len()));
    }
}

/// Law: per-topic append order reaches every consumer.  If a producer
/// extended the log by `lines`, then a delivery of exactly that range
/// of the log yields `lines` back: the same records, in the same
/// order, none lost, duplicated or reordered.
pub proof fn lemma_appended_then_delivered(
    log0: Seq<Seq<u8>>,
    lines: Seq<Seq<u8>>,
    out: Seq<Seq<u8>>,
)
    requires
        out.len() == lines.len(),
        forall|i: int| 0 <= i < out.len() ==> out[i] == (log0 + lines)[log0.len() + i],
    ensures
        out == lines,
{
    assert forall|i: int| 0 <= i < out.len() implies out[i] == lines[i] by {
        assert((log0 + lines)[log0.len() + i] == lines[i]);
    }
    assert(out =~= lines);
}

// --- consumer output framing and keepalive -----------------------------

/// A record as the consumer socket carries it: the record's bytes
/// followed by one newline.
pub fn frame_record(rec: &[u8]) -> (r: Vec<u8>)
    ensures
        r@ == rec@.push(0x0au8),
{
    let mut v = copy_range(rec, 0, rec.len());
    proof {
        assert(v@ =~= rec@);
    }
    v.push(0x0a);
    v
}

pub open spec fn ping_bytes() -> Seq<u8> {
    seq![80u8, 73u8, 78u8, 71u8]
}

/// True when the line is a liveness token: exactly `PING` once
/// whitespace is trimmed.
pub fn is_ping(line: &[u8]) -> (r: bool)
    ensures
        r == (trim(line@) == ping_bytes()),
{
    let n = line.len();
    let (i, j) = trim_in(line, 0, n);
    let sub = slice_subrange(line, i, j);
    let mut p: Vec<u8> = Vec::new();
    p.push(80);
    p.push(73);
    p.push(78);
    p.push(71);
    proof {
        assert(p@ =~= ping_bytes());
        assert(line@.subrange(0, n as int) =~= line@);
    }
    bytes_eq(sub, p.as_slice())
}

/// What the keepalive watchdog concludes from one read.
#[derive(Debug, Clone, Copy, PartialEq, Eq)]
pub enum KeepaliveVerdict {
    /// A liveness token arrived in time: keep the session.
    Alive,
    /// Timeout, read failure, or a line that is not `PING`: disconnect.
    Expired,
}

/// The watchdog's rule: only a line whose trimmed text is `PING` keeps
/// the session alive; a timeout or failed read (`None`) or any other
/// line expires it.
pub open spec fn spec_keepalive(line: Option<Seq<u8>>) -> KeepaliveVerdict {
    match line {
        Some(l) => if trim(l) == ping_bytes() {
            KeepaliveVerdict::Alive
        } else {
            KeepaliveVerdict::Expired
        },
        None => KeepaliveVerdict::Expired,
    }
}

/// One watchdog step over the outcome of one bounded read on the
/// consumer's socket, as [`spec_keepalive`] states.
pub fn keepalive_step(line: Option<&[u8]>) -> (v: KeepaliveVerdict)
    ensures
        match line {
            Some(l) => v == spec_keepalive(Some(l@)),
            None => v == KeepaliveVerdict::Expired,
        },
{
    match line {
        Some(l) => {
            if is_ping(l) {
                KeepaliveVerdict::Alive
            } else {
                KeepaliveVerdict::Expired
            }
        },
        None => KeepaliveVerdict::Expired,
    }
}

/// One step of the consumer session's delivering state: shutdown and
/// keepalive expiry end the session before any record is taken.
#[derive(Debug, Clone, Copy, PartialEq, Eq)]
pub enum StopReason {
    /// The broker is shutting down.
    Cancelled,
    /// The keepalive watchdog expired the session.
    LivenessExpired,
    /// The cursor failed (disk I/O).
    IoFailed,
}

/// What one consumer-session step decided.
pub enum ConsumerStep {
    /// Write these bytes (one framed record) to the peer and continue.
    Deliver(Vec<u8>),
    /// Close both socket halves and drop the session.
    Stop(StopReason),
}

impl ConsumerSession {
    /// One step of the delivering loop.  First signal wins: global
    /// cancellation, then keepalive expiry, and only with both clear is
    /// a record taken from the cursor and framed for the socket.  Every
    /// delivery is one record followed by exactly one newline; for an
    /// anonymous cursor the record is pinned to the cursor's position.
    pub fn consumer_step(&mut self, cancelled: bool, keepalive: KeepaliveVerdict) -> (s:
        ConsumerStep)
        requires
            old(self).wf(),
        ensures
            final(self).wf(),
            final(self).is_anonymous() == old(self).is_anonymous(),
            cancelled ==> (s matches ConsumerStep::Stop(r2) && r2 == StopReason::Cancelled
                && *final(self) == *old(self)),
            !cancelled && keepalive == KeepaliveVerdict::Expired ==> (s matches ConsumerStep::Stop(
                r2,
            ) && r2 == StopReason::LivenessExpired && *final(self) == *old(self)),
            !cancelled && keepalive == KeepaliveVerdict::Alive ==> match s {
                ConsumerStep::Deliver(b) => b@.len() >= 1 && b@.last() == 0x0au8 && final(self).log() == old(self).log() && (old(self).is_anonymous() && old(self).pos() < old(self).log().len() ==> b@ == old(self).log()[old(self).pos()].push(0x0au8) && final(self).pos() == old(self).pos() + 1),
                ConsumerStep::Stop(r2) => r2 == StopReason::IoFailed,
            },
    {
        if cancelled {
            return ConsumerStep::Stop(StopReason::Cancelled);
        }
        match keepalive {
            KeepaliveVerdict::Expired => ConsumerStep::Stop(StopReason::LivenessExpired),
            KeepaliveVerdict::Alive => match self.pop_next() {
                Ok(rec) => ConsumerStep::Deliver(frame_record(rec.as_slice())),
                Err(_) => ConsumerStep::Stop(StopReason::IoFailed),
            },
        }
    }
}

} // verus!

// --- the shutdown coordinator's tracked session set ---------------------

verus! {

/// The shutdown coordinator's tracked set of live sessions: a session
/// is registered before any of its I/O begins and removed only after
/// it has fully terminated, so "all sessions drained" is well defined.
pub struct SessionTable {
    next_id: u64,
    active: Vec<u64>,
}

impl SessionTable {
    /// The ids of the sessions still live, in registration order.
    pub closed spec fn ids(self) -> Seq<u64> {
        self.active@
    }

    /// The bound below which every live id lies; the next fresh id.
    pub closed spec fn bound(self) -> u64 {
        self.next_id
    }

    /// True while session `id` is live.
    pub open spec fn tracks(self, id: u64) -> bool {
        exists|i: int| 0 <= i < self.ids().len() && self.ids()[i] == id
    }

    /// Live ids are unique and below the fresh-id bound.
    pub open spec fn wf(self) -> bool {
        &&& forall|i: int, j: int|
            0 <= i < j < self.ids().len() ==> self.ids()[i] != self.ids()[j]
        &&& forall|i: int| 0 <= i < self.ids().len() ==> self.ids()[i] < self.bound()
    }

    /// An empty table: nothing live, nothing to drain.
    pub fn new() -> (r: SessionTable)
        ensures
            r.wf(),
            r.ids() =~= Seq::<u64>::empty(),
            r.bound() == 0,
    {
        SessionTable { next_id: 0, active: Vec::new() }
    }

    /// True while fresh ids remain; `register` asks for this.
    pub fn can_register(&self) -> (r: bool)
        ensures
            r == (self.bound() < u64::MAX),
    {
        self.next_id < u64::MAX
    }

    /// Registers a new session before it is spawned: the returned id is
    /// fresh — no live session carries it — and is live from now on;
    /// every other live session stays live.
    pub fn register(&mut self) -> (id: u64)
        requires
            old(self).wf(),
            old(self).bound() < u64::MAX,
        ensures
            final(self).wf(),
            !old(self).tracks(id),
            final(self).ids() == old(self).ids().push(id),
            final(self).tracks(id),
    {
        let id = self.next_id;
        self.next_id = self.next_id + 1;
        self.active.push(id);
        proof {
            assert(self.ids() == old(self).ids().push(id));
            assert(self.ids()[self.ids().len() - 1] == id);
            assert forall|i: int, j: int|
                0 <= i < j < self.ids().len() implies self.ids()[i] != self.ids()[j] by {
                if j < self.ids().len() - 1 {
                    assert(self.ids()[i] == old(self).ids()[i]);
                    assert(self.ids()[j] == old(self).ids()[j]);
                } else {
                    assert(self.ids()[i] == old(self).ids()[i]);
                }
            }
        }
        id
    }

    /// Removes a terminated session from the live set — only then may
    /// the coordinator count it drained.  Exactly the one id leaves;
    /// every other live session stays live.
    pub fn deregister(&mut self, id: u64) -> (r: bool)
        requires
            old(self).wf(),
        ensures
            final(self).wf(),
            r == old(self).tracks(id),
            !final(self).tracks(id),
            final(self).ids().len() == old(self).ids().len() - (if old(self).tracks(id) {
                1int
            } else {
                0
            }),
            forall|x: u64| x != id ==> (final(self).tracks(x) <==> old(self).tracks(x)),
    {
        let n = self.active.len();
        let mut i: usize = 0;
        while i < n
            invariant
                i <= n,
                n == self.ids().len(),
                *self == *old(self),
                old(self).wf(),
                forall|k: int| 0 <= k < i ==> self.ids()[k] != id,
            decreases n - i,
        {
            if self.active[i] == id {
                proof {
                    assert(old(self).tracks(id));
                }
                self.active.remove(i);
                proof {
                    let pre = old(self).ids();
                    let post = self.ids();
                    assert(post == pre.remove(i as int));
                    assert forall|k: int, l: int|
                        0 <= k < l < post.len() implies post[k] != post[l] by {
                        if k < i && l < i {
                        } else if k < i {
                            assert(post[l] == pre[l + 1]);
                        } else {
                            assert(post[k] == pre[k + 1]);
                            assert(post[l] == pre[l + 1]);
                        }
                    }
                    assert forall|k: int| 0 <= k < post.len() implies post[k] < self.bound() by {
                        if k < i {
                        } else {
                            assert(post[k] == pre[k + 1]);
                        }
                    }
                    assert forall|k: int| 0 <= k < post.len() implies post[k] != id by {
                        if k < i {
                            assert(post[k] == pre[k]);
                        } else {
                            assert(post[k] == pre[k + 1]);
                            if pre[k + 1] == id {
                                old(self).lemma_unique_id(i as int, k + 1);
                            }
                        }
                    }
                    assert(!self.tracks(id));
                    assert forall|x: u64| x != id implies (self.tracks(x) <==> old(self).tracks(
                        x,
                    )) by {
                        if old(self).tracks(x) {
                            let w = choose|w: int|
                                0 <= w < pre.len() && pre[w] == x;
                            if w < i {
                                assert(post[w] == x);
                            } else {
                                assert(pre[w] == x && w != i);
                                assert(post[w - 1] == pre[w]);
                            }
                        }
                        if self.tracks(x) {
                            let w = choose|w: int|
                                0 <= w < post.len() && post[w] == x;
                            if w < i {
                                assert(pre[w] == x);
                            } else {
                                assert(pre[w + 1] == x);
                            }
                        }
                    }
                }
                return true;
            }
            i += 1;
        }
        proof {
            assert(!old(self).tracks(id));
        }
        false
    }

    /// A helper law: under [`SessionTable::wf`] equal live ids share
    /// one position.
    pub proof fn lemma_unique_id(self, i: int, j: int)
        requires
            self.wf(),
            0 <= i < self.ids().len(),
            0 <= j < self.ids().len(),
            self.ids()[i] == self.ids()[j],
        ensures
            i == j,
    {
    }

    /// True when every tracked session has terminated and been removed:
    /// the drain the shutdown coordinator waits for.
    pub fn is_drained(&self) -> (r: bool)
        ensures
            r == (self.ids().len() == 0),
    {
        self.active.len() == 0
    }

    /// How many sessions are still live.
    pub fn live(&self) -> (r: usize)
        ensures
            r == self.ids().len(),
    {
        self.active.len()
    }
}

} // verus!
