//! Trusted interface to the external durable log engine.
//!
//! The broker persists records through `disk_mpmc`: a topic is a chain
//! of memory-mapped data pages managed by a `DataPagesManager`; a
//! `Sender` appends records at the tail; a `Receiver` consumes them,
//! either through a shared per-group cursor (`Grouped`) or through a
//! private cursor (`Anonymous`).
//!
//! The engine is modelled per handle: each handle value carries a view
//! of the records it can reach (`mgr_log`, `sender_log`, ...), and the
//! contracts state only what one handle's operations do to that
//! handle's own view.  A sender's log is such a projection: with
//! several producers on one topic the real log interleaves their
//! records, and each sender's view holds its creation snapshot plus its
//! own appends.  A consumer group's cursor is a counter in the shared
//! pages, advanced by every member: it has no per-handle position, so
//! the grouped contracts promise nothing about which record a pop
//! carries — per-group order and at-most-once delivery are the
//! engine's own guarantee, through that atomic counter.  Only the
//! anonymous receiver owns its cursor outright, and only there do the
//! contracts pin positions and records.

use vstd::prelude::*;

use disk_mpmc::manager::DataPagesManager;
use disk_mpmc::{Anonymous, GenReceiver, Grouped, Receiver, Sender};
use disk_ringbuffer::ringbuf::RingbufError;

verus! {

#[verifier::external_type_specification]
#[verifier::external_body]
pub struct ExIoError(std::io::Error);

#[verifier::external_type_specification]
#[verifier::external_body]
pub struct ExRingbufError(RingbufError);

#[verifier::external_type_specification]
#[verifier::external_body]
pub struct ExDataPagesManager(DataPagesManager);

#[verifier::external_type_specification]
#[verifier::external_body]
pub struct ExSender(Sender);

#[verifier::external_type_specification]
#[verifier::external_body]
pub struct ExGrouped(Grouped);

#[verifier::external_type_specification]
#[verifier::external_body]
pub struct ExAnonymous(Anonymous);

#[verifier::external_type_specification]
#[verifier::external_body]
#[verifier::reject_recursive_types(T)]
pub struct ExReceiver<T>(Receiver<T>);

/// Records a manager's topic holds, in append order.
pub uninterp spec fn mgr_log(m: DataPagesManager) -> Seq<Seq<u8>>;

/// Records of the topic a sender appends to, in append order.
pub uninterp spec fn sender_log(s: Sender) -> Seq<Seq<u8>>;

/// Records of the topic a grouped receiver consumes, in append order.
pub uninterp spec fn grouped_log(r: Receiver<Grouped>) -> Seq<Seq<u8>>;

/// The group slot a grouped receiver was created with.
pub uninterp spec fn grouped_group(r: Receiver<Grouped>) -> int;

/// Records of the topic an anonymous receiver consumes, in append order.
pub uninterp spec fn anon_log(r: Receiver<Anonymous>) -> Seq<Seq<u8>>;

/// The private cursor of an anonymous receiver.
pub uninterp spec fn anon_pos(r: Receiver<Anonymous>) -> int;

/// Group slots the engine's pages hold; a grouped receiver beyond this
/// range must never pop.
pub const MAX_RECEIVER_GROUPS: usize = 64;

/// Longest record a session may append: one data page's byte capacity
/// (the message-slot count times the built-in expected message size,
/// as the engine is built here), less the record's length header.  A
/// longer record fits no page, and the engine would retry forever.
pub const MAX_RECORD_BYTES: usize = 65535 * 2052 - 5;

/// Relies on `disk_ringbuffer::ringbuf::new`: before opening a ring it
/// creates the given directory and any missing parents, which is how
/// the broker lays out `<root>/<topic>` on first reference; the ring
/// it opens there is not used further.
#[verifier::external_body]
pub(crate) fn create_topic_dir(root: &str, topic: &[u8]) -> (r: Result<(), RingbufError>) {
    let name = String::from_utf8_lossy(topic);
    disk_ringbuffer::ringbuf::new(std::path::Path::new(root).join(name.as_ref())).map(|_| ())
}

/// Relies on `DataPagesManager::new`: opens or creates the topic's
/// first data page file under `<root>/<topic>`; the directory itself
/// must already exist.  Nothing is assumed about the records an opened
/// topic already holds.
#[verifier::external_body]
pub(crate) fn manager_new(root: &str, topic: &[u8]) -> (r: Result<DataPagesManager, std::io::Error>)
{
    let name = String::from_utf8_lossy(topic);
    DataPagesManager::new(std::path::Path::new(root).join(name.as_ref()))
}

/// Relies on `DataPagesManager`'s derived `Clone`: it clones a path and
/// three shared-state handles onto the very same pages, so the clone is
/// the same manager.
#[verifier::external_body]
pub(crate) fn manager_clone(m: &DataPagesManager) -> (r: DataPagesManager)
    ensures
        r == *m,
{
    m.clone()
}

/// Relies on `Sender::new`: a fresh sender appends to the manager's
/// topic.
#[verifier::external_body]
pub(crate) fn sender_new(m: &DataPagesManager) -> (r: Result<Sender, std::io::Error>)
    ensures
        match r {
            Ok(s) => sender_log(s) == mgr_log(*m),
            Err(_) => true,
        },
{
    Sender::new(m.clone())
}

/// Relies on `Sender::push`: it appends the record at the topic's tail,
/// moving to a fresh page when the current one is full, and fails only
/// when page creation fails, appending nothing then.  A record longer
/// than a page's byte capacity would never fit one; the length bound
/// keeps the call from retrying forever.
#[verifier::external_body]
pub(crate) fn sender_push(s: &mut Sender, rec: &[u8]) -> (r: Result<(), std::io::Error>)
    requires
        rec@.len() <= MAX_RECORD_BYTES,
    ensures
        match r {
            Ok(()) => sender_log(*final(s)) == sender_log(*old(s)).push(rec@),
            Err(_) => sender_log(*final(s)) == sender_log(*old(s)),
        },
{
    s.push(rec)
}

/// Relies on `Receiver::<Grouped>::new`: the receiver reads the
/// manager's topic through its group's persisted cursor, which lives
/// in the shared pages and is advanced by every member of the group.
/// The group slot must be within the page's slot range, else a later
/// pop would index out of bounds.
#[verifier::external_body]
pub(crate) fn receiver_new_grouped(group: u16, m: &DataPagesManager) -> (r: Result<
    Receiver<Grouped>,
    std::io::Error,
>)
    requires
        group < MAX_RECEIVER_GROUPS,
    ensures
        match r {
            Ok(rx) => grouped_log(rx) == mgr_log(*m) && grouped_group(rx) == group,
            Err(_) => true,
        },
{
    Receiver::new(group as usize, m.clone())
}

/// Relies on `Receiver::<Grouped>::pop`: it takes one record at the
/// group's shared cursor (a fetch-and-add on the pages' per-group
/// counter) and blocks while none is there.  Which record a call
/// carries depends on every group member's interleaving, so nothing is
/// promised of it: the handle keeps its group slot and its view of the
/// topic, and no more.  Per-group append order and at-most-once
/// delivery come from the engine's atomic counter itself.
#[verifier::external_body]
pub(crate) fn receiver_pop_grouped(rx: &mut Receiver<Grouped>) -> (r: Result<
    Vec<u8>,
    std::io::Error,
>)
    requires
        grouped_group(*old(rx)) < MAX_RECEIVER_GROUPS,
    ensures
        grouped_group(*final(rx)) == grouped_group(*old(rx)),
        grouped_log(*final(rx)) == grouped_log(*old(rx)),
{
    rx.pop().map(|s| s.to_vec())
}

/// Relies on `Receiver::<Anonymous>::new_anon`: the receiver reads the
/// manager's topic with a private cursor that starts at the beginning
/// of the retained log.
#[verifier::external_body]
pub(crate) fn receiver_new_anon(m: &DataPagesManager) -> (r: Result<
    Receiver<Anonymous>,
    std::io::Error,
>)
    ensures
        match r {
            Ok(rx) => anon_log(rx) == mgr_log(*m) && anon_pos(rx) == 0,
            Err(_) => true,
        },
{
    Receiver::new_anon(m.clone())
}

/// Relies on `Receiver::<Anonymous>::pop`: it takes the record at the
/// receiver's own cursor — a plain field of the handle — and advances
/// that cursor by one; with the cursor at the end it blocks until a
/// record arrives, of which nothing is stated.  The cursor is the
/// receiver's alone: popping here moves no other receiver.  The
/// handle's view of the topic is kept on every path; on failure the
/// cursor fell back at most to the start of its current page, never
/// forward.
#[verifier::external_body]
pub(crate) fn receiver_pop_anon(rx: &mut Receiver<Anonymous>) -> (r: Result<
    Vec<u8>,
    std::io::Error,
>)
    ensures
        anon_log(*final(rx)) == anon_log(*old(rx)),
        match r {
            Ok(rec) => anon_pos(*old(rx)) < anon_log(*old(rx)).len() ==> {
                &&& rec@ == anon_log(*old(rx))[anon_pos(*old(rx))]
                &&& anon_pos(*final(rx)) == anon_pos(*old(rx)) + 1
            },
            Err(_) => anon_pos(*final(rx)) <= anon_pos(*old(rx)),
        },
{
    rx.pop().map(|s| s.to_vec())
}

} // verus!
