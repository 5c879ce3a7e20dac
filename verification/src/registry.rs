//! The topic registry: topic name to log-engine handle, created lazily.
//!
//! The registry is the broker's only shared mutable structure.  All
//! mutation goes through [`TopicRegistry::resolve`], which is
//! idempotent: a topic is created at most once, and every later
//! resolution returns the one canonical handle.

use vstd::prelude::*;

use crate::log_engine::{create_topic_dir, manager_clone, manager_new};
use crate::protocol::{bytes_eq, copy_range};
use disk_mpmc::manager::DataPagesManager;

verus! {

/// Why a topic could not be resolved; the connection is dropped and the
/// registry is left as it was, so a later request may retry.
#[derive(Debug, Clone, Copy, PartialEq, Eq)]
pub enum TopicResolutionError {
    /// The topic name is not a filesystem-safe identifier.
    InvalidName,
    /// The engine could not create or open the topic's storage.
    IoError,
}

/// True of bytes allowed in a topic name: printable ASCII without the
/// path separator.
pub open spec fn topic_byte_ok(b: u8) -> bool {
    0x21 <= b && b <= 0x7e && b != 0x2f
}

/// A topic name is usable as a directory name: short, printable ASCII
/// without `/`, and not a relative path component.
pub open spec fn valid_topic(t: Seq<u8>) -> bool {
    &&& 0 < t.len() <= 255
    &&& forall|i: int| 0 <= i < t.len() ==> topic_byte_ok(t[i])
    &&& t != seq![0x2eu8]
    &&& t != seq![0x2eu8, 0x2eu8]
}

/// Whether `t` is a valid topic name, as [`valid_topic`] states.
pub fn is_valid_topic(t: &[u8]) -> (r: bool)
    ensures
        r == valid_topic(t@),
{
    let n = t.len();
    if n == 0 || n > 255 {
        return false;
    }
    if n == 1 && t[0] == 0x2e {
        proof {
            assert(t@ =~= seq![0x2eu8]);
        }
        return false;
    }
    if n == 2 && t[0] == 0x2e && t[1] == 0x2e {
        proof {
            assert(t@ =~= seq![0x2eu8, 0x2eu8]);
        }
        return false;
    }
    let mut i: usize = 0;
    while i < n
        invariant
            i <= n,
            n == t@.len(),
            forall|j: int| 0 <= j < i ==> topic_byte_ok(t@[j]),
        decreases n - i,
    {
        let b = t[i];
        if !(0x21 <= b && b <= 0x7e && b != 0x2f) {
            return false;
        }
        i += 1;
    }
    proof {
        if t@ == seq![0x2eu8] {
            assert(t@.len() == 1);
        }
        if t@ == seq![0x2eu8, 0x2eu8] {
            assert(t@.len() == 2);
        }
    }
    true
}

struct TopicEntry {
    name: Vec<u8>,
    mgr: DataPagesManager,
}

/// The broker's mapping from topic names to canonical log handles.
pub struct TopicRegistry {
    root: String,
    entries: Vec<TopicEntry>,
}

impl TopicRegistry {
    /// The names registered, in registration order.
    pub closed spec fn entry_names(self) -> Seq<Seq<u8>> {
        Seq::new(self.entries@.len(), |i: int| self.entries@[i].name@)
    }

    /// The canonical handles, in registration order.
    pub closed spec fn entry_mgrs(self) -> Seq<DataPagesManager> {
        Seq::new(self.entries@.len(), |i: int| self.entries@[i].mgr)
    }

    /// True when the registry holds a handle for `t`.
    pub open spec fn contains_topic(self, t: Seq<u8>) -> bool {
        exists|i: int| 0 <= i < self.entry_names().len() && self.entry_names()[i] == t
    }

    /// The registered position of topic `t`.
    pub open spec fn index_of(self, t: Seq<u8>) -> int {
        choose|i: int| 0 <= i < self.entry_names().len() && self.entry_names()[i] == t
    }

    /// The canonical handle of topic `t`.
    pub open spec fn topic_mgr(self, t: Seq<u8>) -> DataPagesManager {
        self.entry_mgrs()[self.index_of(t)]
    }

    /// The registry never holds two entries for one topic name, and
    /// every registered name is a valid topic.
    pub open spec fn wf(self) -> bool {
        &&& forall|i: int, j: int|
            0 <= i < j < self.entry_names().len() ==> self.entry_names()[i]
                != self.entry_names()[j]
        &&& forall|i: int|
            0 <= i < self.entry_names().len() ==> valid_topic(#[trigger] self.entry_names()[i])
    }

    /// Law: under [`TopicRegistry::wf`] the handle a topic resolves to
    /// is unique — any two registered positions of one name coincide.
    pub proof fn lemma_unique_entry(self, i: int, j: int)
        requires
            self.wf(),
            0 <= i < self.entry_names().len(),
            0 <= j < self.entry_names().len(),
            self.entry_names()[i] == self.entry_names()[j],
        ensures
            i == j,
    {
    }

    /// An empty registry over the data directory `root`.
    pub fn new(root: String) -> (r: TopicRegistry)
        ensures
            r.wf(),
            r.entry_names() =~= Seq::<Seq<u8>>::empty(),
    {
        TopicRegistry { root, entries: Vec::new() }
    }

    /// Resolves `topic` to its canonical log handle, creating the topic
    /// on first reference: idempotent and duplicate-free.  On failure
    /// the registry is unchanged, so a later request may retry.
    #[verifier::rlimit(50)]
    pub fn resolve(&mut self, topic: &[u8]) -> (r: Result<DataPagesManager, TopicResolutionError>)
        requires
            old(self).wf(),
        ensures
            final(self).wf(),
            r is Ok ==> valid_topic(topic@) && final(self).contains_topic(topic@),
            r matches Ok(m) ==> m == final(self).topic_mgr(topic@),
            r is Ok && old(self).contains_topic(topic@) ==> *final(self) == *old(self),
            r matches Ok(m) ==> (old(self).contains_topic(topic@) ==> m == old(
                self,
            ).topic_mgr(topic@)),
            r is Ok && !old(self).contains_topic(topic@) ==> final(self).entry_names() == old(
                self,
            ).entry_names().push(topic@),
            r is Ok ==> forall|t2: Seq<u8>|
                #[trigger] old(self).contains_topic(t2) ==> final(self).contains_topic(t2)
                    && final(self).topic_mgr(t2) == old(self).topic_mgr(t2),
            r == Err::<DataPagesManager, TopicResolutionError>(TopicResolutionError::InvalidName)
                ==> !valid_topic(topic@) && *final(self) == *old(self),
            r == Err::<DataPagesManager, TopicResolutionError>(TopicResolutionError::IoError)
                ==> valid_topic(topic@) && !old(self).contains_topic(topic@) && *final(self)
                == *old(self),
    {
        if !is_valid_topic(topic) {
            return Err(TopicResolutionError::InvalidName);
        }
        let n = self.entries.len();
        let mut i: usize = 0;
        while i < n
            invariant
                i <= n,
                n == self.entries@.len(),
                valid_topic(topic@),
                old(self).wf(),
                *self == *old(self),
                forall|k: int| 0 <= k < i ==> self.entry_names()[k] != topic@,
            decreases n - i,
        {
            if bytes_eq(self.entries[i].name.as_slice(), topic) {
                let m = manager_clone(&self.entries[i].mgr);
                proof {
                    assert(self.entry_names()[i as int] == topic@);
                    assert(self.contains_topic(topic@));
                    let k = self.index_of(topic@);
                    assert(0 <= k < self.entry_names().len() && self.entry_names()[k] == topic@);
                    self.lemma_unique_entry(k, i as int);
                    assert(m == self.entry_mgrs()[i as int]);
                    assert forall|t2: Seq<u8>| #[trigger] old(self).contains_topic(t2) implies self
                        .contains_topic(t2) && self.topic_mgr(t2) == old(self).topic_mgr(t2) by {}
                }
                return Ok(m);
            }
            i += 1;
        }
        if create_topic_dir(self.root.as_str(), topic).is_err() {
            proof {
                assert forall|k: int|
                    !(0 <= k < self.entry_names().len() && self.entry_names()[k] == topic@) by {}
            }
            return Err(TopicResolutionError::IoError);
        }
        let created = match manager_new(self.root.as_str(), topic) {
            Ok(m) => m,
            Err(_) => {
                proof {
                    assert forall|k: int|
                        !(0 <= k < self.entry_names().len() && self.entry_names()[k]
                            == topic@) by {}
                }
                return Err(TopicResolutionError::IoError);
            },
        };
        proof {
            assert(!old(self).contains_topic(topic@));
        }
        let name = copy_range(topic, 0, topic.len());
        proof {
            assert(name@ =~= topic@);
        }
        let handle = manager_clone(&created);
        self.entries.push(TopicEntry { name, mgr: created });
        proof {
            let pre = *old(self);
            let post = *self;
            assert(post.entry_names() =~= pre.entry_names().push(topic@));
            assert(post.entry_mgrs() =~= pre.entry_mgrs().push(handle));
            let newlen = pre.entry_names().len() as int;
            assert(post.entry_names()[newlen] == topic@);
            assert(post.contains_topic(topic@));
            assert forall|i2: int, j2: int|
                0 <= i2 < j2 < post.entry_names().len() implies post.entry_names()[i2]
                != post.entry_names()[j2] by {
                if j2 < newlen {
                } else {
                    assert(post.entry_names()[i2] == pre.entry_names()[i2]);
                    if pre.entry_names()[i2] == topic@ {
                        assert(pre.contains_topic(topic@));
                    }
                }
            }
            assert forall|i2: int|
                0 <= i2 < post.entry_names().len() implies valid_topic(
                #[trigger] post.entry_names()[i2],
            ) by {
                if i2 < newlen {
                    assert(post.entry_names()[i2] == pre.entry_names()[i2]);
                }
            }
            let k = post.index_of(topic@);
            assert(0 <= k < post.entry_names().len() && post.entry_names()[k] == topic@);
            post.lemma_unique_entry(k, newlen);
            assert(post.topic_mgr(topic@) == handle);
            assert forall|t2: Seq<u8>| #[trigger] pre.contains_topic(t2) implies post
                .contains_topic(t2) && post.topic_mgr(t2) == pre.topic_mgr(t2) by {
                let w = pre.index_of(t2);
                assert(0 <= w < pre.entry_names().len() && pre.entry_names()[w] == t2);
                assert(post.entry_names()[w] == t2);
                assert(post.contains_topic(t2));
                let w2 = post.index_of(t2);
                assert(0 <= w2 < post.entry_names().len() && post.entry_names()[w2] == t2);
                if w2 == newlen {
                    assert(pre.contains_topic(topic@));
                }
                post.lemma_unique_entry(w2, w);
                pre.lemma_unique_entry(pre.index_of(t2), w);
            }
        }
        Ok(handle)
    }
}

/// The data model ties every session to a validated TopicName; the
/// handshake parser hands the topic field through as sent, and this is
/// where it becomes (or fails to become) that name.
impl crate::protocol::Handshake {
    /// The validated, filesystem-safe TopicName derived from this
    /// handshake's topic field, exactly as [`valid_topic`] states;
    /// [`TopicRegistry::resolve`] applies the same test before any
    /// disk effect.
    pub fn topic_name(&self) -> (r: Result<&Vec<u8>, TopicResolutionError>)
        ensures
            r matches Ok(t) ==> valid_topic(self.topic@) && t@ == self.topic@,
            r matches Err(e) ==> !valid_topic(self.topic@) && e
                == TopicResolutionError::InvalidName,
    {
        if is_valid_topic(self.topic.as_slice()) {
            Ok(&self.topic)
        } else {
            Err(TopicResolutionError::InvalidName)
        }
    }
}

} // verus!
