//! The shared store: one knowledge base behind a reader-writer lock, handed
//! out as snapshots and replaced only as a whole.

use crate::knowledge::{all_wf, DiagnosisView, KnowledgeBase};
use std::sync::Arc;
use vstd::prelude::*;
use vstd::rwlock::RwLock;

verus! {

/// What the store admits: a knowledge base whose every record names its
/// condition and recommends an action.
pub open spec fn admitted(kb: Seq<DiagnosisView>) -> bool {
    all_wf(kb)
}

/// Holds the current knowledge base for any number of readers. A reader
/// takes a snapshot and works on it without holding the store; a replacement
/// swaps the whole knowledge base, so a snapshot is the knowledge base as it
/// was given to [`SharedStore::new`] or to one [`SharedStore::replace`], never
/// a mix of two.
pub struct SharedStore {
    current: RwLock<Arc<KnowledgeBase>, spec_fn(Arc<KnowledgeBase>) -> bool>,
}

impl SharedStore {
    #[verifier::type_invariant]
    spec fn inv(self) -> bool {
        forall|kb: Arc<KnowledgeBase>| #[trigger] self.current.inv(kb) <==> admitted(kb@)
    }

    /// A store that holds `kb`. What a store holds lies behind its lock and
    /// is no function of the store's value, so no clause speaks of it; what
    /// holds of every snapshot is stated by [`SharedStore::read`].
    pub fn new(kb: KnowledgeBase) -> (store: SharedStore) {
        proof {
            use_type_invariant(&kb);
        }
        let ghost admits = |held: Arc<KnowledgeBase>| admitted(held@);
        SharedStore { current: RwLock::new(Arc::new(kb), Ghost(admits)) }
    }

    /// A snapshot of the knowledge base that the store holds now. The lock is
    /// held only while the snapshot is taken, not while it is used, and a
    /// later replacement leaves the snapshot as it is.
    pub fn read(&self) -> (snapshot: Arc<KnowledgeBase>)
        ensures
            admitted(snapshot@),
    {
        proof {
            use_type_invariant(self);
        }
        let handle = self.current.acquire_read();
        let snapshot = handle.borrow().clone();
        handle.release_read();
        snapshot
    }

    /// Replaces the knowledge base that the store holds by `kb`, as a whole.
    /// The lock is held only for the swap. Snapshots taken before keep the
    /// knowledge base that they were taken of.
    pub fn replace(&self, kb: KnowledgeBase) {
        proof {
            use_type_invariant(self);
            use_type_invariant(&kb);
        }
        let fresh = Arc::new(kb);
        let (_, handle) = self.current.acquire_write();
        handle.release_write(fresh);
    }
}

} // verus!
