use vstd::prelude::*;

verus! {

/// Classification of a merkle root against the recognized window.
#[derive(Clone, Copy, Debug, PartialEq, Eq, Structural)]
pub enum RootStatus {
    /// Recognized and well inside the window.
    Fresh,
    /// Recognized but near expiry; accepted only if policy allows.
    NearExpiry,
    /// Not in the window at all.
    Unknown,
}

/// Bounded sliding history of merkle roots recently published by the
/// identity registry. Oldest roots stand first; the `stale_count` oldest
/// are near expiry. A proof is valid only against a member of this window,
/// which tolerates a brief staleness after a root rotation instead of
/// pinning the single latest root.
#[derive(Clone, Debug)]
pub struct RootSet {
    /// Recognized roots, oldest first.
    pub roots: Vec<u64>,
    /// Upper bound on the retained history; at least 1.
    pub capacity: usize,
    /// The first `stale_count` roots are near expiry.
    pub stale_count: usize,
}

impl RootSet {
    /// Structural invariant: bounded history, and the near-expiry prefix
    /// lies inside it.
    pub open spec fn wf(self) -> bool {
        &&& self.capacity >= 1
        &&& self.roots@.len() <= self.capacity
        &&& self.stale_count <= self.roots@.len()
    }

    /// The root is somewhere in the window.
    pub open spec fn recognized(self, root: u64) -> bool {
        self.roots@.contains(root)
    }

    /// The root occurs past the near-expiry prefix.
    pub open spec fn fresh(self, root: u64) -> bool {
        exists|i: int| self.stale_count <= i < self.roots@.len() && self.roots@[i] == root
    }

    /// How `status` classifies a root.
    pub open spec fn spec_status(self, root: u64) -> RootStatus {
        if self.fresh(root) {
            RootStatus::Fresh
        } else if self.recognized(root) {
            RootStatus::NearExpiry
        } else {
            RootStatus::Unknown
        }
    }

    /// An empty window with the given bound on retained roots.
    pub fn new(capacity: usize) -> (r: RootSet)
        requires
            capacity >= 1,
        ensures
            r.wf(),
            r.roots@.len() == 0,
            r.capacity == capacity,
            r.stale_count == 0,
    {
        RootSet { roots: Vec::new(), capacity, stale_count: 0 }
    }

    /// Records a newly published root, dropping the oldest one when the
    /// window is full.
    pub fn push_root(&mut self, root: u64)
        requires
            old(self).wf(),
        ensures
            final(self).wf(),
            final(self).capacity == old(self).capacity,
            old(self).roots@.len() < old(self).capacity ==> {
                &&& final(self).roots@ == old(self).roots@.push(root)
                &&& final(self).stale_count == old(self).stale_count
            },
            old(self).roots@.len() == old(self).capacity ==> {
                &&& final(self).roots@ == old(self).roots@.remove(0).push(root)
                &&& final(self).stale_count == if old(self).stale_count > 0 {
                    (old(self).stale_count - 1) as usize
                } else {
                    0usize
                }
            },
    {
        if self.roots.len() == self.capacity {
            self.roots.remove(0);
            if self.stale_count > 0 {
                self.stale_count = self.stale_count - 1;
            }
        }
        self.roots.push(root);
    }

    /// Marks the oldest `count` roots as near expiry (clamped to the
    /// window length); driven by the chain-state provider's expiry policy.
    pub fn mark_stale(&mut self, count: usize)
        requires
            old(self).wf(),
        ensures
            final(self).wf(),
            final(self).roots@ == old(self).roots@,
            final(self).capacity == old(self).capacity,
            final(self).stale_count == if count <= old(self).roots@.len() {
                count
            } else {
                old(self).roots@.len() as usize
            },
    {
        if count <= self.roots.len() {
            self.stale_count = count;
        } else {
            self.stale_count = self.roots.len();
        }
    }

    /// Classifies a root against the window.
    pub fn status(&self, root: u64) -> (r: RootStatus)
        requires
            self.wf(),
        ensures
            r == self.spec_status(root),
    {
        let mut i: usize = 0;
        let mut found_fresh = false;
        let mut found_any = false;
        while i < self.roots.len()
            invariant
                self.wf(),
                i <= self.roots@.len(),
                found_fresh == exists|j: int|
                    self.stale_count <= j < i && self.roots@[j] == root,
                found_any == exists|j: int| 0 <= j < i && self.roots@[j] == root,
            decreases self.roots@.len() - i,
        {
            if self.roots[i] == root {
                found_any = true;
                if i >= self.stale_count {
                    found_fresh = true;
                }
            }
            i += 1;
        }
        if found_fresh {
            RootStatus::Fresh
        } else if found_any {
            RootStatus::NearExpiry
        } else {
            proof {
                assert(!self.recognized(root));
            }
            RootStatus::Unknown
        }
    }
}

} // verus!
