//! Hand-off of spectra from one producer to any number of readers.
//!
//! `DoubleBuffer` holds two spectrum slots, the index of the one readers see
//! and a version counter; a publish fills the other slot and then flips the
//! index, so the snapshot readers see is never written to. `SharedPipe` puts
//! a `DoubleBuffer` behind a lock shared between threads.
use vstd::prelude::*;
use vstd::rwlock::{RwLock, RwLockPredicate};
use std::sync::Arc;

verus! {

/// Number of bands a `SharedPipe` carries.
pub const BANDS: usize = 64;

/// The version that follows `v`; the counter wraps like a machine word.
pub open spec fn next_version(v: u64) -> u64 {
    if v == u64::MAX { 0 } else { (v + 1) as u64 }
}

/// The version after `n` publishes starting from version `v`.
pub open spec fn version_after(v: u64, n: nat) -> u64
    decreases n,
{
    if n == 0 { v } else { next_version(version_after(v, (n - 1) as nat)) }
}

/// While the counter does not wrap, `n` publishes raise the version by
/// exactly `n`, so the versions a reader observes never decrease and each
/// publish adds exactly one.
pub proof fn lemma_version_counts_publishes(v: u64, m: nat, n: nat)
    requires
        m <= n,
        v + n <= u64::MAX,
    ensures
        version_after(v, n) == v + n,
        version_after(v, m) <= version_after(v, n),
        m < n ==> version_after(v, m) < version_after(v, n),
    decreases n,
{
    if n > 0 {
        if m == n {
            lemma_version_counts_publishes(v, (n - 1) as nat, (n - 1) as nat);
        } else {
            lemma_version_counts_publishes(v, m, (n - 1) as nat);
        }
    }
}

/// Two spectrum slots, the index of the current one and a version counter.
pub struct DoubleBuffer {
    slots: Vec<Vec<u32>>,
    current: usize,
    version: u64,
}

impl DoubleBuffer {
    pub closed spec fn wf(&self) -> bool {
        &&& self.slots@.len() == 2
        &&& self.current < 2
        &&& self.slots@[0]@.len() == self.slots@[1]@.len()
    }

    /// The spectrum readers see.
    pub closed spec fn latest_spec(&self) -> Seq<u32> {
        self.slots@[self.current as int]@
    }

    /// The spectrum that was current before the last publish.
    pub closed spec fn previous_spec(&self) -> Seq<u32> {
        self.slots@[1 - self.current as int]@
    }

    pub closed spec fn version_spec(&self) -> u64 {
        self.version
    }

    /// Number of bands in each slot.
    pub closed spec fn band_count(&self) -> nat {
        self.slots@[0]@.len()
    }

    /// Two zeroed slots of `band_count` bands, at version 0.
    pub fn new(band_count: usize) -> (s: Self)
        ensures
            s.wf(),
            s.band_count() == band_count,
            s.latest_spec() == Seq::new(band_count as nat, |i: int| 0u32),
            s.previous_spec() == Seq::new(band_count as nat, |i: int| 0u32),
            s.version_spec() == 0,
    {
        let a: Vec<u32> = vec![0u32; band_count];
        let b: Vec<u32> = vec![0u32; band_count];
        assert(a@ =~= Seq::new(band_count as nat, |i: int| 0u32));
        assert(b@ =~= Seq::new(band_count as nat, |i: int| 0u32));
        let mut slots: Vec<Vec<u32>> = Vec::new();
        slots.push(a);
        slots.push(b);
        DoubleBuffer { slots, current: 0, version: 0 }
    }

    /// Writes `spectrum` into the slot readers do not see, makes it current,
    /// and advances the version.
    pub fn publish(&mut self, spectrum: &Vec<u32>)
        requires
            old(self).wf(),
            spectrum@.len() == old(self).band_count(),
        ensures
            final(self).wf(),
            final(self).band_count() == old(self).band_count(),
            final(self).latest_spec() == spectrum@,
            final(self).previous_spec() == old(self).latest_spec(),
            final(self).version_spec() == next_version(old(self).version_spec()),
    {
        let write_idx: usize = (self.current + 1) % 2;
        let mut copy: Vec<u32> = Vec::new();
        let mut i: usize = 0;
        while i < spectrum.len()
            invariant
                i <= spectrum@.len(),
                copy@ == spectrum@.subrange(0, i as int),
            decreases spectrum@.len() - i,
        {
            copy.push(spectrum[i]);
            i = i + 1;
            assert(copy@ =~= spectrum@.subrange(0, i as int));
        }
        assert(copy@ =~= spectrum@);
        self.slots.set(write_idx, copy);
        self.current = write_idx;
        self.version = if self.version == u64::MAX { 0 } else { self.version + 1 };
    }

    /// A copy of the current spectrum.
    pub fn latest(&self) -> (r: Vec<u32>)
        requires
            self.wf(),
        ensures
            r@ == self.latest_spec(),
    {
        let slot = &self.slots[self.current];
        let mut out: Vec<u32> = Vec::new();
        let mut i: usize = 0;
        while i < slot.len()
            invariant
                slot@ == self.latest_spec(),
                i <= slot@.len(),
                out@ == slot@.subrange(0, i as int),
            decreases slot@.len() - i,
        {
            out.push(slot[i]);
            i = i + 1;
            assert(out@ =~= slot@.subrange(0, i as int));
        }
        assert(out@ =~= slot@);
        out
    }

    /// The number of publishes so far (wrapping).
    pub fn version(&self) -> (r: u64)
        ensures
            r == self.version_spec(),
    {
        self.version
    }

    /// The current spectrum together with the version it was published at.
    pub fn read_with_tracking(&self) -> (r: (Vec<u32>, u64))
        requires
            self.wf(),
        ensures
            r.0@ == self.latest_spec(),
            r.1 == self.version_spec(),
    {
        (self.latest(), self.version)
    }

    /// Whether a version newer than the cursor's has been published.
    pub fn has_new_data(&self, cursor: &ReadCursor) -> (r: bool)
        ensures
            r == (self.version_spec() > cursor.seen()),
    {
        self.version > cursor.last_seen
    }

    /// The current spectrum if it is newer than the cursor's version, moving
    /// the cursor up to it; `None`, with the cursor unchanged, otherwise.
    pub fn read_if_new(&self, cursor: &mut ReadCursor) -> (r: Option<Vec<u32>>)
        requires
            self.wf(),
        ensures
            self.version_spec() > old(cursor).seen() ==> {
                &&& r.is_some()
                &&& r.unwrap()@ == self.latest_spec()
                &&& final(cursor).seen() == self.version_spec()
            },
            self.version_spec() <= old(cursor).seen() ==> r.is_none() && final(cursor).seen() == old(cursor).seen(),
    {
        if self.version > cursor.last_seen {
            cursor.last_seen = self.version;
            Some(self.latest())
        } else {
            None
        }
    }
}

/// The last version a reader has taken, owned by that reader.
pub struct ReadCursor {
    last_seen: u64,
}

impl ReadCursor {
    pub closed spec fn seen(&self) -> u64 {
        self.last_seen
    }

    /// A cursor that has seen nothing.
    pub fn new() -> (c: Self)
        ensures
            c.seen() == 0,
    {
        ReadCursor { last_seen: 0 }
    }

    /// The last version this cursor has taken.
    pub fn last_seen(&self) -> (r: u64)
        ensures
            r == self.seen(),
    {
        self.last_seen
    }
}

/// What the lock of a `SharedPipe` guarantees of the buffer it guards.
pub struct PipeInv {}

impl RwLockPredicate<DoubleBuffer> for PipeInv {
    open spec fn inv(self, v: DoubleBuffer) -> bool {
        v.wf() && v.band_count() == BANDS
    }
}

/// A `DoubleBuffer` of `BANDS` bands shared between one producer and any
/// number of readers; clones share the same buffer.
#[derive(Clone)]
pub struct SharedPipe {
    inner: Arc<RwLock<DoubleBuffer, PipeInv>>,
}

impl SharedPipe {
    /// A pipe whose two slots hold silence, at version 0.
    pub fn new() -> (s: Self) {
        let buffer = DoubleBuffer::new(BANDS);
        SharedPipe { inner: Arc::new(RwLock::new(buffer, Ghost(PipeInv {}))) }
    }

    /// Publishes a spectrum of `BANDS` levels.
    pub fn write(&self, new_data: &Vec<u32>)
        requires
            new_data@.len() == BANDS,
    {
        let (mut buffer, handle) = self.inner.acquire_write();
        buffer.publish(new_data);
        handle.release_write(buffer);
    }

    /// A copy of the latest complete spectrum.
    pub fn read(&self) -> (r: Vec<u32>)
        ensures
            r@.len() == BANDS,
    {
        let handle = self.inner.acquire_read();
        let out = handle.borrow().latest();
        handle.release_read();
        out
    }

    /// The latest spectrum and the version it was published at, read together.
    pub fn read_with_tracking(&self) -> (r: (Vec<u32>, u64))
        ensures
            r.0@.len() == BANDS,
    {
        let handle = self.inner.acquire_read();
        let out = handle.borrow().read_with_tracking();
        handle.release_read();
        out
    }

    /// Whether a version newer than the cursor's has been published.
    pub fn has_new_data(&self, cursor: &ReadCursor) -> (r: bool) {
        let handle = self.inner.acquire_read();
        let fresh = handle.borrow().has_new_data(cursor);
        handle.release_read();
        fresh
    }

    /// The latest spectrum if it is newer than the cursor's version, moving
    /// the cursor forward; `None`, with the cursor unchanged, otherwise.
    pub fn read_if_new(&self, cursor: &mut ReadCursor) -> (r: Option<Vec<u32>>)
        ensures
            r.is_some() ==> r.unwrap()@.len() == BANDS && final(cursor).seen() > old(cursor).seen(),
            r.is_none() ==> final(cursor).seen() == old(cursor).seen(),
    {
        let handle = self.inner.acquire_read();
        let out = handle.borrow().read_if_new(cursor);
        handle.release_read();
        out
    }
}

} // verus!
