//! Profiling of regions of work.
//!
//! A program opens a region when it starts a piece of work and closes it
//! when the work is done. Open regions form a stack. Closing a region yields
//! a sample: the stack as it stood, the time the region took, and the time
//! at which it ended. Samples are kept in a ring that holds the most recent
//! ones. The caller reads the clock and owns the stack and the ring; nothing
//! here keeps state of its own.

pub mod folded;

use vstd::prelude::*;
use smallvec::SmallVec;
use crate::text::str_eq;

verus! {

/// The number of samples that a program's ring usually keeps.
pub const MAX_SAMPLES: usize = 10_000;

/// The stack of open regions, outermost first.
///
/// It is a `smallvec::SmallVec` with room for four names before it spills
/// to the heap. Verus does not look inside: what it holds is
/// `region_names`, and every operation on it is one of the functions below,
/// whose contracts restate what the source of `smallvec` shows.
#[verifier::external_body]
pub struct RegionStack {
    inner: SmallVec<[&'static str; 4]>,
}

/// The names that a stack holds, outermost first.
pub uninterp spec fn region_names(stack: RegionStack) -> Seq<Seq<char>>;

/// `SmallVec::new`: a vector without items.
#[verifier::external_body]
fn stack_new() -> (r: RegionStack)
    ensures
        region_names(r) == Seq::<Seq<char>>::empty(),
{
    RegionStack { inner: SmallVec::new() }
}

/// `SmallVec::push`: the item is appended behind the others, which stay as
/// they are.
#[verifier::external_body]
fn stack_push(stack: &mut RegionStack, region: &'static str)
    ensures
        region_names(*final(stack)) == region_names(*old(stack)).push(region@),
{
    stack.inner.push(region)
}

/// `SmallVec::pop`: the last item is taken off and returned; an empty
/// vector stays empty and gives `None`.
#[verifier::external_body]
fn stack_pop(stack: &mut RegionStack) -> (r: Option<&'static str>)
    ensures
        match r {
            Some(region) => {
                &&& region_names(*old(stack)).len() > 0
                &&& region@ == region_names(*old(stack)).last()
                &&& region_names(*final(stack)) == region_names(*old(stack)).drop_last()
            },
            None => {
                &&& region_names(*old(stack)).len() == 0
                &&& region_names(*final(stack)) == region_names(*old(stack))
            },
        },
{
    stack.inner.pop()
}

/// `<[T]>::last` on the slice that `SmallVec::deref` gives: the last item,
/// or `None` where the vector is empty. The vector is not changed.
#[verifier::external_body]
fn stack_top(stack: &RegionStack) -> (r: Option<&'static str>)
    ensures
        match r {
            Some(region) => region_names(*stack).len() > 0 && region@ == region_names(
                *stack,
            ).last(),
            None => region_names(*stack).len() == 0,
        },
{
    stack.inner.last().copied()
}

/// `SmallVec::clone`: a vector with the same items in the same order.
#[verifier::external_body]
fn stack_clone(stack: &RegionStack) -> (r: RegionStack)
    ensures
        region_names(r) == region_names(*stack),
{
    RegionStack { inner: stack.inner.clone() }
}

/// `<[T]>::to_vec` on the slice that `SmallVec::deref` gives: the items,
/// in order, as a `Vec`.
#[verifier::external_body]
fn stack_to_vec(stack: &RegionStack) -> (r: Vec<&'static str>)
    ensures
        r@.len() == region_names(*stack).len(),
        forall|i: int| 0 <= i < r@.len() ==> (#[trigger] r@[i])@ == region_names(*stack)[i],
{
    stack.inner.to_vec()
}

impl RegionStack {
    /// A stack without open regions.
    pub fn new() -> (r: Self)
        ensures
            region_names(r) == Seq::<Seq<char>>::empty(),
    {
        stack_new()
    }

    /// A stack that holds `regions`, outermost first.
    pub fn from_regions(regions: &[&'static str]) -> (r: Self)
        ensures
            region_names(r).len() == regions@.len(),
            forall|i: int| 0 <= i < regions@.len() ==> region_names(r)[i] == (#[trigger] regions@[i])@,
    {
        let mut stack = stack_new();
        let mut i: usize = 0;
        while i < regions.len()
            invariant
                i <= regions.len(),
                region_names(stack).len() == i,
                forall|k: int| 0 <= k < i ==> region_names(stack)[k] == (#[trigger] regions@[k])@,
            decreases regions.len() - i,
        {
            stack_push(&mut stack, regions[i]);
            i += 1;
        }
        stack
    }

    /// The names of the open regions, outermost first.
    pub fn regions(&self) -> (r: Vec<&'static str>)
        ensures
            r@.len() == region_names(*self).len(),
            forall|i: int| 0 <= i < r@.len() ==> (#[trigger] r@[i])@ == region_names(*self)[i],
    {
        stack_to_vec(self)
    }
}

/// The mathematical value of a sample.
pub struct SampleView {
    pub stack: Seq<Seq<char>>,
    pub duration_us: u64,
    pub timestamp_us: u64,
}

/// One finished region: the stack of regions as it stood when the region
/// ended, from the outermost to the region itself, with the region's
/// duration and the time of its end, both in microseconds.
pub struct ProfileSample {
    pub stack: RegionStack,
    pub duration_us: u64,
    pub timestamp_us: u64,
}

impl View for ProfileSample {
    type V = SampleView;

    open spec fn view(&self) -> SampleView {
        SampleView {
            stack: region_names(self.stack),
            duration_us: self.duration_us,
            timestamp_us: self.timestamp_us,
        }
    }
}

impl Clone for ProfileSample {
    fn clone(&self) -> (r: Self)
        ensures
            r@ == self@,
    {
        ProfileSample {
            stack: stack_clone(&self.stack),
            duration_us: self.duration_us,
            timestamp_us: self.timestamp_us,
        }
    }
}

/// The values of a sequence of samples.
pub open spec fn sample_views(samples: Seq<ProfileSample>) -> Seq<SampleView> {
    samples.map_values(|s: ProfileSample| s@)
}

/// The last `capacity` items of `items`, or all of them where they are
/// fewer.
pub open spec fn keep_last(items: Seq<SampleView>, capacity: nat) -> Seq<SampleView> {
    if items.len() <= capacity {
        items
    } else {
        items.subrange(items.len() - capacity, items.len() as int)
    }
}

/// A ring of samples: it keeps the most recent ones, up to its capacity.
pub struct CircularBuffer {
    samples: Vec<ProfileSample>,
    capacity: usize,
    write_pos: usize,
    count: usize,
}

impl CircularBuffer {
    /// The ring has room for a sample and holds at most `capacity` of them;
    /// until it is full the next sample goes behind the others, afterwards
    /// over the oldest.
    pub closed spec fn wf(&self) -> bool {
        &&& self.capacity > 0
        &&& self.samples.len() <= self.capacity
        &&& self.write_pos < self.capacity
        &&& self.samples.len() < self.capacity ==> self.write_pos == self.samples.len()
    }

    /// The samples as they lie in the ring's storage.
    pub closed spec fn storage(&self) -> Seq<SampleView> {
        sample_views(self.samples@)
    }

    /// The number of samples that the ring keeps at most.
    pub closed spec fn spec_capacity(&self) -> nat {
        self.capacity as nat
    }

    /// The place in the storage that the next sample takes.
    pub closed spec fn spec_write_pos(&self) -> nat {
        self.write_pos as nat
    }

    /// The number of samples ever pushed, as far as `usize` counts.
    pub closed spec fn spec_count(&self) -> nat {
        self.count as nat
    }

    /// The samples that the ring holds, oldest first.
    pub open spec fn retained(&self) -> Seq<SampleView> {
        if self.storage().len() < self.spec_capacity() {
            self.storage()
        } else {
            self.storage().subrange(self.spec_write_pos() as int, self.storage().len() as int)
                + self.storage().subrange(0, self.spec_write_pos() as int)
        }
    }

    /// What a ring in order gives its holder: it has room for a sample,
    /// holds no more than its capacity, and its write position lies inside
    /// the capacity, at the end of the storage while the ring is not full.
    /// It retains every sample of its storage.
    pub proof fn law_ring_in_order(&self)
        requires
            self.wf(),
        ensures
            self.spec_capacity() > 0,
            self.storage().len() <= self.spec_capacity(),
            self.spec_write_pos() < self.spec_capacity(),
            self.storage().len() < self.spec_capacity() ==> self.spec_write_pos()
                == self.storage().len(),
            self.retained().len() == self.storage().len(),
            self.retained().to_multiset() == self.storage().to_multiset(),
    {
        let st = self.storage();
        let w = self.spec_write_pos() as int;
        if st.len() >= self.spec_capacity() {
            let back = st.subrange(w, st.len() as int);
            let front = st.subrange(0, w);
            assert(st =~= front + back);
            vstd::seq_lib::lemma_multiset_commutative(front, back);
            vstd::seq_lib::lemma_multiset_commutative(back, front);
        }
    }

    /// An empty ring for `capacity` samples. A ring without room for a
    /// sample can be made, but nothing can be pushed into it.
    pub fn new(capacity: usize) -> (r: Self)
        ensures
            r.wf() == (capacity > 0),
            r.storage() == Seq::<SampleView>::empty(),
            r.spec_capacity() == capacity,
            r.spec_write_pos() == 0,
            r.spec_count() == 0,
    {
        let r = CircularBuffer {
            samples: Vec::with_capacity(capacity),
            capacity,
            write_pos: 0,
            count: 0,
        };
        assert(sample_views(r.samples@) =~= Seq::<SampleView>::empty());
        r
    }

    /// The number of samples that the ring keeps at most.
    pub fn capacity(&self) -> (r: usize)
        ensures
            r == self.spec_capacity(),
    {
        self.capacity
    }

    /// The number of samples that the ring holds.
    pub fn len(&self) -> (r: usize)
        ensures
            r == self.storage().len(),
    {
        self.samples.len()
    }

    /// The number of samples ever pushed; it stops at `usize::MAX`.
    pub fn count(&self) -> (r: usize)
        ensures
            r == self.spec_count(),
    {
        self.count
    }

    /// Adds a sample. A full ring gives up its oldest sample for it.
    pub fn push(&mut self, sample: ProfileSample)
        requires
            old(self).wf(),
        ensures
            final(self).wf(),
            final(self).storage().len() <= final(self).spec_capacity(),
            final(self).spec_write_pos() < final(self).spec_capacity(),
            final(self).storage().len() < final(self).spec_capacity()
                ==> final(self).spec_write_pos() == final(self).storage().len(),
            final(self).spec_capacity() == old(self).spec_capacity(),
            final(self).storage() == (if old(self).storage().len() < old(self).spec_capacity() {
                old(self).storage().push(sample@)
            } else {
                old(self).storage().update(old(self).spec_write_pos() as int, sample@)
            }),
            final(self).spec_write_pos() == (old(self).spec_write_pos() + 1) % old(
                self,
            ).spec_capacity(),
            final(self).retained() == keep_last(
                old(self).retained().push(sample@),
                old(self).spec_capacity(),
            ),
            final(self).spec_count() == (if old(self).spec_count() < usize::MAX {
                old(self).spec_count() + 1
            } else {
                old(self).spec_count()
            }),
    {
        let ghost before = self.storage();
        let ghost pos = self.write_pos as int;
        let ghost cap = self.capacity as int;
        if self.samples.len() < self.capacity {
            self.samples.push(sample);
            assert(self.storage() =~= before.push(sample@));
        } else {
            self.samples.set(self.write_pos, sample);
            assert(self.storage() =~= before.update(pos, sample@));
        }
        assert((pos + 1) % cap == (if pos + 1 == cap {
            0
        } else {
            pos + 1
        })) by (nonlinear_arith)
            requires
                0 <= pos < cap,
        ;
        self.write_pos = (self.write_pos + 1) % self.capacity;
        self.count = self.count.saturating_add(1);
        assert(self.retained() =~= keep_last(old(self).retained().push(sample@), cap as nat));
    }

    /// The samples that ended at `cutoff_us` or later, in the order in
    /// which they lie in the ring's storage.
    pub fn get_since(&self, cutoff_us: u64) -> (r: Vec<ProfileSample>)
        ensures
            sample_views(r@) == self.storage().filter(
                |s: SampleView| s.timestamp_us >= cutoff_us,
            ),
    {
        let ghost pred = |s: SampleView| s.timestamp_us >= cutoff_us;
        let mut out: Vec<ProfileSample> = Vec::new();
        let mut i: usize = 0;
        proof {
            reveal(Seq::filter);
            assert(self.storage().subrange(0, 0) =~= Seq::<SampleView>::empty());
            assert(sample_views(out@) =~= Seq::<SampleView>::empty());
        }
        while i < self.samples.len()
            invariant
                i <= self.samples.len(),
                pred == (|s: SampleView| s.timestamp_us >= cutoff_us),
                sample_views(out@) == self.storage().subrange(0, i as int).filter(pred),
            decreases self.samples.len() - i,
        {
            let ghost prefix = self.storage().subrange(0, i as int);
            let ghost next = self.storage().subrange(0, i as int + 1);
            proof {
                reveal(Seq::filter);
                assert(next.drop_last() =~= prefix);
                assert(next.last() == self.samples@[i as int]@);
            }
            if self.samples[i].timestamp_us >= cutoff_us {
                let copy = self.samples[i].clone();
                let ghost before = sample_views(out@);
                out.push(copy);
                assert(sample_views(out@) =~= before.push(copy@));
            }
            i += 1;
        }
        assert(self.storage().subrange(0, i as int) =~= self.storage());
        out
    }
}

/// An open region: its name and the time at which it was opened.
pub struct ProfileGuard {
    region: &'static str,
    start_us: u64,
}

/// What closing a region leaves of the stack: the stack without its last
/// name where that name is the region's, the stack unchanged otherwise.
pub open spec fn stack_after_close(stack: Seq<Seq<char>>, region: Seq<char>) -> Seq<Seq<char>> {
    if stack.len() > 0 && stack.last() == region {
        stack.drop_last()
    } else {
        stack
    }
}

/// The time from `start_us` to `now_us`, and zero where the clock went
/// back.
pub open spec fn elapsed_us(start_us: u64, now_us: u64) -> u64 {
    if now_us >= start_us {
        (now_us - start_us) as u64
    } else {
        0
    }
}

impl ProfileGuard {
    /// The name of the region.
    pub closed spec fn spec_region(&self) -> Seq<char> {
        self.region@
    }

    /// The time at which the region was opened, in microseconds.
    pub closed spec fn spec_start_us(&self) -> u64 {
        self.start_us
    }

    /// Opens `region` at the time `now_us`: its name goes on the stack.
    pub fn new(stack: &mut RegionStack, region: &'static str, now_us: u64) -> (r: Self)
        ensures
            region_names(*final(stack)) == region_names(*old(stack)).push(region@),
            r.spec_region() == region@,
            r.spec_start_us() == now_us,
    {
        stack_push(stack, region);
        ProfileGuard { region, start_us: now_us }
    }

    /// The name of the region.
    pub fn region(&self) -> (r: &'static str)
        ensures
            r@ == self.spec_region(),
    {
        self.region
    }

    /// The time at which the region was opened, in microseconds.
    pub fn start_us(&self) -> (r: u64)
        ensures
            r == self.spec_start_us(),
    {
        self.start_us
    }

    /// Closes the region at the time `now_us`.
    ///
    /// The sample holds the stack as it stood before the call and ends at
    /// `timestamp_us`. The region's name leaves the stack where it is the
    /// last one; a stack that regions left out of order is not touched.
    pub fn finish(self, stack: &mut RegionStack, now_us: u64, timestamp_us: u64) -> (sample:
        ProfileSample)
        ensures
            sample@.stack == region_names(*old(stack)),
            sample@.duration_us == elapsed_us(self.spec_start_us(), now_us),
            sample@.timestamp_us == timestamp_us,
            region_names(*final(stack)) == stack_after_close(
                region_names(*old(stack)),
                self.spec_region(),
            ),
    {
        let duration_us = if now_us >= self.start_us {
            now_us - self.start_us
        } else {
            0
        };
        let sample = ProfileSample { stack: stack_clone(stack), duration_us, timestamp_us };
        let ours = match stack_top(stack) {
            Some(top) => str_eq(top, self.region),
            None => false,
        };
        if ours {
            let _ = stack_pop(stack);
        }
        sample
    }
}

/// Opens the region `region` at the time `now_us` and returns its guard.
pub fn profile_region(stack: &mut RegionStack, region: &'static str, now_us: u64) -> (r:
    ProfileGuard)
    ensures
        region_names(*final(stack)) == region_names(*old(stack)).push(region@),
        r.spec_region() == region@,
        r.spec_start_us() == now_us,
{
    ProfileGuard::new(stack, region, now_us)
}

} // verus!
