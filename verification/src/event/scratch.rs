//! Views on a range of frames of every channel of a buffer, built in storage
//! that is allocated once and used again for every buffer.
//!
//! The storage is a `VecStorage` of the `vecstorage` crate. Verus does not
//! look into that crate: what this module relies on is stated in the
//! contracts of the private functions that call it, each of which names the
//! function it stands for.
use crate::Sample;
use vecstorage::VecGuard;
use vecstorage::VecStorage;
use vstd::prelude::*;

verus! {

/// `vecstorage::VecStorage`, of which Verus sees nothing but the name.
#[verifier::external_type_specification]
#[verifier::external_body]
#[verifier::reject_recursive_types(T)]
pub struct ExVecStorage<T>(VecStorage<T>);

/// `vecstorage::VecGuard`, of which Verus sees nothing but the name.
#[verifier::external_type_specification]
#[verifier::external_body]
#[verifier::reject_recursive_types(TOrig)]
#[verifier::reject_recursive_types(T)]
pub struct ExVecGuard<'s, TOrig, T>(VecGuard<'s, TOrig, T>);

/// Whether the storage still counts a guard as alive. `VecStorage` sets its
/// lock in `vec_guard` and lifts it when the guard is dropped, so that it is
/// locked afterwards only where a guard was leaked.
pub uninterp spec fn input_storage_locked(storage: &VecStorage<&'static [Sample]>) -> bool;

/// As `input_storage_locked`, for storage of views that can be written to.
pub uninterp spec fn output_storage_locked(storage: &VecStorage<&'static mut [Sample]>) -> bool;

/// Whether the storage that the guard has borrowed is still locked when the
/// guard is gone. Only the guard's `Drop` lifts the lock, so a guard keeps it
/// unless it is dropped.
pub uninterp spec fn input_guard_keeps_lock(
    guard: &VecGuard<'_, &'static [Sample], &[Sample]>,
) -> bool;

/// As `input_guard_keeps_lock`, for a guard of views that can be written to.
pub uninterp spec fn output_guard_keeps_lock(
    guard: &VecGuard<'_, &'static mut [Sample], &mut [Sample]>,
) -> bool;

/// What the guard holds: the samples of each view, in the order in which the
/// views were pushed.
pub uninterp spec fn input_views(guard: &VecGuard<'_, &'static [Sample], &[Sample]>) -> Seq<
    Seq<Sample>,
>;

/// What the guard holds: the views that can be written to, in the order in
/// which they were pushed.
pub uninterp spec fn output_views(
    guard: &VecGuard<'_, &'static mut [Sample], &mut [Sample]>,
) -> Seq<&'static mut [Sample]>;

/// `VecStorage::with_capacity`, which allocates as `Vec::with_capacity` does
/// and so panics where the items would take more than `isize::MAX` bytes. The
/// new storage has no guard, so it is not locked.
#[verifier::external_body]
fn new_input_storage(capacity: usize) -> (storage: VecStorage<&'static [Sample]>)
    requires
        capacity <= isize::MAX / 16,
    ensures
        !input_storage_locked(&storage),
{
    VecStorage::with_capacity(capacity)
}

/// `VecStorage::with_capacity`, as for `new_input_storage`.
#[verifier::external_body]
fn new_output_storage(capacity: usize) -> (storage: VecStorage<&'static mut [Sample]>)
    requires
        capacity <= isize::MAX / 16,
    ensures
        !output_storage_locked(&storage),
{
    VecStorage::with_capacity(capacity)
}

/// `VecStorage::vec_guard`, which panics on locked storage and where the
/// layouts of the two item types differ; two references to slices never do.
/// The guard starts out empty. The call locks the storage, and whether it is
/// still locked when the borrow ends lies with the guard.
#[verifier::external_body]
fn input_guard<'storage, 'chunk>(storage: &'storage mut VecStorage<&'static [Sample]>) -> (guard:
    VecGuard<'storage, &'static [Sample], &'chunk [Sample]>)
    requires
        !input_storage_locked(old(storage)),
    ensures
        input_views(&guard) == Seq::<Seq<Sample>>::empty(),
        input_guard_keeps_lock(&guard) == input_storage_locked(final(storage)),
{
    storage.vec_guard()
}

/// `VecStorage::vec_guard`, as for `input_guard`.
#[verifier::external_body]
fn output_guard<'storage, 'chunk>(
    storage: &'storage mut VecStorage<&'static mut [Sample]>,
) -> (guard: VecGuard<'storage, &'static mut [Sample], &'chunk mut [Sample]>)
    requires
        !output_storage_locked(old(storage)),
    ensures
        output_views(&guard).len() == 0,
        output_guard_keeps_lock(&guard) == output_storage_locked(final(storage)),
{
    storage.vec_guard()
}

/// `Vec::push` on the vector that the guard dereferences to: the view is
/// added behind the others, and nothing else about the guard changes.
#[verifier::external_body]
fn push_input<'storage, 'chunk>(
    guard: &mut VecGuard<'storage, &'static [Sample], &'chunk [Sample]>,
    view: &'chunk [Sample],
)
    ensures
        input_views(final(guard)) == input_views(old(guard)).push(view@),
        input_guard_keeps_lock(final(guard)) == input_guard_keeps_lock(old(guard)),
{
    guard.push(view)
}

/// `Vec::push` on the vector that the guard dereferences to: the view is
/// added behind the others, and nothing else about the guard changes.
#[verifier::external_body]
fn push_output<'storage, 'chunk>(
    guard: &mut VecGuard<'storage, &'static mut [Sample], &'chunk mut [Sample]>,
    view: &'chunk mut [Sample],
)
    ensures
        output_views(final(guard)) == output_views(old(guard)).push(view),
        output_guard_keeps_lock(final(guard)) == output_guard_keeps_lock(old(guard)),
{
    guard.push(view)
}

/// `Vec::as_slice` on the vector that the guard dereferences to: the views
/// that the guard holds.
#[verifier::external_body]
pub(crate) fn input_slices<'a, 'storage, 'chunk>(
    guard: &'a VecGuard<'storage, &'static [Sample], &'chunk [Sample]>,
) -> (slices: &'a [&'chunk [Sample]])
    ensures
        slices@.len() == input_views(guard).len(),
        forall|i: int| 0 <= i < slices@.len() ==> slices@[i]@ == input_views(guard)[i],
{
    guard.as_slice()
}

/// `Vec::as_mut_slice` on the vector that the guard dereferences to: the
/// views that the guard holds, and what is done to the slice is done to the
/// guard and changes nothing else about it.
#[verifier::external_body]
pub(crate) fn output_slices<'a, 'storage, 'chunk>(
    guard: &'a mut VecGuard<'storage, &'static mut [Sample], &'chunk mut [Sample]>,
) -> (slices: &'a mut [&'chunk mut [Sample]])
    ensures
        slices@ == output_views(old(guard)),
        output_views(final(guard)) == final(slices)@,
        output_guard_keeps_lock(final(guard)) == output_guard_keeps_lock(old(guard)),
{
    guard.as_mut_slice()
}

/// `Drop` of `VecGuard`, which runs on the guard that is taken out of the
/// slot: it lifts the lock of the storage, so that this guard does not keep
/// it.
#[verifier::external_body]
fn drop_input_guard<'storage, 'chunk>(
    slot: &mut Option<VecGuard<'storage, &'static [Sample], &'chunk [Sample]>>,
)
    ensures
        *final(slot) is None,
        *old(slot) matches Some(guard) ==> !input_guard_keeps_lock(&guard),
{
    drop(slot.take());
}

/// `Drop` of `VecGuard`, as for `drop_input_guard`.
#[verifier::external_body]
fn drop_output_guard<'storage, 'chunk>(
    slot: &mut Option<VecGuard<'storage, &'static mut [Sample], &'chunk mut [Sample]>>,
)
    ensures
        *final(slot) is None,
        *old(slot) matches Some(guard) ==> !output_guard_keeps_lock(&guard),
{
    drop(slot.take());
}

/// `slice[..]`, borrowed for writing (`IndexMut` of a slice by the full
/// range, which cannot panic): the view shows the whole slice, it keeps its
/// length, and what is written through it is written to the slice.
#[verifier::external_body]
fn all_frames_mut<'a, S>(slice: &'a mut [S]) -> (view: &'a mut [S])
    ensures
        view@ == old(slice)@,
        final(view)@.len() == view@.len(),
        final(slice)@ == final(view)@,
{
    &mut slice[..]
}

/// A view for writing on the frames from `start` up to `end` of `channel`:
/// it keeps its length, and what is written through it is written to these
/// frames of `channel` and to no others.
fn frames_mut<'a, S>(channel: &'a mut [S], start: usize, end: usize) -> (view: &'a mut [S])
    requires
        start <= end <= old(channel)@.len(),
    ensures
        view@ == old(channel)@.subrange(start as int, end as int),
        final(view)@.len() == view@.len(),
        final(channel)@ == old(channel)@.subrange(0, start as int) + final(view)@ + old(channel)@.subrange(end as int, old(channel)@.len() as int),
{
    let (first, _) = channel.split_at_mut(end);
    let (_, middle) = first.split_at_mut(start);
    all_frames_mut(middle)
}

/// Storage for views on the channels of an input buffer, with room for
/// `capacity` channels before it has to grow. A view takes up to sixteen
/// bytes, and no allocation can be larger than `isize::MAX` bytes.
pub fn input_storage(capacity: usize) -> (storage: VecStorage<&'static [Sample]>)
    requires
        capacity <= isize::MAX / 16,
    ensures
        !input_storage_locked(&storage),
{
    new_input_storage(capacity)
}

/// Storage for views on the channels of an output buffer, with room for
/// `capacity` channels before it has to grow. A view takes up to sixteen
/// bytes, and no allocation can be larger than `isize::MAX` bytes.
pub fn output_storage(capacity: usize) -> (storage: VecStorage<&'static mut [Sample]>)
    requires
        capacity <= isize::MAX / 16,
    ensures
        !output_storage_locked(&storage),
{
    new_output_storage(capacity)
}

/// Drops the guard, which unlocks the storage that it has borrowed. A guard
/// that merely goes out of scope is dropped as well, but only of one that was
/// handed over here is it known.
pub fn release_input<'storage, 'chunk>(
    guard: VecGuard<'storage, &'static [Sample], &'chunk [Sample]>,
)
    ensures
        !input_guard_keeps_lock(&guard),
{
    let mut slot = Some(guard);
    drop_input_guard(&mut slot);
}

/// Drops the guard, which unlocks the storage that it has borrowed. A guard
/// that merely goes out of scope is dropped as well, but only of one that was
/// handed over here is it known.
pub fn release_output<'storage, 'chunk>(
    guard: VecGuard<'storage, &'static mut [Sample], &'chunk mut [Sample]>,
)
    ensures
        !output_guard_keeps_lock(&guard),
{
    let mut slot = Some(guard);
    drop_output_guard(&mut slot);
}

/// Whether every channel has at least `frames` frames.
pub open spec fn channels_reach(chunk: Seq<Seq<Sample>>, frames: int) -> bool {
    forall|i: int| 0 <= i < chunk.len() ==> frames <= (#[trigger] chunk[i]).len()
}

/// The frames from `start` up to `end` of every channel.
pub open spec fn frames_between(chunk: Seq<Seq<Sample>>, start: int, end: int) -> Seq<
    Seq<Sample>,
> {
    Seq::new(chunk.len(), |i: int| chunk[i].subrange(start, end))
}

/// The samples of every channel of an input buffer.
pub open spec fn samples_of(chunk: &[&[Sample]]) -> Seq<Seq<Sample>> {
    Seq::new(chunk@.len(), |i: int| chunk@[i]@)
}

/// The samples that every channel of an output buffer holds now.
pub open spec fn samples_of_mut(chunk: &[&mut [Sample]]) -> Seq<Seq<Sample>> {
    Seq::new(chunk@.len(), |i: int| chunk@[i]@)
}

/// Views on the frames from `start` up to `end` of every channel of `chunk`,
/// held in `storage`, which is locked until the guard is dropped:
/// `release_input` drops it.
///
/// `start` must not be after `end`, and no channel may be shorter than `end`.
pub fn mid<'storage, 'chunk, 's>(
    storage: &'storage mut VecStorage<&'static [Sample]>,
    chunk: &'chunk [&'s [Sample]],
    start: usize,
    end: usize,
) -> (guard: VecGuard<'storage, &'static [Sample], &'chunk [Sample]>)
    requires
        !input_storage_locked(old(storage)),
        start <= end,
        channels_reach(samples_of(chunk), end as int),
    ensures
        input_views(&guard) == frames_between(samples_of(chunk), start as int, end as int),
        input_guard_keeps_lock(&guard) == input_storage_locked(final(storage)),
{
    let mut remaining_chunk = chunk;
    let mut guard = input_guard(storage);
    let ghost keeps_lock = input_guard_keeps_lock(&guard);
    let mut len = remaining_chunk.len();
    while len > 0
        invariant
            len == remaining_chunk@.len(),
            start <= end,
            input_guard_keeps_lock(&guard) == keeps_lock,
            channels_reach(samples_of(chunk), end as int),
            input_views(&guard).len() + remaining_chunk@.len() == chunk@.len(),
            remaining_chunk@ == chunk@.skip(input_views(&guard).len() as int),
            forall|i: int|
                0 <= i < input_views(&guard).len() ==> (#[trigger] input_views(&guard)[i])
                    == chunk@[i]@.subrange(start as int, end as int),
        decreases len,
    {
        let ghost index = input_views(&guard).len() as int;
        let (first_channel, other_channels) = remaining_chunk.split_at(1);
        let channel = &(first_channel[0]);
        assert(channel@ == samples_of(chunk)[index]);
        let (first, _) = channel.split_at(end);
        let (_, middle) = first.split_at(start);
        push_input(&mut guard, middle);
        remaining_chunk = other_channels;
        len = remaining_chunk.len();
    }
    guard
}

/// Views for writing on the frames from `start` up to `end` of every channel
/// of `chunk`, held in `storage`. What is written through a view is written
/// to these frames of its channel; the other frames of `chunk` stay as they
/// are. `storage` is locked until the guard is dropped: `release_output`
/// drops it.
///
/// `start` must not be after `end`, and no channel may be shorter than `end`.
pub fn mid_mut<'storage, 'chunk, 's>(
    storage: &'storage mut VecStorage<&'static mut [Sample]>,
    chunk: &'chunk mut [&'s mut [Sample]],
    start: usize,
    end: usize,
) -> (guard: VecGuard<'storage, &'static mut [Sample], &'chunk mut [Sample]>)
    requires
        !output_storage_locked(old(storage)),
        start <= end,
        channels_reach(samples_of_mut(old(chunk)), end as int),
    ensures
        output_views(&guard).len() == old(chunk)@.len(),
        forall|i: int|
            0 <= i < old(chunk)@.len() ==> output_views(&guard)[i]@ == old(chunk)@[i]@.subrange(
                start as int,
                end as int,
            ),
        final(chunk)@.len() == old(chunk)@.len(),
        forall|i: int|
            0 <= i < old(chunk)@.len() ==> final(chunk)@[i]@ == old(chunk)@[i]@.subrange(
                0,
                start as int,
            ) + final(output_views(&guard)[i])@ + old(chunk)@[i]@.subrange(
                end as int,
                old(chunk)@[i]@.len() as int,
            ),
        forall|i: int|
            0 <= i < old(chunk)@.len() ==> final(chunk)@[i]@.len() == old(chunk)@[i]@.len(),
        output_guard_keeps_lock(&guard) == output_storage_locked(final(storage)),
{
    let mut remaining_chunk = chunk;
    let mut guard = output_guard(storage);
    let ghost keeps_lock = output_guard_keeps_lock(&guard);
    let mut len = remaining_chunk.len();
    while len > 0
        invariant
            len == remaining_chunk@.len(),
            start <= end,
            output_guard_keeps_lock(&guard) == keeps_lock,
            channels_reach(samples_of_mut(old(chunk)), end as int),
            output_views(&guard).len() + remaining_chunk@.len() == old(chunk)@.len(),
            remaining_chunk@ == old(chunk)@.skip(output_views(&guard).len() as int),
            forall|i: int|
                0 <= i < output_views(&guard).len() ==> output_views(&guard)[i]@ == old(chunk)@[i]@.subrange(start as int, end as int),
            final(chunk)@.len() == output_views(&guard).len() + final(remaining_chunk)@.len(),
            final(chunk)@.skip(output_views(&guard).len() as int) == final(remaining_chunk)@,
            forall|i: int|
                0 <= i < output_views(&guard).len() ==> final(chunk)@[i]@ == old(chunk)@[i]@.subrange(0, start as int) + final(output_views(&guard)[i])@ + old(chunk)@[i]@.subrange(end as int, old(chunk)@[i]@.len() as int),
            forall|i: int|
                0 <= i < output_views(&guard).len() ==> final(chunk)@[i]@.len() == old(chunk)@[i]@.len(),
        decreases len,
    {
        let ghost index = output_views(&guard).len() as int;
        let (first_channel, other_channels) = remaining_chunk.split_at_mut(1);
        assert(first_channel@[0]@ == samples_of_mut(old(chunk))[index]);
        let channel = &mut (first_channel[0]);
        let middle = frames_mut(channel, start, end);
        push_output(&mut guard, middle);
        assert(forall|j: int|
            0 <= j < final(other_channels)@.len() ==> final(chunk)@.skip(index)[j + 1] == final(other_channels)@[j]);
        assert(final(chunk)@[index] == final(chunk)@.skip(index)[0]);
        remaining_chunk = other_channels;
        len = remaining_chunk.len();
    }
    guard
}

} // verus!
