//! `heapless::Vec`, the fixed-capacity vector the firmware keeps its records in.
//!
//! Every item here is trusted: the contracts restate what `heapless` 0.8's
//! `Vec` does (src/vec.rs of that crate) in terms of a name for the vector's
//! contents, one name per element type and capacity that the library uses.
use vstd::prelude::*;
use crate::types::event::Event;
use crate::types::sector::Sector;
use crate::types::measurement::Observation;
use crate::comms::MeasurementPacket;


verus! {

/// `heapless::Vec<T, N>`, a vector of at most `N` items stored inline.
#[verifier::external_type_specification]
#[verifier::external_body]
#[verifier::reject_recursive_types(T)]
pub struct ExHeaplessVec<T, const N: usize>(heapless::Vec<T, N>);

// ---------------------------------------------------------------------------
// Vec<Event, 32>: the event log

/// The events held by an event-log vector, oldest first.
pub uninterp spec fn event_items(v: heapless::Vec<Event, 32>) -> Seq<Event>;

/// `heapless::Vec::new`: an empty vector.
#[verifier::external_body]
pub(crate) fn events_new() -> (r: heapless::Vec<Event, 32>)
    ensures
        event_items(r) == Seq::<Event>::empty(),
{
    heapless::Vec::new()
}

/// `heapless::Vec::len`: the number of items, never above the capacity.
#[verifier::external_body]
pub(crate) fn events_len(v: &heapless::Vec<Event, 32>) -> (r: usize)
    ensures
        r == event_items(*v).len(),
        r <= 32,
{
    v.len()
}

/// `heapless::Vec::is_full`: whether the length equals the capacity.
#[verifier::external_body]
pub(crate) fn events_is_full(v: &heapless::Vec<Event, 32>) -> (r: bool)
    ensures
        r == (event_items(*v).len() == 32),
{
    v.is_full()
}

/// `heapless::Vec::push`: appends when there is room, else hands the item back
/// and leaves the vector as it was.
#[verifier::external_body]
pub(crate) fn events_push(v: &mut heapless::Vec<Event, 32>, x: Event) -> (r: Result<(), Event>)
    ensures
        r is Ok <==> event_items(*old(v)).len() < 32,
        r is Ok ==> event_items(*final(v)) == event_items(*old(v)).push(x),
        r is Err ==> event_items(*final(v)) == event_items(*old(v)),
{
    v.push(x)
}

/// `heapless::Vec::remove`: takes out the item at `i`, shifting the later ones down.
#[verifier::external_body]
pub(crate) fn events_remove(v: &mut heapless::Vec<Event, 32>, i: usize) -> (r: Event)
    requires
        i < event_items(*old(v)).len(),
    ensures
        r == event_items(*old(v))[i as int],
        event_items(*final(v)) == event_items(*old(v)).remove(i as int),
{
    v.remove(i)
}

/// `heapless::Vec::clear`: removes every item.
#[verifier::external_body]
pub(crate) fn events_clear(v: &mut heapless::Vec<Event, 32>)
    ensures
        event_items(*final(v)) == Seq::<Event>::empty(),
{
    v.clear()
}

/// Indexing through `Deref<Target = [T]>`: the item at `i`.
#[verifier::external_body]
pub(crate) fn events_at(v: &heapless::Vec<Event, 32>, i: usize) -> (r: Event)
    requires
        i < event_items(*v).len(),
    ensures
        r == event_items(*v)[i as int],
{
    v[i]
}

// ---------------------------------------------------------------------------
// Vec<u32, 128>: sector mid times of a configuration, bins of a sector

/// The words held by a vector of at most 128 `u32`, in order.
pub uninterp spec fn words128_items(v: heapless::Vec<u32, 128>) -> Seq<u32>;

/// `heapless::Vec::new`: an empty vector.
#[verifier::external_body]
pub(crate) fn words128_new() -> (r: heapless::Vec<u32, 128>)
    ensures
        words128_items(r) == Seq::<u32>::empty(),
{
    heapless::Vec::new()
}

/// `heapless::Vec::len`: the number of items, never above the capacity.
#[verifier::external_body]
pub(crate) fn words128_len(v: &heapless::Vec<u32, 128>) -> (r: usize)
    ensures
        r == words128_items(*v).len(),
        r <= 128,
{
    v.len()
}

/// `heapless::Vec::push`: appends when there is room, else hands the item back
/// and leaves the vector as it was.
#[verifier::external_body]
pub(crate) fn words128_push(v: &mut heapless::Vec<u32, 128>, x: u32) -> (r: Result<(), u32>)
    ensures
        r is Ok <==> words128_items(*old(v)).len() < 128,
        r is Ok ==> words128_items(*final(v)) == words128_items(*old(v)).push(x),
        r is Err ==> words128_items(*final(v)) == words128_items(*old(v)),
{
    v.push(x)
}

/// Indexing through `Deref<Target = [T]>`: the item at `i`.
#[verifier::external_body]
pub(crate) fn words128_at(v: &heapless::Vec<u32, 128>, i: usize) -> (r: u32)
    requires
        i < words128_items(*v).len(),
    ensures
        r == words128_items(*v)[i as int],
{
    v[i]
}

/// `Clone::clone`: a vector with the same items.
#[verifier::external_body]
pub(crate) fn words128_clone(v: &heapless::Vec<u32, 128>) -> (r: heapless::Vec<u32, 128>)
    ensures
        words128_items(r) == words128_items(*v),
{
    v.clone()
}

// ---------------------------------------------------------------------------
// Vec<Sector, 96>: the sector list

/// The sectors held by a sector vector, in order.
pub uninterp spec fn sector_items(v: heapless::Vec<Sector, 96>) -> Seq<Sector>;

/// `heapless::Vec::new`: an empty vector.
#[verifier::external_body]
pub(crate) fn sectors_new() -> (r: heapless::Vec<Sector, 96>)
    ensures
        sector_items(r) == Seq::<Sector>::empty(),
{
    heapless::Vec::new()
}

/// `heapless::Vec::len`: the number of items, never above the capacity.
#[verifier::external_body]
pub(crate) fn sectors_len(v: &heapless::Vec<Sector, 96>) -> (r: usize)
    ensures
        r == sector_items(*v).len(),
        r <= 96,
{
    v.len()
}

/// `heapless::Vec::push`: appends when there is room, else hands the item back
/// and leaves the vector as it was.
#[verifier::external_body]
pub(crate) fn sectors_push(v: &mut heapless::Vec<Sector, 96>, x: Sector) -> (r: Result<(), Sector>)
    ensures
        r is Ok <==> sector_items(*old(v)).len() < 96,
        r is Ok ==> sector_items(*final(v)) == sector_items(*old(v)).push(x),
        r is Err ==> sector_items(*final(v)) == sector_items(*old(v)),
{
    v.push(x)
}

/// `heapless::Vec::remove`: takes out the item at `i`, shifting the later ones down.
#[verifier::external_body]
pub(crate) fn sectors_remove(v: &mut heapless::Vec<Sector, 96>, i: usize) -> (r: Sector)
    requires
        i < sector_items(*old(v)).len(),
    ensures
        r == sector_items(*old(v))[i as int],
        sector_items(*final(v)) == sector_items(*old(v)).remove(i as int),
{
    v.remove(i)
}

/// `heapless::Vec::clear`: removes every item.
#[verifier::external_body]
pub(crate) fn sectors_clear(v: &mut heapless::Vec<Sector, 96>)
    ensures
        sector_items(*final(v)) == Seq::<Sector>::empty(),
{
    v.clear()
}

/// Indexing through `Deref<Target = [T]>`: the item at `i`.
#[verifier::external_body]
pub(crate) fn sectors_ref(v: &heapless::Vec<Sector, 96>, i: usize) -> (r: &Sector)
    requires
        i < sector_items(*v).len(),
    ensures
        *r == sector_items(*v)[i as int],
{
    &v[i]
}

/// Indexing through `DerefMut<Target = [T]>`: the place of the item at `i`.
#[verifier::external_body]
pub(crate) fn sectors_mut(v: &mut heapless::Vec<Sector, 96>, i: usize) -> (r: &mut Sector)
    requires
        i < sector_items(*old(v)).len(),
    ensures
        *r == sector_items(*old(v))[i as int],
        sector_items(*final(v)) == sector_items(*old(v)).update(i as int, *final(r)),
{
    &mut v[i]
}

/// `heapless::Vec::as_slice`: the items as a slice.
#[verifier::external_body]
pub(crate) fn sectors_as_slice(v: &heapless::Vec<Sector, 96>) -> (r: &[Sector])
    ensures
        r@ == sector_items(*v),
{
    v.as_slice()
}

// ---------------------------------------------------------------------------
// Vec<usize, 96>: indices into the sector list

/// The indices held by an index vector, in order.
pub uninterp spec fn index_items(v: heapless::Vec<usize, 96>) -> Seq<usize>;

/// `heapless::Vec::new`: an empty vector.
#[verifier::external_body]
pub(crate) fn indices_new() -> (r: heapless::Vec<usize, 96>)
    ensures
        index_items(r) == Seq::<usize>::empty(),
{
    heapless::Vec::new()
}

/// `heapless::Vec::push`: appends when there is room, else hands the item back
/// and leaves the vector as it was.
#[verifier::external_body]
pub(crate) fn indices_push(v: &mut heapless::Vec<usize, 96>, x: usize) -> (r: Result<(), usize>)
    ensures
        r is Ok <==> index_items(*old(v)).len() < 96,
        r is Ok ==> index_items(*final(v)) == index_items(*old(v)).push(x),
        r is Err ==> index_items(*final(v)) == index_items(*old(v)),
{
    v.push(x)
}

// ---------------------------------------------------------------------------
// Vec<Observation, 128>: the observations of a measurement

/// The observations held by an observation vector, in order.
pub uninterp spec fn observation_items(v: heapless::Vec<Observation, 128>) -> Seq<Observation>;

/// `heapless::Vec::new`: an empty vector.
#[verifier::external_body]
pub(crate) fn observations_new() -> (r: heapless::Vec<Observation, 128>)
    ensures
        observation_items(r) == Seq::<Observation>::empty(),
{
    heapless::Vec::new()
}

/// `heapless::Vec::len`: the number of items, never above the capacity.
#[verifier::external_body]
pub(crate) fn observations_len(v: &heapless::Vec<Observation, 128>) -> (r: usize)
    ensures
        r == observation_items(*v).len(),
        r <= 128,
{
    v.len()
}

/// `heapless::Vec::push`: appends when there is room, else hands the item back
/// and leaves the vector as it was.
#[verifier::external_body]
pub(crate) fn observations_push(v: &mut heapless::Vec<Observation, 128>, x: Observation) -> (r: Result<(), Observation>)
    ensures
        r is Ok <==> observation_items(*old(v)).len() < 128,
        r is Ok ==> observation_items(*final(v)) == observation_items(*old(v)).push(x),
        r is Err ==> observation_items(*final(v)) == observation_items(*old(v)),
{
    v.push(x)
}

/// Indexing through `Deref<Target = [T]>`: the item at `i`.
#[verifier::external_body]
pub(crate) fn observations_at(v: &heapless::Vec<Observation, 128>, i: usize) -> (r: Observation)
    requires
        i < observation_items(*v).len(),
    ensures
        r == observation_items(*v)[i as int],
{
    v[i]
}

// ---------------------------------------------------------------------------
// Vec<MeasurementPacket, 10>: the measurements of an uplink packet

/// The measurement records held by a packet's vector, in order.
pub uninterp spec fn record_items(v: heapless::Vec<MeasurementPacket, 10>) -> Seq<MeasurementPacket>;

/// `heapless::Vec::new`: an empty vector.
#[verifier::external_body]
pub(crate) fn records_new() -> (r: heapless::Vec<MeasurementPacket, 10>)
    ensures
        record_items(r) == Seq::<MeasurementPacket>::empty(),
{
    heapless::Vec::new()
}

/// `heapless::Vec::len`: the number of items, never above the capacity.
#[verifier::external_body]
pub(crate) fn records_len(v: &heapless::Vec<MeasurementPacket, 10>) -> (r: usize)
    ensures
        r == record_items(*v).len(),
        r <= 10,
{
    v.len()
}

/// `heapless::Vec::push`: appends when there is room, else hands the item back
/// and leaves the vector as it was.
#[verifier::external_body]
pub(crate) fn records_push(v: &mut heapless::Vec<MeasurementPacket, 10>, x: MeasurementPacket) -> (r: Result<(), MeasurementPacket>)
    ensures
        r is Ok <==> record_items(*old(v)).len() < 10,
        r is Ok ==> record_items(*final(v)) == record_items(*old(v)).push(x),
        r is Err ==> record_items(*final(v)) == record_items(*old(v)),
{
    v.push(x)
}

/// Indexing through `Deref<Target = [T]>`: the item at `i`.
#[verifier::external_body]
pub(crate) fn records_at(v: &heapless::Vec<MeasurementPacket, 10>, i: usize) -> (r: MeasurementPacket)
    requires
        i < record_items(*v).len(),
    ensures
        r == record_items(*v)[i as int],
{
    v[i]
}

// ---------------------------------------------------------------------------
// Vec<u8, 64>: the bytes of an uplink packet

/// The bytes held by a packet buffer, in order.
pub uninterp spec fn byte64_items(v: heapless::Vec<u8, 64>) -> Seq<u8>;

/// `heapless::Vec::new`: an empty vector.
#[verifier::external_body]
pub(crate) fn bytes64_new() -> (r: heapless::Vec<u8, 64>)
    ensures
        byte64_items(r) == Seq::<u8>::empty(),
{
    heapless::Vec::new()
}

/// `heapless::Vec::extend_from_slice`: appends all of `other` when it fits,
/// else leaves the vector as it was.
#[verifier::external_body]
pub(crate) fn bytes64_extend(v: &mut heapless::Vec<u8, 64>, other: &[u8]) -> (r: Result<(), ()>)
    ensures
        r is Ok <==> byte64_items(*old(v)).len() + other@.len() <= 64,
        r is Ok ==> byte64_items(*final(v)) == byte64_items(*old(v)) + other@,
        r is Err ==> byte64_items(*final(v)) == byte64_items(*old(v)),
{
    v.extend_from_slice(other)
}

// ---------------------------------------------------------------------------
// Vec<u32, 96>: uids of the sectors of a transmission

/// The uids held by a uid vector, in order.
pub uninterp spec fn uid_items(v: heapless::Vec<u32, 96>) -> Seq<u32>;

/// `heapless::Vec::new`: an empty vector.
#[verifier::external_body]
pub(crate) fn uids_new() -> (r: heapless::Vec<u32, 96>)
    ensures
        uid_items(r) == Seq::<u32>::empty(),
{
    heapless::Vec::new()
}

/// `heapless::Vec::push`: appends when there is room, else hands the item back
/// and leaves the vector as it was.
#[verifier::external_body]
pub(crate) fn uids_push(v: &mut heapless::Vec<u32, 96>, x: u32) -> (r: Result<(), u32>)
    ensures
        r is Ok <==> uid_items(*old(v)).len() < 96,
        r is Ok ==> uid_items(*final(v)) == uid_items(*old(v)).push(x),
        r is Err ==> uid_items(*final(v)) == uid_items(*old(v)),
{
    v.push(x)
}

} // verus!
