//! Events of the device (boots) and the bounded log that keeps the latest of them.
use vstd::prelude::*;
use vstd::std_specs::convert::IntoSpec;
use crate::bytes::{get_u32_le, lemma_u32_le_roundtrip, put_u32_le, u32_at, u32_le};
use crate::hvec::{event_items, events_at, events_clear, events_is_full, events_len, events_new, events_push, events_remove};
use crate::types::{EVENTS_HEADER_SIZE, EVENTLOG_SIZE, EVENT_SIZE, MAX_EVENTS};

verus! {

/// Kind of an encoded event, taken from its first byte.
#[derive(Debug, Clone, Copy, PartialEq, Eq, Structural)]
pub enum EventType {
    Empty,
    Boot,
}

impl From<u8> for EventType {
    fn from(event_type: u8) -> (r: Self) {
        match event_type {
            1 => EventType::Boot,
            _ => EventType::Empty,
        }
    }
}

impl vstd::std_specs::convert::FromSpecImpl<u8> for EventType {
    open spec fn obeys_from_spec() -> bool {
        true
    }

    open spec fn from_spec(event_type: u8) -> Self {
        if event_type == 1 {
            EventType::Boot
        } else {
            EventType::Empty
        }
    }
}

/// Fixed-size byte encoding of an event.
pub trait EventCoder {
    fn to_bytes(&self) -> [u8; EVENT_SIZE];

    fn from_bytes(bytes: &[u8; EVENT_SIZE]) -> Option<Self> where Self: Sized;
}

/// The device booted at `time` (seconds of the day) on `date` (days since 1970-01-01).
#[derive(Debug, Clone, Copy, PartialEq, Eq, Structural)]
pub struct BootEvent {
    pub time: u32,
    pub date: u32,
}

impl BootEvent {
    pub fn new(time: u32, date: u32) -> (r: Self)
        ensures
            r == (BootEvent { time, date }),
    {
        Self { time, date }
    }

    /// Encoding: the tag 1, then time and date little-endian.
    pub open spec fn spec_bytes(self) -> Seq<u8> {
        seq![1u8] + u32_le(self.time) + u32_le(self.date)
    }

    /// Decoding of nine bytes: a boot event when the tag byte is 1.
    pub open spec fn spec_decode(b: Seq<u8>) -> Option<BootEvent> {
        if b[0] == 1 {
            Some(BootEvent { time: u32_at(b, 1), date: u32_at(b, 5) })
        } else {
            None
        }
    }
}

impl EventCoder for BootEvent {
    fn to_bytes(&self) -> (r: [u8; EVENT_SIZE])
        ensures
            r@ == self.spec_bytes(),
    {
        let mut buf = [0u8; EVENT_SIZE];
        buf[0] = 1;
        put_u32_le(&mut buf, 1, self.time);
        put_u32_le(&mut buf, 5, self.date);
        assert(buf@ =~= self.spec_bytes());
        buf
    }

    fn from_bytes(data: &[u8; EVENT_SIZE]) -> (r: Option<Self>)
        ensures
            r == BootEvent::spec_decode(data@),
    {
        if data[0] != 1 {
            return None;
        }
        Some(Self { time: get_u32_le(data, 1), date: get_u32_le(data, 5) })
    }
}

/// An event of the device.
#[derive(Debug, Clone, Copy, PartialEq, Eq, Structural)]
pub enum Event {
    Boot(BootEvent),
}

impl From<BootEvent> for Event {
    fn from(e: BootEvent) -> (r: Self) {
        Event::Boot(e)
    }
}

impl vstd::std_specs::convert::FromSpecImpl<BootEvent> for Event {
    open spec fn obeys_from_spec() -> bool {
        true
    }

    open spec fn from_spec(e: BootEvent) -> Self {
        Event::Boot(e)
    }
}

impl Event {
    /// Encoding of the event.
    pub open spec fn spec_bytes(self) -> Seq<u8> {
        match self {
            Event::Boot(e) => e.spec_bytes(),
        }
    }

    /// Decoding of nine bytes: `None` for an empty or unknown slot.
    pub open spec fn spec_decode(b: Seq<u8>) -> Option<Event> {
        match BootEvent::spec_decode(b) {
            Some(e) => Some(Event::Boot(e)),
            None => None,
        }
    }

    /// Name of the event kind.
    pub fn type_str(&self) -> (r: &'static str)
        ensures
            r@ == "BOOT"@,
    {
        match self {
            Event::Boot(_) => "BOOT",
        }
    }

    pub fn to_bytes(&self) -> (r: [u8; EVENT_SIZE])
        ensures
            r@ == self.spec_bytes(),
    {
        match self {
            Event::Boot(e) => e.to_bytes(),
        }
    }

    pub fn from_bytes(data: &[u8; EVENT_SIZE]) -> (r: Option<Self>)
        ensures
            r == Event::spec_decode(data@),
    {
        match EventType::from(data[0]) {
            EventType::Boot => match BootEvent::from_bytes(data) {
                Some(e) => Some(Event::Boot(e)),
                None => None,
            },
            EventType::Empty => None,
        }
    }
}

/// Decoding an encoded event gives it back.
pub proof fn lemma_event_roundtrip(e: Event)
    ensures
        Event::spec_decode(e.spec_bytes()) == Some(e),
{
    let Event::Boot(b) = e;
    let s = e.spec_bytes();
    assert(s.subrange(1, 5) =~= u32_le(b.time));
    assert(s.subrange(5, 9) =~= u32_le(b.date));
    lemma_u32_le_roundtrip(b.time, s, 1);
    lemma_u32_le_roundtrip(b.date, s, 5);
}

/// The ASCII magic "ELOG" that opens an encoded event log.
pub open spec fn eventlog_magic() -> Seq<u8> {
    seq![69u8, 76u8, 79u8, 71u8]
}

/// `b` is the encoding of an event log holding `events`: magic, count, the
/// events one after the other, zeros after them.
pub open spec fn eventlog_layout(events: Seq<Event>, b: Seq<u8>) -> bool {
    &&& b.len() == EVENTLOG_SIZE
    &&& b.subrange(0, 4) == eventlog_magic()
    &&& b.subrange(4, 8) == u32_le(events.len() as u32)
    &&& forall|k: int|
        0 <= k < events.len() ==> #[trigger] b.subrange(8 + 9 * k, 17 + 9 * k) == events[k].spec_bytes()
    &&& forall|j: int| 8 + 9 * events.len() <= j < EVENTLOG_SIZE ==> b[j] == 0
}

/// The events decoded from the first `n` slots of an encoded log, skipping empty slots.
pub open spec fn decode_events(b: Seq<u8>, n: nat) -> Seq<Event>
    decreases n,
{
    if n == 0 {
        Seq::empty()
    } else {
        let prev = decode_events(b, (n - 1) as nat);
        match Event::spec_decode(b.subrange(8 + 9 * (n - 1), 8 + 9 * (n as int))) {
            Some(e) => prev.push(e),
            None => prev,
        }
    }
}

/// Number of slots that decoding reads: the stored count, at most `MAX_EVENTS`.
pub open spec fn stored_event_count(b: Seq<u8>) -> nat {
    let n = u32_at(b, 4);
    if n < MAX_EVENTS {
        n as nat
    } else {
        MAX_EVENTS as nat
    }
}

/// What `EventLog::from_bytes` accepts: long enough and opened by the magic.
pub open spec fn eventlog_accepts(b: Seq<u8>) -> bool {
    b.len() >= EVENTLOG_SIZE && b.subrange(0, 4) == eventlog_magic()
}

/// The latest events of the device, at most `MAX_EVENTS`, oldest first, with
/// a flag that tells whether they changed since the flag was cleared.
pub struct EventLog {
    pub events: heapless::Vec<Event, MAX_EVENTS>,
    changed: bool,
}

/// Appending to a log that keeps at most `MAX_EVENTS`: the oldest goes when it is full.
pub open spec fn push_evicting(events: Seq<Event>, e: Event) -> Seq<Event> {
    if events.len() >= MAX_EVENTS {
        events.drop_first().push(e)
    } else {
        events.push(e)
    }
}

/// The log keeps the latest events: after a push it holds at most
/// `MAX_EVENTS`, the new event last, preceded by the newest of the old ones.
pub proof fn lemma_push_keeps_latest(events: Seq<Event>, e: Event)
    requires
        events.len() <= MAX_EVENTS,
    ensures
        push_evicting(events, e).len() == (if events.len() < MAX_EVENTS { events.len() + 1 } else { MAX_EVENTS as nat }),
        push_evicting(events, e).last() == e,
        push_evicting(events, e).drop_last() == events.skip(events.len() + 1 - push_evicting(events, e).len()),
{
    let r = push_evicting(events, e);
    if events.len() >= MAX_EVENTS {
        assert(r.drop_last() =~= events.skip(1));
    } else {
        assert(r.drop_last() =~= events.skip(0));
    }
}

impl EventLog {
    /// The events, oldest first.
    pub closed spec fn items(&self) -> Seq<Event> {
        event_items(self.events)
    }

    /// The changed flag.
    pub closed spec fn changed_flag(&self) -> bool {
        self.changed
    }

    pub fn new() -> (r: Self)
        ensures
            r.items() == Seq::<Event>::empty(),
            !r.changed_flag(),
    {
        Self { events: events_new(), changed: false }
    }

    pub fn set_changed(&mut self, changed: bool)
        ensures
            final(self).items() == old(self).items(),
            final(self).changed_flag() == changed,
    {
        self.changed = changed;
    }

    pub fn has_changed(&self) -> (r: bool)
        ensures
            r == self.changed_flag(),
    {
        self.changed
    }

    pub fn clear(&mut self)
        ensures
            final(self).items() == Seq::<Event>::empty(),
            final(self).changed_flag(),
    {
        events_clear(&mut self.events);
        self.changed = true;
    }

    pub fn len(&self) -> (r: usize)
        ensures
            r == self.items().len(),
            r <= MAX_EVENTS,
    {
        events_len(&self.events)
    }

    /// Appends an event; when the log is full the oldest event is dropped first.
    pub fn push<T: Into<Event>>(&mut self, event: T)
        ensures
            final(self).changed_flag(),
            T::obeys_into_spec() ==> final(self).items() == push_evicting(old(self).items(), event.into_spec()),
    {
        let event_enum = event.into();
        self.push_event(event_enum);
    }

    /// Appends an event; when the log is full the oldest event is dropped first.
    pub fn push_event(&mut self, event: Event)
        ensures
            final(self).changed_flag(),
            final(self).items() == push_evicting(old(self).items(), event),
    {
        let _ = events_len(&self.events);
        if events_is_full(&self.events) {
            events_remove(&mut self.events, 0);
        }
        let r = events_push(&mut self.events, event);
        assert(r is Ok);
        self.changed = true;
    }

    pub fn to_bytes(&self) -> (r: [u8; EVENTLOG_SIZE])
        ensures
            eventlog_layout(self.items(), r@),
    {
        let mut data = [0u8; EVENTLOG_SIZE];
        let n = events_len(&self.events);
        data[0] = 69;
        data[1] = 76;
        data[2] = 79;
        data[3] = 71;
        put_u32_le(&mut data, 4, n as u32);
        let ghost items = self.items();
        let mut i: usize = 0;
        while i < n
            invariant
                n == items.len(),
                n <= MAX_EVENTS,
                items == self.items(),
                i <= n,
                data@.len() == EVENTLOG_SIZE,
                data@.subrange(0, 4) == eventlog_magic(),
                data@.subrange(4, 8) == u32_le(n as u32),
                forall|k: int|
                    0 <= k < i ==> #[trigger] data@.subrange(8 + 9 * k, 17 + 9 * k) == items[k].spec_bytes(),
                forall|j: int| 8 + 9 * i <= j < EVENTLOG_SIZE ==> data@[j] == 0,
            decreases n - i,
        {
            let offset = EVENTS_HEADER_SIZE + i * EVENT_SIZE;
            let ev = events_at(&self.events, i);
            let eb = ev.to_bytes();
            let ghost before = data@;
            put_bytes(&mut data, offset, &eb);
            assert forall|k: int| 0 <= k < i + 1 implies #[trigger] data@.subrange(8 + 9 * k, 17 + 9 * k)
                == items[k].spec_bytes() by {
                if k < i {
                    assert(data@.subrange(8 + 9 * k, 17 + 9 * k) =~= before.subrange(8 + 9 * k, 17 + 9 * k));
                }
            }
            assert(data@.subrange(0, 4) =~= before.subrange(0, 4));
            assert(data@.subrange(4, 8) =~= before.subrange(4, 8));
            i = i + 1;
        }
        data
    }

    pub fn from_bytes(data: &[u8]) -> (r: Option<Self>)
        ensures
            r is Some <==> eventlog_accepts(data@),
            r matches Some(log) ==> log.items() == decode_events(data@, stored_event_count(data@))
                && !log.changed_flag(),
    {
        if data.len() < EVENTLOG_SIZE {
            return None;
        }
        if data[0] != 69 || data[1] != 76 || data[2] != 79 || data[3] != 71 {
            assert(!(data@.subrange(0, 4) == eventlog_magic())) by {
                if data@.subrange(0, 4) == eventlog_magic() {
                    assert(data@[0] == data@.subrange(0, 4)[0]);
                    assert(data@[1] == data@.subrange(0, 4)[1]);
                    assert(data@[2] == data@.subrange(0, 4)[2]);
                    assert(data@[3] == data@.subrange(0, 4)[3]);
                }
            }
            return None;
        }
        assert(data@.subrange(0, 4) =~= eventlog_magic());
        let mut log = Self { events: events_new(), changed: false };
        let stored = get_u32_le(data, 4);
        let num_events: usize = if (stored as usize) < MAX_EVENTS { stored as usize } else { MAX_EVENTS };
        let mut i: usize = 0;
        while i < num_events
            invariant
                data@.len() >= EVENTLOG_SIZE,
                num_events <= MAX_EVENTS,
                i <= num_events,
                log.items() == decode_events(data@, i as nat),
                log.items().len() <= i,
                !log.changed,
            decreases num_events - i,
        {
            let offset = EVENTS_HEADER_SIZE + i * EVENT_SIZE;
            let mut chunk = [0u8; EVENT_SIZE];
            copy_chunk(data, offset, &mut chunk);
            assert(chunk@ == data@.subrange(8 + 9 * i, 8 + 9 * (i + 1)));
            if let Some(event) = Event::from_bytes(&chunk) {
                let r = events_push(&mut log.events, event);
                assert(r is Ok);
            }
            i = i + 1;
        }
        assert(num_events as nat == stored_event_count(data@));
        Some(log)
    }
}

/// Copies the bytes of `src` into `data` at `off`, leaving every other byte as it was.
pub fn put_bytes<const N: usize, const M: usize>(data: &mut [u8; N], off: usize, src: &[u8; M])
    requires
        off + M <= N,
    ensures
        final(data)@.len() == N,
        final(data)@.subrange(off as int, off + M) == src@,
        forall|i: int| 0 <= i < N && !(off <= i < off + M) ==> final(data)@[i] == old(data)@[i],
{
    let mut j: usize = 0;
    while j < M
        invariant
            off + M <= N,
            j <= M,
            data@.len() == N,
            forall|i: int| 0 <= i < j ==> data@[off + i] == src@[i],
            forall|i: int| 0 <= i < N && !(off <= i < off + M) ==> data@[i] == old(data)@[i],
        decreases M - j,
    {
        data[off + j] = src[j];
        j = j + 1;
    }
    assert(data@.subrange(off as int, off + M) =~= src@);
}

/// Copies the `M` bytes of `data` that start at `off` into `out`.
pub fn copy_chunk<const M: usize>(data: &[u8], off: usize, out: &mut [u8; M])
    requires
        off + M <= data@.len(),
    ensures
        final(out)@ == data@.subrange(off as int, off + M),
{
    let len = data.len();
    let mut j: usize = 0;
    while j < M
        invariant
            off + M <= data@.len(),
            len == data@.len(),
            j <= M,
            out@.len() == M,
            forall|i: int| 0 <= i < j ==> out@[i] == data@[off + i],
        decreases M - j,
    {
        out[j] = data[off + j];
        j = j + 1;
    }
    assert(out@ =~= data@.subrange(off as int, off + M));
}

/// What is written to flash is what is read back: decoding an encoded event log
/// gives its events.
pub proof fn lemma_eventlog_roundtrip(events: Seq<Event>, b: Seq<u8>)
    requires
        events.len() <= MAX_EVENTS,
        eventlog_layout(events, b),
    ensures
        eventlog_accepts(b),
        stored_event_count(b) == events.len(),
        decode_events(b, events.len()) == events,
{
    lemma_u32_le_roundtrip(events.len() as u32, b, 4);
    lemma_decode_prefix(events, b, events.len());
    assert(events.take(events.len() as int) =~= events);
}

proof fn lemma_decode_prefix(events: Seq<Event>, b: Seq<u8>, n: nat)
    requires
        events.len() <= MAX_EVENTS,
        n <= events.len(),
        eventlog_layout(events, b),
    ensures
        decode_events(b, n) == events.take(n as int),
    decreases n,
{
    if n > 0 {
        lemma_decode_prefix(events, b, (n - 1) as nat);
        let k = n - 1;
        assert(b.subrange(8 + 9 * k, 17 + 9 * k) == events[k].spec_bytes());
        assert(b.subrange(8 + 9 * (n - 1), 8 + 9 * (n as int)) == b.subrange(8 + 9 * k, 17 + 9 * k));
        lemma_event_roundtrip(events[k]);
        assert(events.take(n as int) =~= events.take(k).push(events[k]));
    }
}

} // verus!
