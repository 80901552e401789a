//! What the kernel reports: watch handles and events, and how the events are
//! read out of the bytes that the kernel hands over.

use crate::mask::INotifyMask;
use crate::path::views;
use vstd::prelude::*;

verus! {

/// The number by which the kernel names one watch of one inotify instance.
#[derive(PartialEq, Eq, Structural, Debug, Clone, Copy, PartialOrd, Ord, Hash)]
pub struct WatchHandle(pub i32);

impl WatchHandle {
    /// The handle for a descriptor that the kernel returned.
    pub fn new(descriptor: i32) -> (h: WatchHandle)
        ensures
            h == WatchHandle(descriptor),
    {
        WatchHandle(descriptor)
    }

    /// The kernel's descriptor.
    pub fn descriptor(&self) -> (d: i32)
        ensures
            d == self.0,
    {
        self.0
    }
}

/// One event as the kernel reported it, its name without the padding.
#[derive(Debug)]
pub struct INotifyEvent {
    pub watch_descriptor: WatchHandle,
    pub mask: INotifyMask,
    pub cookie: u32,
    pub name: Vec<u8>,
}

/// An event as a mathematical value.
pub struct EventView {
    pub watch_descriptor: WatchHandle,
    pub mask: INotifyMask,
    pub cookie: u32,
    pub name: Seq<u8>,
}

impl View for INotifyEvent {
    type V = EventView;

    open spec fn view(&self) -> EventView {
        EventView {
            watch_descriptor: self.watch_descriptor,
            mask: self.mask,
            cookie: self.cookie,
            name: self.name@,
        }
    }
}

/// The length of the fixed part of a record: descriptor, mask, cookie and the
/// length of the name, four bytes each.
pub const HEADER_LEN: usize = 16;

/// The longest name of a directory entry.
pub const NAME_MAX: usize = 255;

/// The size of a buffer that holds any single record: the header, a name of
/// the greatest length, and the byte that ends it.
pub const BUFFER_LEN: usize = 272;

/// `BUFFER_LEN` is the header, the longest name and one byte more.
pub proof fn lemma_buffer_len()
    ensures
        BUFFER_LEN == HEADER_LEN + NAME_MAX + 1,
{
}

/// The four bytes from `at` as a number, in the byte order given.
pub open spec fn word_at(buf: Seq<u8>, at: int, big_endian: bool) -> int {
    if big_endian {
        buf[at] * 0x100_0000 + buf[at + 1] * 0x1_0000 + buf[at + 2] * 0x100 + buf[at + 3]
    } else {
        buf[at] + buf[at + 1] * 0x100 + buf[at + 2] * 0x1_0000 + buf[at + 3] * 0x100_0000
    }
}

/// A 32-bit word read as a signed number.
pub open spec fn signed(word: int) -> int {
    if word < 0x8000_0000 {
        word
    } else {
        word - 0x1_0000_0000
    }
}

/// A name without the zero bytes at its end.
pub open spec fn trimmed(name: Seq<u8>) -> Seq<u8>
    decreases name.len(),
{
    if name.len() > 0 && name.last() == 0 {
        trimmed(name.drop_last())
    } else {
        name
    }
}

/// Whether the bytes begin with a whole record: a header and as many bytes
/// behind it as the header says the name takes.
pub open spec fn has_record(buf: Seq<u8>, big_endian: bool) -> bool {
    buf.len() >= HEADER_LEN && buf.len() - HEADER_LEN >= word_at(buf, 12, big_endian)
}

/// The length of the record that the bytes begin with.
pub open spec fn record_len(buf: Seq<u8>, big_endian: bool) -> int {
    HEADER_LEN + word_at(buf, 12, big_endian)
}

/// The event of the record that the bytes begin with.
pub open spec fn first_event(buf: Seq<u8>, big_endian: bool) -> EventView {
    EventView {
        watch_descriptor: WatchHandle(signed(word_at(buf, 0, big_endian)) as i32),
        mask: INotifyMask { bits: word_at(buf, 4, big_endian) as u32 },
        cookie: word_at(buf, 8, big_endian) as u32,
        name: trimmed(buf.subrange(HEADER_LEN as int, record_len(buf, big_endian))),
    }
}

/// The events of the whole records at the start of the bytes, in order.
pub open spec fn decoded(buf: Seq<u8>, big_endian: bool) -> Seq<EventView>
    decreases buf.len(),
{
    if has_record(buf, big_endian) {
        seq![first_event(buf, big_endian)] + decoded(
            buf.skip(record_len(buf, big_endian)),
            big_endian,
        )
    } else {
        Seq::empty()
    }
}

/// The number of bytes that the whole records at the start take.
pub open spec fn consumed(buf: Seq<u8>, big_endian: bool) -> int
    decreases buf.len(),
{
    if has_record(buf, big_endian) {
        record_len(buf, big_endian) + consumed(
            buf.skip(record_len(buf, big_endian)),
            big_endian,
        )
    } else {
        0
    }
}

/// What one read from the kernel held.
#[derive(Debug)]
pub struct Decoded {
    /// The events of the whole records, in the kernel's order.
    pub events: Vec<INotifyEvent>,
    /// The number of bytes that those records take. Where it is less than
    /// what was read, the rest is no whole record and was left alone.
    pub consumed: usize,
}

fn read_word(buf: &Vec<u8>, at: usize, big_endian: bool) -> (w: u32)
    requires
        at + 4 <= buf.len(),
    ensures
        w == word_at(buf@, at as int, big_endian),
{
    let a: u32 = buf[at] as u32;
    let b: u32 = buf[at + 1] as u32;
    let c: u32 = buf[at + 2] as u32;
    let d: u32 = buf[at + 3] as u32;
    if big_endian {
        a * 0x100_0000 + b * 0x1_0000 + c * 0x100 + d
    } else {
        a + b * 0x100 + c * 0x1_0000 + d * 0x100_0000
    }
}

fn read_name(buf: &Vec<u8>, from: usize, to: usize) -> (name: Vec<u8>)
    requires
        from <= to <= buf.len(),
    ensures
        name@ == trimmed(buf@.subrange(from as int, to as int)),
{
    let mut end: usize = to;
    while end > from && buf[end - 1] == 0
        invariant
            from <= end <= to,
            to <= buf.len(),
            trimmed(buf@.subrange(from as int, end as int)) == trimmed(
                buf@.subrange(from as int, to as int),
            ),
        decreases end,
    {
        proof {
            let whole = buf@.subrange(from as int, end as int);
            assert(whole.last() == 0);
            assert(whole.drop_last() =~= buf@.subrange(from as int, end - 1));
        }
        end -= 1;
    }
    proof {
        let kept = buf@.subrange(from as int, end as int);
        if kept.len() > 0 {
            assert(kept.last() == buf@[end - 1]);
        }
        assert(trimmed(kept) == kept);
    }
    let mut name: Vec<u8> = Vec::new();
    let mut i: usize = from;
    while i < end
        invariant
            from <= i <= end,
            end <= buf.len(),
            name@ == buf@.subrange(from as int, i as int),
        decreases end - i,
    {
        name.push(buf[i]);
        assert(buf@.subrange(from as int, i + 1) =~= buf@.subrange(from as int, i as int).push(
            buf@[i as int],
        ));
        i += 1;
    }
    name
}

proof fn lemma_word_skip(buf: Seq<u8>, at: int, off: int, big_endian: bool)
    requires
        0 <= at,
        0 <= off,
        at + off + 4 <= buf.len(),
    ensures
        word_at(buf.skip(at), off, big_endian) == word_at(buf, at + off, big_endian),
{
    let rest = buf.skip(at);
    assert(rest[off] == buf[at + off]);
    assert(rest[off + 1] == buf[at + off + 1]);
    assert(rest[off + 2] == buf[at + off + 2]);
    assert(rest[off + 3] == buf[at + off + 3]);
}

/// The record that begins at `at`, if a whole one does, with the place where
/// it ends.
fn read_record(buf: &Vec<u8>, at: usize, big_endian: bool) -> (r: Option<(INotifyEvent, usize)>)
    requires
        at <= buf.len(),
    ensures
        r.is_some() == has_record(buf@.skip(at as int), big_endian),
        r.is_some() ==> r.unwrap().0@ == first_event(buf@.skip(at as int), big_endian),
        r.is_some() ==> r.unwrap().1 == at + record_len(buf@.skip(at as int), big_endian),
        r.is_some() ==> at < r.unwrap().1 <= buf.len(),
{
    let ghost rest = buf@.skip(at as int);
    if buf.len() - at < HEADER_LEN {
        return None;
    }
    proof {
        lemma_word_skip(buf@, at as int, 0, big_endian);
        lemma_word_skip(buf@, at as int, 4, big_endian);
        lemma_word_skip(buf@, at as int, 8, big_endian);
        lemma_word_skip(buf@, at as int, 12, big_endian);
    }
    let descriptor = read_word(buf, at, big_endian);
    let mask = read_word(buf, at + 4, big_endian);
    let cookie = read_word(buf, at + 8, big_endian);
    let name_len = read_word(buf, at + 12, big_endian);
    if (buf.len() - at - HEADER_LEN) < name_len as usize {
        return None;
    }
    let start = at + HEADER_LEN;
    let end = start + name_len as usize;
    let name = read_name(buf, start, end);
    let handle: i32 = if descriptor < 0x8000_0000 {
        descriptor as i32
    } else {
        (descriptor as i64 - 0x1_0000_0000) as i32
    };
    assert(rest.subrange(HEADER_LEN as int, record_len(rest, big_endian)) =~= buf@.subrange(
        start as int,
        end as int,
    ));
    Some(
        (
            INotifyEvent {
                watch_descriptor: WatchHandle(handle),
                mask: INotifyMask::from_bits(mask),
                cookie,
                name,
            },
            end,
        ),
    )
}

/// Reads the events out of the bytes of one read.
///
/// Each record is a header of four words in the machine's byte order, which
/// `big_endian` names, and a name padded with zero bytes. Every whole record
/// gives one event, its name without the padding. Reading stops at the first
/// place where no whole record begins; `consumed` tells how far that is.
pub fn decode_events(buf: &Vec<u8>, big_endian: bool) -> (r: Decoded)
    ensures
        views(r.events@) == decoded(buf@, big_endian),
        r.consumed == consumed(buf@, big_endian),
        r.consumed <= buf.len(),
{
    let mut events: Vec<INotifyEvent> = Vec::new();
    let mut at: usize = 0;
    assert(buf@.skip(0) =~= buf@);
    assert(views(events@) =~= Seq::empty());
    loop
        invariant
            at <= buf.len(),
            decoded(buf@, big_endian) == views(events@) + decoded(
                buf@.skip(at as int),
                big_endian,
            ),
            consumed(buf@, big_endian) == at + consumed(buf@.skip(at as int), big_endian),
        decreases buf.len() - at,
    {
        let ghost rest = buf@.skip(at as int);
        match read_record(buf, at, big_endian) {
            None => {
                assert(views(events@) + Seq::<EventView>::empty() =~= views(events@));
                return Decoded { events, consumed: at };
            },
            Some((event, end)) => {
                let ghost before = views(events@);
                let ghost first = event@;
                events.push(event);
                proof {
                    assert(rest.skip(record_len(rest, big_endian)) =~= buf@.skip(end as int));
                    assert(views(events@) =~= before.push(first));
                    assert(before + (seq![first] + decoded(buf@.skip(end as int), big_endian))
                        =~= views(events@) + decoded(buf@.skip(end as int), big_endian));
                }
                at = end;
            },
        }
    }
}

} // verus!
