//! Permission events as the kernel lays them out: a 24-byte head, then info
//! records, one of which may hold a pidfd. Numbers are in machine byte order.

use vstd::prelude::*;

verus! {

/// The event asks for permission to open.
pub const FAN_OPEN_PERM: u64 = 0x0001_0000;

/// A mark on a directory also covers its immediate children.
pub const FAN_EVENT_ON_CHILD: u64 = 0x0800_0000;

pub const FAN_ALLOW: u32 = 1;

pub const FAN_DENY: u32 = 2;

/// Type of the info record that holds a pidfd.
pub const INFO_TYPE_PIDFD: u8 = 4;

/// Size of the head of an event.
pub const HEAD_LEN: usize = 24;

/// Size of the head of an info record.
pub const INFO_LEN: usize = 4;

/// The order of the bytes of a number.
#[derive(Debug, Clone, Copy, PartialEq, Eq, Structural)]
pub enum ByteOrder {
    Little,
    Big,
}

/// A permission event. `fd` is the opened file; both descriptors are the reader's to close.
#[derive(Debug, Clone, Copy, PartialEq, Eq, Structural)]
pub struct Event {
    pub mask: u64,
    pub pid: u32,
    pub fd: i32,
    pub pidfd: Option<i32>,
}

/// The number that bytes spell, the least significant first.
pub open spec fn little(b: Seq<u8>) -> nat
    decreases b.len(),
{
    if b.len() == 0 {
        0
    } else {
        (b[0] + 256 * little(b.drop_first())) as nat
    }
}

/// The number in `size` bytes at `at`.
pub open spec fn number_at(buf: Seq<u8>, at: int, size: int, order: ByteOrder) -> nat {
    match order {
        ByteOrder::Little => little(buf.subrange(at, at + size)),
        ByteOrder::Big => little(buf.subrange(at, at + size).reverse()),
    }
}

/// A 32-bit number read as signed.
pub open spec fn signed(n: nat) -> int {
    if n >= 0x8000_0000 {
        n - 0x1_0000_0000
    } else {
        n as int
    }
}

/// What the info records from `at` to `end` say of a pidfd: the last one counts,
/// and `found` where there is none.
pub open spec fn pidfd_in(buf: Seq<u8>, at: int, end: int, order: ByteOrder, found: int) -> int
    decreases (if at < end { end - at } else { 0 }),
{
    if at + INFO_LEN <= end {
        let now = if buf[at] == INFO_TYPE_PIDFD && at + 8 <= buf.len() {
            signed(number_at(buf, at + 4, 4, order))
        } else {
            found
        };
        let len = number_at(buf, at + 2, 2, order);
        if len == 0 {
            now
        } else {
            pidfd_in(buf, at + len, end, order, now)
        }
    } else {
        found
    }
}

/// The event at `at`, `len` bytes long.
pub open spec fn event_at(buf: Seq<u8>, at: int, len: int, order: ByteOrder) -> Event {
    let pidfd = pidfd_in(buf, at + number_at(buf, at + 6, 2, order), at + len, order, -1);
    Event {
        mask: number_at(buf, at + 8, 8, order) as u64,
        pid: number_at(buf, at + 20, 4, order) as u32,
        fd: signed(number_at(buf, at + 16, 4, order)) as i32,
        pidfd: if pidfd >= 0 {
            Some(pidfd as i32)
        } else {
            None
        },
    }
}

/// The events from `at` on, up to the first that does not fit in `n` bytes.
pub open spec fn events_from(buf: Seq<u8>, n: int, at: int, order: ByteOrder) -> Seq<Event>
    decreases n - at,
{
    let len = number_at(buf, at, 4, order) as int;
    if at + HEAD_LEN <= n && HEAD_LEN <= len && at + len <= n {
        seq![event_at(buf, at, len, order)] + events_from(buf, n, at + len, order)
    } else {
        Seq::empty()
    }
}

/// One more than the largest number of `size` bytes.
pub open spec fn span(size: nat) -> nat
    decreases size,
{
    if size == 0 {
        1
    } else {
        256 * span((size - 1) as nat)
    }
}

proof fn little_bound(b: Seq<u8>)
    ensures
        little(b) < span(b.len()),
    decreases b.len(),
{
    if b.len() > 0 {
        little_bound(b.drop_first());
    }
}

proof fn spans()
    ensures
        span(2) == 0x1_0000,
        span(4) == 0x1_0000_0000,
        span(8) == 0x1_0000_0000_0000_0000,
{
    reveal_with_fuel(span, 9);
}

/// Reads the number in `size` bytes at `at`.
fn read_number(buf: &Vec<u8>, at: usize, size: usize, order: ByteOrder) -> (r: u64)
    requires
        size == 2 || size == 4 || size == 8,
        at + size <= buf@.len(),
    ensures
        r == number_at(buf@, at as int, size as int, order),
        r < span(size as nat),
{
    let ghost piece = buf@.subrange(at as int, at + size);
    let ghost digits = match order {
        ByteOrder::Little => piece,
        ByteOrder::Big => piece.reverse(),
    };
    proof {
        little_bound(digits);
        spans();
    }
    let total = buf.len();
    let mut value: u64 = 0;
    let mut k: usize = size;
    assert(digits.skip(size as int) =~= Seq::<u8>::empty());
    while k > 0
        invariant
            k <= size,
            size <= 8,
            at + size <= total,
            total == buf@.len(),
            piece == buf@.subrange(at as int, at + size),
            digits == (match order {
                ByteOrder::Little => piece,
                ByteOrder::Big => piece.reverse(),
            }),
            value == little(digits.skip(k as int)),
            little(digits) < 0x1_0000_0000_0000_0000,
        decreases k,
    {
        k -= 1;
        let b: u8 = match order {
            ByteOrder::Little => buf[at + k],
            ByteOrder::Big => buf[at + (size - 1 - k)],
        };
        assert(b == digits[k as int]);
        assert(digits.skip(k as int).drop_first() =~= digits.skip(k + 1));
        assert(digits.skip(k as int)[0] == b);
        proof {
            little_tail(digits, k as int);
        }
        value = b as u64 + 256 * value;
    }
    assert(digits.skip(0) =~= digits);
    value
}

proof fn little_tail(b: Seq<u8>, k: int)
    requires
        0 <= k <= b.len(),
    ensures
        little(b.skip(k)) <= little(b),
    decreases k,
{
    if k == 0 {
        assert(b.skip(0) =~= b);
    } else {
        little_tail(b, k - 1);
        assert(b.skip(k - 1).drop_first() =~= b.skip(k));
    }
}

fn as_signed(n: u64) -> (r: i32)
    requires
        n < 0x1_0000_0000,
    ensures
        r == signed(n as nat),
{
    if n >= 0x8000_0000 {
        (n as i64 - 0x1_0000_0000) as i32
    } else {
        n as i32
    }
}

/// Looks for a pidfd among the info records of the event of `len` bytes at `at`.
fn find_pidfd(buf: &Vec<u8>, at: usize, skip: u64, len: u64, order: ByteOrder) -> (r: i32)
    requires
        at + len <= buf@.len(),
        skip < 0x1_0000,
        len < 0x1_0000_0000,
    ensures
        r == pidfd_in(buf@, at + skip, at + len, order, -1),
{
    let total = buf.len();
    let mut found: i32 = -1;
    let mut rel: u64 = skip;
    let ghost goal = pidfd_in(buf@, at + skip, at + len, order, -1);
    while rel + 4 <= len
        invariant
            at + len <= total,
            total == buf@.len(),
            len < 0x1_0000_0000,
            rel < 0x1_0001_0000,
            goal == pidfd_in(buf@, at + rel, at + len, order, found as int),
        ensures
            goal == found,
        decreases len + 0x1_0000 - rel,
    {
        let here = at + rel as usize;
        proof {
            spans();
        }
        if buf[here] == INFO_TYPE_PIDFD && total - here >= 8 {
            found = as_signed(read_number(buf, here + 4, 4, order));
        }
        let step = read_number(buf, here + 2, 2, order);
        if step == 0 {
            break;
        }
        rel += step;
    }
    found
}

/// The events in the first `n` bytes of `buf`.
pub fn parse_events(buf: &Vec<u8>, n: usize, order: ByteOrder) -> (r: Vec<Event>)
    requires
        n <= buf@.len(),
    ensures
        r@ == events_from(buf@, n as int, 0, order),
{
    let mut events: Vec<Event> = Vec::new();
    let mut at: usize = 0;
    let ghost goal = events_from(buf@, n as int, 0, order);
    while n - at >= HEAD_LEN
        invariant
            at <= n <= buf@.len(),
            goal == events_from(buf@, n as int, 0, order),
            goal == events@ + events_from(buf@, n as int, at as int, order),
        ensures
            goal == events@,
        decreases n - at,
    {
        proof {
            spans();
        }
        let len = read_number(buf, at, 4, order);
        if len < HEAD_LEN as u64 || len > (n - at) as u64 {
            assert(goal =~= events@);
            break;
        }
        let head = read_number(buf, at + 6, 2, order);
        let mask = read_number(buf, at + 8, 8, order);
        let fd = as_signed(read_number(buf, at + 16, 4, order));
        let pid = read_number(buf, at + 20, 4, order) as u32;
        let found = find_pidfd(buf, at, head, len, order);
        let pidfd = if found >= 0 { Some(found) } else { None };
        let ghost before = events@;
        events.push(Event { mask, pid, fd, pidfd });
        assert(events@.last() == event_at(buf@, at as int, len as int, order));
        assert(goal =~= events@ + events_from(buf@, n as int, at + len, order));
        at += len as usize;
    }
    events
}

/// The bytes of a number, the least significant first.
pub open spec fn word(n: nat, size: nat) -> Seq<u8>
    decreases size,
{
    if size == 0 {
        Seq::empty()
    } else {
        seq![(n % 256) as u8] + word(n / 256, (size - 1) as nat)
    }
}

/// The bytes of a number in the given order.
pub open spec fn number_bytes(n: nat, size: nat, order: ByteOrder) -> Seq<u8> {
    match order {
        ByteOrder::Little => word(n, size),
        ByteOrder::Big => word(n, size).reverse(),
    }
}

proof fn word_value(n: nat, size: nat)
    requires
        n < span(size),
    ensures
        word(n, size).len() == size,
        little(word(n, size)) == n,
    decreases size,
{
    if size > 0 {
        word_value(n / 256, (size - 1) as nat);
        assert(word(n, size).drop_first() =~= word(n / 256, (size - 1) as nat));
    }
}

/// A number is read back from its bytes, wherever they stand.
proof fn number_read_back(buf: Seq<u8>, at: int, n: nat, size: nat, order: ByteOrder)
    requires
        n < span(size),
        0 <= at,
        at + size <= buf.len(),
        buf.subrange(at, at + size) == number_bytes(n, size, order),
    ensures
        number_at(buf, at, size as int, order) == n,
{
    word_value(n, size);
    assert(word(n, size).reverse().reverse() =~= word(n, size));
}

/// The bytes of `n` with which a 4-byte word is written.
fn word_bytes(n: u32, order: ByteOrder) -> (r: Vec<u8>)
    ensures
        r@ == number_bytes(n as nat, 4, order),
{
    let b0: u8 = (n % 256) as u8;
    let b1: u8 = (n / 256 % 256) as u8;
    let b2: u8 = (n / 256 / 256 % 256) as u8;
    let b3: u8 = (n / 256 / 256 / 256 % 256) as u8;
    proof {
        reveal_with_fuel(word, 5);
        assert(word(n as nat, 4) =~= seq![b0, b1, b2, b3]);
        assert(word(n as nat, 4).reverse() =~= seq![b3, b2, b1, b0]);
    }
    match order {
        ByteOrder::Little => vec![b0, b1, b2, b3],
        ByteOrder::Big => vec![b3, b2, b1, b0],
    }
}

/// A descriptor as the kernel stores it.
pub open spec fn unsigned(n: int) -> nat {
    if n < 0 {
        (n + 0x1_0000_0000) as nat
    } else {
        n as nat
    }
}

fn as_unsigned(n: i32) -> (r: u32)
    ensures
        r == unsigned(n as int),
{
    if n < 0 {
        (n as i64 + 0x1_0000_0000) as u32
    } else {
        n as u32
    }
}

impl Event {
    /// Whether the event asks for permission to open.
    pub fn is_open_perm(&self) -> (r: bool)
        ensures
            r == (self.mask & FAN_OPEN_PERM != 0),
    {
        self.mask & FAN_OPEN_PERM != 0
    }

    /// Whether a pidfd came with the event.
    pub fn has_pidfd(&self) -> (r: bool)
        ensures
            r == (self.pidfd is Some),
    {
        self.pidfd.is_some()
    }
}

/// The answer to an event: its descriptor, then allow or deny.
pub fn response(ev: &Event, allow: bool, order: ByteOrder) -> (r: Vec<u8>)
    ensures
        r@ == number_bytes(unsigned(ev.fd as int), 4, order) + number_bytes(
            if allow {
                FAN_ALLOW as nat
            } else {
                FAN_DENY as nat
            },
            4,
            order,
        ),
{
    let mut out = word_bytes(as_unsigned(ev.fd), order);
    let mut verdict = word_bytes(if allow { FAN_ALLOW } else { FAN_DENY }, order);
    out.append(&mut verdict);
    out
}

/// An answer read back names the event's descriptor and the verdict.
pub proof fn response_reads_back(fd: i32, allow: bool, order: ByteOrder)
    ensures
        ({
            let verdict = if allow {
                FAN_ALLOW as nat
            } else {
                FAN_DENY as nat
            };
            let bytes = number_bytes(unsigned(fd as int), 4, order) + number_bytes(
                verdict,
                4,
                order,
            );
            &&& bytes.len() == 8
            &&& signed(number_at(bytes, 0, 4, order)) == fd
            &&& number_at(bytes, 4, 4, order) == verdict
        }),
{
    spans();
    let verdict = if allow {
        FAN_ALLOW as nat
    } else {
        FAN_DENY as nat
    };
    let a = number_bytes(unsigned(fd as int), 4, order);
    let b = number_bytes(verdict, 4, order);
    word_value(unsigned(fd as int), 4);
    word_value(verdict, 4);
    assert((a + b).subrange(0, 4) =~= a);
    assert((a + b).subrange(4, 8) =~= b);
    number_read_back(a + b, 0, unsigned(fd as int), 4, order);
    number_read_back(a + b, 4, verdict, 4, order);
}

/// An event as the kernel writes it, with an info record for its pidfd.
#[verifier::opaque]
pub open spec fn laid_out(ev: Event, vers: u8, order: ByteOrder) -> Seq<u8> {
    let info = match ev.pidfd {
        Some(p) => seq![INFO_TYPE_PIDFD, 0u8] + number_bytes(8, 2, order) + number_bytes(
            unsigned(p as int),
            4,
            order,
        ),
        None => Seq::empty(),
    };
    number_bytes(HEAD_LEN as nat + info.len(), 4, order) + seq![vers, 0u8] + number_bytes(
        HEAD_LEN as nat,
        2,
        order,
    ) + number_bytes(ev.mask as nat, 8, order) + number_bytes(unsigned(ev.fd as int), 4, order)
        + number_bytes(ev.pid as nat, 4, order) + info
}

/// The events laid out one after the other.
pub open spec fn laid_out_all(evs: Seq<Event>, vers: u8, order: ByteOrder) -> Seq<u8>
    decreases evs.len(),
{
    if evs.len() == 0 {
        Seq::empty()
    } else {
        laid_out_all(evs.drop_last(), vers, order) + laid_out(evs.last(), vers, order)
    }
}

proof fn laid_out_len(ev: Event, vers: u8, order: ByteOrder)
    ensures
        laid_out(ev, vers, order).len() == (if ev.pidfd is Some {
            32
        } else {
            24int
        }),
{
    reveal(laid_out);
    spans();
    word_value(8, 2);
    word_value(24, 2);
    word_value(ev.mask as nat, 8);
    word_value(unsigned(ev.fd as int), 4);
    word_value(ev.pid as nat, 4);
    if let Some(p) = ev.pidfd {
        word_value(unsigned(p as int), 4);
        word_value(32, 4);
    } else {
        word_value(24, 4);
    }
}

/// An event laid out anywhere in a buffer is read back as it was.
proof fn event_read_back(buf: Seq<u8>, at: int, ev: Event, vers: u8, order: ByteOrder)
    requires
        0 <= at,
        at + laid_out(ev, vers, order).len() <= buf.len(),
        buf.subrange(at, at + laid_out(ev, vers, order).len()) == laid_out(ev, vers, order),
        ev.pidfd matches Some(p) ==> p >= 0,
    ensures
        number_at(buf, at, 4, order) == laid_out(ev, vers, order).len(),
        event_at(buf, at, laid_out(ev, vers, order).len() as int, order) == ev,
{
    reveal(laid_out);
    let bytes = laid_out(ev, vers, order);
    let len = bytes.len() as int;
    laid_out_len(ev, vers, order);
    spans();
    word_value(8, 2);
    word_value(24, 2);
    word_value(ev.mask as nat, 8);
    word_value(unsigned(ev.fd as int), 4);
    word_value(ev.pid as nat, 4);
    word_value(len as nat, 4);
    assert forall|i: int, j: int| 0 <= i <= j <= len implies #[trigger] bytes.subrange(i, j)
        == buf.subrange(at + i, at + j) by {
        assert(bytes.subrange(i, j) =~= buf.subrange(at + i, at + j));
    }
    assert(bytes.subrange(0, 4) =~= number_bytes(len as nat, 4, order));
    assert(bytes.subrange(6, 8) =~= number_bytes(24, 2, order));
    assert(bytes.subrange(8, 16) =~= number_bytes(ev.mask as nat, 8, order));
    assert(bytes.subrange(16, 20) =~= number_bytes(unsigned(ev.fd as int), 4, order));
    assert(bytes.subrange(20, 24) =~= number_bytes(ev.pid as nat, 4, order));
    number_read_back(buf, at, len as nat, 4, order);
    number_read_back(buf, at + 6, 24, 2, order);
    number_read_back(buf, at + 8, ev.mask as nat, 8, order);
    number_read_back(buf, at + 16, unsigned(ev.fd as int), 4, order);
    number_read_back(buf, at + 20, ev.pid as nat, 4, order);
    if let Some(p) = ev.pidfd {
        word_value(unsigned(p as int), 4);
        assert(bytes.subrange(26, 28) =~= number_bytes(8, 2, order));
        assert(bytes.subrange(28, 32) =~= number_bytes(unsigned(p as int), 4, order));
        number_read_back(buf, at + 26, 8, 2, order);
        number_read_back(buf, at + 28, unsigned(p as int), 4, order);
        assert(bytes.subrange(24, 26) =~= seq![INFO_TYPE_PIDFD, 0u8]);
        assert(bytes.subrange(24, 26)[0] == buf[at + 24]);
        assert(pidfd_in(buf, at + 32, at + 32, order, p as int) == p);
        assert(pidfd_in(buf, at + 24, at + 32, order, -1) == p);
    } else {
        assert(pidfd_in(buf, at + 24, at + 24, order, -1) == -1);
    }
}

proof fn events_split(
    buf: Seq<u8>,
    n: int,
    at: int,
    evs: Seq<Event>,
    vers: u8,
    order: ByteOrder,
)
    requires
        0 <= at <= n <= buf.len(),
        buf.subrange(at, n) == laid_out_all(evs, vers, order),
        forall|i: int| 0 <= i < evs.len() ==> ((#[trigger] evs[i]).pidfd matches Some(p) ==> p >= 0),
    ensures
        events_from(buf, n, at, order) == evs,
    decreases evs.len(),
{
    if evs.len() == 0 {
        assert(n == at) by {
            assert(buf.subrange(at, n).len() == 0);
        }
        assert(evs =~= Seq::empty());
    } else {
        let first = evs[0];
        let rest = evs.drop_first();
        let head = laid_out(first, vers, order);
        laid_out_front(evs, vers, order);
        laid_out_len(first, vers, order);
        let len = head.len() as int;
        let tail = laid_out_all(rest, vers, order);
        let span = buf.subrange(at, n);
        assert(span == head + tail);
        assert(span.len() == len + tail.len());
        assert(buf.subrange(at, at + len) =~= span.take(len));
        assert((head + tail).take(len) =~= head);
        event_read_back(buf, at, first, vers, order);
        assert(buf.subrange(at + len, n) =~= span.skip(len));
        assert((head + tail).skip(len) =~= tail);
        assert forall|i: int| 0 <= i < rest.len() implies ((#[trigger] rest[i]).pidfd matches Some(
            p,
        ) ==> p >= 0) by {
            assert(rest[i] == evs[i + 1]);
        }
        events_split(buf, n, at + len, rest, vers, order);
        assert(evs =~= seq![first] + rest);
    }
}

proof fn laid_out_front(evs: Seq<Event>, vers: u8, order: ByteOrder)
    requires
        evs.len() > 0,
    ensures
        laid_out_all(evs, vers, order) == laid_out(evs[0], vers, order) + laid_out_all(
            evs.drop_first(),
            vers,
            order,
        ),
    decreases evs.len(),
{
    let init = evs.drop_last();
    if evs.len() == 1 {
        assert(init =~= Seq::<Event>::empty());
        assert(evs.drop_first() =~= Seq::<Event>::empty());
        assert(laid_out_all(evs, vers, order) =~= laid_out(evs[0], vers, order) + laid_out_all(
            evs.drop_first(),
            vers,
            order,
        ));
    } else {
        laid_out_front(init, vers, order);
        assert(init.drop_first() =~= evs.drop_first().drop_last());
        assert(evs.drop_first().last() == evs.last());
        assert(laid_out_all(evs, vers, order) =~= laid_out(evs[0], vers, order) + laid_out_all(
            evs.drop_first(),
            vers,
            order,
        ));
    }
}

/// Every event the kernel laid out is read back, in order, and no other, whatever
/// stands in the buffer behind what was read.
pub proof fn laid_out_events_are_read_back(
    evs: Seq<Event>,
    vers: u8,
    order: ByteOrder,
    behind: Seq<u8>,
)
    requires
        forall|i: int| 0 <= i < evs.len() ==> ((#[trigger] evs[i]).pidfd matches Some(p) ==> p >= 0),
    ensures
        ({
            let read = laid_out_all(evs, vers, order);
            events_from(read + behind, read.len() as int, 0, order) == evs
        }),
{
    let read = laid_out_all(evs, vers, order);
    let n = read.len() as int;
    assert((read + behind).subrange(0, n) =~= read);
    events_split(read + behind, n, 0, evs, vers, order);
}

/// In little-endian order the low byte comes first, in big-endian order last; one more
/// high byte comes at the other end.
pub proof fn byte_order_is_kept(n: nat, high: u8, size: nat)
    requires
        n < span(size),
    ensures
        number_bytes(n + span(size) * high as nat, size + 1, ByteOrder::Little) == number_bytes(
            n,
            size,
            ByteOrder::Little,
        ).push(high),
        number_bytes(n + span(size) * high as nat, size + 1, ByteOrder::Big) == seq![high]
            + number_bytes(n, size, ByteOrder::Big),
        size > 0 ==> number_bytes(n, size, ByteOrder::Little)[0] == n % 256,
        size > 0 ==> number_bytes(n, size, ByteOrder::Big).last() == n % 256,
        number_bytes(high as nat, 1, ByteOrder::Little) == seq![high],
{
    word_push(n, high, size);
    word_value(n, size);
    let w = word(n, size);
    assert(w.push(high).reverse() =~= seq![high] + w.reverse());
    if size > 0 {
        assert(w[0] == n % 256);
        assert(w.reverse().last() == w[0]);
    }
    reveal_with_fuel(word, 2);
    assert(word(high as nat, 1) =~= seq![high]);
}

proof fn word_push(n: nat, high: u8, size: nat)
    requires
        n < span(size),
    ensures
        word(n + span(size) * high as nat, size + 1) == word(n, size).push(high),
    decreases size,
{
    let m = n + span(size) * high as nat;
    if size == 0 {
        reveal_with_fuel(word, 2);
        assert(span(0) == 1);
        assert(m == high as nat) by (nonlinear_arith)
            requires
                n == 0,
                m == n + span(size) * high as nat,
                span(size) == 1,
        ;
        assert(word(m, 1) =~= word(n, 0).push(high));
    } else {
        let less = (size - 1) as nat;
        let s = span(less);
        assert(span(size) == 256 * s);
        assert(span(size) * high as nat == 256 * (s * high as nat)) by (nonlinear_arith)
            requires
                span(size) == 256 * s,
        ;
        assert(m % 256 == n % 256);
        assert(m / 256 == n / 256 + s * high as nat);
        assert(n / 256 < s);
        word_push(n / 256, high, less);
        assert(word(m, size + 1) =~= seq![(m % 256) as u8] + word(m / 256, size));
        assert(word(m, size + 1) =~= word(n, size).push(high));
    }
}

/// The answer names the descriptor of its event, and allows or denies as told.
pub proof fn answer_says_the_verdict(ev: Event, allow: bool, order: ByteOrder, r: Vec<u8>)
    requires
        call_ensures(response, (&ev, allow, order), r),
    ensures
        r@.len() == 8,
        signed(number_at(r@, 0, 4, order)) == ev.fd,
        allow ==> number_at(r@, 4, 4, order) == 1,
        !allow ==> number_at(r@, 4, 4, order) == 2,
{
    response_reads_back(ev.fd, allow, order);
}

/// Reading the events of the kernel gives them back.
pub proof fn events_are_read(
    evs: Seq<Event>,
    vers: u8,
    order: ByteOrder,
    buf: Vec<u8>,
    n: usize,
    behind: Seq<u8>,
    r: Vec<Event>,
)
    requires
        call_ensures(parse_events, (&buf, n, order), r),
        forall|i: int| 0 <= i < evs.len() ==> ((#[trigger] evs[i]).pidfd matches Some(p) ==> p >= 0),
        buf@ == laid_out_all(evs, vers, order) + behind,
        n == laid_out_all(evs, vers, order).len(),
    ensures
        r@ == evs,
{
    laid_out_events_are_read_back(evs, vers, order, behind);
}

/// An event that is cut short, in its head or behind it, is not read.
pub proof fn cut_events_are_not_read(buf: Seq<u8>, n: int, at: int, order: ByteOrder)
    ensures
        n - at < 24 ==> events_from(buf, n, at, order).len() == 0,
        number_at(buf, at, 4, order) < 24 ==> events_from(buf, n, at, order).len() == 0,
        number_at(buf, at, 4, order) > n - at ==> events_from(buf, n, at, order).len() == 0,
{
}

/// The fields of an event stand at fixed places of its head.
pub proof fn fields_stand_at_their_places(buf: Seq<u8>, at: int, len: int, order: ByteOrder)
    requires
        0 <= at,
        at + 24 <= buf.len(),
    ensures
        event_at(buf, at, len, order).mask == number_at(buf, at + 8, 8, order),
        event_at(buf, at, len, order).fd == signed(number_at(buf, at + 16, 4, order)),
        event_at(buf, at, len, order).pid == number_at(buf, at + 20, 4, order),
        event_at(buf, at, len, order).pidfd matches Some(p) ==> p >= 0,
{
    spans();
    let m = buf.subrange(at + 8, at + 16);
    let f = buf.subrange(at + 16, at + 20);
    let p = buf.subrange(at + 20, at + 24);
    little_bound(m);
    little_bound(m.reverse());
    little_bound(f);
    little_bound(f.reverse());
    little_bound(p);
    little_bound(p.reverse());
    let found = pidfd_in(buf, at + number_at(buf, at + 6, 2, order), at + len, order, -1);
    if found >= 0 {
        pidfd_range(buf, at + number_at(buf, at + 6, 2, order), at + len, order, -1);
    }
}

proof fn pidfd_range(buf: Seq<u8>, at: int, end: int, order: ByteOrder, found: int)
    requires
        -0x8000_0000 <= found < 0x8000_0000,
        0 <= at,
    ensures
        -0x8000_0000 <= pidfd_in(buf, at, end, order, found) < 0x8000_0000,
    decreases (if at < end { end - at } else { 0 }),
{
    if at + INFO_LEN <= end {
        spans();
        let piece = buf.subrange(at + 4, at + 8);
        if at + 8 <= buf.len() {
            little_bound(piece);
            little_bound(piece.reverse());
        }
        let now = if buf[at] == INFO_TYPE_PIDFD && at + 8 <= buf.len() {
            signed(number_at(buf, at + 4, 4, order))
        } else {
            found
        };
        let len = number_at(buf, at + 2, 2, order);
        if len != 0 {
            pidfd_range(buf, at + len, end, order, now);
        }
    }
}

/// Info records of other types are passed over, however many there are.
pub proof fn other_records_are_passed_over(
    buf: Seq<u8>,
    at: int,
    end: int,
    order: ByteOrder,
    found: int,
)
    requires
        at + 4 <= end,
        buf[at] != 4,
        number_at(buf, at + 2, 2, order) > 0,
    ensures
        pidfd_in(buf, at, end, order, found) == pidfd_in(
            buf,
            at + number_at(buf, at + 2, 2, order),
            end,
            order,
            found,
        ),
{
}

/// An event asks for permission to open exactly if it has that flag.
pub proof fn flags_are_read(ev: Event, opens: bool, held: bool)
    requires
        call_ensures(Event::is_open_perm, (&ev,), opens),
        call_ensures(Event::has_pidfd, (&ev,), held),
    ensures
        opens <==> ev.mask & 0x0001_0000 != 0,
        held <==> ev.pidfd is Some,
{
}

/// A record with a process descriptor counts in place of what was found before it; the
/// records end where no further one fits, or at one without a length.
pub proof fn last_process_descriptor_counts(
    buf: Seq<u8>,
    at: int,
    end: int,
    order: ByteOrder,
    found: int,
)
    ensures
        at + 4 > end ==> pidfd_in(buf, at, end, order, found) == found,
        at + 4 <= end && at + 8 <= buf.len() && buf[at] == 4 && number_at(buf, at + 2, 2, order)
            > 0 ==> pidfd_in(buf, at, end, order, found) == pidfd_in(
            buf,
            at + number_at(buf, at + 2, 2, order),
            end,
            order,
            signed(number_at(buf, at + 4, 4, order)),
        ),
        at + 4 <= end && buf[at] != 4 && number_at(buf, at + 2, 2, order) == 0 ==> pidfd_in(
            buf,
            at,
            end,
            order,
            found,
        ) == found,
{
}

} // verus!
