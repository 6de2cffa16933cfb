//! The messages between the daemon, the prompt helper and control clients, and
//! their framing: a 4-byte big-endian length, then that many bytes of body.

use vstd::prelude::*;

verus! {

/// Asks the user to decide on a file access.
#[derive(Debug, Clone, PartialEq, Eq)]
pub struct PromptRequest {
    /// PID of the accessing process.
    pub pid: u32,
    /// Resolved executable path, or `<unresolved>`.
    pub exe: String,
    /// Full command line, arguments joined with spaces.
    pub cmdline: String,
    /// Working directory of the process; context for the human.
    pub cwd: String,
    /// The watched path being accessed.
    pub path: String,
    /// What an "Always" rule would cover: the exact file, or the root of a tree.
    pub always_object: String,
    /// Whether the rule covers every file under `always_object`.
    pub always_tree: bool,
    /// Whether the rule is limited to the working directory.
    pub always_cwd_pinned: bool,
    /// Milliseconds within which the helper must answer; `0` leaves it to the
    /// helper. Kept below the daemon's own timeout, so that a late click is never
    /// taken for the answer to the next access.
    pub ui_timeout_ms: u32,
}

/// The user's decision for a single access. The `Always` ones also leave a rule.
#[derive(Debug, Clone, Copy, PartialEq, Eq, Structural)]
pub enum Decision {
    AllowOnce,
    DenyOnce,
    AllowAlways,
    DenyAlways,
}

impl Decision {
    /// Whether this decision permits the access.
    pub open spec fn permits(self) -> bool {
        self == Decision::AllowOnce || self == Decision::AllowAlways
    }

    /// Whether this decision permits the access.
    pub fn allows(self) -> (r: bool)
        ensures
            r == self.permits(),
    {
        matches!(self, Decision::AllowOnce | Decision::AllowAlways)
    }
}

/// The helper's reply to a [`PromptRequest`].
#[derive(Debug, Clone, Copy, PartialEq, Eq, Structural)]
pub struct PromptResponse {
    pub decision: Decision,
}

/// Whether a marked object is a single file or a directory.
#[derive(Debug, Clone, Copy, PartialEq, Eq, Structural)]
pub enum ObjKind {
    File,
    Dir,
}

/// One object the daemon protects.
#[derive(Debug, Clone, PartialEq, Eq)]
pub struct WatchedObject {
    pub path: String,
    pub kind: ObjKind,
    pub recursive: bool,
    /// Root of the watch that covers this object.
    pub watch: String,
    /// Whether the mark is in place.
    pub fanotify: bool,
    /// Whether new subdirectories are marked as they appear; nothing for files.
    pub live_marked: Option<bool>,
}

/// A request of a control client.
#[derive(Debug, Clone, Copy, PartialEq, Eq, Structural)]
pub enum ControlRequest {
    /// Report every object under protection.
    Dump,
}

/// The reply to [`ControlRequest::Dump`].
#[derive(Debug, Clone, PartialEq, Eq)]
pub struct DumpResponse {
    /// The daemon's PID.
    pub pid: u32,
    /// Unix time of the snapshot.
    pub generated_unix: u64,
    pub objects: Vec<WatchedObject>,
}

/// Longest body on the prompt channel.
pub const MAX_MSG_LEN: u32 = 65_536;

/// Longest body on the control channel: a dump of a large tree is long.
pub const MAX_CONTROL_MSG_LEN: u32 = 8_388_608;

/// Why a message could not be framed or read.
#[derive(Debug, Clone, Copy, PartialEq, Eq, Structural)]
pub enum FrameError {
    /// The stream ended between messages or inside one.
    UnexpectedEof,
    /// The body is longer than the channel permits.
    TooLarge,
}

/// The four bytes of a length, the most significant first.
pub open spec fn be_bytes(n: nat) -> Seq<u8> {
    seq![
        ((n / 0x100_0000) % 0x100) as u8,
        ((n / 0x1_0000) % 0x100) as u8,
        ((n / 0x100) % 0x100) as u8,
        (n % 0x100) as u8,
    ]
}

/// The length that four bytes spell.
pub open spec fn be_value(b: Seq<u8>) -> nat {
    (0x100_0000 * b[0] + 0x1_0000 * b[1] + 0x100 * b[2] + b[3]) as nat
}

/// A body with its length in front.
pub open spec fn framed(body: Seq<u8>) -> Seq<u8> {
    be_bytes(body.len()) + body
}

/// The header for a body of `len` bytes.
pub fn frame_header(len: usize, max: u32) -> (r: Result<Vec<u8>, FrameError>)
    ensures
        r matches Ok(h) ==> len <= max && h@ == be_bytes(len as nat),
        r matches Err(e) ==> len > max && e == FrameError::TooLarge,
{
    if len > max as usize {
        return Err(FrameError::TooLarge);
    }
    let n: u32 = len as u32;
    Ok(
        vec![
            ((n / 0x100_0000) % 0x100) as u8,
            ((n / 0x1_0000) % 0x100) as u8,
            ((n / 0x100) % 0x100) as u8,
            (n % 0x100) as u8,
        ],
    )
}

/// The length of the body that a header announces.
pub fn announced_len(b0: u8, b1: u8, b2: u8, b3: u8, max: u32) -> (r: Result<u32, FrameError>)
    ensures
        r matches Ok(n) ==> n == be_value(seq![b0, b1, b2, b3]) && n <= max,
        r matches Err(e) ==> be_value(seq![b0, b1, b2, b3]) > max && e == FrameError::TooLarge,
{
    let n: u32 = 0x100_0000 * (b0 as u32) + 0x1_0000 * (b1 as u32) + 0x100 * (b2 as u32) + (
    b3 as u32);
    if n > max {
        Err(FrameError::TooLarge)
    } else {
        Ok(n)
    }
}

/// Appends `body`, framed, to `w`; refuses one longer than `max`.
pub fn write_msg_capped(w: &mut Vec<u8>, body: &Vec<u8>, max: u32) -> (r: Result<(), FrameError>)
    ensures
        r matches Ok(_) ==> body@.len() <= max && final(w)@ == old(w)@ + framed(body@),
        r matches Err(e) ==> body@.len() > max && e == FrameError::TooLarge && final(w)@ == old(w)@,
{
    let mut header = match frame_header(body.len(), max) {
        Ok(h) => h,
        Err(e) => {
            return Err(e);
        },
    };
    w.append(&mut header);
    w.extend_from_slice(body.as_slice());
    assert(w@ =~= old(w)@ + framed(body@));
    Ok(())
}

/// Bytes with a reading position.
#[derive(Debug)]
pub struct Reader {
    bytes: Vec<u8>,
    pos: usize,
}

impl Reader {
    /// The bytes not read yet.
    pub closed spec fn rest(&self) -> Seq<u8> {
        self.bytes@.skip(self.pos as int)
    }

    #[verifier::type_invariant]
    spec fn inside(&self) -> bool {
        self.pos <= self.bytes@.len()
    }

    /// A reader at the start of `bytes`.
    pub fn new(bytes: Vec<u8>) -> (r: Reader)
        ensures
            r.rest() == bytes@,
    {
        let r = Reader { bytes, pos: 0 };
        assert(r.rest() =~= bytes@);
        r
    }

    /// How many bytes are left.
    pub fn left(&self) -> (r: usize)
        ensures
            r == self.rest().len(),
    {
        proof {
            use_type_invariant(self);
        }
        self.bytes.len() - self.pos
    }

    /// Takes the next `n` bytes; short of that, moves to the end.
    fn take(&mut self, n: usize) -> (r: Result<Vec<u8>, FrameError>)
        ensures
            r matches Ok(b) ==> n <= old(self).rest().len() && b@ == old(self).rest().take(n as int)
                && final(self).rest() == old(self).rest().skip(n as int),
            r matches Err(e) ==> n > old(self).rest().len() && e == FrameError::UnexpectedEof
                && final(self).rest().len() == 0,
    {
        proof {
            use_type_invariant(&*self);
        }
        let ghost before = self.rest();
        let end = self.bytes.len();
        if n > end - self.pos {
            self.pos = end;
            return Err(FrameError::UnexpectedEof);
        }
        let start = self.pos;
        let mut out: Vec<u8> = Vec::new();
        let mut i: usize = 0;
        while i < n
            invariant
                i <= n,
                start + n <= end,
                end == self.bytes@.len(),
                out@ == self.bytes@.subrange(start as int, start + i),
            decreases n - i,
        {
            out.push(self.bytes[start + i]);
            i += 1;
        }
        self.pos = start + n;
        assert(out@ =~= before.take(n as int));
        assert(self.rest() =~= before.skip(n as int));
        Ok(out)
    }
}

/// What reading a message from `rest` gives: the body, and what is left.
pub open spec fn parsed(rest: Seq<u8>, max: nat) -> (Result<Seq<u8>, FrameError>, Seq<u8>) {
    let n = be_value(rest.take(4));
    if rest.len() < 4 {
        (Err(FrameError::UnexpectedEof), Seq::empty())
    } else if n > max {
        (Err(FrameError::TooLarge), rest.skip(4))
    } else if rest.len() - 4 < n {
        (Err(FrameError::UnexpectedEof), Seq::empty())
    } else {
        (Ok(rest.subrange(4, 4 + n as int)), rest.skip(4 + n as int))
    }
}

/// The bytes of a read message.
pub open spec fn body_view(r: Result<Vec<u8>, FrameError>) -> Result<Seq<u8>, FrameError> {
    match r {
        Ok(b) => Ok(b@),
        Err(e) => Err(e),
    }
}

/// Reads one message; refuses an announced length over `max`.
pub fn read_msg_capped(r: &mut Reader, max: u32) -> (out: Result<Vec<u8>, FrameError>)
    ensures
        (body_view(out), final(r).rest()) == parsed(old(r).rest(), max as nat),
{
    let ghost rest = r.rest();
    let header = match r.take(4) {
        Ok(h) => h,
        Err(e) => {
            assert(r.rest() =~= Seq::empty());
            return Err(e);
        },
    };
    assert(rest.take(4) =~= seq![header@[0], header@[1], header@[2], header@[3]]);
    let len = match announced_len(header[0], header[1], header[2], header[3], max) {
        Ok(n) => n,
        Err(e) => {
            return Err(e);
        },
    };
    match r.take(len as usize) {
        Ok(body) => {
            assert(body@ =~= rest.subrange(4, 4 + len as int));
            assert(r.rest() =~= rest.skip(4 + len as int));
            Ok(body)
        },
        Err(e) => {
            assert(r.rest() =~= Seq::empty());
            Err(e)
        },
    }
}

/// Appends a message of the prompt channel.
pub fn write_msg(w: &mut Vec<u8>, body: &Vec<u8>) -> (r: Result<(), FrameError>)
    ensures
        r matches Ok(_) ==> body@.len() <= MAX_MSG_LEN && final(w)@ == old(w)@ + framed(body@),
        r matches Err(e) ==> body@.len() > MAX_MSG_LEN && e == FrameError::TooLarge && final(w)@
            == old(w)@,
{
    write_msg_capped(w, body, MAX_MSG_LEN)
}

/// Reads a message of the prompt channel.
pub fn read_msg(r: &mut Reader) -> (out: Result<Vec<u8>, FrameError>)
    ensures
        (body_view(out), final(r).rest()) == parsed(old(r).rest(), MAX_MSG_LEN as nat),
{
    read_msg_capped(r, MAX_MSG_LEN)
}

/// A length survives its four bytes.
pub proof fn length_roundtrip(n: nat)
    requires
        n <= u32::MAX,
    ensures
        be_bytes(n).len() == 4,
        be_value(be_bytes(n)) == n,
{
}

/// Reading gives back what was written, and leaves what follows it.
pub proof fn reading_undoes_writing(body: Seq<u8>, tail: Seq<u8>, max: nat)
    requires
        body.len() <= max,
        max <= u32::MAX,
    ensures
        parsed(framed(body) + tail, max) == (Ok::<Seq<u8>, FrameError>(body), tail),
{
    let rest = framed(body) + tail;
    length_roundtrip(body.len());
    assert(rest.take(4) =~= be_bytes(body.len()));
    assert(rest.subrange(4, 4 + body.len() as int) =~= body);
    assert(rest.skip(4 + body.len() as int) =~= tail);
}

/// Messages written one after the other are read in that order.
pub proof fn messages_keep_their_order(a: Seq<u8>, b: Seq<u8>, tail: Seq<u8>, max: nat)
    requires
        a.len() <= max,
        b.len() <= max,
        max <= u32::MAX,
    ensures
        ({
            let first = parsed(framed(a) + framed(b) + tail, max);
            &&& first.0 == Ok::<Seq<u8>, FrameError>(a)
            &&& parsed(first.1, max) == (Ok::<Seq<u8>, FrameError>(b), tail)
        }),
{
    assert(framed(a) + framed(b) + tail =~= framed(a) + (framed(b) + tail));
    reading_undoes_writing(a, framed(b) + tail, max);
    reading_undoes_writing(b, tail, max);
}

/// A message cut short anywhere, header or body, reads as the end of the stream.
pub proof fn cut_message_is_eof(body: Seq<u8>, keep: int, max: nat)
    requires
        body.len() <= max,
        max <= u32::MAX,
        0 <= keep < framed(body).len(),
    ensures
        parsed(framed(body).take(keep), max).0 == Err::<Seq<u8>, FrameError>(
            FrameError::UnexpectedEof,
        ),
{
    length_roundtrip(body.len());
    let rest = framed(body).take(keep);
    if keep >= 4 {
        assert(rest.take(4) =~= be_bytes(body.len()));
    }
}

/// An announced length over the limit is refused before any body is read.
pub proof fn oversized_length_is_refused(n: nat, tail: Seq<u8>, max: nat)
    requires
        max < n <= u32::MAX,
    ensures
        parsed(be_bytes(n) + tail, max) == (
            Err::<Seq<u8>, FrameError>(FrameError::TooLarge),
            tail,
        ),
{
    length_roundtrip(n);
    let rest = be_bytes(n) + tail;
    assert(rest.take(4) =~= be_bytes(n));
    assert(rest.skip(4) =~= tail);
}

/// The two allowances permit the access, and the two denials do not.
pub proof fn decisions_are_what_they_say()
    ensures
        Decision::AllowOnce.permits(),
        Decision::AllowAlways.permits(),
        !Decision::DenyOnce.permits(),
        !Decision::DenyAlways.permits(),
        forall|d: Decision, r: bool| #[trigger]
            call_ensures(Decision::allows, (d,), r) ==> r == (d == Decision::AllowOnce || d
                == Decision::AllowAlways),
{
}

/// Lengths are sent most significant byte first: one more low byte moves the others to
/// the front.
pub proof fn length_is_sent_high_byte_first(n: nat, low: u8)
    requires
        n < 0x100_0000,
    ensures
        be_bytes(256 * n + low as nat) == be_bytes(n).drop_first().push(low),
        be_bytes(n)[0] == 0,
        be_bytes(low as nat) == seq![0u8, 0u8, 0u8, low],
{
    let m = 256 * n + low as nat;
    assert(m / 0x100 == n && m % 0x100 == low);
    assert(m / 0x1_0000 == n / 0x100);
    assert(m / 0x100_0000 == n / 0x1_0000);
    assert(be_bytes(m) =~= be_bytes(n).drop_first().push(low));
    assert(n / 0x100_0000 == 0);
    assert(be_bytes(low as nat) =~= seq![0u8, 0u8, 0u8, low]);
}

/// A message takes four bytes more than its body, and the body stands at its end.
pub proof fn message_ends_with_its_body(body: Seq<u8>)
    ensures
        framed(body).len() == body.len() + 4,
        framed(body).skip(4) == body,
        framed(body).take(4) == be_bytes(body.len()),
{
    assert(framed(body).skip(4) =~= body);
    assert(framed(body).take(4) =~= be_bytes(body.len()));
}

/// Whatever is read is the body that its header announces, no longer than the limit;
/// what stands behind it is left for the next reading.
pub proof fn read_message_was_there(rest: Seq<u8>, max: nat, body: Seq<u8>, left: Seq<u8>)
    requires
        max <= u32::MAX,
        parsed(rest, max) == (Ok::<Seq<u8>, FrameError>(body), left),
    ensures
        body.len() <= max,
        rest.skip(4) == body + left,
        be_value(rest.take(4)) == body.len(),
{
    assert(rest.skip(4) =~= body + left);
}

/// A header is made for every length up to the limit, and for no other.
pub proof fn header_announces_the_length(len: usize, max: u32, r: Result<Vec<u8>, FrameError>)
    requires
        call_ensures(frame_header, (len, max), r),
    ensures
        r is Ok <==> len <= max,
        r matches Ok(h) ==> h@ == be_bytes(len as nat) && be_value(h@) == len,
        r matches Err(e) ==> e == FrameError::TooLarge,
{
    if len <= max {
        length_roundtrip(len as nat);
    }
}

/// The length in a header is taken as announced up to the limit, and refused beyond.
pub proof fn announced_length_is_read(n: u32, max: u32, r: Result<u32, FrameError>)
    requires
        call_ensures(
            announced_len,
            (
                be_bytes(n as nat)[0],
                be_bytes(n as nat)[1],
                be_bytes(n as nat)[2],
                be_bytes(n as nat)[3],
                max,
            ),
            r,
        ),
    ensures
        r == (if n <= max {
            Ok::<u32, FrameError>(n)
        } else {
            Err::<u32, FrameError>(FrameError::TooLarge)
        }),
{
    let b = be_bytes(n as nat);
    length_roundtrip(n as nat);
    assert(b =~= seq![b[0], b[1], b[2], b[3]]);
}

/// The prompt channel takes bodies of 64 KiB at most; the control channel 8 MiB.
pub proof fn channel_limits(body: Seq<u8>, tail: Seq<u8>)
    ensures
        body.len() <= 64 * 1024 ==> parsed(framed(body) + tail, MAX_MSG_LEN as nat) == (
            Ok::<Seq<u8>, FrameError>(body),
            tail,
        ),
        64 * 1024 < body.len() <= u32::MAX ==> parsed(
            framed(body) + tail,
            MAX_MSG_LEN as nat,
        ).0 == Err::<Seq<u8>, FrameError>(FrameError::TooLarge),
        body.len() <= 8 * 1024 * 1024 ==> parsed(
            framed(body) + tail,
            MAX_CONTROL_MSG_LEN as nat,
        ) == (Ok::<Seq<u8>, FrameError>(body), tail),
        8 * 1024 * 1024 < body.len() <= u32::MAX ==> parsed(
            framed(body) + tail,
            MAX_CONTROL_MSG_LEN as nat,
        ).0 == Err::<Seq<u8>, FrameError>(FrameError::TooLarge),
{
    if body.len() <= u32::MAX {
        if body.len() <= 64 * 1024 {
            reading_undoes_writing(body, tail, MAX_MSG_LEN as nat);
        }
        if body.len() <= 8 * 1024 * 1024 {
            reading_undoes_writing(body, tail, MAX_CONTROL_MSG_LEN as nat);
        }
        assert(framed(body) + tail =~= be_bytes(body.len()) + (body + tail));
        if body.len() > 64 * 1024 {
            oversized_length_is_refused(body.len(), body + tail, MAX_MSG_LEN as nat);
        }
        if body.len() > 8 * 1024 * 1024 {
            oversized_length_is_refused(body.len(), body + tail, MAX_CONTROL_MSG_LEN as nat);
        }
    }
}

/// A message is written behind what was there: four bytes of length and the body; one
/// that is too long is refused, and nothing is written.
pub proof fn message_is_written_whole(
    w: &mut Vec<u8>,
    body: Vec<u8>,
    max: u32,
    r: Result<(), FrameError>,
)
    requires
        call_ensures(write_msg_capped, (w, &body, max), r) || (max == 64 * 1024 && call_ensures(
            write_msg,
            (w, &body),
            r,
        )),
    ensures
        r is Ok <==> body@.len() <= max,
        r matches Err(e) ==> e == FrameError::TooLarge && final(w)@ == old(w)@,
        r is Ok ==> final(w)@.len() == old(w)@.len() + 4 + body@.len() && final(w)@.take(
            old(w)@.len() as int,
        ) == old(w)@ && final(w)@.skip(old(w)@.len() as int + 4) == body@,
        r is Ok ==> be_value(final(w)@.subrange(old(w)@.len() as int, old(w)@.len() as int + 4))
            == body@.len(),
{
    if r is Ok {
        let n = old(w)@.len() as int;
        assert(final(w)@.take(n) =~= old(w)@);
        assert(final(w)@.skip(n + 4) =~= body@);
        assert(final(w)@.subrange(n, n + 4) =~= be_bytes(body@.len()));
        length_roundtrip(body@.len());
    }
}

/// Reading gives back the message that was written and leaves what stands behind it; one
/// that is too long is refused, and one that is cut short is no message.
pub proof fn written_message_is_read(
    reader: &mut Reader,
    max: u32,
    out: Result<Vec<u8>, FrameError>,
    body: Seq<u8>,
    tail: Seq<u8>,
    keep: int,
)
    requires
        call_ensures(read_msg_capped, (reader, max), out) || (max == 64 * 1024 && call_ensures(
            read_msg,
            (reader,),
            out,
        )),
        body.len() <= u32::MAX,
    ensures
        old(reader).rest() == framed(body) + tail && body.len() <= max ==> (out matches Ok(b) && b@
            == body && final(reader).rest() == tail),
        old(reader).rest() == framed(body) + tail && body.len() > max ==> out == Err::<
            Vec<u8>,
            FrameError,
        >(FrameError::TooLarge),
        0 <= keep < framed(body).len() && old(reader).rest() == framed(body).take(keep)
            && body.len() <= max ==> out == Err::<Vec<u8>, FrameError>(FrameError::UnexpectedEof),
{
    if body.len() <= max {
        reading_undoes_writing(body, tail, max as nat);
        if 0 <= keep < framed(body).len() {
            cut_message_is_eof(body, keep, max as nat);
        }
    } else {
        assert(framed(body) + tail =~= be_bytes(body.len()) + (body + tail));
        oversized_length_is_refused(body.len(), body + tail, max as nat);
    }
}

} // verus!
