//! What is kept of a response while it streams past: its last bytes, and whether it has ended.
use vstd::prelude::*;
use crate::text::chars_of;

verus! {

/// The last `n` of a sequence.
pub open spec fn last_of(s: Seq<u8>, n: nat) -> Seq<u8> {
    if s.len() <= n {
        s
    } else {
        s.skip(s.len() - n)
    }
}

/// Keeping the last bytes of two pieces one after the other is keeping the last of both together.
pub proof fn last_of_last(a: Seq<u8>, b: Seq<u8>, n: nat)
    ensures
        last_of(last_of(a, n) + b, n) == last_of(a + b, n),
{
    assert(last_of(last_of(a, n) + b, n) =~= last_of(a + b, n));
}

/// The last bytes of a stream, up to a limit, in a ring.
#[derive(Debug)]
pub struct TailCapture {
    buffer: Vec<u8>,
    capacity: usize,
    start: usize,
}

impl TailCapture {
    pub closed spec fn wf(&self) -> bool {
        &&& self.buffer@.len() <= self.capacity
        &&& self.start == 0 || self.start < self.capacity
        &&& self.start != 0 ==> self.buffer@.len() == self.capacity
    }

    pub closed spec fn limit(&self) -> nat {
        self.capacity as nat
    }

    /// The bytes that are kept, the oldest first.
    pub closed spec fn kept(&self) -> Seq<u8> {
        self.buffer@.skip(self.start as int) + self.buffer@.take(self.start as int)
    }

    pub fn new(capacity: usize) -> (r: TailCapture)
        ensures
            r.wf(),
            r.limit() == capacity,
            r.kept() == Seq::<u8>::empty(),
    {
        let r = TailCapture { buffer: Vec::new(), capacity, start: 0 };
        assert(r.kept() =~= Seq::<u8>::empty());
        r
    }

    /// Takes in more of the stream.
    pub fn push(&mut self, bytes: &[u8])
        requires
            old(self).wf(),
        ensures
            final(self).wf(),
            final(self).limit() == old(self).limit(),
            final(self).kept() == last_of(old(self).kept() + bytes@, old(self).limit()),
    {
        let ghost before = self.kept();
        let ghost n = self.limit();
        if self.capacity == 0 {
            assert(last_of(before + bytes@, 0) =~= before);
            return;
        }
        let mut i: usize = 0;
        assert(before + bytes@.take(0) =~= before);
        assert(last_of(before, n) =~= before);
        while i < bytes.len()
            invariant
                i <= bytes.len(),
                self.wf(),
                self.capacity > 0,
                self.limit() == n,
                self.kept() == last_of(before + bytes@.take(i as int), n),
            decreases bytes.len() - i,
        {
            let ghost kept = self.kept();
            let ghost all = before + bytes@.take(i as int);
            proof {
                assert(before + bytes@.take(i as int + 1) =~= all.push(bytes@[i as int]));
            }
            if self.buffer.len() < self.capacity {
                self.buffer.push(bytes[i]);
                assert(self.kept() =~= kept.push(bytes@[i as int]));
            } else {
                let at: usize = self.start;
                self.buffer.set(at, bytes[i]);
                self.start = if at + 1 == self.capacity {
                    0
                } else {
                    at + 1
                };
                assert(self.kept() =~= kept.drop_first().push(bytes@[i as int]));
            }
            assert(self.kept() =~= last_of(all.push(bytes@[i as int]), n));
            i += 1;
        }
        assert(bytes@.take(bytes@.len() as int) =~= bytes@);
    }

    pub fn to_vec(&self) -> (r: Vec<u8>)
        requires
            self.wf(),
        ensures
            r@ == self.kept(),
    {
        let mut r: Vec<u8> = Vec::new();
        let mut i: usize = self.start;
        while i < self.buffer.len()
            invariant
                self.wf(),
                self.start <= i <= self.buffer@.len(),
                r@ == self.buffer@.subrange(self.start as int, i as int),
            decreases self.buffer@.len() - i,
        {
            r.push(self.buffer[i]);
            i += 1;
        }
        let mut k: usize = 0;
        while k < self.start
            invariant
                self.wf(),
                k <= self.start,
                self.start <= self.buffer@.len(),
                r@ == self.buffer@.skip(self.start as int) + self.buffer@.take(k as int),
            decreases self.start - k,
        {
            r.push(self.buffer[k]);
            k += 1;
        }
        r
    }
}

/// All pieces of a stream, one after the other.
pub open spec fn joined_pieces(pieces: Seq<Seq<u8>>) -> Seq<u8>
    decreases pieces.len(),
{
    if pieces.len() == 0 {
        Seq::empty()
    } else {
        joined_pieces(pieces.drop_last()) + pieces.last()
    }
}

/// What is kept after taking in pieces one by one.
pub open spec fn kept_of(pieces: Seq<Seq<u8>>, n: nat) -> Seq<u8>
    decreases pieces.len(),
{
    if pieces.len() == 0 {
        Seq::empty()
    } else {
        last_of(kept_of(pieces.drop_last(), n) + pieces.last(), n)
    }
}

/// What is kept are the last bytes of the whole stream, however it was cut into pieces.
pub proof fn kept_is_the_tail(pieces: Seq<Seq<u8>>, n: nat)
    ensures
        kept_of(pieces, n) == last_of(joined_pieces(pieces), n),
    decreases pieces.len(),
{
    if pieces.len() > 0 {
        kept_is_the_tail(pieces.drop_last(), n);
        last_of_last(joined_pieces(pieces.drop_last()), pieces.last(), n);
    }
}

/// How a streamed response ends.
#[derive(Debug, Clone, Copy, PartialEq, Eq, Structural)]
pub enum SseTerminal {
    Completed,
    Incomplete,
    Failed,
    Error,
}

/// Whether the ASCII text `q` stands at `i`.
pub open spec fn stands_at(bytes: Seq<u8>, q: Seq<char>, i: int) -> bool {
    &&& 0 <= i
    &&& i + q.len() <= bytes.len()
    &&& forall|k: int| 0 <= k < q.len() ==> #[trigger] bytes[i + k] as char == q[k]
}

fn text_at(bytes: &[u8], q: &str, i: usize) -> (r: bool)
    ensures
        r == stands_at(bytes@, q@, i as int),
{
    let chars = chars_of(q);
    if i > bytes.len() || chars.len() > bytes.len() - i {
        return false;
    }
    let mut k: usize = 0;
    while k < chars.len()
        invariant
            k <= chars.len(),
            i + chars.len() <= bytes.len(),
            chars@ == q@,
            forall|j: int| 0 <= j < k ==> #[trigger] bytes@[i + j] as char == q@[j],
        decreases chars.len() - k,
    {
        if bytes[i + k] as char != chars[k] {
            assert(bytes@[i + k as int] as char != q@[k as int]);
            return false;
        }
        k += 1;
    }
    true
}

/// The marker of an event that ends a response, where one stands at `i`.
pub open spec fn terminal_at(bytes: Seq<u8>, i: int) -> Option<SseTerminal> {
    if stands_at(bytes, "\"type\":\"response.completed\""@, i) || stands_at(
        bytes,
        "\"type\": \"response.completed\""@,
        i,
    ) {
        Some(SseTerminal::Completed)
    } else if stands_at(bytes, "\"type\":\"response.incomplete\""@, i) || stands_at(
        bytes,
        "\"type\": \"response.incomplete\""@,
        i,
    ) {
        Some(SseTerminal::Incomplete)
    } else if stands_at(bytes, "\"type\":\"response.failed\""@, i) || stands_at(
        bytes,
        "\"type\": \"response.failed\""@,
        i,
    ) {
        Some(SseTerminal::Failed)
    } else if stands_at(bytes, "\"type\":\"error\""@, i) || stands_at(
        bytes,
        "\"type\": \"error\""@,
        i,
    ) {
        Some(SseTerminal::Error)
    } else {
        None
    }
}

/// Whether `t` is the first marker, at `i`.
pub open spec fn first_terminal(bytes: Seq<u8>, i: int, t: SseTerminal) -> bool {
    &&& terminal_at(bytes, i) == Some(t)
    &&& forall|j: int| 0 <= j < i ==> #[trigger] terminal_at(bytes, j) is None
}

pub open spec fn no_terminal(bytes: Seq<u8>) -> bool {
    forall|j: int| 0 <= j < bytes.len() ==> #[trigger] terminal_at(bytes, j) is None
}

fn marker_at(bytes: &[u8], i: usize) -> (r: Option<SseTerminal>)
    ensures
        r == terminal_at(bytes@, i as int),
{
    if text_at(bytes, "\"type\":\"response.completed\"", i) || text_at(
        bytes,
        "\"type\": \"response.completed\"",
        i,
    ) {
        Some(SseTerminal::Completed)
    } else if text_at(bytes, "\"type\":\"response.incomplete\"", i) || text_at(
        bytes,
        "\"type\": \"response.incomplete\"",
        i,
    ) {
        Some(SseTerminal::Incomplete)
    } else if text_at(bytes, "\"type\":\"response.failed\"", i) || text_at(
        bytes,
        "\"type\": \"response.failed\"",
        i,
    ) {
        Some(SseTerminal::Failed)
    } else if text_at(bytes, "\"type\":\"error\"", i) || text_at(bytes, "\"type\": \"error\"", i) {
        Some(SseTerminal::Error)
    } else {
        None
    }
}

/// The first marker of an event that ends a response.
pub fn find_sse_terminal(bytes: &[u8]) -> (r: Option<(usize, SseTerminal)>)
    ensures
        match r {
            Some((i, t)) => i < bytes@.len() && first_terminal(bytes@, i as int, t),
            None => no_terminal(bytes@),
        },
{
    let mut i: usize = 0;
    while i < bytes.len()
        invariant
            i <= bytes.len(),
            forall|j: int| 0 <= j < i ==> #[trigger] terminal_at(bytes@, j) is None,
        decreases bytes.len() - i,
    {
        if bytes[i] == 34 {
            if let Some(t) = marker_at(bytes, i) {
                return Some((i, t));
            }
        } else {
            proof {
                markers_start_with_a_quote(bytes@, i as int);
            }
        }
        i += 1;
    }
    None
}

/// The eight markers.
pub open spec fn is_marker(q: Seq<char>) -> bool {
    ||| q == "\"type\":\"response.completed\""@
    ||| q == "\"type\": \"response.completed\""@
    ||| q == "\"type\":\"response.incomplete\""@
    ||| q == "\"type\": \"response.incomplete\""@
    ||| q == "\"type\":\"response.failed\""@
    ||| q == "\"type\": \"response.failed\""@
    ||| q == "\"type\":\"error\""@
    ||| q == "\"type\": \"error\""@
}

/// Every marker starts with `"type"`, is at most 64 bytes long, and nowhere else holds a quote that
/// a `t` follows.
proof fn marker_shape(q: Seq<char>)
    requires
        is_marker(q),
    ensures
        14 <= q.len() <= 30,
        q[0] == '"',
        q[1] == 't',
        forall|k: int| 0 < k && k + 1 < q.len() ==> !(#[trigger] q[k] == '"' && q[k + 1] == 't'),
{
    reveal_strlit("\"type\":\"response.completed\"");
    reveal_strlit("\"type\": \"response.completed\"");
    reveal_strlit("\"type\":\"response.incomplete\"");
    reveal_strlit("\"type\": \"response.incomplete\"");
    reveal_strlit("\"type\":\"response.failed\"");
    reveal_strlit("\"type\": \"response.failed\"");
    reveal_strlit("\"type\":\"error\"");
    reveal_strlit("\"type\": \"error\"");
}

/// A marker is found where one of the eight stands.
proof fn terminal_is_a_marker(bytes: Seq<u8>, i: int)
    ensures
        terminal_at(bytes, i) is Some <==> exists|q: Seq<char>|
            is_marker(q) && stands_at(bytes, q, i),
{
    if terminal_at(bytes, i) is None {
        assert forall|q: Seq<char>| is_marker(q) implies !stands_at(bytes, q, i) by {}
    } else {
        assert(is_marker("\"type\":\"response.completed\""@));
        assert(is_marker("\"type\": \"response.completed\""@));
        assert(is_marker("\"type\":\"response.incomplete\""@));
        assert(is_marker("\"type\": \"response.incomplete\""@));
        assert(is_marker("\"type\":\"response.failed\""@));
        assert(is_marker("\"type\": \"response.failed\""@));
        assert(is_marker("\"type\":\"error\""@));
        assert(is_marker("\"type\": \"error\""@));
    }
}

proof fn markers_start_with_a_quote(bytes: Seq<u8>, i: int)
    requires
        0 <= i < bytes.len(),
        bytes[i] != 34,
    ensures
        terminal_at(bytes, i) is None,
{
    terminal_is_a_marker(bytes, i);
    assert forall|q: Seq<char>| is_marker(q) implies !stands_at(bytes, q, i) by {
        marker_shape(q);
        if stands_at(bytes, q, i) {
            assert(bytes[i + 0] as char == q[0]);
        }
    }
}

pub open spec fn blank_line_at(bytes: Seq<u8>, i: int) -> bool {
    ||| 0 <= i && i + 2 <= bytes.len() && bytes[i] == 10 && bytes[i + 1] == 10
    ||| 0 <= i && i + 4 <= bytes.len() && bytes[i] == 13 && bytes[i + 1] == 10 && bytes[i + 2] == 13
        && bytes[i + 3] == 10
}

/// Whether a blank line, which ends an event, is among the bytes.
pub open spec fn has_blank_line(bytes: Seq<u8>) -> bool {
    exists|i: int| blank_line_at(bytes, i)
}

pub fn contains_sse_boundary(bytes: &[u8]) -> (r: bool)
    ensures
        r == has_blank_line(bytes@),
{
    let mut i: usize = 0;
    while i < bytes.len()
        invariant
            i <= bytes.len(),
            forall|j: int| 0 <= j < i ==> !#[trigger] blank_line_at(bytes@, j),
        decreases bytes.len() - i,
    {
        let left: usize = bytes.len() - i;
        if left >= 2 && bytes[i] == 10 && bytes[i + 1] == 10 {
            assert(blank_line_at(bytes@, i as int));
            return true;
        }
        if left >= 4 && bytes[i] == 13 && bytes[i + 1] == 10 && bytes[i + 2] == 13 && bytes[i + 3]
            == 10 {
            assert(blank_line_at(bytes@, i as int));
            return true;
        }
        i += 1;
    }
    false
}

/// The last bytes, up to a limit.
pub fn tail_bytes(bytes: &[u8], limit: usize) -> (r: Vec<u8>)
    ensures
        r@ == last_of(bytes@, limit as nat),
{
    let from: usize = if bytes.len() > limit {
        bytes.len() - limit
    } else {
        0
    };
    bytes_from(bytes, from)
}

fn bytes_from(bytes: &[u8], from: usize) -> (r: Vec<u8>)
    requires
        from <= bytes@.len(),
    ensures
        r@ == bytes@.skip(from as int),
{
    let mut r: Vec<u8> = Vec::new();
    let mut i: usize = from;
    while i < bytes.len()
        invariant
            from <= i <= bytes.len(),
            r@ == bytes@.subrange(from as int, i as int),
        decreases bytes.len() - i,
    {
        r.push(bytes[i]);
        i += 1;
    }
    assert(bytes@.subrange(from as int, bytes@.len() as int) =~= bytes@.skip(from as int));
    r
}

/// Finds the end of a streamed response, however the stream is cut into pieces.
#[derive(Debug, Default)]
pub struct SseTerminalDetector {
    carry: Vec<u8>,
    pending: Option<SseTerminal>,
}

/// What a detector remembers: the end of what it has seen, and a marker whose event goes on.
pub struct DetectorView {
    pub carry: Seq<u8>,
    pub pending: Option<SseTerminal>,
}

impl View for SseTerminalDetector {
    type V = DetectorView;

    closed spec fn view(&self) -> DetectorView {
        DetectorView { carry: self.carry@, pending: self.pending }
    }
}

/// What a detector says of one more piece, and what it remembers then.
pub open spec fn observed(
    d: DetectorView,
    bytes: Seq<u8>,
    r: Option<SseTerminal>,
    after: DetectorView,
) -> bool {
    let combined = d.carry + bytes;
    match d.pending {
        Some(t) => if has_blank_line(combined) {
            r == Some(t) && after.pending is None && after.carry == Seq::<u8>::empty()
        } else {
            r is None && after.pending == Some(t) && after.carry == last_of(combined, 3)
        },
        None => if no_terminal(combined) {
            r is None && after.pending is None && after.carry == last_of(combined, 64)
        } else {
            exists|i: int, t: SseTerminal|
                #[trigger] first_terminal(combined, i, t) && 0 <= i < combined.len() && if has_blank_line(
                    combined.skip(i),
                ) {
                    r == Some(t) && after.pending is None && after.carry == Seq::<u8>::empty()
                } else {
                    r is None && after.pending == Some(t) && after.carry == last_of(
                        combined.skip(i),
                        3,
                    )
                }
        },
    }
}

impl SseTerminalDetector {
    pub fn new() -> (r: SseTerminalDetector)
        ensures
            r@.carry == Seq::<u8>::empty(),
            r@.pending is None,
    {
        SseTerminalDetector { carry: Vec::new(), pending: None }
    }

    /// Takes in one more piece; says how the response has ended, once its last event is complete.
    pub fn observe(&mut self, bytes: &[u8]) -> (r: Option<SseTerminal>)
        ensures
            observed(old(self)@, bytes@, r, final(self)@),
    {
        let mut combined: Vec<u8> = bytes_from(&self.carry, 0);
        assert(self.carry@.skip(0) =~= self.carry@);
        let mut i: usize = 0;
        while i < bytes.len()
            invariant
                i <= bytes.len(),
                self == old(self),
                combined@ == self.carry@ + bytes@.take(i as int),
            decreases bytes.len() - i,
        {
            combined.push(bytes[i]);
            i += 1;
        }
        assert(combined@ =~= self.carry@ + bytes@);
        if let Some(t) = self.pending {
            if contains_sse_boundary(&combined) {
                self.pending = None;
                self.carry = Vec::new();
                assert(self.carry@ =~= Seq::<u8>::empty());
                return Some(t);
            }
            self.carry = tail_bytes(&combined, 3);
            return None;
        }
        if let Some((at, t)) = find_sse_terminal(&combined) {
            assert(!no_terminal(combined@));
            let after = bytes_from(&combined, at);
            assert(first_terminal(combined@, at as int, t));
            if contains_sse_boundary(&after) {
                self.carry = Vec::new();
                assert(self.carry@ =~= Seq::<u8>::empty());
                return Some(t);
            }
            self.pending = Some(t);
            self.carry = tail_bytes(&after, 3);
            return None;
        }
        self.carry = tail_bytes(&combined, 64);
        None
    }
}

/// How a stream that has come this far has ended: its first marker, once a blank line follows it.
pub open spec fn has_ended(stream: Seq<u8>, t: SseTerminal) -> bool {
    exists|i: int| #[trigger] first_terminal(stream, i, t) && 0 <= i && has_blank_line(stream.skip(i))
}

/// What a detector remembers of a stream that has not ended.
pub open spec fn follows(d: DetectorView, stream: Seq<u8>) -> bool {
    match d.pending {
        None => no_terminal(stream) && d.carry == last_of(stream, 64),
        Some(t) => exists|i: int|
            #[trigger] first_terminal(stream, i, t) && 0 <= i < stream.len() && !has_blank_line(
                stream.skip(i),
            ) && d.carry == last_of(stream.skip(i), 3),
    }
}

/// What stands at a place depends only on the bytes there.
proof fn stands_in_part(a: Seq<u8>, b: Seq<u8>, q: Seq<char>, i: int, o: int)
    requires
        0 <= o <= b.len(),
        a == b.skip(o),
        0 <= i,
    ensures
        stands_at(a, q, i) <==> stands_at(b, q, o + i),
{
    if stands_at(a, q, i) {
        assert forall|k: int| 0 <= k < q.len() implies #[trigger] b[o + i + k] as char == q[k] by {
            assert(a[i + k] == b[o + i + k]);
        }
    }
    if stands_at(b, q, o + i) {
        assert forall|k: int| 0 <= k < q.len() implies #[trigger] a[i + k] as char == q[k] by {
            assert(a[i + k] == b[o + i + k]);
        }
    }
}

proof fn terminal_in_part(a: Seq<u8>, b: Seq<u8>, i: int, o: int)
    requires
        0 <= o <= b.len(),
        a == b.skip(o),
        0 <= i,
    ensures
        terminal_at(a, i) == terminal_at(b, o + i),
{
    stands_in_part(a, b, "\"type\":\"response.completed\""@, i, o);
    stands_in_part(a, b, "\"type\": \"response.completed\""@, i, o);
    stands_in_part(a, b, "\"type\":\"response.incomplete\""@, i, o);
    stands_in_part(a, b, "\"type\": \"response.incomplete\""@, i, o);
    stands_in_part(a, b, "\"type\":\"response.failed\""@, i, o);
    stands_in_part(a, b, "\"type\": \"response.failed\""@, i, o);
    stands_in_part(a, b, "\"type\":\"error\""@, i, o);
    stands_in_part(a, b, "\"type\": \"error\""@, i, o);
}

/// A marker at `i` that ends within the first bytes is found in them; what is found in them stays.
proof fn terminal_in_prefix(a: Seq<u8>, b: Seq<u8>, i: int)
    requires
        0 <= i,
    ensures
        terminal_at(a, i) is Some ==> terminal_at(a + b, i) == terminal_at(a, i),
        terminal_at(a + b, i) is Some && terminal_at(a, i) is None ==> exists|q: Seq<char>|
            is_marker(q) && stands_at(a + b, q, i) && i + q.len() > a.len(),
{
    let c = a + b;
    assert forall|q: Seq<char>| stands_at(a, q, i) implies stands_at(c, q, i) by {
        assert forall|k: int| 0 <= k < q.len() implies #[trigger] c[i + k] as char == q[k] by {
            assert(a[i + k] == c[i + k]);
        }
    }
    assert forall|q: Seq<char>| stands_at(c, q, i) && i + q.len() <= a.len() implies stands_at(
        a,
        q,
        i,
    ) by {
        assert forall|k: int| 0 <= k < q.len() implies #[trigger] a[i + k] as char == q[k] by {
            assert(a[i + k] == c[i + k]);
        }
    }
    terminal_is_a_marker(a, i);
    terminal_is_a_marker(c, i);
    if terminal_at(a, i) is Some {
        one_marker(c, i);
        one_marker(a, i);
    } else if terminal_at(c, i) is Some {
        let q = choose|q: Seq<char>| is_marker(q) && stands_at(c, q, i);
        assert(is_marker(q) && stands_at(c, q, i));
        assert(!stands_at(a, q, i));
    }
}

/// Two markers at one place end a response alike.
proof fn one_marker(bytes: Seq<u8>, i: int)
    ensures
        stands_at(bytes, "\"type\":\"response.completed\""@, i) || stands_at(
            bytes,
            "\"type\": \"response.completed\""@,
            i,
        ) ==> terminal_at(bytes, i) == Some(SseTerminal::Completed),
        stands_at(bytes, "\"type\":\"response.incomplete\""@, i) || stands_at(
            bytes,
            "\"type\": \"response.incomplete\""@,
            i,
        ) ==> terminal_at(bytes, i) == Some(SseTerminal::Incomplete),
        stands_at(bytes, "\"type\":\"response.failed\""@, i) || stands_at(
            bytes,
            "\"type\": \"response.failed\""@,
            i,
        ) ==> terminal_at(bytes, i) == Some(SseTerminal::Failed),
        stands_at(bytes, "\"type\":\"error\""@, i) || stands_at(
            bytes,
            "\"type\": \"error\""@,
            i,
        ) ==> terminal_at(bytes, i) == Some(SseTerminal::Error),
{
    reveal_strlit("\"type\":\"response.completed\"");
    reveal_strlit("\"type\": \"response.completed\"");
    reveal_strlit("\"type\":\"response.incomplete\"");
    reveal_strlit("\"type\": \"response.incomplete\"");
    reveal_strlit("\"type\":\"response.failed\"");
    reveal_strlit("\"type\": \"response.failed\"");
    reveal_strlit("\"type\":\"error\"");
    reveal_strlit("\"type\": \"error\"");
    // The markers differ in the byte after the colon, or in a letter after the quote there.
    letters(bytes, "\"type\":\"response.completed\""@, i);
    letters(bytes, "\"type\": \"response.completed\""@, i);
    letters(bytes, "\"type\":\"response.incomplete\""@, i);
    letters(bytes, "\"type\": \"response.incomplete\""@, i);
    letters(bytes, "\"type\":\"response.failed\""@, i);
    letters(bytes, "\"type\": \"response.failed\""@, i);
    letters(bytes, "\"type\":\"error\""@, i);
    letters(bytes, "\"type\": \"error\""@, i);
}

/// The bytes of a marker in which the markers differ.
proof fn letters(bytes: Seq<u8>, q: Seq<char>, i: int)
    ensures
        stands_at(bytes, q, i) && q.len() >= 14 ==> bytes[i + 7] as char == q[7] && bytes[i
            + 8] as char == q[8] && bytes[i + 9] as char == q[9],
        stands_at(bytes, q, i) && q.len() > 18 ==> bytes[i + 17] as char == q[17] && bytes[i
            + 18] as char == q[18],
{
}

/// A stream that ended has ended no matter what follows; and where it had not, a detector that has
/// followed it says of the next piece exactly whether and how the stream has ended with it.
pub proof fn detector_follows_the_stream(
    d: DetectorView,
    stream: Seq<u8>,
    bytes: Seq<u8>,
    r: Option<SseTerminal>,
    after: DetectorView,
)
    requires
        follows(d, stream),
        observed(d, bytes, r, after),
    ensures
        r matches Some(t) ==> has_ended(stream + bytes, t),
        r is None ==> follows(after, stream + bytes) && forall|t: SseTerminal|
            !has_ended(stream + bytes, t),
{
    let all = stream + bytes;
    let combined = d.carry + bytes;
    match d.pending {
        None => {
            let o = all.len() - combined.len();
            assert(combined =~= all.skip(o));
            assert forall|i: int| 0 <= i < o implies #[trigger] terminal_at(all, i) is None by {
                terminal_in_prefix(stream, bytes, i);
                if terminal_at(all, i) is Some {
                    assert(terminal_at(stream, i) is None);
                    let q = choose|q: Seq<char>|
                        is_marker(q) && stands_at(all, q, i) && i + q.len() > stream.len();
                    marker_shape(q);
                }
            }
            assert forall|i: int| 0 <= i implies #[trigger] terminal_at(combined, i) == terminal_at(
                all,
                o + i,
            ) by {
                terminal_in_part(combined, all, i, o);
            }
            if no_terminal(combined) {
                assert forall|i: int| 0 <= i < all.len() implies #[trigger] terminal_at(
                    all,
                    i,
                ) is None by {
                    if i >= o {
                        assert(terminal_at(combined, i - o) is None);
                    }
                }
                last_of_last(stream, bytes, 64);
                assert forall|t: SseTerminal| !has_ended(all, t) by {
                    if has_ended(all, t) {
                        let i = choose|i: int|
                            #[trigger] first_terminal(all, i, t) && 0 <= i && has_blank_line(
                                all.skip(i),
                            );
                        terminal_within(all, i);
                    }
                }
            } else {
                let (i, t) = choose|i: int, t: SseTerminal|
                    #[trigger] first_terminal(combined, i, t) && 0 <= i < combined.len()
                        && if has_blank_line(combined.skip(i)) {
                        r == Some(t) && after.pending is None && after.carry == Seq::<u8>::empty()
                    } else {
                        r is None && after.pending == Some(t) && after.carry == last_of(
                            combined.skip(i),
                            3,
                        )
                    };
                let p = o + i;
                assert(terminal_at(combined, i) == terminal_at(all, p));
                assert forall|j: int| 0 <= j < p implies #[trigger] terminal_at(all, j) is None by {
                    if j >= o {
                        assert(terminal_at(combined, j - o) is None);
                    }
                }
                assert(first_terminal(all, p, t));
                assert(combined.skip(i) =~= all.skip(p));
                if r is None {
                    assert forall|u: SseTerminal| !has_ended(all, u) by {
                        if has_ended(all, u) {
                            let j = choose|j: int|
                                #[trigger] first_terminal(all, j, u) && 0 <= j && has_blank_line(
                                    all.skip(j),
                                );
                            one_first(all, p, t, j, u);
                        }
                    }
                }
            }
        },
        Some(t) => {
            let p = choose|i: int|
                #[trigger] first_terminal(stream, i, t) && 0 <= i < stream.len()
                    && !has_blank_line(stream.skip(i)) && d.carry == last_of(stream.skip(i), 3);
            let rest = stream.skip(p);
            first_terminal_stays(stream, bytes, p, t);
            assert(all.skip(p) =~= rest + bytes);
            blank_line_across(rest, bytes);
            if r is None {
                last_of_last(rest, bytes, 3);
                assert(first_terminal(all, p, t) && !has_blank_line(all.skip(p)));
                assert forall|u: SseTerminal| !has_ended(all, u) by {
                    if has_ended(all, u) {
                        let j = choose|j: int|
                            #[trigger] first_terminal(all, j, u) && 0 <= j && has_blank_line(
                                all.skip(j),
                            );
                        one_first(all, p, t, j, u);
                    }
                }
            }
        },
    }
}

proof fn terminal_within(bytes: Seq<u8>, i: int)
    requires
        terminal_at(bytes, i) is Some,
    ensures
        0 <= i < bytes.len(),
{
    terminal_is_a_marker(bytes, i);
    let q = choose|q: Seq<char>| is_marker(q) && stands_at(bytes, q, i);
    marker_shape(q);
}

proof fn one_first(bytes: Seq<u8>, i: int, t: SseTerminal, j: int, u: SseTerminal)
    requires
        first_terminal(bytes, i, t),
        first_terminal(bytes, j, u),
        0 <= i,
        0 <= j,
    ensures
        i == j,
        t == u,
{
    if i < j {
        assert(terminal_at(bytes, i) is None);
    } else if j < i {
        assert(terminal_at(bytes, j) is None);
    }
}

/// The first marker stays the first, whatever follows.
proof fn first_terminal_stays(stream: Seq<u8>, bytes: Seq<u8>, p: int, t: SseTerminal)
    requires
        0 <= p < stream.len(),
        first_terminal(stream, p, t),
    ensures
        first_terminal(stream + bytes, p, t),
{
    let all = stream + bytes;
    terminal_in_prefix(stream, bytes, p);
    terminal_is_a_marker(stream, p);
    let m = choose|q: Seq<char>| is_marker(q) && stands_at(stream, q, p);
    marker_shape(m);
    assert forall|i: int| 0 <= i < p implies #[trigger] terminal_at(all, i) is None by {
        terminal_in_prefix(stream, bytes, i);
        if terminal_at(all, i) is Some {
            assert(terminal_at(stream, i) is None);
            let q = choose|q: Seq<char>|
                is_marker(q) && stands_at(all, q, i) && i + q.len() > stream.len();
            marker_shape(q);
            let k = p - i;
            assert(stream[p + 0] as char == m[0]);
            assert(stream[p + 1] as char == m[1]);
            assert(all[i + k] as char == q[k]);
            assert(all[i + (k + 1)] as char == q[k + 1]);
            assert(q[k] == '"' && q[k + 1] == 't');
        }
    }
}

/// Where the first bytes hold no blank line, one across or after them is found with their last three.
proof fn blank_line_across(rest: Seq<u8>, bytes: Seq<u8>)
    requires
        !has_blank_line(rest),
    ensures
        has_blank_line(rest + bytes) <==> has_blank_line(last_of(rest, 3) + bytes),
{
    let all = rest + bytes;
    let part = last_of(rest, 3) + bytes;
    let o = all.len() - part.len();
    assert(part =~= all.skip(o));
    if has_blank_line(part) {
        let i = choose|i: int| blank_line_at(part, i);
        assert(blank_line_at(all, o + i));
    }
    if has_blank_line(all) {
        let i = choose|i: int| blank_line_at(all, i);
        if i < o {
            assert(blank_line_at(rest, i));
        } else {
            assert(blank_line_at(part, i - o));
        }
    }
}

/// What is kept of bytes is their end, as long as the limit allows.
pub proof fn ends_are_kept(s: Seq<u8>, n: nat, i: int)
    ensures
        s.len() <= n ==> last_of(s, n) == s,
        s.len() > n ==> last_of(s, n).len() == n,
        last_of(s, n).len() <= s.len(),
        0 <= i < last_of(s, n).len() ==> last_of(s, n)[last_of(s, n).len() - 1 - i] == s[s.len() - 1
            - i],
{
}

/// The end of a response is told by its type, with or without a space after the colon, each type by its
/// own name.
pub proof fn ends_are_told_by_type(bytes: Seq<u8>, i: int)
    ensures
        stands_at(bytes, "\"type\":\"response.completed\""@, i) || stands_at(
            bytes,
            "\"type\": \"response.completed\""@,
            i,
        ) ==> terminal_at(bytes, i) == Some(SseTerminal::Completed),
        terminal_at(bytes, i) == Some(SseTerminal::Completed) ==> stands_at(
            bytes,
            "\"type\":\"response.completed\""@,
            i,
        ) || stands_at(bytes, "\"type\": \"response.completed\""@, i),
        terminal_at(bytes, i) == Some(SseTerminal::Incomplete) ==> stands_at(
            bytes,
            "\"type\":\"response.incomplete\""@,
            i,
        ) || stands_at(bytes, "\"type\": \"response.incomplete\""@, i),
        terminal_at(bytes, i) == Some(SseTerminal::Failed) ==> stands_at(
            bytes,
            "\"type\":\"response.failed\""@,
            i,
        ) || stands_at(bytes, "\"type\": \"response.failed\""@, i),
        terminal_at(bytes, i) == Some(SseTerminal::Error) ==> stands_at(
            bytes,
            "\"type\":\"error\""@,
            i,
        ) || stands_at(bytes, "\"type\": \"error\""@, i),
        stands_at(bytes, "\"type\":\"response.incomplete\""@, i) || stands_at(
            bytes,
            "\"type\": \"response.incomplete\""@,
            i,
        ) || stands_at(bytes, "\"type\":\"response.failed\""@, i) || stands_at(
            bytes,
            "\"type\": \"response.failed\""@,
            i,
        ) || stands_at(bytes, "\"type\":\"error\""@, i) || stands_at(
            bytes,
            "\"type\": \"error\""@,
            i,
        ) ==> terminal_at(bytes, i) is Some,
{
}

/// A blank line is two line feeds in a row, or two line ends of carriage return and line feed.
pub proof fn blank_lines_end_events(bytes: Seq<u8>, i: int)
    requires
        0 <= i,
    ensures
        i + 1 < bytes.len() && bytes[i] == 10 && bytes[i + 1] == 10 ==> has_blank_line(bytes),
        i + 3 < bytes.len() && bytes[i] == 13 && bytes[i + 1] == 10 && bytes[i + 2] == 13 && bytes[i
            + 3] == 10 ==> has_blank_line(bytes),
        (forall|k: int| 0 <= k < bytes.len() ==> bytes[k] != 10) ==> !has_blank_line(bytes),
{
    assert(blank_line_at(bytes, i) ==> has_blank_line(bytes));
    if forall|k: int| 0 <= k < bytes.len() ==> bytes[k] != 10 {
        assert forall|k: int| !blank_line_at(bytes, k) by {
            if 0 <= k && k + 2 <= bytes.len() {
                assert(bytes[k] != 10);
            }
            if 0 <= k && k + 4 <= bytes.len() {
                assert(bytes[k + 1] != 10);
            }
        }
    }
}

/// A response has ended once the event that ends it is complete, and not before.
pub proof fn ends_are_reported_once_complete(
    bytes: Seq<u8>,
    i: int,
    t: SseTerminal,
    r: Option<SseTerminal>,
    after: DetectorView,
)
    requires
        first_terminal(bytes, i, t),
        0 <= i < bytes.len(),
        observed(DetectorView { carry: Seq::empty(), pending: None }, bytes, r, after),
    ensures
        has_blank_line(bytes.skip(i)) ==> r == Some(t),
        !has_blank_line(bytes.skip(i)) ==> r is None && after.pending == Some(t),
{
    let combined = Seq::<u8>::empty() + bytes;
    assert(combined =~= bytes);
    assert(terminal_at(bytes, i) is Some);
    let (j, u) = choose|j: int, u: SseTerminal|
        #[trigger] first_terminal(combined, j, u) && 0 <= j < combined.len()
            && if has_blank_line(combined.skip(j)) {
            r == Some(u) && after.pending is None && after.carry == Seq::<u8>::empty()
        } else {
            r is None && after.pending == Some(u) && after.carry == last_of(combined.skip(j), 3)
        };
    if j < i {
        assert(terminal_at(bytes, j) is None);
    } else if i < j {
        assert(terminal_at(combined, i) is None);
    }
}

} // verus!
