//! Text output encodings: bytes for the `debugcon` port, and null-terminated UCS-2
//! chunks of at most 128 units for the firmware's text console. Both turn every line
//! feed into carriage return and line feed.

use vstd::prelude::*;

verus! {

pub const LINE_FEED: u8 = 10;

pub const CARRIAGE_RETURN: u8 = 13;

/// Units in the console's chunk buffer, terminator included.
pub const CONSOLE_BUFFER_UNITS: usize = 128;

/// The bytes that `debugcon` receives for `s`: each line feed is preceded by a carriage
/// return, every other byte passes unchanged.
pub open spec fn debugcon_encoding(s: Seq<u8>) -> Seq<u8>
    decreases s.len(),
{
    if s.len() == 0 {
        seq![]
    } else {
        let prev = debugcon_encoding(s.drop_last());
        if s.last() == LINE_FEED {
            prev + seq![CARRIAGE_RETURN, LINE_FEED]
        } else {
            prev.push(s.last())
        }
    }
}

/// Encoding `s` and then `byte` is encoding `s` followed by encoding `byte` alone, so
/// a writer that sends each byte's encoding in turn sends `debugcon_encoding` of all.
pub proof fn lemma_debugcon_bytewise(s: Seq<u8>, byte: u8)
    ensures
        debugcon_encoding(s.push(byte)) == debugcon_encoding(s) + debugcon_encoding(seq![byte]),
{
    assert(s.push(byte).drop_last() =~= s);
    assert(seq![byte].drop_last() =~= Seq::<u8>::empty());
    assert(debugcon_encoding(Seq::<u8>::empty()) == Seq::<u8>::empty());
    if byte == LINE_FEED {
        assert(debugcon_encoding(s) + seq![CARRIAGE_RETURN, LINE_FEED] =~= debugcon_encoding(s)
            + (Seq::<u8>::empty() + seq![CARRIAGE_RETURN, LINE_FEED]));
    } else {
        assert(debugcon_encoding(s).push(byte) =~= debugcon_encoding(s) + Seq::<u8>::empty().push(
            byte,
        ));
    }
}

/// Encoding two strings one after the other is encoding their concatenation: what
/// `debugcon` receives does not depend on how the text is split into writes.
pub proof fn lemma_debugcon_concat(a: Seq<u8>, b: Seq<u8>)
    ensures
        debugcon_encoding(a + b) == debugcon_encoding(a) + debugcon_encoding(b),
    decreases b.len(),
{
    if b.len() == 0 {
        assert(a + b =~= a);
        assert(debugcon_encoding(b) == Seq::<u8>::empty());
        assert(debugcon_encoding(a) + debugcon_encoding(b) =~= debugcon_encoding(a));
    } else {
        let p = b.drop_last();
        let x = b.last();
        lemma_debugcon_concat(a, p);
        lemma_debugcon_bytewise(a + p, x);
        lemma_debugcon_bytewise(p, x);
        assert(a + b =~= (a + p).push(x));
        assert(b =~= p.push(x));
        assert(debugcon_encoding(a + p) + debugcon_encoding(seq![x]) =~= debugcon_encoding(a)
            + (debugcon_encoding(p) + debugcon_encoding(seq![x])));
    }
}

/// Bytes other than line feeds reach `debugcon` unchanged: a string without line feeds
/// is its own encoding.
pub proof fn lemma_debugcon_passes_bytes(s: Seq<u8>)
    requires
        forall|i: int| 0 <= i < s.len() ==> s[i] != LINE_FEED,
    ensures
        debugcon_encoding(s) == s,
    decreases s.len(),
{
    if s.len() > 0 {
        let p = s.drop_last();
        assert forall|i: int| 0 <= i < p.len() implies p[i] != LINE_FEED by {
            assert(p[i] == s[i]);
        }
        lemma_debugcon_passes_bytes(p);
        assert(s[s.len() - 1] != LINE_FEED);
        assert(p.push(s.last()) =~= s);
    }
}

/// Each line feed reaches `debugcon` as carriage return and line feed, with the text
/// around it encoded on its own.
pub proof fn lemma_debugcon_line_feed(a: Seq<u8>, b: Seq<u8>)
    ensures
        debugcon_encoding(a + seq![LINE_FEED] + b) == debugcon_encoding(a) + seq![
            CARRIAGE_RETURN,
            LINE_FEED,
        ] + debugcon_encoding(b),
{
    lemma_debugcon_concat(a + seq![LINE_FEED], b);
    lemma_debugcon_bytewise(a, LINE_FEED);
    assert(a.push(LINE_FEED) =~= a + seq![LINE_FEED]);
    let one = seq![LINE_FEED];
    assert(one.drop_last() =~= Seq::<u8>::empty());
    assert(debugcon_encoding(Seq::<u8>::empty()) == Seq::<u8>::empty());
    assert(debugcon_encoding(one) =~= seq![CARRIAGE_RETURN, LINE_FEED]);
}

/// The bytes that `debugcon` receives for `byte`: the first `count` of `bytes`.
pub fn debugcon_bytes(byte: u8) -> (out: ([u8; 2], usize))
    ensures
        out.1 <= 2,
        out.0@.subrange(0, out.1 as int) == debugcon_encoding(seq![byte]),
{
    assert(seq![byte].drop_last() =~= Seq::<u8>::empty());
    assert(debugcon_encoding(Seq::<u8>::empty()) == Seq::<u8>::empty());
    if byte == LINE_FEED {
        let bytes: [u8; 2] = [CARRIAGE_RETURN, LINE_FEED];
        assert(bytes@.subrange(0, 2) =~= Seq::<u8>::empty() + seq![CARRIAGE_RETURN, LINE_FEED]);
        (bytes, 2)
    } else {
        let bytes: [u8; 2] = [byte, 0];
        assert(bytes@.subrange(0, 1) =~= Seq::<u8>::empty().push(byte));
        (bytes, 1)
    }
}

/// The message that the panic handler writes to `debugcon` before it parks the core.
pub open spec fn panic_message() -> Seq<u8> {
    seq![0x70u8, 0x61u8, 0x6Eu8, 0x69u8, 0x63u8, LINE_FEED]
}

/// The bytes that the panic handler sends to `debugcon`: `"panic\n"`, encoded.
pub fn panic() -> (out: [u8; 7])
    ensures
        out@ == debugcon_encoding(panic_message()),
{
    let out: [u8; 7] = [0x70u8, 0x61u8, 0x6Eu8, 0x69u8, 0x63u8, CARRIAGE_RETURN, LINE_FEED];
    let ghost m = panic_message();
    assert(m.drop_last() =~= seq![0x70u8, 0x61u8, 0x6Eu8, 0x69u8, 0x63u8]);
    assert(m.drop_last().drop_last() =~= seq![0x70u8, 0x61u8, 0x6Eu8, 0x69u8]);
    assert(m.drop_last().drop_last().drop_last() =~= seq![0x70u8, 0x61u8, 0x6Eu8]);
    assert(m.drop_last().drop_last().drop_last().drop_last() =~= seq![0x70u8, 0x61u8]);
    assert(m.drop_last().drop_last().drop_last().drop_last().drop_last() =~= seq![0x70u8]);
    assert(m.drop_last().drop_last().drop_last().drop_last().drop_last().drop_last()
        =~= Seq::<u8>::empty());
    reveal_with_fuel(debugcon_encoding, 7);
    assert(out@ =~= debugcon_encoding(m));
    out
}

/// The console units for one byte: carriage return and line feed for a line feed, the
/// byte widened to 16 bits otherwise.
pub open spec fn console_units(byte: u8) -> Seq<u16> {
    if byte == LINE_FEED {
        seq![13u16, 10u16]
    } else {
        seq![byte as u16]
    }
}

/// The console units for all of `s`.
pub open spec fn console_text(s: Seq<u8>) -> Seq<u16>
    decreases s.len(),
{
    if s.len() == 0 {
        seq![]
    } else {
        console_text(s.drop_last()) + console_units(s.last())
    }
}

/// Chunks sent and units pending after `s`: the units of each byte are appended to the
/// pending ones, and as soon as 127 or more are pending they are sent, terminated by 0.
pub open spec fn console_run(s: Seq<u8>) -> (Seq<Seq<u16>>, Seq<u16>)
    decreases s.len(),
{
    if s.len() == 0 {
        (seq![], seq![])
    } else {
        let prev = console_run(s.drop_last());
        let pending = prev.1 + console_units(s.last());
        if pending.len() >= 127 {
            (prev.0.push(pending.push(0u16)), seq![])
        } else {
            (prev.0, pending)
        }
    }
}

/// All chunks that writing `s` sends: those of `console_run`, then the pending units,
/// terminated by 0, if any are pending.
pub open spec fn console_chunks_of(s: Seq<u8>) -> Seq<Seq<u16>> {
    let run = console_run(s);
    if run.1.len() > 0 {
        run.0.push(run.1.push(0u16))
    } else {
        run.0
    }
}

/// Writing `s` stays inside the 128-unit buffer: no line feed arrives while 126 units
/// are pending (its two units would leave no room for the terminator).
pub open spec fn console_write_in_bounds(s: Seq<u8>) -> bool {
    forall|i: int|
        0 <= i < s.len() ==> !(s[i] == LINE_FEED && (#[trigger] console_run(s.subrange(0, i)).1.len()
            == 126))
}

/// Fewer than 127 units are ever pending.
proof fn lemma_console_pending_short(s: Seq<u8>)
    ensures
        console_run(s).1.len() < 127,
    decreases s.len(),
{
    if s.len() > 0 {
        lemma_console_pending_short(s.drop_last());
    }
}

/// The units of `chunks` with each chunk's terminator left off, one chunk after another.
pub open spec fn unterminated_concat(chunks: Seq<Seq<u16>>) -> Seq<u16>
    decreases chunks.len(),
{
    if chunks.len() == 0 {
        seq![]
    } else {
        unterminated_concat(chunks.drop_last()) + chunks.last().drop_last()
    }
}

proof fn lemma_in_bounds_prefix(s: Seq<u8>)
    requires
        s.len() > 0,
        console_write_in_bounds(s),
    ensures
        console_write_in_bounds(s.drop_last()),
        !(s.last() == LINE_FEED && console_run(s.drop_last()).1.len() == 126),
{
    let p = s.drop_last();
    assert forall|i: int| 0 <= i < p.len() implies !(p[i] == LINE_FEED && (#[trigger] console_run(
        p.subrange(0, i),
    ).1.len() == 126)) by {
        assert(p.subrange(0, i) =~= s.subrange(0, i));
        assert(!(s[i] == LINE_FEED && console_run(s.subrange(0, i)).1.len() == 126));
    }
    assert(s.subrange(0, s.len() - 1) =~= p);
    assert(!(s[s.len() - 1] == LINE_FEED && console_run(s.subrange(0, s.len() - 1)).1.len()
        == 126));
}

proof fn lemma_console_run_covers(s: Seq<u8>)
    requires
        console_write_in_bounds(s),
    ensures
        unterminated_concat(console_run(s).0) + console_run(s).1 == console_text(s),
        forall|c: int|
            0 <= c < console_run(s).0.len() ==> (#[trigger] console_run(s).0[c]).len() == 128
                && console_run(s).0[c].last() == 0u16,
    decreases s.len(),
{
    if s.len() > 0 {
        let p = s.drop_last();
        lemma_in_bounds_prefix(s);
        lemma_console_run_covers(p);
        lemma_console_pending_short(p);
        let prev = console_run(p);
        let pending = prev.1 + console_units(s.last());
        if pending.len() >= 127 {
            let chunk = pending.push(0u16);
            assert(prev.0.push(chunk).drop_last() =~= prev.0);
            assert(chunk.drop_last() =~= pending);
            assert(unterminated_concat(prev.0.push(chunk)) + seq![] =~= unterminated_concat(prev.0)
                + prev.1 + console_units(s.last()));
        } else {
            assert(unterminated_concat(prev.0) + pending =~= unterminated_concat(prev.0) + prev.1
                + console_units(s.last()));
        }
    }
}

/// Writing `s` within the buffer sends exactly the console units of `s`, in order, in
/// chunks of at most 128 units, each with at least one unit before its 0 terminator.
pub proof fn lemma_console_chunks_cover_text(s: Seq<u8>)
    requires
        console_write_in_bounds(s),
    ensures
        unterminated_concat(console_chunks_of(s)) == console_text(s),
        forall|c: int|
            0 <= c < console_chunks_of(s).len() ==> 2 <= (#[trigger] console_chunks_of(s)[c]).len()
                <= 128 && console_chunks_of(s)[c].last() == 0u16,
        forall|c: int|
            0 <= c < console_chunks_of(s).len() - 1 ==> (#[trigger] console_chunks_of(s)[c]).len()
                == 128,
{
    lemma_console_run_covers(s);
    lemma_console_pending_short(s);
    let run = console_run(s);
    if run.1.len() > 0 {
        let chunk = run.1.push(0u16);
        assert(run.0.push(chunk).drop_last() =~= run.0);
        assert(chunk.drop_last() =~= run.1);
        assert(unterminated_concat(run.0.push(chunk)) =~= unterminated_concat(run.0) + run.1);
    } else {
        assert(unterminated_concat(run.0) + run.1 =~= unterminated_concat(run.0));
    }
}

/// The console units of a concatenation are those of its parts, one after the other.
pub proof fn lemma_console_text_concat(a: Seq<u8>, b: Seq<u8>)
    ensures
        console_text(a + b) == console_text(a) + console_text(b),
    decreases b.len(),
{
    if b.len() == 0 {
        assert(a + b =~= a);
        assert(console_text(a) + console_text(b) =~= console_text(a));
    } else {
        let p = b.drop_last();
        lemma_console_text_concat(a, p);
        assert((a + b).drop_last() =~= a + p);
        assert((a + b).last() == b.last());
        assert(console_text(a + p) + console_units(b.last()) =~= console_text(a) + (console_text(
            p,
        ) + console_units(b.last())));
    }
}

/// Bytes other than line feeds reach the console as themselves, widened to 16 bits.
pub proof fn lemma_console_widens_bytes(s: Seq<u8>)
    requires
        forall|i: int| 0 <= i < s.len() ==> s[i] != LINE_FEED,
    ensures
        console_text(s).len() == s.len(),
        forall|i: int| 0 <= i < s.len() ==> #[trigger] console_text(s)[i] == s[i] as u16,
    decreases s.len(),
{
    if s.len() > 0 {
        let p = s.drop_last();
        assert forall|i: int| 0 <= i < p.len() implies p[i] != LINE_FEED by {
            assert(p[i] == s[i]);
        }
        lemma_console_widens_bytes(p);
        assert(s[s.len() - 1] != LINE_FEED);
        assert forall|i: int| 0 <= i < s.len() implies #[trigger] console_text(s)[i] == s[i] as u16 by {
            if i < p.len() {
                assert(p[i] == s[i]);
            }
        }
    }
}

/// Each line feed reaches the console as carriage return and line feed, with the text
/// around it encoded on its own.
pub proof fn lemma_console_line_feed(a: Seq<u8>, b: Seq<u8>)
    ensures
        console_text(a + seq![LINE_FEED] + b) == console_text(a) + seq![13u16, 10u16]
            + console_text(b),
{
    lemma_console_text_concat(a + seq![LINE_FEED], b);
    lemma_console_text_concat(a, seq![LINE_FEED]);
    let one = seq![LINE_FEED];
    assert(one.drop_last() =~= Seq::<u8>::empty());
    assert(one.last() == LINE_FEED);
    assert(console_text(Seq::<u8>::empty()) == Seq::<u16>::empty());
    assert(console_text(one) =~= Seq::<u16>::empty() + seq![13u16, 10u16]);
}

/// Writing `a` and then `b` to the console sends the same units as writing `a + b`:
/// only where the chunks are cut differs.
pub proof fn lemma_console_writes_concat(a: Seq<u8>, b: Seq<u8>)
    requires
        console_write_in_bounds(a),
        console_write_in_bounds(b),
        console_write_in_bounds(a + b),
    ensures
        unterminated_concat(console_chunks_of(a)) + unterminated_concat(console_chunks_of(b))
            == unterminated_concat(console_chunks_of(a + b)),
{
    lemma_console_chunks_cover_text(a);
    lemma_console_chunks_cover_text(b);
    lemma_console_chunks_cover_text(a + b);
    lemma_console_text_concat(a, b);
}

/// Whether writing `s` to the console stays inside the chunk buffer.
pub fn console_write_fits(s: &[u8]) -> (fits: bool)
    ensures
        fits == console_write_in_bounds(s@),
{
    let mut pending: usize = 0;
    let mut i: usize = 0;
    while i < s.len()
        invariant
            i <= s@.len(),
            pending == console_run(s@.subrange(0, i as int)).1.len(),
            forall|j: int|
                0 <= j < i ==> !(s@[j] == LINE_FEED && (#[trigger] console_run(
                    s@.subrange(0, j),
                ).1.len() == 126)),
        decreases s@.len() - i,
    {
        proof {
            assert(s@.subrange(0, i + 1).drop_last() =~= s@.subrange(0, i as int));
            lemma_console_pending_short(s@.subrange(0, i as int));
        }
        let byte = s[i];
        if byte == LINE_FEED && pending == 126 {
            return false;
        }
        if byte == LINE_FEED {
            pending = pending + 2;
        } else {
            pending = pending + 1;
        }
        if pending >= 127 {
            pending = 0;
        }
        i = i + 1;
    }
    true
}

/// State of a console write, as its view shows it.
pub struct ConsoleBufferView {
    /// The chunk buffer.
    pub units: Seq<u16>,
    /// Units pending in `units`.
    pub cursor: nat,
    /// Bytes taken so far.
    pub written: Seq<u8>,
    /// Chunks handed out so far.
    pub sent: Seq<Seq<u16>>,
}

impl ConsoleBufferView {
    /// The buffer holds the pending units of what was written, and the chunks handed out
    /// are those that `console_run` sends.
    pub open spec fn wf(self) -> bool {
        &&& self.units.len() == 128
        &&& console_run(self.written).0 == self.sent
        &&& console_run(self.written).1 == self.units.subrange(0, self.cursor as int)
        &&& self.cursor == console_run(self.written).1.len()
    }
}

/// The 128-unit buffer through which one string is written to the firmware console.
/// Each chunk is handed out in place: when `push_byte` or `finish` answers `true`,
/// `units()` begins with the chunk, 0-terminated, to be passed to `OutputString`.
pub struct ConsoleBuffer {
    units: [u16; 128],
    cursor: usize,
    written: Ghost<Seq<u8>>,
    sent: Ghost<Seq<Seq<u16>>>,
}

impl ConsoleBuffer {
    pub closed spec fn view(&self) -> ConsoleBufferView {
        ConsoleBufferView {
            units: self.units@,
            cursor: self.cursor as nat,
            written: self.written@,
            sent: self.sent@,
        }
    }

    pub open spec fn wf(&self) -> bool {
        self@.wf()
    }

    /// An empty buffer, before any byte of the string.
    pub fn new() -> (buffer: ConsoleBuffer)
        ensures
            buffer.wf(),
            buffer@.written == Seq::<u8>::empty(),
            buffer@.sent == Seq::<Seq<u16>>::empty(),
    {
        let buffer = ConsoleBuffer {
            units: [0u16; 128],
            cursor: 0,
            written: Ghost(Seq::empty()),
            sent: Ghost(Seq::empty()),
        };
        assert(buffer@.units.subrange(0, 0) =~= Seq::<u16>::empty());
        buffer
    }

    /// The chunk buffer.
    pub fn units(&self) -> (units: &[u16; 128])
        ensures
            units@ == self@.units,
    {
        &self.units
    }

    /// Whether `byte` fits: a line feed does not while 126 units are pending, since its
    /// two units would leave no room for the terminator.
    pub fn accepts(&self, byte: u8) -> (fits: bool)
        requires
            self.wf(),
        ensures
            fits == !(byte == LINE_FEED && console_run(self@.written).1.len() == 126),
    {
        !(byte == LINE_FEED && self.cursor == 126)
    }

    /// Takes the next byte of the string. Answers `true` when 127 or more units are
    /// pending: they are then a chunk, terminated in place, and the buffer starts over.
    pub fn push_byte(&mut self, byte: u8) -> (flush: bool)
        requires
            old(self).wf(),
            !(byte == LINE_FEED && console_run(old(self)@.written).1.len() == 126),
        ensures
            final(self).wf(),
            final(self)@.written == old(self)@.written.push(byte),
            flush ==> final(self)@.sent == old(self)@.sent.push(
                final(self)@.units.subrange(0, 128),
            ),
            flush ==> final(self)@.units.subrange(0, 128) == (console_run(old(self)@.written).1
                + console_units(byte)).push(0u16),
            !flush ==> final(self)@.sent == old(self)@.sent,
            flush == (console_run(old(self)@.written).1.len() + console_units(byte).len() >= 127),
    {
        let ghost old_view = self@;
        let ghost pending = console_run(old_view.written).1 + console_units(byte);
        proof {
            lemma_console_pending_short(old_view.written);
            assert(old_view.written.push(byte).drop_last() =~= old_view.written);
        }
        let ch: u16 = if byte == LINE_FEED {
            CARRIAGE_RETURN as u16
        } else {
            byte as u16
        };
        self.units[self.cursor] = ch;
        self.cursor = self.cursor + 1;
        if byte == LINE_FEED {
            self.units[self.cursor] = LINE_FEED as u16;
            self.cursor = self.cursor + 1;
        }
        assert(self.units@.subrange(0, self.cursor as int) =~= pending);
        self.written = Ghost(old_view.written.push(byte));
        if self.cursor >= CONSOLE_BUFFER_UNITS - 1 {
            self.units[self.cursor] = 0;
            assert(self.units@.subrange(0, 128) =~= pending.push(0u16));
            self.sent = Ghost(old_view.sent.push(pending.push(0u16)));
            self.cursor = 0;
            assert(self.units@.subrange(0, 0) =~= Seq::<u16>::empty());
            true
        } else {
            false
        }
    }

    /// Ends the string. Answers `true` when units are pending: they are then the last
    /// chunk, terminated in place. All chunks handed out are then `console_chunks_of` the
    /// string.
    pub fn finish(&mut self) -> (flush: bool)
        requires
            old(self).wf(),
        ensures
            final(self)@.written == old(self)@.written,
            final(self)@.sent == console_chunks_of(old(self)@.written),
            flush == (console_run(old(self)@.written).1.len() > 0),
            flush ==> final(self)@.sent == old(self)@.sent.push(
                final(self)@.units.subrange(0, old(self)@.cursor + 1 as int),
            ),
            !flush ==> final(self)@.sent == old(self)@.sent,
    {
        let ghost old_view = self@;
        proof {
            lemma_console_pending_short(old_view.written);
        }
        if self.cursor != 0 {
            self.units[self.cursor] = 0;
            let ghost chunk = console_run(old_view.written).1.push(0u16);
            assert(self.units@.subrange(0, self.cursor + 1) =~= chunk);
            self.sent = Ghost(old_view.sent.push(chunk));
            true
        } else {
            false
        }
    }
}

} // verus!
