use vstd::prelude::*;
use vstd::utf8::{decode_utf8, valid_utf8};

verus! {

/// The byte that ends a line.
pub const LINE_FEED: u8 = 10;

/// The byte dropped from the end of a line when it stands just before the
/// line feed.
pub const CARRIAGE_RETURN: u8 = 13;

/// A line without the carriage return that may end it.
pub open spec fn strip_cr(line: Seq<u8>) -> Seq<u8> {
    if line.len() > 0 && line.last() == CARRIAGE_RETURN {
        line.drop_last()
    } else {
        line
    }
}

/// Framing state after one more byte: a line feed completes the partial line,
/// any other byte extends it.
pub open spec fn frame_step(st: (Seq<Seq<u8>>, Seq<u8>), b: u8) -> (Seq<Seq<u8>>, Seq<u8>) {
    if b == LINE_FEED {
        (st.0.push(strip_cr(st.1)), Seq::<u8>::empty())
    } else {
        (st.0, st.1.push(b))
    }
}

/// Framing state (complete lines, partial line) after `bytes` are read from
/// state `st`.
pub open spec fn frame(st: (Seq<Seq<u8>>, Seq<u8>), bytes: Seq<u8>) -> (Seq<Seq<u8>>, Seq<u8>)
    decreases bytes.len(),
{
    if bytes.len() == 0 {
        st
    } else {
        frame_step(frame(st, bytes.drop_last()), bytes.last())
    }
}

/// The lines that `bytes` complete after the partial line `partial`, and the
/// partial line left over.
pub open spec fn complete_lines(partial: Seq<u8>, bytes: Seq<u8>) -> (Seq<Seq<u8>>, Seq<u8>) {
    frame((Seq::empty(), partial), bytes)
}

/// The text of the leading lines that decode as UTF-8, and whether all of
/// them did; decoding stops at the first line that does not.
pub open spec fn decode_lines(lines: Seq<Seq<u8>>) -> (Seq<Seq<char>>, bool)
    decreases lines.len(),
{
    if lines.len() == 0 {
        (Seq::empty(), true)
    } else {
        let d = decode_lines(lines.drop_last());
        if d.1 && valid_utf8(lines.last()) {
            (d.0.push(decode_utf8(lines.last())), true)
        } else {
            (d.0, false)
        }
    }
}

proof fn lemma_frame_concat(st: (Seq<Seq<u8>>, Seq<u8>), a: Seq<u8>, b: Seq<u8>)
    ensures
        frame(st, a + b) == frame(frame(st, a), b),
    decreases b.len(),
{
    if b.len() == 0 {
        assert(a + b =~= a);
    } else {
        assert((a + b).drop_last() =~= a + b.drop_last());
        assert((a + b).last() == b.last());
        lemma_frame_concat(st, a, b.drop_last());
    }
}

proof fn lemma_frame_lines(lines: Seq<Seq<u8>>, partial: Seq<u8>, bytes: Seq<u8>)
    ensures
        frame((lines, partial), bytes).0 == lines + complete_lines(partial, bytes).0,
        frame((lines, partial), bytes).1 == complete_lines(partial, bytes).1,
    decreases bytes.len(),
{
    if bytes.len() == 0 {
        assert(lines + Seq::<Seq<u8>>::empty() =~= lines);
    } else {
        lemma_frame_lines(lines, partial, bytes.drop_last());
        let e = complete_lines(partial, bytes.drop_last());
        if bytes.last() == LINE_FEED {
            assert((lines + e.0).push(strip_cr(e.1)) =~= lines + e.0.push(strip_cr(e.1)));
        }
    }
}

proof fn lemma_decode_stuck(lines: Seq<Seq<u8>>, j: int)
    requires
        0 <= j <= lines.len(),
        !decode_lines(lines.take(j)).1,
    ensures
        decode_lines(lines) == decode_lines(lines.take(j)),
    decreases lines.len(),
{
    if j == lines.len() {
        assert(lines.take(j) =~= lines);
    } else {
        assert(lines.drop_last().take(j) =~= lines.take(j));
        lemma_decode_stuck(lines.drop_last(), j);
    }
}

/// Chunking does not matter: reading `a` and then `b` delivers, in order, the
/// lines that reading `a + b` at once delivers, and leaves the same partial
/// line.
pub proof fn lemma_chunking(partial: Seq<u8>, a: Seq<u8>, b: Seq<u8>)
    ensures
        complete_lines(partial, a).0 + complete_lines(complete_lines(partial, a).1, b).0
            == complete_lines(partial, a + b).0,
        complete_lines(complete_lines(partial, a).1, b).1 == complete_lines(partial, a + b).1,
{
    let first = complete_lines(partial, a);
    lemma_frame_concat((Seq::empty(), partial), a, b);
    lemma_frame_lines(first.0, first.1, b);
}

/// Relies on std::str::from_utf8: it accepts exactly the byte sequences that
/// are valid UTF-8, and then yields the characters they encode.
#[verifier::external_body]
fn decode_line(bytes: &[u8]) -> (r: Option<String>)
    ensures
        r is Some <==> valid_utf8(bytes@),
        r matches Some(s) ==> s@ == decode_utf8(bytes@),
{
    std::str::from_utf8(bytes).ok().map(str::to_owned)
}

/// Splits a byte stream, read in chunks of any size, into lines.
pub struct LineFramer {
    pending: Vec<u8>,
}

impl LineFramer {
    /// The bytes of the line begun but not yet ended.
    pub closed spec fn partial(&self) -> Seq<u8> {
        self.pending@
    }

    /// A framer at the start of a stream.
    pub fn new() -> (r: Self)
        ensures
            r.partial() == Seq::<u8>::empty(),
    {
        LineFramer { pending: Vec::new() }
    }

    /// Reads `chunk` and returns the lines it completes, in order, each
    /// without its line feed and without a carriage return just before it.
    pub fn feed(&mut self, chunk: &[u8]) -> (r: Vec<Vec<u8>>)
        ensures
            (r@.map_values(|l: Vec<u8>| l@), final(self).partial()) == complete_lines(
                old(self).partial(),
                chunk@,
            ),
    {
        let mut lines: Vec<Vec<u8>> = Vec::new();
        let mut i: usize = 0;
        while i < chunk.len()
            invariant
                i <= chunk@.len(),
                (lines@.map_values(|l: Vec<u8>| l@), self.pending@) == frame(
                    (Seq::empty(), old(self).pending@),
                    chunk@.take(i as int),
                ),
            decreases chunk@.len() - i,
        {
            let b = chunk[i];
            proof {
                assert(chunk@.take(i + 1).drop_last() =~= chunk@.take(i as int));
                assert(chunk@.take(i + 1).last() == b);
            }
            if b == LINE_FEED {
                let ghost p = self.pending@;
                let mut line: Vec<u8> = Vec::new();
                std::mem::swap(&mut line, &mut self.pending);
                let n = line.len();
                if n > 0 && line[n - 1] == CARRIAGE_RETURN {
                    line.pop();
                }
                assert(line@ =~= strip_cr(p));
                let ghost prev = lines@;
                lines.push(line);
                assert(lines@.map_values(|l: Vec<u8>| l@) =~= prev.map_values(|l: Vec<u8>| l@).push(
                    line@,
                ));
            } else {
                self.pending.push(b);
            }
            i = i + 1;
        }
        assert(chunk@.take(chunk@.len() as int) =~= chunk@);
        lines
    }

    /// Ends the stream: an unterminated partial line is discarded.
    pub fn finish(&mut self)
        ensures
            final(self).partial() == Seq::<u8>::empty(),
    {
        self.pending = Vec::new();
    }
}

/// Which output stream of a child a line came from.
#[derive(Clone, Copy, Debug, PartialEq, Eq)]
pub enum Stream {
    Stdout,
    Stderr,
}

/// The name by which a stream is tagged in events.
pub open spec fn stream_tag(s: Stream) -> Seq<char> {
    match s {
        Stream::Stdout => "stdout"@,
        Stream::Stderr => "stderr"@,
    }
}

impl Stream {
    /// The tag of this stream: `stdout` or `stderr`.
    pub fn tag(&self) -> (r: String)
        ensures
            r@ == stream_tag(*self),
    {
        match self {
            Stream::Stdout => "stdout".to_owned(),
            Stream::Stderr => "stderr".to_owned(),
        }
    }
}

/// One line of a child's output: the tool it belongs to, the text of the
/// line without its terminator, and the stream it came from.
#[derive(Clone, Debug, PartialEq, Eq)]
pub struct OutputEvent {
    pub tool: String,
    pub message: String,
    pub stream: Stream,
}

/// `events` carry exactly the messages `msgs`, in order, each tagged with the
/// tool `tool` and the stream `stream`.
pub open spec fn relayed(events: Seq<OutputEvent>, tool: Seq<char>, stream: Stream, msgs: Seq<Seq<char>>) -> bool {
    &&& events.len() == msgs.len()
    &&& forall|i: int|
        0 <= i < events.len() ==> (#[trigger] events[i]).tool@ == tool && events[i].stream == stream
            && events[i].message@ == msgs[i]
}

/// Drains one output stream of one tool: turns the chunks read from it into
/// line events. It stops for good at the first line that is not UTF-8, or
/// when the stream ends.
pub struct OutputRelay {
    tool: String,
    stream: Stream,
    framer: LineFramer,
    stopped: bool,
}

impl OutputRelay {
    /// The tool whose output this relay carries.
    pub closed spec fn tool_name(&self) -> Seq<char> {
        self.tool@
    }

    /// The stream this relay drains.
    pub closed spec fn stream_kind(&self) -> Stream {
        self.stream
    }

    /// The bytes of the line begun but not yet ended.
    pub closed spec fn partial(&self) -> Seq<u8> {
        self.framer.partial()
    }

    /// Whether the relay has stopped and ignores further input.
    pub closed spec fn stopped(&self) -> bool {
        self.stopped
    }

    /// A relay for stream `stream` of tool `tool`, at the start of the stream.
    pub fn new(tool: String, stream: Stream) -> (r: Self)
        ensures
            r.tool_name() == tool@,
            r.stream_kind() == stream,
            r.partial() == Seq::<u8>::empty(),
            !r.stopped(),
    {
        OutputRelay { tool, stream, framer: LineFramer::new(), stopped: false }
    }

    /// Whether the relay has stopped.
    pub fn is_stopped(&self) -> (r: bool)
        ensures
            r == self.stopped(),
    {
        self.stopped
    }

    /// Reads `chunk` from the stream and returns an event for each line it
    /// completes, in order, tagged with this relay's tool and stream. The
    /// first line that is not valid UTF-8 stops the relay; the lines before
    /// it are still delivered. A stopped relay returns no event.
    pub fn on_chunk(&mut self, chunk: &[u8]) -> (r: Vec<OutputEvent>)
        ensures
            final(self).tool_name() == old(self).tool_name(),
            final(self).stream_kind() == old(self).stream_kind(),
            old(self).stopped() ==> r@.len() == 0 && final(self).stopped() && final(self).partial()
                == old(self).partial(),
            !old(self).stopped() ==> relayed(
                r@,
                old(self).tool_name(),
                old(self).stream_kind(),
                decode_lines(complete_lines(old(self).partial(), chunk@).0).0,
            ),
            !old(self).stopped() ==> final(self).stopped() == !decode_lines(
                complete_lines(old(self).partial(), chunk@).0,
            ).1,
            !old(self).stopped() ==> final(self).partial() == complete_lines(
                old(self).partial(),
                chunk@,
            ).1,
    {
        let mut events: Vec<OutputEvent> = Vec::new();
        if self.stopped {
            return events;
        }
        let lines = self.framer.feed(chunk);
        let ghost lv = lines@.map_values(|l: Vec<u8>| l@);
        let mut i: usize = 0;
        let mut ok = true;
        while ok && i < lines.len()
            invariant
                i <= lines@.len(),
                lv == lines@.map_values(|l: Vec<u8>| l@),
                !self.stopped,
                self.tool@ == old(self).tool@,
                self.stream == old(self).stream,
                ok ==> decode_lines(lv.take(i as int)).1,
                ok ==> relayed(events@, self.tool@, self.stream, decode_lines(lv.take(i as int)).0),
                !ok ==> !decode_lines(lv).1,
                !ok ==> relayed(events@, self.tool@, self.stream, decode_lines(lv).0),
            decreases lines@.len() - i,
        {
            proof {
                assert(lv.take(i + 1).drop_last() =~= lv.take(i as int));
                assert(lv.take(i + 1).last() == lines@[i as int]@);
            }
            match decode_line(lines[i].as_slice()) {
                Some(message) => {
                    let ghost prev = events@;
                    events.push(OutputEvent { tool: self.tool.clone(), message, stream: self.stream });
                    assert(forall|j: int| 0 <= j < prev.len() ==> events@[j] == prev[j]);
                },
                None => {
                    ok = false;
                    proof {
                        lemma_decode_stuck(lv, i + 1);
                    }
                },
            }
            i = i + 1;
        }
        if ok {
            assert(lv.take(lv.len() as int) =~= lv);
        } else {
            self.stopped = true;
        }
        events
    }

    /// The stream has ended: the relay stops, and an unterminated partial
    /// line is discarded without an event.
    pub fn on_close(&mut self)
        ensures
            final(self).tool_name() == old(self).tool_name(),
            final(self).stream_kind() == old(self).stream_kind(),
            final(self).stopped(),
            final(self).partial() == Seq::<u8>::empty(),
    {
        self.framer.finish();
        self.stopped = true;
    }
}

} // verus!
