//! Reassembly of telegrams from a byte stream delivered in arbitrary chunks.

use vstd::prelude::*;

use crate::text::{chars_of, contains_char, decode_lossy, lossy_text};

verus! {

/// The character that opens a telegram.
pub const START_MARKER: char = '/';

/// The character that closes a telegram.
pub const END_MARKER: char = '!';

/// One step of the assembler: the buffer after `text` arrives, and the
/// telegram it completes, if any. A start marker discards what was buffered
/// before `text` is appended; an end marker emits the buffer with `text`
/// appended and leaves the buffer empty.
pub open spec fn feed(buf: Seq<char>, text: Seq<char>) -> (Seq<char>, Option<Seq<char>>) {
    let base = if text.contains(START_MARKER) {
        Seq::<char>::empty()
    } else {
        buf
    };
    if text.contains(END_MARKER) {
        (Seq::<char>::empty(), Some(base + text))
    } else {
        (base + text, None)
    }
}

/// The buffer after feeding `chunks` in order starting from `buf`, and the
/// telegrams emitted on the way.
pub open spec fn run(buf: Seq<char>, chunks: Seq<Seq<char>>) -> (Seq<char>, Seq<Seq<char>>)
    decreases chunks.len(),
{
    if chunks.len() == 0 {
        (buf, Seq::empty())
    } else {
        let (next, out) = feed(buf, chunks[0]);
        let (last, rest) = run(next, chunks.drop_first());
        let emitted = match out {
            Some(t) => seq![t] + rest,
            None => rest,
        };
        (last, emitted)
    }
}

/// Concatenation of all chunks.
pub open spec fn concat(chunks: Seq<Seq<char>>) -> Seq<char>
    decreases chunks.len(),
{
    if chunks.len() == 0 {
        Seq::empty()
    } else {
        chunks[0] + concat(chunks.drop_first())
    }
}

/// The text of an emitted telegram, if any.
pub open spec fn opt_view(o: Option<String>) -> Option<Seq<char>> {
    match o {
        Some(s) => Some(s@),
        None => None,
    }
}

proof fn lemma_contains_concat(a: Seq<char>, b: Seq<char>, c: char)
    ensures
        (a + b).contains(c) <==> (a.contains(c) || b.contains(c)),
{
    if a.contains(c) {
        let i = choose|i: int| 0 <= i < a.len() && a[i] == c;
        assert((a + b)[i] == c);
    }
    if b.contains(c) {
        let i = choose|i: int| 0 <= i < b.len() && b[i] == c;
        assert((a + b)[a.len() + i] == c);
    }
    if (a + b).contains(c) {
        let i = choose|i: int| 0 <= i < (a + b).len() && (a + b)[i] == c;
        if i < a.len() {
            assert(a[i] == c);
        } else {
            assert(b[i - a.len()] == c);
        }
    }
}

/// Chunks without a start marker, the last one alone holding an end marker,
/// emit exactly one telegram: the buffer followed by all the chunks.
proof fn lemma_accumulate(buf: Seq<char>, chunks: Seq<Seq<char>>)
    requires
        chunks.len() > 0,
        forall|i: int| 0 <= i < chunks.len() ==> !(#[trigger] chunks[i]).contains(START_MARKER),
        forall|i: int| 0 <= i < chunks.len() - 1 ==> !(#[trigger] chunks[i]).contains(END_MARKER),
        chunks[chunks.len() - 1].contains(END_MARKER),
    ensures
        run(buf, chunks) == (Seq::<char>::empty(), seq![buf + concat(chunks)]),
    decreases chunks.len(),
{
    let rest = chunks.drop_first();
    assert(concat(chunks) == chunks[0] + concat(rest));
    if chunks.len() == 1 {
        assert(concat(rest) == Seq::<char>::empty());
        assert(chunks[0] + concat(rest) =~= chunks[0]);
        assert(run(Seq::<char>::empty(), rest) == (Seq::<char>::empty(), Seq::<Seq<char>>::empty()));
        assert(seq![buf + chunks[0]] + Seq::<Seq<char>>::empty() =~= seq![buf + chunks[0]]);
    } else {
        assert(!chunks[0].contains(END_MARKER));
        assert forall|i: int| 0 <= i < rest.len() implies !(#[trigger] rest[i]).contains(START_MARKER) by {
            assert(rest[i] == chunks[i + 1]);
        }
        assert forall|i: int| 0 <= i < rest.len() - 1 implies !(#[trigger] rest[i]).contains(END_MARKER) by {
            assert(rest[i] == chunks[i + 1]);
        }
        assert(rest[rest.len() - 1] == chunks[chunks.len() - 1]);
        lemma_accumulate(buf + chunks[0], rest);
        assert((buf + chunks[0]) + concat(rest) =~= buf + (chunks[0] + concat(rest)));
    }
}

/// A start marker in one chunk, an end marker in a later or the same chunk,
/// and no start marker after the first chunk nor end marker before the last:
/// whatever was buffered before, exactly one telegram is emitted, and it is
/// the concatenation of the chunks.
pub proof fn lemma_one_frame(buf: Seq<char>, chunks: Seq<Seq<char>>)
    requires
        chunks.len() > 0,
        chunks[0].contains(START_MARKER),
        forall|i: int| 0 < i < chunks.len() ==> !(#[trigger] chunks[i]).contains(START_MARKER),
        forall|i: int| 0 <= i < chunks.len() - 1 ==> !(#[trigger] chunks[i]).contains(END_MARKER),
        chunks[chunks.len() - 1].contains(END_MARKER),
    ensures
        run(buf, chunks) == (Seq::<char>::empty(), seq![concat(chunks)]),
{
    let rest = chunks.drop_first();
    assert(concat(chunks) == chunks[0] + concat(rest));
    assert(Seq::<char>::empty() + chunks[0] =~= chunks[0]);
    if chunks.len() == 1 {
        assert(concat(rest) == Seq::<char>::empty());
        assert(chunks[0] + concat(rest) =~= chunks[0]);
        assert(run(Seq::<char>::empty(), rest) == (Seq::<char>::empty(), Seq::<Seq<char>>::empty()));
        assert(seq![chunks[0]] + Seq::<Seq<char>>::empty() =~= seq![chunks[0]]);
    } else {
        assert(!chunks[0].contains(END_MARKER));
        assert forall|i: int| 0 <= i < rest.len() implies !(#[trigger] rest[i]).contains(START_MARKER) by {
            assert(rest[i] == chunks[i + 1]);
        }
        assert forall|i: int| 0 <= i < rest.len() - 1 implies !(#[trigger] rest[i]).contains(END_MARKER) by {
            assert(rest[i] == chunks[i + 1]);
        }
        assert(rest[rest.len() - 1] == chunks[chunks.len() - 1]);
        lemma_accumulate(chunks[0], rest);
    }
}

/// A chunk that holds a start marker discards what was buffered: from then
/// on the assembler behaves as if it had started empty.
pub proof fn lemma_start_discards(buf: Seq<char>, chunks: Seq<Seq<char>>)
    requires
        chunks.len() > 0,
        chunks[0].contains(START_MARKER),
    ensures
        run(buf, chunks) == run(Seq::<char>::empty(), chunks),
{
}

/// Feeding `x` and then `y` is feeding `x + y`: the emitted telegrams are
/// those of `x` followed by those of `y`.
pub proof fn lemma_run_append(buf: Seq<char>, x: Seq<Seq<char>>, y: Seq<Seq<char>>)
    ensures
        run(buf, x + y) == ({
            let (mid, first) = run(buf, x);
            let (last, second) = run(mid, y);
            (last, first + second)
        }),
    decreases x.len(),
{
    if x.len() == 0 {
        assert(x + y =~= y);
        assert(Seq::<Seq<char>>::empty() + run(buf, y).1 =~= run(buf, y).1);
    } else {
        assert((x + y).drop_first() =~= x.drop_first() + y);
        assert((x + y)[0] == x[0]);
        let next = feed(buf, x[0]).0;
        lemma_run_append(next, x.drop_first(), y);
        let (mid, first) = run(next, x.drop_first());
        let second = run(mid, y).1;
        match feed(buf, x[0]).1 {
            Some(t) => {
                assert(seq![t] + (first + second) =~= (seq![t] + first) + second);
            },
            None => {},
        }
    }
}

/// Splitting one chunk in two changes nothing, as long as the first piece
/// holds no end marker and the second no start marker: where the chunk
/// boundaries fall between the markers does not matter.
pub proof fn lemma_split_chunk(
    buf: Seq<char>,
    before: Seq<Seq<char>>,
    a: Seq<char>,
    b: Seq<char>,
    after: Seq<Seq<char>>,
)
    requires
        !a.contains(END_MARKER),
        !b.contains(START_MARKER),
    ensures
        run(buf, before + seq![a + b] + after) == run(buf, before + seq![a, b] + after),
{
    lemma_contains_concat(a, b, START_MARKER);
    lemma_contains_concat(a, b, END_MARKER);
    let whole = seq![a + b] + after;
    let parts = seq![a, b] + after;
    assert(before + seq![a + b] + after =~= before + whole);
    assert(before + seq![a, b] + after =~= before + parts);
    lemma_run_append(buf, before, whole);
    lemma_run_append(buf, before, parts);
    let mid = run(buf, before).0;
    assert(whole.drop_first() =~= after);
    assert(parts.drop_first().drop_first() =~= after);
    assert(whole[0] == a + b);
    assert(parts[0] == a);
    assert(parts.drop_first()[0] == b);
    let base = if a.contains(START_MARKER) {
        Seq::<char>::empty()
    } else {
        mid
    };
    assert(feed(mid, a) == (base + a, None::<Seq<char>>));
    assert((base + a) + b =~= base + (a + b));
    assert(feed(base + a, b) == feed(mid, a + b));
    assert(run(mid, parts) == run(base + a, parts.drop_first()));
    assert(run(mid, whole).0 == run(feed(mid, a + b).0, after).0);
}

/// Holds the part of the telegram received so far.
pub struct FrameAssembler {
    buffer: String,
}

impl View for FrameAssembler {
    type V = Seq<char>;

    closed spec fn view(&self) -> Seq<char> {
        self.buffer@
    }
}

impl FrameAssembler {
    /// An assembler with nothing buffered.
    pub fn new() -> (r: FrameAssembler)
        ensures
            r@ == Seq::<char>::empty(),
    {
        FrameAssembler { buffer: String::new() }
    }

    /// The text buffered so far.
    pub fn pending(&self) -> (r: &str)
        ensures
            r@ == self@,
    {
        self.buffer.as_str()
    }

    /// Takes in one piece of decoded text; returns the telegram that it
    /// completes, if it holds an end marker.
    pub fn push_text(&mut self, text: &str) -> (r: Option<String>)
        ensures
            (final(self)@, opt_view(r)) == feed(old(self)@, text@),
    {
        let cs = chars_of(text);
        if contains_char(&cs, START_MARKER) {
            self.buffer = String::new();
        }
        self.buffer.append(text);
        if contains_char(&cs, END_MARKER) {
            let telegram = self.buffer.clone();
            self.buffer = String::new();
            Some(telegram)
        } else {
            None
        }
    }

    /// Takes in one chunk of raw bytes, decoded leniently (malformed
    /// sequences become a replacement character); returns the telegram that
    /// it completes, if any.
    pub fn push_chunk(&mut self, chunk: &[u8]) -> (r: Option<String>)
        ensures
            (final(self)@, opt_view(r)) == feed(old(self)@, lossy_text(chunk@)),
    {
        let text = decode_lossy(chunk);
        self.push_text(text.as_str())
    }
}

} // verus!
