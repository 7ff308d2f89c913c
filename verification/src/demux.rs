//! The output of the supervised tool, taken apart.
//!
//! The tool writes progress states that overwrite one another, each ended by
//! a carriage return, and log lines, each ended by a line feed. The stream is
//! cut into chunks at every carriage return. A chunk without a line feed is
//! one progress update; a chunk with line feeds is cut at them, and every
//! piece is a log line. Each text must be UTF-8: the first one that is not
//! ends the sequence with a failure that holds its bytes.

use vstd::prelude::*;
use vstd::string::*;
use vstd::utf8::*;
use vstd::slice::*;
use vstd::seq_lib::*;
use crate::model::views;
use crate::split::{
    lemma_split_at, lemma_split_concat, lemma_split_none, lemma_split_on_pieces, split_after,
    split_bytes, split_on,
};

verus! {

/// Carriage return: ends a chunk.
pub const CR: u8 = 0x0d;

/// Line feed: ends a log line inside a chunk.
pub const LF: u8 = 0x0a;

/// One record of the tool's output, with its content of type `T`: raw bytes
/// before decoding, text after it.
#[derive(Debug, Clone, PartialEq, Eq)]
pub enum Segment<T> {
    /// A transient status line, which the next one overwrites.
    ProgressUpdate(T),
    /// A completed line of the log.
    LogLine(T),
}

/// A decoded record, as handed to the caller.
pub type OutputSegment = Segment<String>;

impl<T: View> View for Segment<T> {
    type V = Segment<T::V>;

    open spec fn view(&self) -> Segment<T::V> {
        match self {
            Segment::ProgressUpdate(t) => Segment::ProgressUpdate(t@),
            Segment::LogLine(t) => Segment::LogLine(t@),
        }
    }
}

/// A record of the output that is not UTF-8.
#[derive(Debug, Clone, PartialEq, Eq)]
pub struct StreamDecodeError {
    /// The bytes of the record, as the tool wrote them.
    pub bytes: Vec<u8>,
}

impl View for StreamDecodeError {
    type V = Seq<u8>;

    open spec fn view(&self) -> Seq<u8> {
        self.bytes@
    }
}

impl StreamDecodeError {
    /// The text that reports this error.
    pub fn message(&self) -> (text: String)
        ensures
            text@ == "the output of the tool is not UTF-8"@,
    {
        "the output of the tool is not UTF-8".to_owned()
    }
}

/// What decoding a run of records gives, as a mathematical value: the texts
/// of the records before the first undecodable one, and the bytes of that one
/// if there is one.
pub struct Decoded {
    pub segments: Seq<Segment<Seq<char>>>,
    pub failure: Option<Seq<u8>>,
}

impl Decoded {
    /// Nothing decoded, nothing failed.
    pub open spec fn nothing() -> Decoded {
        Decoded { segments: Seq::empty(), failure: None }
    }

    /// This outcome and then `next`: after a failure nothing follows.
    pub open spec fn followed_by(self, next: Decoded) -> Decoded {
        if self.failure is Some {
            self
        } else {
            Decoded { segments: self.segments + next.segments, failure: next.failure }
        }
    }
}

/// The records decoded from one stretch of output, and the failure that
/// ended the decoding, if any.
#[derive(Debug, Clone, PartialEq, Eq)]
pub struct Demuxed {
    /// The records before the first undecodable one, in stream order.
    pub segments: Vec<OutputSegment>,
    /// The first undecodable record, where there is one.
    pub failure: Option<StreamDecodeError>,
}

impl View for Demuxed {
    type V = Decoded;

    open spec fn view(&self) -> Decoded {
        Decoded {
            segments: views(self.segments@),
            failure: match self.failure {
                Some(e) => Some(e@),
                None => None,
            },
        }
    }
}

/// The bytes that a raw record holds.
pub open spec fn record_bytes(r: Segment<Seq<u8>>) -> Seq<u8> {
    match r {
        Segment::ProgressUpdate(b) => b,
        Segment::LogLine(b) => b,
    }
}

/// A raw record with its bytes read as UTF-8.
pub open spec fn decode_record(r: Segment<Seq<u8>>) -> Segment<Seq<char>> {
    match r {
        Segment::ProgressUpdate(b) => Segment::ProgressUpdate(decode_utf8(b)),
        Segment::LogLine(b) => Segment::LogLine(decode_utf8(b)),
    }
}

/// The raw records of one chunk: the chunk itself as a progress update where
/// it holds no line feed, else its pieces between line feeds as log lines.
pub open spec fn chunk_records(chunk: Seq<u8>) -> Seq<Segment<Seq<u8>>> {
    if chunk.contains(LF) {
        split_on(chunk, LF).map_values(|piece: Seq<u8>| Segment::LogLine(piece))
    } else {
        seq![Segment::ProgressUpdate(chunk)]
    }
}

/// The raw records of a run of chunks, in order.
pub open spec fn records_of(chunks: Seq<Seq<u8>>) -> Seq<Segment<Seq<u8>>> {
    chunks.map_values(|chunk: Seq<u8>| chunk_records(chunk)).flatten()
}

/// How many records at the front are valid UTF-8.
pub open spec fn readable_prefix(records: Seq<Segment<Seq<u8>>>) -> int
    decreases records.len(),
{
    if records.len() == 0 || !valid_utf8(record_bytes(records[0])) {
        0
    } else {
        1 + readable_prefix(records.drop_first())
    }
}

/// The records decoded in order, up to the first that is not UTF-8.
pub open spec fn decode_records(records: Seq<Segment<Seq<u8>>>) -> Decoded {
    let n = readable_prefix(records);
    Decoded {
        segments: records.take(n).map_values(|r: Segment<Seq<u8>>| decode_record(r)),
        failure: if 0 <= n < records.len() {
            Some(record_bytes(records[n]))
        } else {
            None
        },
    }
}

/// The chunks of a stream that a carriage return has ended.
pub open spec fn completed(stream: Seq<u8>) -> Seq<Seq<u8>> {
    split_on(stream, CR).drop_last()
}

/// What follows the last carriage return of a stream: a chunk still open.
pub open spec fn pending(stream: Seq<u8>) -> Seq<u8> {
    split_on(stream, CR).last()
}

/// The chunks of a stream that has ended: those that a carriage return ended
/// and, unless it is empty, what follows the last one.
pub open spec fn stream_chunks(stream: Seq<u8>) -> Seq<Seq<u8>> {
    if pending(stream).len() == 0 {
        completed(stream)
    } else {
        completed(stream).push(pending(stream))
    }
}

/// What a whole stream decodes to.
pub open spec fn demux(stream: Seq<u8>) -> Decoded {
    decode_records(records_of(stream_chunks(stream)))
}

/// What a demultiplexer that holds `open` hands out when it is fed `data`.
pub open spec fn fed(open: Seq<u8>, data: Seq<u8>) -> Decoded {
    decode_records(records_of(completed(open + data)))
}

/// What a demultiplexer that holds `open` hands out when the stream ends.
pub open spec fn finished(open: Seq<u8>) -> Decoded {
    if open.len() == 0 {
        Decoded::nothing()
    } else {
        decode_records(chunk_records(open))
    }
}

/// `readable_prefix` is the index of the first record that is not UTF-8, or
/// the number of records.
pub proof fn lemma_readable_prefix(records: Seq<Segment<Seq<u8>>>, n: int)
    requires
        0 <= n <= records.len(),
        forall|k: int| 0 <= k < n ==> valid_utf8(record_bytes(#[trigger] records[k])),
        n < records.len() ==> !valid_utf8(record_bytes(records[n])),
    ensures
        readable_prefix(records) == n,
    decreases records.len(),
{
    if n > 0 {
        lemma_readable_prefix(records.drop_first(), n - 1);
    }
}

/// `readable_prefix` is in range and stops at the first record that is not
/// UTF-8.
pub proof fn lemma_readable_prefix_bounds(records: Seq<Segment<Seq<u8>>>)
    ensures
        0 <= readable_prefix(records) <= records.len(),
        forall|k: int|
            0 <= k < readable_prefix(records) ==> valid_utf8(record_bytes(#[trigger] records[k])),
        readable_prefix(records) < records.len() ==> !valid_utf8(
            record_bytes(records[readable_prefix(records)]),
        ),
    decreases records.len(),
{
    if records.len() > 0 && valid_utf8(record_bytes(records[0])) {
        let rest = records.drop_first();
        lemma_readable_prefix_bounds(rest);
        assert forall|k: int| 0 <= k < readable_prefix(records) implies valid_utf8(
            record_bytes(#[trigger] records[k]),
        ) by {
            if k > 0 {
                assert(records[k] == rest[k - 1]);
            }
        }
    }
}

/// Decoding one run of records after another is decoding the first and,
/// unless it failed, the second.
pub proof fn lemma_decode_concat(x: Seq<Segment<Seq<u8>>>, y: Seq<Segment<Seq<u8>>>)
    ensures
        decode_records(x + y) == decode_records(x).followed_by(decode_records(y)),
{
    lemma_readable_prefix_bounds(x);
    lemma_readable_prefix_bounds(y);
    let nx = readable_prefix(x);
    let ny = readable_prefix(y);
    let whole = x + y;
    let f = |r: Segment<Seq<u8>>| decode_record(r);
    if nx < x.len() {
        lemma_readable_prefix(whole, nx);
        assert(whole.take(nx) =~= x.take(nx));
    } else {
        let n = nx + ny;
        if ny < y.len() {
            assert(whole[n] == y[ny]);
        }
        lemma_readable_prefix(whole, n);
        assert(whole.take(n).map_values(f) =~= x.take(nx).map_values(f) + y.take(ny).map_values(
            f,
        ));
    }
}

/// The records of one run of chunks after another.
pub proof fn lemma_records_concat(x: Seq<Seq<u8>>, y: Seq<Seq<u8>>)
    ensures
        records_of(x + y) == records_of(x) + records_of(y),
{
    let f = |chunk: Seq<u8>| chunk_records(chunk);
    assert((x + y).map_values(f) =~= x.map_values(f) + y.map_values(f));
    lemma_flatten_concat(x.map_values(f), y.map_values(f));
}

/// The records of a single chunk.
pub proof fn lemma_records_single(chunk: Seq<u8>)
    ensures
        records_of(seq![chunk]) == chunk_records(chunk),
{
    let f = |c: Seq<u8>| chunk_records(c);
    assert(seq![chunk].map_values(f) =~= seq![chunk_records(chunk)]);
    seq![chunk_records(chunk)].lemma_flatten_one_element();
}

/// No records come from no chunks.
pub proof fn lemma_records_none()
    ensures
        records_of(Seq::<Seq<u8>>::empty()) == Seq::<Segment<Seq<u8>>>::empty(),
        decode_records(Seq::<Segment<Seq<u8>>>::empty()) == Decoded::nothing(),
{
    let none = Seq::<Segment<Seq<u8>>>::empty();
    assert(none.take(0).map_values(|r: Segment<Seq<u8>>| decode_record(r)) =~= Seq::<
        Segment<Seq<char>>,
    >::empty());
}

/// A demultiplexer may be fed a stream in two parts: what was still open
/// after the first part is all that matters for the second.
pub proof fn lemma_feed_in_parts(a: Seq<u8>, b: Seq<u8>)
    ensures
        completed(a + b) == completed(a) + completed(pending(a) + b),
        pending(a + b) == pending(pending(a) + b),
        !pending(a).contains(CR),
        fed(Seq::empty(), a + b) == fed(Seq::empty(), a).followed_by(fed(pending(a), b)),
{
    lemma_split_on_pieces(a, CR);
    lemma_split_on_pieces(b, CR);
    let open = pending(a);
    lemma_split_none(open, CR);
    lemma_split_concat(a, b, CR);
    lemma_split_concat(open, b, CR);
    let joint = seq![open + split_on(b, CR).first()] + split_on(b, CR).drop_first();
    assert(split_on(open + b, CR) =~= joint);
    assert(split_on(a + b, CR) == split_on(a, CR).drop_last() + joint);
    assert(Seq::<u8>::empty() + (a + b) =~= a + b);
    assert(Seq::<u8>::empty() + a =~= a);
    lemma_records_concat(completed(a), completed(open + b));
    lemma_decode_concat(records_of(completed(a)), records_of(completed(open + b)));
}

/// Feeding a whole stream to a fresh demultiplexer and then ending it gives
/// what the stream decodes to.
pub proof fn lemma_feed_then_finish(stream: Seq<u8>)
    ensures
        demux(stream) == fed(Seq::empty(), stream).followed_by(finished(pending(stream))),
{
    let done = completed(stream);
    let open = pending(stream);
    if open.len() == 0 {
        lemma_records_none();
    } else {
        assert(done.push(open) =~= done + seq![open]);
        lemma_records_concat(done, seq![open]);
        lemma_records_single(open);
        lemma_decode_concat(records_of(done), chunk_records(open));
    }
}

/// Feeding a stream in two parts and then ending it gives what the whole
/// stream decodes to.
pub proof fn lemma_parts_make_the_stream(a: Seq<u8>, b: Seq<u8>)
    ensures
        demux(a + b) == fed(Seq::empty(), a).followed_by(fed(pending(a), b)).followed_by(
            finished(pending(pending(a) + b)),
        ),
{
    lemma_feed_in_parts(a, b);
    lemma_feed_then_finish(a + b);
}

/// A stream that ends in a carriage return has no chunk after it, and one
/// that is empty has no chunk at all.
pub proof fn lemma_no_trailing_chunk(stream: Seq<u8>)
    ensures
        stream.len() == 0 ==> stream_chunks(stream).len() == 0,
        stream_chunks(stream + seq![CR]) == completed(stream).push(pending(stream)),
        stream_chunks(stream + seq![CR]).len() == split_on(stream, CR).len(),
{
    lemma_split_on_pieces(stream, CR);
    if stream.len() == 0 {
        lemma_split_none(stream, CR);
    }
    let tail = seq![CR];
    lemma_split_at(tail, CR, 0);
    lemma_split_none(Seq::<u8>::empty(), CR);
    lemma_split_concat(stream, tail, CR);
}

/// `std::str::from_utf8`: gives the text exactly when the bytes are valid
/// UTF-8, and the text is then what the bytes decode to.
#[verifier::external_body]
fn utf8_text(bytes: &[u8]) -> (text: Option<&str>)
    ensures
        text is Some <==> valid_utf8(bytes@),
        text matches Some(s) ==> s@ == decode_utf8(bytes@),
{
    match std::str::from_utf8(bytes) {
        Ok(s) => Some(s),
        Err(_) => None,
    }
}

/// Reads `bytes` as UTF-8 text. Bytes that are not UTF-8 come back in the
/// error, unchanged.
pub fn decode_text(bytes: &[u8]) -> (res: Result<String, StreamDecodeError>)
    ensures
        res is Ok <==> valid_utf8(bytes@),
        res matches Ok(text) ==> text@ == decode_utf8(bytes@),
        res matches Err(e) ==> e@ == bytes@,
{
    match utf8_text(bytes) {
        Some(s) => Ok(s.to_owned()),
        None => Err(StreamDecodeError { bytes: slice_to_vec(bytes) }),
    }
}

/// Decodes one chunk: the stretch of output between two carriage returns.
pub fn demux_chunk(chunk: &[u8]) -> (out: Demuxed)
    ensures
        out@ == decode_records(chunk_records(chunk@)),
{
    let pieces = split_bytes(chunk, LF);
    let ghost records = chunk_records(chunk@);
    let ghost f = |r: Segment<Seq<u8>>| decode_record(r);
    let mut segments: Vec<OutputSegment> = Vec::new();
    proof {
        lemma_split_on_pieces(chunk@, LF);
    }
    if pieces.len() == 1 {
        match decode_text(chunk) {
            Ok(text) => {
                proof {
                    lemma_readable_prefix(records, 1);
                    assert(views(segments@.push(Segment::ProgressUpdate(text))) =~= records.take(
                        1,
                    ).map_values(f));
                }
                segments.push(Segment::ProgressUpdate(text));
                Demuxed { segments, failure: None }
            },
            Err(e) => {
                proof {
                    lemma_readable_prefix(records, 0);
                    assert(views(segments@) =~= records.take(0).map_values(f));
                }
                Demuxed { segments, failure: Some(e) }
            },
        }
    } else {
        let mut i: usize = 0;
        while i < pieces.len()
            invariant
                0 <= i <= pieces.len(),
                records == chunk_records(chunk@),
                records.len() == pieces.len(),
                forall|k: int|
                    0 <= k < pieces.len() ==> #[trigger] records[k] == Segment::LogLine(
                        pieces@[k]@,
                    ),
                f == |r: Segment<Seq<u8>>| decode_record(r),
                forall|k: int| 0 <= k < i ==> valid_utf8(record_bytes(#[trigger] records[k])),
                segments@.len() == i,
                views(segments@) == records.take(i as int).map_values(f),
            decreases pieces.len() - i,
        {
            match decode_text(pieces[i].as_slice()) {
                Ok(text) => {
                    proof {
                        let grown = views(segments@.push(Segment::LogLine(text)));
                        let wanted = records.take(i + 1).map_values(f);
                        assert forall|k: int| 0 <= k < grown.len() implies grown[k]
                            == wanted[k] by {
                            if k < i {
                                assert(grown[k] == views(segments@)[k]);
                            }
                        }
                    }
                    segments.push(Segment::LogLine(text));
                },
                Err(e) => {
                    proof {
                        lemma_readable_prefix(records, i as int);
                    }
                    return Demuxed { segments, failure: Some(e) };
                },
            }
            i += 1;
        }
        proof {
            lemma_readable_prefix(records, records.len() as int);
        }
        Demuxed { segments, failure: None }
    }
}

/// Decodes a run of chunks in order, up to the first record that is not
/// UTF-8.
pub fn demux_chunks(chunks: &Vec<Vec<u8>>) -> (out: Demuxed)
    ensures
        out@ == decode_records(records_of(views(chunks@))),
{
    let ghost all = views(chunks@);
    let mut segments: Vec<OutputSegment> = Vec::new();
    let mut i: usize = 0;
    proof {
        lemma_records_none();
        assert(views(segments@) =~= Seq::<Segment<Seq<char>>>::empty());
    }
    while i < chunks.len()
        invariant
            0 <= i <= chunks.len(),
            all == views(chunks@),
            decode_records(records_of(all.take(i as int))) == (Decoded {
                segments: views(segments@),
                failure: None,
            }),
        decreases chunks.len() - i,
    {
        let mut one = demux_chunk(chunks[i].as_slice());
        let ghost before = views(segments@);
        let ghost added = views(one.segments@);
        proof {
            assert(all.take(i + 1) =~= all.take(i as int) + seq![all[i as int]]);
            lemma_records_concat(all.take(i as int), seq![all[i as int]]);
            lemma_records_single(all[i as int]);
            lemma_decode_concat(records_of(all.take(i as int)), chunk_records(all[i as int]));
        }
        segments.append(&mut one.segments);
        proof {
            assert(views(segments@) =~= before + added);
        }
        if one.failure.is_some() {
            proof {
                assert(all =~= all.take(i + 1) + all.skip(i + 1));
                lemma_records_concat(all.take(i + 1), all.skip(i + 1));
                lemma_decode_concat(
                    records_of(all.take(i + 1)),
                    records_of(all.skip(i + 1)),
                );
            }
            return Demuxed { segments, failure: one.failure };
        }
        i += 1;
    }
    proof {
        assert(all.take(chunks.len() as int) =~= all);
    }
    Demuxed { segments, failure: None }
}

impl Demuxed {
    /// This outcome and then `next`: after a failure nothing follows.
    pub fn followed_by(self, next: Demuxed) -> (out: Demuxed)
        ensures
            out@ == self@.followed_by(next@),
    {
        if self.failure.is_some() {
            self
        } else {
            let mut segments = self.segments;
            let mut more = next.segments;
            let ghost before = views(segments@);
            let ghost added = views(more@);
            segments.append(&mut more);
            proof {
                assert(views(segments@) =~= before + added);
            }
            Demuxed { segments, failure: next.failure }
        }
    }
}

/// The demultiplexer of a stream that arrives in parts. It holds the bytes
/// that follow the last carriage return seen: a chunk that is still open.
pub struct Demultiplexer {
    open: Vec<u8>,
}

impl View for Demultiplexer {
    type V = Seq<u8>;

    closed spec fn view(&self) -> Seq<u8> {
        self.open@
    }
}

impl Demultiplexer {
    /// The open chunk holds no carriage return.
    #[verifier::type_invariant]
    spec fn inv(self) -> bool {
        !self.open@.contains(CR)
    }

    /// A demultiplexer at the start of a stream.
    pub fn new() -> (d: Demultiplexer)
        ensures
            d@ == Seq::<u8>::empty(),
    {
        let open: Vec<u8> = Vec::new();
        Demultiplexer { open }
    }

    /// The bytes of the chunk that is still open. None of them is a carriage
    /// return.
    pub fn open_chunk(&self) -> (bytes: &[u8])
        ensures
            bytes@ == self@,
            !self@.contains(CR),
    {
        proof {
            use_type_invariant(self);
        }
        self.open.as_slice()
    }

    /// Takes the next part of the stream and hands out the records of the
    /// chunks that it completes. What follows the last carriage return stays
    /// open, also where a record could not be decoded.
    pub fn feed(&mut self, data: &[u8]) -> (out: Demuxed)
        ensures
            final(self)@ == pending(old(self)@ + data@),
            out@ == fed(old(self)@, data@),
    {
        proof {
            use_type_invariant(&*self);
        }
        let mut head: Vec<u8> = Vec::new();
        std::mem::swap(&mut head, &mut self.open);
        let mut chunks = split_after(head, data, CR);
        proof {
            lemma_split_on_pieces(old(self)@ + data@, CR);
        }
        let ghost pieces = views(chunks@);
        let last = chunks.pop().unwrap();
        proof {
            assert(views(chunks@) =~= pieces.drop_last());
            assert(last@ == pieces.last());
        }
        self.open = last;
        demux_chunks(&chunks)
    }

    /// Ends the stream: the open chunk, unless it is empty, is decoded as
    /// the last one.
    pub fn finish(self) -> (out: Demuxed)
        ensures
            out@ == finished(self@),
    {
        if self.open.len() == 0 {
            let out = Demuxed { segments: Vec::new(), failure: None };
            proof {
                assert(views(out.segments@) =~= Seq::<Segment<Seq<char>>>::empty());
            }
            out
        } else {
            demux_chunk(self.open.as_slice())
        }
    }
}

/// Decodes a whole stream.
pub fn demultiplex(stream: &[u8]) -> (out: Demuxed)
    ensures
        out@ == demux(stream@),
{
    let mut d = Demultiplexer::new();
    let first = d.feed(stream);
    proof {
        lemma_feed_then_finish(stream@);
    }
    let last = d.finish();
    first.followed_by(last)
}

} // verus!
