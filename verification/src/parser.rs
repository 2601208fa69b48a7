//! Framing of a streamed response: from raw byte chunks to protocol payloads.
//!
//! The response arrives as chunks of bytes that hold lines. A chunk may hold
//! no line, one or many, and a line may be cut by a chunk's end. Lines that
//! begin with `data: ` carry a payload; the payload `[DONE]` ends the stream.
//! The parser joins the chunks, cuts them into lines and hands out the
//! payloads as frames. Decoding a payload's JSON into a
//! [`ChatCompletionChunk`](crate::delta::ChatCompletionChunk) is the caller's
//! part; a payload that does not decode is skipped.

use vstd::prelude::*;

verus! {

/// The line feed, which ends a line.
pub const LINE_FEED: u8 = 10;

/// The carriage return, which is dropped where it stands before a line feed.
pub const CARRIAGE_RETURN: u8 = 13;

/// The bytes of `data: `, with which a payload line begins.
pub open spec fn data_prefix() -> Seq<u8> {
    seq![100u8, 97u8, 116u8, 97u8, 58u8, 32u8]
}

/// The bytes of `[DONE]`, the payload that ends the stream.
pub open spec fn done_marker() -> Seq<u8> {
    seq![91u8, 68u8, 79u8, 78u8, 69u8, 93u8]
}

/// The two markers are the ASCII codes of their texts.
pub proof fn lemma_markers_spell_their_texts()
    ensures
        data_prefix() == Seq::new("data: "@.len(), |i: int| "data: "@[i] as u8),
        done_marker() == Seq::new("[DONE]"@.len(), |i: int| "[DONE]"@[i] as u8),
{
    reveal_strlit("data: ");
    reveal_strlit("[DONE]");
    assert(data_prefix() =~= Seq::new("data: "@.len(), |i: int| "data: "@[i] as u8));
    assert(done_marker() =~= Seq::new("[DONE]"@.len(), |i: int| "[DONE]"@[i] as u8));
}

/// What one protocol line hands to the consumer.
#[derive(Debug)]
pub enum Frame {
    /// The bytes of a payload, to be decoded.
    Payload(Vec<u8>),
    /// The end of the stream.
    End,
}

/// The mathematical value of a [`Frame`].
pub enum FrameView {
    Payload(Seq<u8>),
    End,
}

impl View for Frame {
    type V = FrameView;

    open spec fn view(&self) -> FrameView {
        match self {
            Frame::Payload(bytes) => FrameView::Payload(bytes@),
            Frame::End => FrameView::End,
        }
    }
}

/// The values of a list of frames, in order.
pub open spec fn frames_view(frames: Seq<Frame>) -> Seq<FrameView> {
    Seq::new(frames.len(), |i: int| frames[i]@)
}

/// A line without the carriage return that may end it.
pub open spec fn without_carriage_return(line: Seq<u8>) -> Seq<u8> {
    if line.len() > 0 && line.last() == CARRIAGE_RETURN {
        line.drop_last()
    } else {
        line
    }
}

/// The bytes after the last line feed: the line that is not complete yet.
pub open spec fn unfinished_line(bytes: Seq<u8>) -> Seq<u8>
    decreases bytes.len(),
{
    if bytes.len() == 0 {
        Seq::empty()
    } else if bytes.last() == LINE_FEED {
        Seq::empty()
    } else {
        unfinished_line(bytes.drop_last()).push(bytes.last())
    }
}

/// The lines that the bytes complete, each without its line ending.
pub open spec fn complete_lines(bytes: Seq<u8>) -> Seq<Seq<u8>>
    decreases bytes.len(),
{
    if bytes.len() == 0 {
        Seq::empty()
    } else if bytes.last() == LINE_FEED {
        complete_lines(bytes.drop_last()).push(
            without_carriage_return(unfinished_line(bytes.drop_last())),
        )
    } else {
        complete_lines(bytes.drop_last())
    }
}

/// The frame of a line: none for a line that does not begin with `data: `,
/// the end of the stream for the payload `[DONE]`, and the payload otherwise.
pub open spec fn frame_of(line: Seq<u8>) -> Option<FrameView> {
    if line.len() >= 6 && line.subrange(0, 6) == data_prefix() {
        let payload = line.skip(6);
        if payload == done_marker() {
            Some(FrameView::End)
        } else {
            Some(FrameView::Payload(payload))
        }
    } else {
        None
    }
}

/// The frames of a run of lines, in order.
pub open spec fn frames_of(lines: Seq<Seq<u8>>) -> Seq<FrameView>
    decreases lines.len(),
{
    if lines.len() == 0 {
        Seq::empty()
    } else {
        match frame_of(lines.last()) {
            Some(frame) => frames_of(lines.drop_last()).push(frame),
            None => frames_of(lines.drop_last()),
        }
    }
}

/// The end of the stream is among the frames.
pub open spec fn has_end(frames: Seq<FrameView>) -> bool {
    exists|i: int| 0 <= i < frames.len() && frames[i] == FrameView::End
}

/// The frames up to the first end of the stream, that one included; all of
/// them where there is none.
pub open spec fn until_end(frames: Seq<FrameView>) -> Seq<FrameView>
    decreases frames.len(),
{
    if frames.len() == 0 {
        frames
    } else if has_end(frames.drop_last()) {
        until_end(frames.drop_last())
    } else {
        frames
    }
}

/// What the parser remembers between two chunks.
pub struct ParserView {
    /// The bytes of the line that is not complete yet.
    pub pending: Seq<u8>,
    /// The stream has ended; nothing more comes out.
    pub ended: bool,
}

/// The parser's state after a chunk, and the frames that the chunk brings
/// out: those of the lines that it completes, up to the end of the stream.
pub open spec fn feed(state: ParserView, chunk: Seq<u8>) -> (ParserView, Seq<FrameView>) {
    if state.ended {
        (state, Seq::empty())
    } else {
        let bytes = state.pending + chunk;
        let frames = frames_of(complete_lines(bytes));
        if has_end(frames) {
            (ParserView { pending: Seq::empty(), ended: true }, until_end(frames))
        } else {
            (ParserView { pending: unfinished_line(bytes), ended: false }, frames)
        }
    }
}

/// The parser's state after the transport has closed the stream, and the
/// frames that this brings out: that of the last line, where bytes were left
/// that no line feed ended.
pub open spec fn close(state: ParserView) -> (ParserView, Seq<FrameView>) {
    if state.ended {
        (state, Seq::empty())
    } else {
        let frames = if state.pending.len() > 0 {
            frames_of(seq![state.pending])
        } else {
            Seq::empty()
        };
        (ParserView { pending: Seq::empty(), ended: true }, frames)
    }
}

/// The lines and the unfinished line after one more byte.
proof fn lemma_push_byte(bytes: Seq<u8>, byte: u8)
    ensures
        complete_lines(bytes.push(byte)) == if byte == LINE_FEED {
            complete_lines(bytes).push(without_carriage_return(unfinished_line(bytes)))
        } else {
            complete_lines(bytes)
        },
        unfinished_line(bytes.push(byte)) == if byte == LINE_FEED {
            Seq::<u8>::empty()
        } else {
            unfinished_line(bytes).push(byte)
        },
{
    assert(bytes.push(byte).drop_last() =~= bytes);
}

/// The frames after one more line.
proof fn lemma_push_line(lines: Seq<Seq<u8>>, line: Seq<u8>)
    ensures
        frames_of(lines.push(line)) == match frame_of(line) {
            Some(frame) => frames_of(lines).push(frame),
            None => frames_of(lines),
        },
{
    assert(lines.push(line).drop_last() =~= lines);
}

/// One more frame after frames that do not end the stream.
proof fn lemma_push_frame(frames: Seq<FrameView>, frame: FrameView)
    ensures
        has_end(frames.push(frame)) == (has_end(frames) || frame == FrameView::End),
        !has_end(frames) ==> until_end(frames.push(frame)) == frames.push(frame),
        has_end(frames) ==> until_end(frames.push(frame)) == until_end(frames),
{
    let grown = frames.push(frame);
    assert(grown.drop_last() =~= frames);
    if has_end(frames) {
        let i = choose|i: int| 0 <= i < frames.len() && frames[i] == FrameView::End;
        assert(grown[i] == FrameView::End);
    }
    if frame == FrameView::End {
        assert(grown[grown.len() - 1] == FrameView::End);
    }
    if has_end(grown) {
        let i = choose|i: int| 0 <= i < grown.len() && grown[i] == FrameView::End;
        if i < frames.len() {
            assert(frames[i] == FrameView::End);
        }
    }
}

/// The frames of two runs of lines, one after the other.
proof fn lemma_frames_of_concat(first: Seq<Seq<u8>>, second: Seq<Seq<u8>>)
    ensures
        frames_of(first + second) == frames_of(first) + frames_of(second),
    decreases second.len(),
{
    if second.len() == 0 {
        assert(first + second =~= first);
        assert(frames_of(first) + frames_of(second) =~= frames_of(first));
    } else {
        let earlier = second.drop_last();
        lemma_frames_of_concat(first, earlier);
        assert((first + second).drop_last() =~= first + earlier);
        assert((first + second).last() == second.last());
        match frame_of(second.last()) {
            Some(frame) => {
                assert((frames_of(first) + frames_of(earlier)).push(frame) =~= frames_of(first)
                    + frames_of(earlier).push(frame));
            },
            None => {},
        }
    }
}

/// Frames that follow frames without an end of the stream.
proof fn lemma_until_end_concat(first: Seq<FrameView>, second: Seq<FrameView>)
    ensures
        has_end(first + second) == (has_end(first) || has_end(second)),
        !has_end(first) ==> until_end(first + second) == first + until_end(second),
        has_end(first) ==> until_end(first + second) == until_end(first),
    decreases second.len(),
{
    if second.len() == 0 {
        assert(first + second =~= first);
        assert(first + until_end(second) =~= first);
        if !has_end(first) {
            lemma_until_end_is_whole(first);
        }
    } else {
        let earlier = second.drop_last();
        lemma_until_end_concat(first, earlier);
        lemma_push_frame(first + earlier, second.last());
        lemma_push_frame(earlier, second.last());
        assert((first + earlier).push(second.last()) =~= first + second);
        assert(earlier.push(second.last()) =~= second);
        if !has_end(first) {
            if has_end(earlier) {
            } else {
                assert(first + earlier.push(second.last()) =~= (first + earlier).push(
                    second.last(),
                ));
            }
        }
    }
}

/// Frames without an end of the stream are kept whole.
proof fn lemma_until_end_is_whole(frames: Seq<FrameView>)
    requires
        !has_end(frames),
    ensures
        until_end(frames) == frames,
{
    if frames.len() > 0 {
        if has_end(frames.drop_last()) {
            let i = choose|i: int|
                0 <= i < frames.drop_last().len() && frames.drop_last()[i] == FrameView::End;
            assert(frames[i] == FrameView::End);
        }
    }
}

/// The unfinished line holds no line feed, so it completes no line of its
/// own.
proof fn lemma_unfinished_line_is_open(bytes: Seq<u8>)
    ensures
        complete_lines(unfinished_line(bytes)) == Seq::<Seq<u8>>::empty(),
        unfinished_line(unfinished_line(bytes)) == unfinished_line(bytes),
    decreases bytes.len(),
{
    if bytes.len() == 0 {
    } else if bytes.last() == LINE_FEED {
    } else {
        lemma_unfinished_line_is_open(bytes.drop_last());
        lemma_push_byte(unfinished_line(bytes.drop_last()), bytes.last());
    }
}

/// Bytes that follow other bytes complete the lines that the first bytes
/// complete, and then those that the first bytes' unfinished line completes
/// together with them.
pub proof fn lemma_lines_of_concat(first: Seq<u8>, second: Seq<u8>)
    ensures
        complete_lines(first + second) == complete_lines(first) + complete_lines(
            unfinished_line(first) + second,
        ),
        unfinished_line(first + second) == unfinished_line(unfinished_line(first) + second),
    decreases second.len(),
{
    if second.len() == 0 {
        assert(first + second =~= first);
        assert(unfinished_line(first) + second =~= unfinished_line(first));
        lemma_unfinished_line_is_open(first);
        assert(complete_lines(first) + Seq::<Seq<u8>>::empty() =~= complete_lines(first));
    } else {
        let earlier = second.drop_last();
        let byte = second.last();
        lemma_lines_of_concat(first, earlier);
        assert((first + earlier).push(byte) =~= first + second);
        assert((unfinished_line(first) + earlier).push(byte) =~= unfinished_line(first) + second);
        lemma_push_byte(first + earlier, byte);
        lemma_push_byte(unfinished_line(first) + earlier, byte);
        if byte == LINE_FEED {
            let line = without_carriage_return(unfinished_line(first + earlier));
            assert((complete_lines(first) + complete_lines(unfinished_line(first) + earlier)).push(
                line,
            ) =~= complete_lines(first) + complete_lines(unfinished_line(first) + earlier).push(
                line,
            ));
        }
    }
}

/// However the bytes of a stream are cut into chunks, the same frames come
/// out: two chunks fed one after the other bring out the frames, and leave
/// the state, of the two fed as one.
pub proof fn lemma_chunking(state: ParserView, first: Seq<u8>, second: Seq<u8>)
    ensures
        feed(state, first + second).0 == feed(feed(state, first).0, second).0,
        feed(state, first + second).1 == feed(state, first).1 + feed(
            feed(state, first).0,
            second,
        ).1,
{
    if state.ended {
        assert(feed(state, first).1 + feed(feed(state, first).0, second).1 =~= Seq::<
            FrameView,
        >::empty());
    } else {
        let bytes = state.pending + first;
        let middle = feed(state, first).0;
        assert(state.pending + (first + second) =~= bytes + second);
        lemma_lines_of_concat(bytes, second);
        lemma_frames_of_concat(
            complete_lines(bytes),
            complete_lines(unfinished_line(bytes) + second),
        );
        lemma_until_end_concat(
            frames_of(complete_lines(bytes)),
            frames_of(complete_lines(unfinished_line(bytes) + second)),
        );
        if has_end(frames_of(complete_lines(bytes))) {
            assert(feed(state, first).1 + Seq::<FrameView>::empty() =~= feed(state, first).1);
        } else {
            lemma_until_end_is_whole(frames_of(complete_lines(bytes)));
            let later = frames_of(complete_lines(unfinished_line(bytes) + second));
            if !has_end(later) {
                lemma_until_end_is_whole(later);
            }
        }
    }
}

/// Reads a stream of server-sent lines chunk by chunk and hands out the
/// frames of its payload lines.
pub struct StreamingDeltaParser {
    pending: Vec<u8>,
    ended: bool,
}

impl View for StreamingDeltaParser {
    type V = ParserView;

    closed spec fn view(&self) -> ParserView {
        ParserView { pending: self.pending@, ended: self.ended }
    }
}

/// The frame of one line.
fn line_frame(line: &Vec<u8>) -> (frame: Option<Frame>)
    ensures
        match frame {
            Some(f) => frame_of(line@) == Some(f@),
            None => frame_of(line@) is None,
        },
{
    if line.len() >= 6 && line[0] == 100 && line[1] == 97 && line[2] == 116 && line[3] == 97
        && line[4] == 58 && line[5] == 32 {
        assert(line@.subrange(0, 6) =~= data_prefix());
        let mut payload: Vec<u8> = Vec::new();
        let mut i: usize = 6;
        while i < line.len()
            invariant
                6 <= i <= line.len(),
                payload@ == line@.subrange(6, i as int),
            decreases line.len() - i,
        {
            payload.push(line[i]);
            assert(line@.subrange(6, i as int).push(line@[i as int]) =~= line@.subrange(
                6,
                i + 1,
            ));
            i += 1;
        }
        assert(payload@ =~= line@.skip(6));
        if payload.len() == 6 && payload[0] == 91 && payload[1] == 68 && payload[2] == 79
            && payload[3] == 78 && payload[4] == 69 && payload[5] == 93 {
            assert(payload@ =~= done_marker());
            Some(Frame::End)
        } else {
            assert(payload@ != done_marker()) by {
                if payload@ == done_marker() {
                    assert(done_marker().len() == 6);
                    assert(done_marker()[0] == 91 && done_marker()[1] == 68 && done_marker()[2]
                        == 79 && done_marker()[3] == 78 && done_marker()[4] == 69
                        && done_marker()[5] == 93);
                }
            }
            Some(Frame::Payload(payload))
        }
    } else {
        assert(!(line@.len() >= 6 && line@.subrange(0, 6) == data_prefix())) by {
            if line@.len() >= 6 && line@.subrange(0, 6) == data_prefix() {
                let head = line@.subrange(0, 6);
                assert(head[0] == 100 && head[1] == 97 && head[2] == 116 && head[3] == 97
                    && head[4] == 58 && head[5] == 32);
            }
        }
        None
    }
}

impl StreamingDeltaParser {
    /// The bytes kept for the next chunk hold no line feed.
    pub closed spec fn wf(&self) -> bool {
        unfinished_line(self.pending@) == self.pending@
    }

    /// A parser at the start of a stream.
    pub fn new() -> (parser: StreamingDeltaParser)
        ensures
            parser.wf(),
            parser@ == (ParserView { pending: Seq::empty(), ended: false }),
    {
        StreamingDeltaParser { pending: Vec::new(), ended: false }
    }

    /// Whether the stream has ended.
    pub fn ended(&self) -> (ended: bool)
        ensures
            ended == self@.ended,
    {
        self.ended
    }

    /// Takes in the next chunk of the stream and hands out the frames of the
    /// lines that it completes, in stream order. The bytes after the last
    /// line feed are kept for the next chunk. The end of the stream is the
    /// last frame that ever comes out.
    pub fn push_chunk(&mut self, chunk: &[u8]) -> (frames: Vec<Frame>)
        requires
            old(self).wf(),
        ensures
            final(self).wf(),
            (final(self)@, frames_view(frames@)) == feed(old(self)@, chunk@),
    {
        let mut frames: Vec<Frame> = Vec::new();
        if self.ended {
            assert(frames_view(frames@) =~= Seq::<FrameView>::empty());
            return frames;
        }
        let ghost start = self.pending@;
        let mut i: usize = 0;
        proof {
            assert(start + chunk@.subrange(0, 0) =~= start);
            lemma_unfinished_line_is_open(start);
            assert(frames_view(frames@) =~= Seq::<FrameView>::empty());
        }
        while i < chunk.len() && !self.ended
            invariant
                i <= chunk.len(),
                !self.ended ==> {
                    &&& frames_view(frames@) == frames_of(
                        complete_lines(start + chunk@.subrange(0, i as int)),
                    )
                    &&& !has_end(frames_view(frames@))
                    &&& self.pending@ == unfinished_line(start + chunk@.subrange(0, i as int))
                },
                self.ended ==> {
                    &&& has_end(frames_of(complete_lines(start + chunk@.subrange(0, i as int))))
                    &&& frames_view(frames@) == until_end(
                        frames_of(complete_lines(start + chunk@.subrange(0, i as int))),
                    )
                    &&& self.pending@ == Seq::<u8>::empty()
                },
            decreases chunk.len() - i,
        {
            let byte = chunk[i];
            let ghost seen = start + chunk@.subrange(0, i as int);
            proof {
                assert(seen.push(byte) =~= start + chunk@.subrange(0, i + 1));
                lemma_push_byte(seen, byte);
            }
            if byte == LINE_FEED {
                let mut line: Vec<u8> = Vec::new();
                std::mem::swap(&mut line, &mut self.pending);
                if line.len() > 0 && line[line.len() - 1] == CARRIAGE_RETURN {
                    line.pop();
                }
                assert(line@ =~= without_carriage_return(unfinished_line(seen)));
                proof {
                    lemma_push_line(complete_lines(seen), line@);
                }
                let ghost before = frames_view(frames@);
                match line_frame(&line) {
                    Some(frame) => {
                        proof {
                            lemma_push_frame(before, frame@);
                        }
                        match frame {
                            Frame::End => {
                                self.ended = true;
                            },
                            Frame::Payload(_) => {},
                        }
                        frames.push(frame);
                        assert(frames_view(frames@) =~= before.push(frame@));
                    },
                    None => {},
                }
            } else {
                self.pending.push(byte);
            }
            i += 1;
        }
        proof {
            let seen = start + chunk@.subrange(0, i as int);
            let rest = chunk@.subrange(i as int, chunk@.len() as int);
            assert(seen + rest =~= start + chunk@);
            if self.ended {
                lemma_lines_of_concat(seen, rest);
                lemma_frames_of_concat(
                    complete_lines(seen),
                    complete_lines(unfinished_line(seen) + rest),
                );
                lemma_until_end_concat(
                    frames_of(complete_lines(seen)),
                    frames_of(complete_lines(unfinished_line(seen) + rest)),
                );
            } else {
                assert(rest =~= Seq::<u8>::empty());
                assert(seen =~= start + chunk@);
                lemma_unfinished_line_is_open(seen);
            }
        }
        frames
    }

    /// Tells the parser that the transport has closed the stream. Bytes that
    /// no line feed ended are the last line; its frame, if it has one, comes
    /// out. Nothing comes out of the parser after that.
    pub fn finish(&mut self) -> (frames: Vec<Frame>)
        requires
            old(self).wf(),
        ensures
            final(self).wf(),
            (final(self)@, frames_view(frames@)) == close(old(self)@),
    {
        let mut frames: Vec<Frame> = Vec::new();
        assert(frames_view(frames@) =~= Seq::<FrameView>::empty());
        if self.ended {
            return frames;
        }
        let mut line: Vec<u8> = Vec::new();
        std::mem::swap(&mut line, &mut self.pending);
        self.ended = true;
        if line.len() > 0 {
            proof {
                lemma_push_line(Seq::empty(), line@);
                assert(Seq::<Seq<u8>>::empty().push(line@) =~= seq![line@]);
            }
            match line_frame(&line) {
                Some(frame) => {
                    frames.push(frame);
                    assert(frames_view(frames@) =~= Seq::<FrameView>::empty().push(frame@));
                },
                None => {},
            }
        }
        frames
    }
}

} // verus!
