//! Framing of the TCP byte stream.
//!
//! A connection carries frames one after another, each closed by a single
//! zero byte. The bytes of a frame may arrive in any number of reads; a
//! [`FrameSplitter`] keeps what has arrived of the frame under way.

use vstd::prelude::*;

verus! {

/// The byte that closes a frame.
pub const FRAME_DELIMITER: u8 = 0;

/// The frames that a stream has closed so far, in order.
pub open spec fn closed_frames(stream: Seq<u8>) -> Seq<Seq<u8>>
    decreases stream.len(),
{
    if stream.len() == 0 {
        Seq::empty()
    } else if stream.last() == FRAME_DELIMITER {
        closed_frames(stream.drop_last()).push(open_frame(stream.drop_last()))
    } else {
        closed_frames(stream.drop_last())
    }
}

/// The bytes of the frame that a stream has begun and not yet closed.
pub open spec fn open_frame(stream: Seq<u8>) -> Seq<u8>
    decreases stream.len(),
{
    if stream.len() == 0 {
        Seq::empty()
    } else if stream.last() == FRAME_DELIMITER {
        Seq::empty()
    } else {
        open_frame(stream.drop_last()).push(stream.last())
    }
}

/// The frames, each followed by the delimiter, one after another.
pub open spec fn delimited(frames: Seq<Seq<u8>>) -> Seq<u8>
    decreases frames.len(),
{
    if frames.len() == 0 {
        Seq::empty()
    } else {
        delimited(frames.drop_last()) + frames.last().push(FRAME_DELIMITER)
    }
}

/// Whether a run of bytes is free of the delimiter.
pub open spec fn delimiter_free(bytes: Seq<u8>) -> bool {
    forall|i: int| 0 <= i < bytes.len() ==> bytes[i] != FRAME_DELIMITER
}

/// The contents of a list of buffers.
pub open spec fn contents(buffers: Seq<Vec<u8>>) -> Seq<Seq<u8>> {
    Seq::new(buffers.len(), |i: int| buffers[i]@)
}

/// Splitting loses nothing and cuts at every delimiter: the closed frames,
/// each with its delimiter, followed by the open frame, spell the stream, and
/// no frame holds a delimiter.
pub proof fn lemma_split_is_exact(stream: Seq<u8>)
    ensures
        delimited(closed_frames(stream)) + open_frame(stream) == stream,
        delimiter_free(open_frame(stream)),
        forall|k: int|
            0 <= k < closed_frames(stream).len() ==> delimiter_free(
                #[trigger] closed_frames(stream)[k],
            ),
    decreases stream.len(),
{
    if stream.len() > 0 {
        let prev = stream.drop_last();
        lemma_split_is_exact(prev);
        assert(stream == prev.push(stream.last()));
        if stream.last() == 0 {
            let frames = closed_frames(stream);
            assert(frames.drop_last() == closed_frames(prev));
            assert(delimited(frames) + open_frame(stream) =~= stream);
        } else {
            assert(delimited(closed_frames(stream)) + open_frame(stream) =~= stream);
        }
    } else {
        assert(delimited(closed_frames(stream)) + open_frame(stream) =~= stream);
    }
}

/// A stream without a delimiter has closed no frame: all of it is the open
/// frame.
pub proof fn lemma_split_without_delimiter(stream: Seq<u8>)
    requires
        delimiter_free(stream),
    ensures
        closed_frames(stream) == Seq::<Seq<u8>>::empty(),
        open_frame(stream) == stream,
    decreases stream.len(),
{
    if stream.len() > 0 {
        lemma_split_without_delimiter(stream.drop_last());
        assert(stream == stream.drop_last().push(stream.last()));
    }
}

/// However a stream is cut into reads, the frames are the same: the frames
/// of two reads are those of the first, then those that the second closes
/// together with what the first left open.
pub proof fn lemma_split_in_two_reads(first: Seq<u8>, second: Seq<u8>)
    ensures
        closed_frames(first + second) == closed_frames(first) + closed_frames(
            open_frame(first) + second,
        ),
        open_frame(first + second) == open_frame(open_frame(first) + second),
    decreases second.len(),
{
    let rest = open_frame(first);
    if second.len() == 0 {
        lemma_split_is_exact(first);
        lemma_split_without_delimiter(rest);
        assert(first + second == first);
        assert(rest + second == rest);
        assert(closed_frames(first) + Seq::<Seq<u8>>::empty() == closed_frames(first));
    } else {
        let shorter = second.drop_last();
        lemma_split_in_two_reads(first, shorter);
        assert((first + second).drop_last() == first + shorter);
        assert((rest + second).drop_last() == rest + shorter);
        assert((first + second).last() == second.last());
        assert((rest + second).last() == second.last());
        if second.last() == 0 {
            assert(closed_frames(first + second) =~= closed_frames(first) + closed_frames(
                rest + second,
            ));
        }
    }
}

/// Cuts the byte stream of one connection into frames.
pub struct FrameSplitter {
    pending: Vec<u8>,
}

impl View for FrameSplitter {
    type V = Seq<u8>;

    /// The bytes of the frame under way.
    closed spec fn view(&self) -> Seq<u8> {
        self.pending@
    }
}

impl FrameSplitter {
    #[verifier::type_invariant]
    spec fn inv(&self) -> bool {
        delimiter_free(self.pending@)
    }

    /// A splitter at the start of a connection.
    pub fn new() -> (splitter: FrameSplitter)
        ensures
            splitter@ == Seq::<u8>::empty(),
    {
        FrameSplitter { pending: Vec::new() }
    }

    /// Number of bytes held of the frame under way.
    pub fn pending_len(&self) -> (len: usize)
        ensures
            len == self@.len(),
            delimiter_free(self@),
    {
        proof {
            use_type_invariant(self);
        }
        self.pending.len()
    }

    /// Takes in the bytes of one read and hands out the frames that they
    /// close, in order. What follows the last delimiter is kept for the next
    /// read.
    pub fn push(&mut self, bytes: &[u8]) -> (frames: Vec<Vec<u8>>)
        ensures
            contents(frames@) == closed_frames(old(self)@ + bytes@),
            final(self)@ == open_frame(old(self)@ + bytes@),
            delimiter_free(old(self)@),
    {
        proof {
            use_type_invariant(&*self);
            lemma_split_without_delimiter(self.pending@);
        }
        let ghost held = self.pending@;
        let mut current: Vec<u8> = Vec::new();
        core::mem::swap(&mut self.pending, &mut current);
        let mut frames: Vec<Vec<u8>> = Vec::new();
        let mut i: usize = 0;
        assert(held + bytes@.subrange(0, 0) == held);
        assert(contents(frames@) == Seq::<Seq<u8>>::empty());
        while i < bytes.len()
            invariant
                i <= bytes@.len(),
                contents(frames@) == closed_frames(held + bytes@.subrange(0, i as int)),
                current@ == open_frame(held + bytes@.subrange(0, i as int)),
            decreases bytes@.len() - i,
        {
            let byte: u8 = bytes[i];
            let ghost seen = held + bytes@.subrange(0, i as int);
            let ghost closed = frames@;
            proof {
                let next = held + bytes@.subrange(0, i + 1);
                assert(next.drop_last() == seen);
                assert(next.last() == byte);
            }
            if byte == FRAME_DELIMITER {
                let mut frame: Vec<u8> = Vec::new();
                core::mem::swap(&mut current, &mut frame);
                frames.push(frame);
                assert(contents(frames@) == contents(closed).push(frame@));
            } else {
                current.push(byte);
            }
            i += 1;
        }
        proof {
            assert(bytes@.subrange(0, i as int) == bytes@);
            lemma_split_is_exact(held + bytes@);
        }
        self.pending = current;
        frames
    }

    /// Ends the connection. Bytes that were left after the last delimiter are
    /// the last frame; if there are none, there is no such frame.
    pub fn finish(self) -> (last: Option<Vec<u8>>)
        ensures
            self@.len() == 0 ==> last is None,
            self@.len() > 0 ==> (last matches Some(frame) && frame@ == self@),
    {
        if self.pending.len() == 0 {
            None
        } else {
            Some(self.pending)
        }
    }
}

} // verus!
