//! Raw bodies, back to back, in the same order as the headers. No per-file
//! framing: the other side already knows every size.
use vstd::prelude::*;

use crate::wire::{headers, FileHeader, HeaderView, CHUNK};

verus! {

/// This many zero bytes.
pub open spec fn zeros(n: nat) -> Seq<u8> {
    Seq::new(n, |i: int| 0u8)
}

/// The most that is read or written at once of a body of which `left` bytes are to come.
pub open spec fn chunk_of(left: nat) -> nat {
    if left < CHUNK {
        left
    } else {
        CHUNK as nat
    }
}

/// What is written for a file whose header promised `size` bytes, if reading it gives `reads`, one
/// after the other. A read that gives nothing is the file's end: it shrank between the scan and
/// now, so the rest is padded rather than the stream put out of step.
pub open spec fn sent_body(reads: Seq<Seq<u8>>, size: nat) -> Seq<u8>
    decreases reads.len(),
{
    if size == 0 {
        seq![]
    } else if reads.len() == 0 || reads[0].len() == 0 {
        zeros(size)
    } else if reads[0].len() >= size {
        reads[0].take(size as int)
    } else {
        reads[0] + sent_body(reads.skip(1), (size - reads[0].len()) as nat)
    }
}

/// A body that is being sent.
#[derive(Debug, Clone, Copy)]
pub struct Body {
    /// How many bytes the header promised that have not been written yet.
    pub left: u64,
}

/// What is to be written next.
#[derive(Debug, Clone, Copy, PartialEq, Eq, Structural)]
pub enum Piece {
    /// What was read.
    Read,
    /// This many zero bytes.
    Zeros(u64),
}

/// The bytes that a piece stands for.
pub open spec fn piece_bytes(p: Piece, read: Seq<u8>) -> Seq<u8> {
    match p {
        Piece::Read => read,
        Piece::Zeros(n) => zeros(n as nat),
    }
}

impl Body {
    /// How many bytes are to be read next. Zero once the body is complete.
    pub fn wants(&self) -> (r: usize)
        ensures
            r == chunk_of(self.left as nat),
    {
        if self.left < CHUNK as u64 {
            self.left as usize
        } else {
            CHUNK
        }
    }

    /// Takes in that a read for what was wanted gave `n` bytes, and says what to write for it.
    pub fn read(&mut self, n: usize) -> (r: Piece)
        requires
            0 < old(self).left,
            n <= chunk_of(old(self).left as nat),
        ensures
            r == (if n == 0 {
                Piece::Zeros(old(self).left)
            } else {
                Piece::Read
            }),
            final(self).left == (if n == 0 {
                0
            } else {
                old(self).left - n
            }),
            forall|read: Seq<u8>, more: Seq<Seq<u8>>|
                read.len() == n ==> #[trigger] sent_body(seq![read] + more, old(self).left as nat)
                    == piece_bytes(r, read) + sent_body(more, final(self).left as nat),
    {
        let ghost size = self.left as nat;
        let piece = if n == 0 {
            let rest: u64 = self.left;
            self.left = 0;
            Piece::Zeros(rest)
        } else {
            self.left = self.left - n as u64;
            Piece::Read
        };
        assert forall|read: Seq<u8>, more: Seq<Seq<u8>>| read.len() == n implies #[trigger] sent_body(
            seq![read] + more,
            size,
        ) == piece_bytes(piece, read) + sent_body(more, self.left as nat) by {
            let all = seq![read] + more;
            assert(all[0] == read);
            assert(all.skip(1) =~= more);
            if n == 0 {
                assert(sent_body(more, 0) =~= Seq::<u8>::empty());
                assert(zeros(size) + sent_body(more, 0) =~= zeros(size));
            } else if n == size {
                assert(sent_body(more, 0) =~= Seq::<u8>::empty());
                assert(read.take(size as int) =~= read);
                assert(read + sent_body(more, 0) =~= read);
            }
        }
        piece
    }
}

/// Whatever a file gives when it is read, its body is as long as its header promised.
pub proof fn a_body_is_as_long_as_promised(reads: Seq<Seq<u8>>, size: nat)
    ensures
        sent_body(reads, size).len() == size,
    decreases reads.len(),
{
    if size > 0 && reads.len() > 0 && 0 < reads[0].len() < size {
        a_body_is_as_long_as_promised(reads.skip(1), (size - reads[0].len()) as nat);
    }
}

/// The bytes of reads, one after the other.
pub open spec fn all_read(reads: Seq<Seq<u8>>) -> Seq<u8>
    decreases reads.len(),
{
    if reads.len() == 0 {
        seq![]
    } else {
        reads[0] + all_read(reads.skip(1))
    }
}

/// A file that still has the size that its header promised is sent as it is.
pub proof fn an_unchanged_file_is_sent_as_it_is(reads: Seq<Seq<u8>>)
    requires
        forall|i: int| 0 <= i < reads.len() ==> (#[trigger] reads[i]).len() > 0,
    ensures
        sent_body(reads, all_read(reads).len()) == all_read(reads),
    decreases reads.len(),
{
    if reads.len() > 0 {
        let rest = reads.skip(1);
        assert forall|i: int| 0 <= i < rest.len() implies (#[trigger] rest[i]).len() > 0 by {
            assert(rest[i] == reads[i + 1]);
        }
        an_unchanged_file_is_sent_as_it_is(rest);
        if all_read(rest).len() == 0 {
            assert(reads[0] + all_read(rest) =~= reads[0]);
            assert(reads[0].take(reads[0].len() as int) =~= reads[0]);
        }
    }
}

/// Bodies, one after the other.
pub open spec fn back_to_back(bodies: Seq<Seq<u8>>) -> Seq<u8>
    decreases bodies.len(),
{
    if bodies.len() == 0 {
        seq![]
    } else {
        bodies[0] + back_to_back(bodies.skip(1))
    }
}

/// The bodies that a stream holds for headers, and what is behind them, unless the stream is too
/// short.
pub open spec fn bodies_in(stream: Seq<u8>, files: Seq<HeaderView>) -> Option<
    (Seq<Seq<u8>>, Seq<u8>),
>
    decreases files.len(),
{
    if files.len() == 0 {
        Some((seq![], stream))
    } else if stream.len() < files[0].size {
        None
    } else {
        match bodies_in(stream.skip(files[0].size as int), files.skip(1)) {
            Some((v, rest)) => Some((seq![stream.take(files[0].size as int)] + v, rest)),
            None => None,
        }
    }
}

/// What is sent for headers is read back file by file, and the stream is then exactly behind it.
pub proof fn bodies_read_back(files: Seq<HeaderView>, bodies: Seq<Seq<u8>>, rest: Seq<u8>)
    requires
        bodies.len() == files.len(),
        forall|i: int| 0 <= i < files.len() ==> (#[trigger] bodies[i]).len() == files[i].size,
    ensures
        bodies_in(back_to_back(bodies) + rest, files) == Some((bodies, rest)),
    decreases files.len(),
{
    let s = back_to_back(bodies) + rest;
    if files.len() == 0 {
        assert(s =~= rest);
        assert(bodies =~= Seq::<Seq<u8>>::empty());
    } else {
        let n = files[0].size as int;
        let more = back_to_back(bodies.skip(1)) + rest;
        assert(bodies[0].len() == n);
        assert(s =~= bodies[0] + more);
        assert(s.take(n) =~= bodies[0]);
        assert(s.skip(n) =~= more);
        assert forall|i: int| 0 <= i < files.skip(1).len() implies (
        #[trigger] bodies.skip(1)[i]).len() == files.skip(1)[i].size by {
            assert(bodies.skip(1)[i] == bodies[i + 1]);
        }
        bodies_read_back(files.skip(1), bodies.skip(1), rest);
        assert(seq![bodies[0]] + bodies.skip(1) =~= bodies);
    }
}

/// A body that is being received. What is read for it is written as it comes.
#[derive(Debug, Clone, Copy)]
pub struct Intake {
    /// How many bytes of the body are still to come.
    pub left: u64,
    /// How many bytes came for all the bodies so far, modulo 2^64.
    pub received: u64,
}

impl Intake {
    /// Before the first body.
    pub fn new() -> (r: Intake)
        ensures
            r.left == 0,
            r.received == 0,
    {
        Intake { left: 0, received: 0 }
    }

    /// Goes on to the next body.
    pub fn begin(&mut self, h: &FileHeader)
        ensures
            final(self).left == h.size,
            final(self).received == old(self).received,
    {
        self.left = h.size;
    }

    /// How many bytes are to be read next, exactly. Zero once the body is complete.
    pub fn wants(&self) -> (r: usize)
        ensures
            r == chunk_of(self.left as nat),
    {
        Body { left: self.left }.wants()
    }

    /// Takes in that what was wanted has been read.
    pub fn took(&mut self)
        ensures
            final(self).left == old(self).left - chunk_of(old(self).left as nat),
            final(self).received == (old(self).received + chunk_of(old(self).left as nat))
                % 0x1_0000_0000_0000_0000,
    {
        let n: u64 = self.wants() as u64;
        self.left = self.left - n;
        self.received = self.received.wrapping_add(n);
    }
}

/// The sizes that headers promise, all together.
pub open spec fn promised(files: Seq<HeaderView>) -> nat
    decreases files.len(),
{
    if files.len() == 0 {
        0
    } else {
        promised(files.drop_last()) + files.last().size as nat
    }
}

/// The sizes that headers promise, all together, modulo 2^64.
pub fn total(files: &Vec<FileHeader>) -> (r: u64)
    ensures
        r == promised(headers(files@)) % 0x1_0000_0000_0000_0000,
{
    let ghost v = headers(files@);
    let mut sum: u64 = 0;
    let mut i: usize = 0;
    while i < files.len()
        invariant
            i <= files@.len(),
            v == headers(files@),
            sum == promised(v.take(i as int)) % 0x1_0000_0000_0000_0000,
        decreases files@.len() - i,
    {
        assert(v.take(i + 1).drop_last() =~= v.take(i as int));
        assert(v.take(i + 1).last() == files@[i as int]@);
        sum = sum.wrapping_add(files[i].size);
        i += 1;
    }
    assert(v.take(i as int) =~= v);
    sum
}

/// Whether an upload is long enough to say how far it is.
pub fn shows_progress(total: u64) -> (r: bool)
    ensures
        r == (total > 1_048_576),
{
    total > 1_048_576
}

/// How much is read or written at once: what is left, and never more than a mebibyte.
pub proof fn how_much_at_once(left: nat)
    ensures
        left <= 1_048_576 ==> chunk_of(left) == left,
        left >= 1_048_576 ==> chunk_of(left) == 1_048_576,
{
}

/// What is sent for a file is what is read of it, up to the size that was promised, and zeros for what is
/// missing once a read gives nothing, or there is none.
pub proof fn what_is_sent_for_a_file(reads: Seq<Seq<u8>>, more: Seq<Seq<u8>>, size: nat)
    requires
        forall|i: int| 0 <= i < reads.len() ==> (#[trigger] reads[i]).len() > 0,
    ensures
        reads.flatten().len() >= size ==> sent_body(reads + more, size) == reads.flatten().subrange(
            0,
            size as int,
        ),
        reads.flatten().len() <= size ==> sent_body(reads, size) == reads.flatten() + Seq::new(
            (size - reads.flatten().len()) as nat,
            |i: int| 0u8,
        ),
        reads.flatten().len() <= size ==> sent_body(reads + seq![Seq::<u8>::empty()] + more, size)
            == reads.flatten() + Seq::new((size - reads.flatten().len()) as nat, |i: int| 0u8),
    decreases reads.len(),
{
    let stop = seq![Seq::<u8>::empty()] + more;
    assert(reads + seq![Seq::<u8>::empty()] + more =~= reads + stop);
    if reads.len() == 0 {
        assert(reads.flatten() =~= Seq::<u8>::empty());
        assert(reads + stop =~= stop);
        assert(sent_body(reads, size) =~= Seq::new(size, |i: int| 0u8));
        assert(sent_body(stop, size) =~= Seq::new(size, |i: int| 0u8));
        assert(size == 0 ==> sent_body(reads + more, size) =~= reads.flatten().subrange(0, 0));
    } else {
        let first = reads[0];
        let rest = reads.skip(1);
        assert(first.len() > 0);
        assert(rest =~= reads.drop_first());
        assert(reads.flatten() == first + rest.flatten());
        assert forall|i: int| 0 <= i < rest.len() implies (#[trigger] rest[i]).len() > 0 by {
            assert(reads[i + 1].len() > 0);
        }
        let all = reads.flatten();
        assert((reads + more).skip(1) =~= rest + more);
        assert((reads + stop).skip(1) =~= rest + stop);
        assert((reads + more)[0] == first && (reads + stop)[0] == first);
        if size > first.len() {
            let left = (size - first.len()) as nat;
            what_is_sent_for_a_file(rest, more, left);
            assert(rest + seq![Seq::<u8>::empty()] + more =~= rest + stop);
            if all.len() >= size {
                assert(first + rest.flatten().subrange(0, left as int) =~= all.subrange(0, size as int));
            }
            if all.len() <= size {
                let z = Seq::new((size - all.len()) as nat, |i: int| 0u8);
                assert(first + (rest.flatten() + z) =~= all + z);
            }
        } else {
            if all.len() >= size {
                assert(sent_body(reads + more, size) =~= all.subrange(0, size as int));
            }
            if all.len() <= size {
                assert(rest.flatten().len() == 0);
                assert(all =~= first);
                let z = Seq::new((size - all.len()) as nat, |i: int| 0u8);
                assert(sent_body(reads, size) =~= all + z);
                assert(sent_body(reads + stop, size) =~= all + z);
            }
        }
    }
}

/// Each header adds the size that it promises.
pub proof fn promises_add_up(files: Seq<HeaderView>, h: HeaderView)
    ensures
        promised(Seq::<HeaderView>::empty()) == 0,
        promised(files.push(h)) == promised(files) + h.size,
{
    assert(files.push(h).drop_last() =~= files);
}

} // verus!
