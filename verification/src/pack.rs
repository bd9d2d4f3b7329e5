//! A file on its way back: packed piece by piece by the server, unpacked once all of it has come.
use vstd::prelude::*;
use vstd::string::*;

use crate::keys::bytes_or;
use crate::wire::{ServerMsg, ServerView};

verus! {

/// How hard the server packs.
pub const LEVEL: i32 = 3;

/// The bytes that zstd frames, one after the other, stand for, or what is wrong with them.
pub uninterp spec fn unpacked(frames: Seq<u8>) -> Result<Seq<u8>, Seq<char>>;

/// Why a piece cannot be packed at a level, if it cannot.
pub uninterp spec fn pack_error(piece: Seq<u8>, level: i32) -> Option<Seq<char>>;

/// Whether bytes are a packed piece: they are not nothing, by themselves they unpack to it, and behind other frames they
/// add it to what those unpack to.
pub open spec fn packs(frame: Seq<u8>, piece: Seq<u8>) -> bool {
    &&& frame.len() > 0
    &&& unpacked(frame) == Ok::<Seq<u8>, Seq<char>>(piece)
    &&& forall|before: Seq<u8>|
        unpacked(before) is Ok ==> #[trigger] unpacked(before + frame) == Ok::<Seq<u8>, Seq<char>>(
            unpacked(before)->Ok_0 + piece,
        )
}

/// `zstd::stream::encode_all` on bytes, with the error as a text: a frame, and so never nothing, that
/// decodes to the bytes again, also where it follows other frames. Whether there is one is up to
/// [`pack_error`]; a machine that runs out of memory is left aside.
#[verifier::external_body]
pub(crate) fn pack(piece: &[u8], level: i32) -> (r: Result<Vec<u8>, String>)
    ensures
        match r {
            Ok(frame) => packs(frame@, piece@) && pack_error(piece@, level) is None,
            Err(e) => pack_error(piece@, level) == Some(e@),
        },
{
    zstd::stream::encode_all(piece, level).map_err(|e| e.to_string())
}

/// `zstd::stream::decode_all` on bytes, with the error as a text. It goes on from frame to frame until
/// the end.
#[verifier::external_body]
pub(crate) fn unpack(frames: &[u8]) -> (r: Result<Vec<u8>, String>)
    ensures
        bytes_or(r) == unpacked(frames@),
{
    zstd::stream::decode_all(frames).map_err(|e| e.to_string())
}

/// What sends a piece of a file. It fails only where the piece cannot be packed.
pub fn piece_message(piece: &[u8]) -> (r: Result<ServerMsg, String>)
    ensures
        match r {
            Ok(m) => m@ matches ServerView::Data(frame) && packs(frame, piece@) && pack_error(
                piece@,
                LEVEL,
            ) is None,
            Err(e) => pack_error(piece@, LEVEL) == Some(e@),
        },
{
    data_message(pack(piece, LEVEL))
}

/// What sends a piece, from what packing it came to.
pub fn data_message(packed: Result<Vec<u8>, String>) -> (r: Result<ServerMsg, String>)
    ensures
        match packed {
            Ok(frame) => r matches Ok(m) && m@ == ServerView::Data(frame@),
            Err(e) => r matches Err(m) && m@ == e@,
        },
{
    match packed {
        Ok(frame) => Ok(ServerMsg::Data(frame)),
        Err(e) => Err(e),
    }
}

/// A file on its way to a client.
#[derive(Debug, Clone, Copy)]
pub struct Outgoing {
    /// How much of it has been sent, modulo 2^64.
    pub raw: u64,
}

impl Outgoing {
    /// Before the first piece.
    pub fn new() -> (r: Outgoing)
        ensures
            r.raw == 0,
    {
        Outgoing { raw: 0 }
    }

    /// What sends the next piece.
    pub fn piece(&mut self, data: &[u8]) -> (r: Result<ServerMsg, String>)
        ensures
            final(self).raw == (old(self).raw + data@.len()) % 0x1_0000_0000_0000_0000,
            match r {
                Ok(m) => m@ matches ServerView::Data(frame) && packs(frame, data@) && pack_error(
                    data@,
                    LEVEL,
                ) is None,
                Err(e) => pack_error(data@, LEVEL) == Some(e@),
            },
    {
        self.raw = self.raw.wrapping_add(data.len() as u64);
        piece_message(data)
    }

    /// What says that this was all.
    pub fn end(&self) -> (r: ServerMsg)
        ensures
            r@ == (ServerView::DataEnd { raw: self.raw }),
    {
        ServerMsg::DataEnd { raw: self.raw }
    }
}

/// The file that has come. Of an empty one nothing comes at all.
pub open spec fn file_of(frames: Seq<u8>) -> Result<Seq<u8>, Seq<char>> {
    if frames.len() == 0 {
        Ok(seq![])
    } else {
        unpacked(frames)
    }
}

/// Unpacks the file that has come.
pub fn unpack_file(frames: &Vec<u8>) -> (r: Result<Vec<u8>, String>)
    ensures
        bytes_or(r) == file_of(frames@),
{
    if frames.len() == 0 {
        let nothing: Vec<u8> = Vec::new();
        assert(nothing@ =~= Seq::<u8>::empty());
        Ok(nothing)
    } else {
        unpack(frames.as_slice())
    }
}

/// Byte strings, one after the other.
pub open spec fn all_of(v: Seq<Seq<u8>>) -> Seq<u8>
    decreases v.len(),
{
    if v.len() == 0 {
        seq![]
    } else {
        all_of(v.drop_last()) + v.last()
    }
}

/// What is fetched is what was served: however a file was cut into pieces, its packed pieces unpack to
/// the whole of it.
pub proof fn what_is_fetched_is_what_was_served(pieces: Seq<Seq<u8>>, frames: Seq<Seq<u8>>)
    requires
        frames.len() == pieces.len(),
        forall|i: int| 0 <= i < frames.len() ==> packs(#[trigger] frames[i], pieces[i]),
    ensures
        file_of(all_of(frames)) == Ok::<Seq<u8>, Seq<char>>(all_of(pieces)),
    decreases frames.len(),
{
    if frames.len() > 0 {
        let f = frames.drop_last();
        let p = pieces.drop_last();
        assert forall|i: int| 0 <= i < f.len() implies packs(#[trigger] f[i], p[i]) by {
            assert(packs(frames[i], pieces[i]));
        }
        what_is_fetched_is_what_was_served(p, f);
        let last = frames[frames.len() - 1];
        assert(packs(last, pieces[pieces.len() - 1]));
        if f.len() == 0 {
            assert(all_of(f) + last =~= last);
            assert(all_of(p) + pieces.last() =~= pieces.last());
        } else {
            let n = f.len() - 1;
            assert(packs(f[n], p[n]));
            assert(all_of(f).len() > 0);
            assert(unpacked(all_of(f) + last) == Ok::<Seq<u8>, Seq<char>>(all_of(p) + pieces.last()));
        }
    }
}

/// A file of which nothing came is empty, and any other is what its frames unpack to.
pub proof fn what_has_come(frames: Seq<u8>)
    ensures
        file_of(Seq::<u8>::empty()) == Ok::<Seq<u8>, Seq<char>>(Seq::empty()),
        frames.len() > 0 ==> file_of(frames) == unpacked(frames),
        LEVEL == 3,
{
}

} // verus!
