//! Wire protocol shared by client and server.
//!
//! Framing: `u32` little-endian length, then an encoded message.
//! Bulk file bodies are NOT framed: after a `Push`, the client writes each
//! file's bytes back to back, and the server reads exactly `size` bytes per
//! header. Framing every 4 KB source file individually would be pure overhead.
use vstd::prelude::*;
use vstd::slice::*;
use vstd::string::*;

use crate::text::{opt_text, texts};

verus! {

pub const PORT: u16 = 7878;

pub const NAMESPACE: &'static str = "rbuild@local";

pub const CHUNK: usize = 1_048_576;

/// Guard against a hostile or confused peer asking us to allocate a gigabyte.
pub const MAX_FRAME: u32 = 16_777_216;

/// What the two sides say of a file: where it is in the project, how long it is, and when it was
/// last changed, in seconds since the epoch.
#[derive(Debug)]
pub struct FileHeader {
    pub path: String,
    pub size: u64,
    pub mtime: i64,
}

/// The model of a [`FileHeader`].
#[verifier::ext_equal]
pub struct HeaderView {
    pub path: Seq<char>,
    pub size: u64,
    pub mtime: i64,
}

impl View for FileHeader {
    type V = HeaderView;

    open spec fn view(&self) -> HeaderView {
        HeaderView { path: self.path@, size: self.size, mtime: self.mtime }
    }
}

impl Clone for FileHeader {
    fn clone(&self) -> (r: Self)
        ensures
            r@ == self@,
    {
        FileHeader { path: self.path.clone(), size: self.size, mtime: self.mtime }
    }
}

/// The views of a list of headers.
pub open spec fn headers(v: Seq<FileHeader>) -> Seq<HeaderView> {
    v.map_values(|h: FileHeader| h@)
}

/// What the client says.
#[derive(Debug)]
pub enum ClientMsg {
    /// SSHSIG over the server's nonce, proving we hold the private key.
    Auth { pubkey: String, sig_pem: String },
    /// "Tell me what you already have for this project."
    Manifest { project: String },
    /// Deletions, then headers. Raw bodies follow immediately, in header order.
    Push { project: String, deletes: Vec<String>, files: Vec<FileHeader> },
    /// Run cargo, and stream its output back merged, as `Output`.
    Build {
        project: String,
        subcommand: String,
        args: Vec<String>,
        target: Option<String>,
        trailing: Vec<String>,
    },
    /// Fetch an artifact. Server restricts this to the targets tree.
    Fetch { project: String, rel: String },
    Bye,
    /// Run cargo, and stream each of its outputs back on its own, as `Chunk`.
    Cargo {
        project: String,
        subcommand: String,
        args: Vec<String>,
        target: Option<String>,
        trailing: Vec<String>,
        color: Option<String>,
    },
}

/// The model of a [`ClientMsg`].
#[verifier::ext_equal]
pub enum ClientView {
    Auth { pubkey: Seq<char>, sig_pem: Seq<char> },
    Manifest { project: Seq<char> },
    Push { project: Seq<char>, deletes: Seq<Seq<char>>, files: Seq<HeaderView> },
    Build {
        project: Seq<char>,
        subcommand: Seq<char>,
        args: Seq<Seq<char>>,
        target: Option<Seq<char>>,
        trailing: Seq<Seq<char>>,
    },
    Fetch { project: Seq<char>, rel: Seq<char> },
    Bye,
    Cargo {
        project: Seq<char>,
        subcommand: Seq<char>,
        args: Seq<Seq<char>>,
        target: Option<Seq<char>>,
        trailing: Seq<Seq<char>>,
        color: Option<Seq<char>>,
    },
}

impl View for ClientMsg {
    type V = ClientView;

    open spec fn view(&self) -> ClientView {
        match self {
            ClientMsg::Auth { pubkey, sig_pem } => ClientView::Auth {
                pubkey: pubkey@,
                sig_pem: sig_pem@,
            },
            ClientMsg::Manifest { project } => ClientView::Manifest { project: project@ },
            ClientMsg::Push { project, deletes, files } => ClientView::Push {
                project: project@,
                deletes: texts(deletes@),
                files: headers(files@),
            },
            ClientMsg::Build { project, subcommand, args, target, trailing } => ClientView::Build {
                project: project@,
                subcommand: subcommand@,
                args: texts(args@),
                target: opt_text(*target),
                trailing: texts(trailing@),
            },
            ClientMsg::Fetch { project, rel } => ClientView::Fetch { project: project@, rel: rel@ },
            ClientMsg::Bye => ClientView::Bye,
            ClientMsg::Cargo { project, subcommand, args, target, trailing, color } => ClientView::Cargo {
                project: project@,
                subcommand: subcommand@,
                args: texts(args@),
                target: opt_text(*target),
                trailing: texts(trailing@),
                color: opt_text(*color),
            },
        }
    }
}

/// What the server says.
#[derive(Debug)]
pub enum ServerMsg {
    Hello { nonce: Vec<u8>, host_pubkey: String },
    AuthOk,
    Manifest(Vec<FileHeader>),
    PushOk { received: u64 },
    /// A chunk of merged cargo stdout+stderr, streamed live.
    Output(Vec<u8>),
    Exit(i32),
    /// A piece of a fetched file, compressed.
    Data(Vec<u8>),
    /// The end of a fetched file, and how long it is once unpacked.
    DataEnd { raw: u64 },
    Error(String),
    /// A chunk of one of cargo's two outputs, streamed live.
    Chunk { err: bool, data: Vec<u8> },
}

/// The model of a [`ServerMsg`].
#[verifier::ext_equal]
pub enum ServerView {
    Hello { nonce: Seq<u8>, host_pubkey: Seq<char> },
    AuthOk,
    Manifest(Seq<HeaderView>),
    PushOk { received: u64 },
    Output(Seq<u8>),
    Exit(i32),
    Data(Seq<u8>),
    DataEnd { raw: u64 },
    Error(Seq<char>),
    Chunk { err: bool, data: Seq<u8> },
}

impl View for ServerMsg {
    type V = ServerView;

    open spec fn view(&self) -> ServerView {
        match self {
            ServerMsg::Hello { nonce, host_pubkey } => ServerView::Hello {
                nonce: nonce@,
                host_pubkey: host_pubkey@,
            },
            ServerMsg::AuthOk => ServerView::AuthOk,
            ServerMsg::Manifest(v) => ServerView::Manifest(headers(v@)),
            ServerMsg::PushOk { received } => ServerView::PushOk { received: *received },
            ServerMsg::Output(d) => ServerView::Output(d@),
            ServerMsg::Exit(c) => ServerView::Exit(*c),
            ServerMsg::Data(d) => ServerView::Data(d@),
            ServerMsg::DataEnd { raw } => ServerView::DataEnd { raw: *raw },
            ServerMsg::Error(e) => ServerView::Error(e@),
            ServerMsg::Chunk { err, data } => ServerView::Chunk { err: *err, data: data@ },
        }
    }
}

/// Why a frame could not be written or read.
#[derive(Debug, Clone, Copy, PartialEq, Eq, Structural)]
pub enum FrameError {
    /// The body is longer than a frame may be.
    TooLarge,
    /// The stream ends before the frame does.
    Truncated,
}

impl FrameError {
    /// How the error reads.
    pub fn message(self) -> (r: &'static str)
        ensures
            r@ == (match self {
                FrameError::TooLarge => "frame too large"@,
                FrameError::Truncated => "unexpected end of stream"@,
            }),
    {
        match self {
            FrameError::TooLarge => "frame too large",
            FrameError::Truncated => "unexpected end of stream",
        }
    }
}

/// The four bytes that stand for a length, least significant first.
pub open spec fn length_bytes(n: int) -> Seq<u8> {
    seq![
        (n % 256) as u8,
        (n / 256 % 256) as u8,
        (n / 65536 % 256) as u8,
        (n / 16777216 % 256) as u8,
    ]
}

/// The length that four bytes stand for.
pub open spec fn length_of(h: Seq<u8>) -> int {
    h[0] + 256 * h[1] + 65536 * h[2] + 16777216 * h[3]
}

/// A body as it goes over the wire.
pub open spec fn framed(body: Seq<u8>) -> Seq<u8> {
    length_bytes(body.len() as int) + body
}

/// Writes a body as one frame to the end of `w`. A body that is too large leaves `w` as it is.
pub fn send(w: &mut Vec<u8>, body: &[u8]) -> (r: Result<(), FrameError>)
    ensures
        body@.len() <= MAX_FRAME ==> r is Ok && final(w)@ == old(w)@ + framed(body@),
        body@.len() > MAX_FRAME ==> r == Err::<(), FrameError>(FrameError::TooLarge) && final(w)@
            == old(w)@,
{
    if body.len() > MAX_FRAME as usize {
        return Err(FrameError::TooLarge);
    }
    let n: u32 = body.len() as u32;
    w.push((n % 256) as u8);
    w.push((n / 256 % 256) as u8);
    w.push((n / 65536 % 256) as u8);
    w.push((n / 16777216 % 256) as u8);
    let mut rest = slice_to_vec(body);
    w.append(&mut rest);
    assert(w@ =~= old(w)@ + framed(body@));
    Ok(())
}

/// The length of the body that follows a frame's first four bytes, unless it is too large.
pub fn body_len(header: [u8; 4]) -> (r: Result<usize, FrameError>)
    ensures
        length_of(header@) <= MAX_FRAME ==> r == Ok::<usize, FrameError>(
            length_of(header@) as usize,
        ),
        length_of(header@) > MAX_FRAME ==> r == Err::<usize, FrameError>(FrameError::TooLarge),
{
    let n: u32 = header[0] as u32 + 256 * header[1] as u32 + 65536 * header[2] as u32 + 16777216
        * header[3] as u32;
    if n > MAX_FRAME {
        return Err(FrameError::TooLarge);
    }
    Ok(n as usize)
}

/// What reading one frame off the front of `r` gives: the body and how many bytes it took.
pub open spec fn received(r: Seq<u8>) -> Result<(Seq<u8>, int), FrameError> {
    if r.len() < 4 {
        Err(FrameError::Truncated)
    } else if length_of(r) > MAX_FRAME {
        Err(FrameError::TooLarge)
    } else if r.len() < 4 + length_of(r) {
        Err(FrameError::Truncated)
    } else {
        Ok((r.subrange(4, 4 + length_of(r)), 4 + length_of(r)))
    }
}

/// Reads one frame off the front of `r`: its body, and how many bytes of `r` it took.
pub fn recv(r: &[u8]) -> (out: Result<(Vec<u8>, usize), FrameError>)
    ensures
        match out {
            Ok((body, n)) => received(r@) == Ok::<(Seq<u8>, int), FrameError>((body@, n as int)),
            Err(e) => received(r@) == Err::<(Seq<u8>, int), FrameError>(e),
        },
{
    if r.len() < 4 {
        return Err(FrameError::Truncated);
    }
    let header: [u8; 4] = [r[0], r[1], r[2], r[3]];
    assert(length_of(header@) == length_of(r@));
    match body_len(header) {
        Err(e) => Err(e),
        Ok(n) => {
            if r.len() - 4 < n {
                return Err(FrameError::Truncated);
            }
            let body = slice_to_vec(slice_subrange(r, 4, 4 + n));
            Ok((body, 4 + n))
        },
    }
}

proof fn length_survives(n: int)
    requires
        0 <= n < 4294967296,
    ensures
        length_of(length_bytes(n)) == n,
{
}

/// What is read is what was written: a body of any permitted length comes back whole off the front
/// of a stream, whatever follows it there.
pub proof fn a_frame_reads_back(body: Seq<u8>, rest: Seq<u8>)
    requires
        body.len() <= MAX_FRAME,
    ensures
        received(framed(body) + rest) == Ok::<(Seq<u8>, int), FrameError>(
            (body, framed(body).len() as int),
        ),
        (framed(body) + rest).skip(framed(body).len() as int) == rest,
{
    let r = framed(body) + rest;
    length_survives(body.len() as int);
    assert(length_of(r) == length_of(length_bytes(body.len() as int)));
    assert(r.subrange(4, (4 + body.len()) as int) =~= body);
    assert(r.skip(framed(body).len() as int) =~= rest);
}

/// A frame that is cut short is never taken for a whole one.
pub proof fn a_cut_frame_is_noticed(body: Seq<u8>, n: int)
    requires
        body.len() <= MAX_FRAME,
        0 <= n < framed(body).len(),
    ensures
        received(framed(body).take(n)) == Err::<(Seq<u8>, int), FrameError>(FrameError::Truncated),
{
    length_survives(body.len() as int);
    if n >= 4 {
        assert(length_of(framed(body).take(n)) == length_of(length_bytes(body.len() as int)));
    }
}

/// Bodies framed one after another.
pub open spec fn stream_of(bodies: Seq<Seq<u8>>) -> Seq<u8>
    decreases bodies.len(),
{
    if bodies.len() == 0 {
        seq![]
    } else {
        framed(bodies[0]) + stream_of(bodies.drop_first())
    }
}

/// The bodies that reading `n` frames off a stream gives, up to the first that cannot be read.
pub open spec fn read_off(r: Seq<u8>, n: nat) -> Seq<Seq<u8>>
    decreases n,
{
    if n == 0 {
        seq![]
    } else {
        match received(r) {
            Ok((body, used)) => seq![body] + read_off(r.skip(used), (n - 1) as nat),
            Err(_) => seq![],
        }
    }
}

/// A conversation reads back as it was written: any number of frames, in order.
pub proof fn a_stream_reads_back(bodies: Seq<Seq<u8>>)
    requires
        forall|i: int| 0 <= i < bodies.len() ==> (#[trigger] bodies[i]).len() <= MAX_FRAME,
    ensures
        read_off(stream_of(bodies), bodies.len()) == bodies,
    decreases bodies.len(),
{
    if bodies.len() > 0 {
        let tail = bodies.drop_first();
        assert forall|i: int| 0 <= i < tail.len() implies (#[trigger] tail[i]).len() <= MAX_FRAME by {
            assert(tail[i] == bodies[i + 1]);
        }
        a_stream_reads_back(tail);
        a_frame_reads_back(bodies[0], stream_of(tail));
        assert(seq![bodies[0]] + tail =~= bodies);
    } else {
        assert(bodies =~= seq![]);
    }
}

/// How a frame goes over the wire: its length in four bytes, the least significant first, and then the
/// body as it is.
pub proof fn how_a_frame_is_written(body: Seq<u8>)
    requires
        body.len() <= 16_777_216,
    ensures
        framed(body).len() == 4 + body.len(),
        framed(body)[0] + 256 * framed(body)[1] + 65536 * framed(body)[2] + 16_777_216 * framed(body)[3]
            == body.len(),
        framed(body).skip(4) == body,
        body.len() <= MAX_FRAME,
{
    length_survives(body.len() as int);
    assert(framed(body).skip(4) =~= body);
}

/// What is read off a stream: nothing before four bytes have come, nothing if they say more than sixteen
/// mebibytes, nothing before the whole body has come, and then exactly the body.
pub proof fn how_a_frame_is_read(r: Seq<u8>)
    ensures
        r.len() < 4 ==> received(r) == Err::<(Seq<u8>, int), FrameError>(FrameError::Truncated),
        r.len() >= 4 ==> {
            let n = r[0] + 256 * r[1] + 65536 * r[2] + 16_777_216 * r[3];
            &&& n > 16_777_216 ==> received(r) == Err::<(Seq<u8>, int), FrameError>(FrameError::TooLarge)
            &&& n <= 16_777_216 && r.len() < 4 + n ==> received(r) == Err::<(Seq<u8>, int), FrameError>(
                FrameError::Truncated,
            )
            &&& n <= 16_777_216 && r.len() >= 4 + n ==> received(r) == Ok::<(Seq<u8>, int), FrameError>(
                (r.subrange(4, 4 + n), 4 + n),
            )
        },
{
}

/// The numbers and the name that both sides go by.
pub proof fn what_both_sides_go_by()
    ensures
        PORT == 7878,
        CHUNK == 1_048_576,
        MAX_FRAME == 16_777_216,
        NAMESPACE@ == "rbuild@local"@,
{
}

} // verus!
