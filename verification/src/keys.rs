//! Who is on the other side: the server's host key, the client's key and its signature.
use rand_core::{OsRng, RngCore};
use ssh_key::private::Ed25519Keypair;
use ssh_key::{HashAlg, LineEnding, PrivateKey, PublicKey, SshSig};
use vstd::prelude::*;
use vstd::string::*;
use vstd::utf8::*;

use crate::flags::cut_at;
use crate::text::{
    cut_once, first_of, first_of_is_first, lines, lines_of, opt_text, pieces, pieces_not_empty,
    same, same_bytes, split_once,
    starts, starts_with, texts, trim, trimmed, white, without_return,
};
use crate::wire::{ClientMsg, ClientView, NAMESPACE};

verus! {

/// The public key that an OpenSSH line holds, in its binary encoding, or what is wrong with the
/// line. Two lines hold the same key exactly if these are equal: a comment is no part of it.
pub uninterp spec fn key_identity(line: Seq<char>) -> Result<Seq<u8>, Seq<char>>;

/// The SHA-256 fingerprint of the public key that an OpenSSH line holds, or what is wrong with the
/// line.
pub uninterp spec fn fingerprint_text(line: Seq<char>) -> Result<Seq<char>, Seq<char>>;

/// Whether a private key in OpenSSH's PEM is encrypted, or what is wrong with it.
pub uninterp spec fn key_encrypted(pem: Seq<char>) -> Result<bool, Seq<char>>;

/// A private key without its encryption, or why there is none.
pub uninterp spec fn key_decrypted(pem: Seq<char>, password: Seq<char>) -> Result<
    Seq<char>,
    Seq<char>,
>;

/// The PEM of the Ed25519 key that belongs to a seed, or why there is none.
pub uninterp spec fn seed_key(seed: Seq<u8>) -> Result<Seq<char>, Seq<char>>;

/// The OpenSSH line of a private key's public half, or what is wrong with the private key.
pub uninterp spec fn public_line(pem: Seq<char>) -> Result<Seq<char>, Seq<char>>;

/// The PEM of a private key's signature of a message in a namespace, over its SHA-512, or why there
/// is none.
pub uninterp spec fn signature_pem(pem: Seq<char>, namespace: Seq<char>, msg: Seq<u8>) -> Result<
    Seq<char>,
    Seq<char>,
>;

/// What is wrong with a signature's PEM, if anything is.
pub uninterp spec fn signature_error(sig: Seq<char>) -> Option<Seq<char>>;

/// Whether a signature's PEM is one of a message in a namespace, by the key that an OpenSSH line
/// holds.
pub uninterp spec fn signature_holds(
    line: Seq<char>,
    namespace: Seq<char>,
    msg: Seq<u8>,
    sig: Seq<char>,
) -> bool;

/// Whether a private key can be used as it is.
pub open spec fn ready(pem: Seq<char>) -> bool {
    key_encrypted(pem) == Ok::<bool, Seq<char>>(false) && public_line(pem) is Ok
}

/// The view of a text or an error.
pub open spec fn text_or(r: Result<String, String>) -> Result<Seq<char>, Seq<char>> {
    match r {
        Ok(s) => Ok(s@),
        Err(e) => Err(e@),
    }
}

/// The view of bytes or an error.
pub open spec fn bytes_or(r: Result<Vec<u8>, String>) -> Result<Seq<u8>, Seq<char>> {
    match r {
        Ok(b) => Ok(b@),
        Err(e) => Err(e@),
    }
}

/// The view of an answer or an error.
pub open spec fn answer_or(r: Result<bool, String>) -> Result<bool, Seq<char>> {
    match r {
        Ok(b) => Ok(b),
        Err(e) => Err(e@),
    }
}

/// `PublicKey::from_openssh`, with the key as its binary encoding and the error as a text. The
/// outcome is that of [`key_identity`].
#[verifier::external_body]
pub(crate) fn read_public(line: &str) -> (r: Result<Vec<u8>, String>)
    ensures
        bytes_or(r) == key_identity(line@),
{
    PublicKey::from_openssh(line).and_then(|k| k.to_bytes()).map_err(|e| e.to_string())
}

/// `PublicKey::fingerprint` with SHA-256, of the key that an OpenSSH line holds, as it is displayed.
/// It holds no white space: the name of the hash, a colon, and base64 without padding.
#[verifier::external_body]
pub(crate) fn fingerprint(line: &str) -> (r: Result<String, String>)
    ensures
        text_or(r) == fingerprint_text(line@),
        r matches Ok(f) ==> forall|i: int| 0 <= i < f@.len() ==> !white(#[trigger] f@[i]),
{
    PublicKey::from_openssh(line).map(|k| k.fingerprint(HashAlg::Sha256).to_string()).map_err(
        |e| e.to_string(),
    )
}

/// `PrivateKey::is_encrypted`, of a key in OpenSSH's PEM.
#[verifier::external_body]
pub(crate) fn is_encrypted(pem: &str) -> (r: Result<bool, String>)
    ensures
        answer_or(r) == key_encrypted(pem@),
{
    PrivateKey::from_openssh(pem).map(|k| k.is_encrypted()).map_err(|e| e.to_string())
}

/// `PrivateKey::decrypt`, from PEM to PEM.
#[verifier::external_body]
pub(crate) fn decrypt(pem: &str, password: &str) -> (r: Result<String, String>)
    ensures
        text_or(r) == key_decrypted(pem@, password@),
{
    PrivateKey::from_openssh(pem).and_then(|k| k.decrypt(password)).and_then(
        |k| k.to_openssh(LineEnding::LF),
    ).map(|p| p.to_string()).map_err(|e| e.to_string())
}

/// `PrivateKey::public_key`, from PEM to an OpenSSH line.
#[verifier::external_body]
pub(crate) fn public_half(pem: &str) -> (r: Result<String, String>)
    ensures
        text_or(r) == public_line(pem@),
{
    PrivateKey::from_openssh(pem).and_then(|k| k.public_key().to_openssh()).map_err(
        |e| e.to_string(),
    )
}

/// `PrivateKey::sign` with SHA-512, from PEM to PEM. Only an Ed25519 key signs here, and its
/// signature depends on nothing but the key and what is signed. The signature can be read again, and
/// holds under every line that has the key's own public half. What reads it takes no namespace of
/// more than 0xF_FFFF bytes.
#[verifier::external_body]
pub(crate) fn sign(pem: &str, namespace: &str, msg: &[u8]) -> (r: Result<String, String>)
    requires
        encode_utf8(namespace@).len() <= 0xF_FFFF,
    ensures
        text_or(r) == signature_pem(pem@, namespace@, msg@),
        r matches Ok(s) ==> signature_error(s@) is None,
        r matches Ok(s) ==> (public_line(pem@) matches Ok(own) ==> forall|line: Seq<char>|
            key_identity(line) is Ok && key_identity(line) == key_identity(own)
                ==> #[trigger] signature_holds(line, namespace@, msg@, s@)),
{
    PrivateKey::from_openssh(pem).and_then(|k| k.sign(namespace, HashAlg::Sha512, msg)).and_then(
        |s| s.to_pem(LineEnding::LF),
    ).map_err(|e| e.to_string())
}

/// `SshSig::from_pem`: what is wrong with a signature's PEM, as a text.
#[verifier::external_body]
pub(crate) fn bad_signature(sig: &str) -> (r: Option<String>)
    ensures
        opt_text(r) == signature_error(sig@),
{
    SshSig::from_pem(sig.as_bytes()).err().map(|e| e.to_string())
}

/// `PublicKey::verify`, of the key that an OpenSSH line holds. A line or a PEM that cannot be read
/// makes it false.
#[verifier::external_body]
pub(crate) fn verifies(line: &str, namespace: &str, msg: &[u8], sig: &str) -> (r: bool)
    ensures
        r == signature_holds(line@, namespace@, msg@, sig@),
{
    match (PublicKey::from_openssh(line), SshSig::from_pem(sig.as_bytes())) {
        (Ok(k), Ok(s)) => k.verify(namespace, msg, &s).is_ok(),
        _ => false,
    }
}

/// `Ed25519Keypair::from_seed`, as PEM: the key that belongs to the seed, never encrypted, whose
/// public half can be had.
#[verifier::external_body]
pub(crate) fn key_from_seed(seed: &[u8]) -> (r: Result<String, String>)
    requires
        seed@.len() == 32,
    ensures
        text_or(r) == seed_key(seed@),
        r matches Ok(pem) ==> ready(pem@),
{
    let seed: &[u8; 32] = seed.try_into().expect("32 bytes");
    PrivateKey::from(Ed25519Keypair::from_seed(seed)).to_openssh(LineEnding::LF).map(
        |p| p.to_string(),
    ).map_err(|e| e.to_string())
}

/// `RngCore::try_fill_bytes` of `OsRng`: as many bytes as asked for, unless the system has none to
/// give. Nothing is said of what they are.
#[verifier::external_body]
pub(crate) fn random_bytes(n: usize) -> (r: Result<Vec<u8>, String>)
    ensures
        r matches Ok(v) ==> v@.len() == n,
{
    let mut v = vec![0u8; n];
    OsRng.try_fill_bytes(&mut v).map(|_| v).map_err(|e| e.to_string())
}

/// The lines that may be keys: trimmed, and neither empty nor comments.
pub open spec fn key_lines(text: Seq<Seq<char>>) -> Seq<Seq<char>>
    decreases text.len(),
{
    if text.len() == 0 {
        seq![]
    } else {
        let before = key_lines(text.drop_last());
        let line = trimmed(text.last());
        if line.len() == 0 || starts(line, "#"@) {
            before
        } else {
            before.push(line)
        }
    }
}

/// The lines of an authorized-keys text that may be keys.
pub fn candidate_lines(text: &str) -> (r: Vec<String>)
    ensures
        texts(r@) == key_lines(lines_of(text@)),
{
    let all = lines(text);
    let ghost v = texts(all@);
    let mut out: Vec<String> = Vec::new();
    let mut i: usize = 0;
    assert(texts(out@) =~= key_lines(v.take(0)));
    while i < all.len()
        invariant
            i <= all@.len(),
            v == texts(all@),
            texts(out@) == key_lines(v.take(i as int)),
        decreases all@.len() - i,
    {
        let ghost was = texts(out@);
        assert(v.take(i + 1).drop_last() =~= v.take(i as int));
        assert(v.take(i + 1).last() == all@[i as int]@);
        let line = trim(all[i].as_str());
        if !line.as_str().is_empty() && !starts_with(line.as_str(), "#") {
            let ghost l = line@;
            out.push(line);
            assert(texts(out@) =~= was.push(l));
        }
        i += 1;
    }
    assert(v.take(i as int) =~= v);
    out
}

/// The keys that lines hold, as far as they hold any.
pub open spec fn identities(key_line: Seq<Seq<char>>) -> Seq<Seq<u8>>
    decreases key_line.len(),
{
    if key_line.len() == 0 {
        seq![]
    } else {
        match key_identity(key_line.last()) {
            Ok(k) => identities(key_line.drop_last()).push(k),
            Err(_) => identities(key_line.drop_last()),
        }
    }
}

/// The views of a list of keys.
pub open spec fn key_views(v: Seq<Vec<u8>>) -> Seq<Seq<u8>> {
    v.map_values(|k: Vec<u8>| k@)
}

/// The keys of an authorized-keys text: one for each line that holds one.
pub fn authorized_keys(text: &str) -> (r: Vec<Vec<u8>>)
    ensures
        key_views(r@) == identities(key_lines(lines_of(text@))),
{
    let all = candidate_lines(text);
    let ghost v = texts(all@);
    let mut out: Vec<Vec<u8>> = Vec::new();
    let mut i: usize = 0;
    assert(key_views(out@) =~= identities(v.take(0)));
    while i < all.len()
        invariant
            i <= all@.len(),
            v == texts(all@),
            key_views(out@) == identities(v.take(i as int)),
        decreases all@.len() - i,
    {
        let ghost was = key_views(out@);
        assert(v.take(i + 1).drop_last() =~= v.take(i as int));
        assert(v.take(i + 1).last() == all@[i as int]@);
        if let Ok(k) = read_public(all[i].as_str()) {
            let ghost kv = k@;
            out.push(k);
            assert(key_views(out@) =~= was.push(kv));
        }
        i += 1;
    }
    assert(v.take(i as int) =~= v);
    out
}

/// What an attempt to authenticate comes to.
#[derive(Debug)]
pub enum Admission {
    Accepted,
    Denied,
    /// Something that was sent cannot be read at all.
    Broken(String),
}

/// The model of an [`Admission`].
#[verifier::ext_equal]
pub enum AdmissionView {
    Accepted,
    Denied,
    Broken(Seq<char>),
}

impl View for Admission {
    type V = AdmissionView;

    open spec fn view(&self) -> AdmissionView {
        match self {
            Admission::Accepted => AdmissionView::Accepted,
            Admission::Denied => AdmissionView::Denied,
            Admission::Broken(e) => AdmissionView::Broken(e@),
        }
    }
}

/// What an attempt comes to: the key has to be an authorized one, and the signature its own.
pub open spec fn admitted(
    authorized: Seq<Seq<u8>>,
    key: Result<Seq<u8>, Seq<char>>,
    bad: Option<Seq<char>>,
    holds: bool,
) -> AdmissionView {
    match (key, bad) {
        (Err(e), _) => AdmissionView::Broken(e),
        (_, Some(e)) => AdmissionView::Broken(e),
        (Ok(k), None) => if authorized.contains(k) && holds {
            AdmissionView::Accepted
        } else {
            AdmissionView::Denied
        },
    }
}

fn has_key(v: &Vec<Vec<u8>>, k: &Vec<u8>) -> (r: bool)
    ensures
        r == key_views(v@).contains(k@),
{
    let mut i: usize = 0;
    while i < v.len()
        invariant
            i <= v@.len(),
            forall|j: int| 0 <= j < i ==> #[trigger] key_views(v@)[j] != k@,
        decreases v@.len() - i,
    {
        if same_bytes(v[i].as_slice(), k.as_slice()) {
            assert(key_views(v@)[i as int] == k@);
            return true;
        }
        i += 1;
    }
    false
}

/// Decides on an attempt from what the key, the signature's PEM and the signature turned out to be.
pub fn decide_admission(
    authorized: &Vec<Vec<u8>>,
    key: Result<Vec<u8>, String>,
    bad: Option<String>,
    holds: bool,
) -> (r: Admission)
    ensures
        r@ == admitted(key_views(authorized@), bytes_or(key), opt_text(bad), holds),
{
    match (key, bad) {
        (Err(e), _) => Admission::Broken(e),
        (_, Some(e)) => Admission::Broken(e),
        (Ok(k), None) => if has_key(authorized, &k) && holds {
            Admission::Accepted
        } else {
            Admission::Denied
        },
    }
}

/// What an attempt comes to that answers a nonce.
pub open spec fn admission_of(
    authorized: Seq<Seq<u8>>,
    nonce: Seq<u8>,
    pubkey: Seq<char>,
    sig_pem: Seq<char>,
) -> AdmissionView {
    admitted(
        authorized,
        key_identity(pubkey),
        signature_error(sig_pem),
        signature_holds(pubkey, NAMESPACE@, nonce, sig_pem),
    )
}

/// Decides on an attempt to authenticate.
///
/// The signature must be over the nonce *we* just generated, so a captured
/// signature from an earlier session is worthless.
pub fn check_auth(authorized: &Vec<Vec<u8>>, nonce: &Vec<u8>, pubkey: &str, sig_pem: &str) -> (r:
    Admission)
    ensures
        r@ == admission_of(key_views(authorized@), nonce@, pubkey@, sig_pem@),
{
    let key = read_public(pubkey);
    let bad = bad_signature(sig_pem);
    let holds = verifies(pubkey, NAMESPACE, nonce.as_slice(), sig_pem);
    decide_admission(authorized, key, bad, holds)
}

/// What the client answers the server's nonce with.
pub open spec fn auth_of(
    sig: Result<Seq<char>, Seq<char>>,
    pubkey: Result<Seq<char>, Seq<char>>,
) -> Result<ClientView, Seq<char>> {
    match (sig, pubkey) {
        (Err(e), _) => Err(e),
        (_, Err(e)) => Err(e),
        (Ok(sig_pem), Ok(pubkey)) => Ok(ClientView::Auth { pubkey, sig_pem }),
    }
}

/// The client's answer from its signature and the line of its public key.
pub fn auth_message(sig: Result<String, String>, pubkey: Result<String, String>) -> (r: Result<
    ClientMsg,
    String,
>)
    ensures
        match r {
            Ok(m) => auth_of(text_or(sig), text_or(pubkey)) == Ok::<ClientView, Seq<char>>(m@),
            Err(e) => auth_of(text_or(sig), text_or(pubkey)) == Err::<ClientView, Seq<char>>(e@),
        },
{
    match (sig, pubkey) {
        (Err(e), _) => Err(e),
        (_, Err(e)) => Err(e),
        (Ok(sig_pem), Ok(pubkey)) => Ok(ClientMsg::Auth { pubkey, sig_pem }),
    }
}

proof fn encoding_bound(s: Seq<char>)
    ensures
        encode_utf8(s).len() <= 4 * s.len(),
    decreases s.len(),
{
    if s.len() > 0 {
        encoding_bound(s.drop_first());
    }
}

/// Signs the server's nonce. A server that has the key among its authorized ones accepts what comes
/// of it.
pub fn sign_in(pem: &str, nonce: &Vec<u8>) -> (r: Result<ClientMsg, String>)
    ensures
        match r {
            Ok(m) => auth_of(signature_pem(pem@, NAMESPACE@, nonce@), public_line(pem@)) == Ok::<
                ClientView,
                Seq<char>,
            >(m@),
            Err(e) => auth_of(signature_pem(pem@, NAMESPACE@, nonce@), public_line(pem@)) == Err::<
                ClientView,
                Seq<char>,
            >(e@),
        },
        r matches Ok(m) ==> (m@ matches ClientView::Auth { pubkey, sig_pem } ==> (key_identity(
            pubkey,
        ) matches Ok(k) ==> forall|authorized: Seq<Seq<u8>>|
            authorized.contains(k) ==> #[trigger] admission_of(authorized, nonce@, pubkey, sig_pem)
                == AdmissionView::Accepted)),
{
    proof {
        reveal_strlit("rbuild@local");
        encoding_bound(NAMESPACE@);
    }
    let sig = sign(pem, NAMESPACE, nonce.as_slice());
    let pubkey = public_half(pem);
    auth_message(sig, pubkey)
}

/// Whether a private key needs its passphrase first. An error names where it was read.
pub fn needs_passphrase(path: &str, pem: &str) -> (r: Result<bool, String>)
    ensures
        answer_or(r) == (match key_encrypted(pem@) {
            Ok(b) => Ok::<bool, Seq<char>>(b),
            Err(e) => Err(unreadable(path@, e)),
        }),
{
    match is_encrypted(pem) {
        Ok(b) => Ok(b),
        Err(e) => Err(unreadable_key(path, e.as_str())),
    }
}

/// What a key that cannot be read is answered.
pub open spec fn unreadable(path: Seq<char>, error: Seq<char>) -> Seq<char> {
    "reading "@ + path + ": "@ + error
}

/// Puts into words that a key cannot be read.
pub fn unreadable_key(path: &str, error: &str) -> (r: String)
    ensures
        r@ == unreadable(path@, error@),
{
    let mut s = "reading ".to_owned();
    s.append(path);
    s.append(": ");
    s.append(error);
    s
}

/// What asks for a passphrase.
pub fn passphrase_prompt(path: &str) -> (r: String)
    ensures
        r@ == "passphrase for "@ + path@ + ": "@,
{
    let mut s = "passphrase for ".to_owned();
    s.append(path);
    s.append(": ");
    s
}

/// The key to sign with: the one that was read, decrypted where a passphrase was asked for.
pub fn unlock(pem: String, passphrase: Option<String>) -> (r: Result<String, String>)
    ensures
        text_or(r) == (match passphrase {
            Some(p) => key_decrypted(pem@, p@),
            None => Ok::<Seq<char>, Seq<char>>(pem@),
        }),
{
    match passphrase {
        Some(p) => decrypt(pem.as_str(), p.as_str()),
        None => Ok(pem),
    }
}

/// What the server shows of its host key: the line of its public half, and the fingerprint.
pub fn host_lines(pem: &str) -> (r: Result<(String, String), String>)
    ensures
        match (public_line(pem@), r) {
            (Err(e), Err(m)) => m@ == e,
            (Ok(line), Ok((l, fp))) => l@ == line && fingerprint_text(line) == Ok::<
                Seq<char>,
                Seq<char>,
            >(fp@),
            (Ok(line), Err(m)) => fingerprint_text(line) == Err::<Seq<char>, Seq<char>>(m@),
            _ => false,
        },
{
    let line = match public_half(pem) {
        Ok(l) => l,
        Err(e) => {
            return Err(e);
        },
    };
    match fingerprint(line.as_str()) {
        Ok(fp) => Ok((line, fp)),
        Err(e) => Err(e),
    }
}

/// The server's host key: the one on disk, or a new one where there is none. The second part says
/// whether it is new.
pub fn host_key(on_disk: Option<String>) -> (r: Result<(String, bool), String>)
    ensures
        on_disk matches Some(pem) ==> match r {
            Ok((k, new)) => !new && k@ == pem@ && key_encrypted(pem@) is Ok,
            Err(e) => key_encrypted(pem@) == Err::<bool, Seq<char>>(e@),
        },
        on_disk is None ==> (r matches Ok((k, new)) ==> new && ready(k@) && exists|seed: Seq<u8>|
            seed.len() == 32 && #[trigger] seed_key(seed) == Ok::<Seq<char>, Seq<char>>(k@)),
{
    match on_disk {
        Some(pem) => match is_encrypted(pem.as_str()) {
            Ok(_) => Ok((pem, false)),
            Err(e) => Err(e),
        },
        None => match new_key(random_bytes(32)) {
            Ok(pem) => Ok((pem, true)),
            Err(e) => Err(e),
        },
    }
}

/// A new key, from what asking the system for its seed came to.
pub fn new_key(seed: Result<Vec<u8>, String>) -> (r: Result<String, String>)
    requires
        seed matches Ok(s) ==> s@.len() == 32,
    ensures
        text_or(r) == (match seed {
            Ok(s) => seed_key(s@),
            Err(e) => Err::<Seq<char>, Seq<char>>(e@),
        }),
        r matches Ok(pem) ==> ready(pem@),
{
    match seed {
        Ok(s) => key_from_seed(s.as_slice()),
        Err(e) => Err(e),
    }
}

/// How a server's key stands to the one that was pinned for its host.
#[derive(Debug)]
pub enum Verdict {
    /// It is the one.
    Pinned,
    /// It is another one than this.
    Changed(String),
    /// None was pinned yet.
    New,
}

/// The model of a [`Verdict`].
#[verifier::ext_equal]
pub enum VerdictView {
    Pinned,
    Changed(Seq<char>),
    New,
}

impl View for Verdict {
    type V = VerdictView;

    open spec fn view(&self) -> VerdictView {
        match self {
            Verdict::Pinned => VerdictView::Pinned,
            Verdict::Changed(f) => VerdictView::Changed(f@),
            Verdict::New => VerdictView::New,
        }
    }
}

/// The fingerprint that the first line for a host holds.
pub open spec fn pinned_for(known: Seq<Seq<char>>, host: Seq<char>) -> Option<Seq<char>>
    decreases known.len(),
{
    if known.len() == 0 {
        None
    } else {
        match cut_once(known[0], ' ') {
            (h, Some(f)) => if h == host {
                Some(f)
            } else {
                pinned_for(known.skip(1), host)
            },
            _ => pinned_for(known.skip(1), host),
        }
    }
}

/// Trust on first use, then pin: the same bargain as known_hosts.
pub open spec fn verdict_on(host: Seq<char>, fp: Seq<char>, known: Seq<char>) -> VerdictView {
    match pinned_for(lines_of(known), host) {
        Some(f) => if f == fp {
            VerdictView::Pinned
        } else {
            VerdictView::Changed(f)
        },
        None => VerdictView::New,
    }
}

/// Holds a server's fingerprint against the known hosts.
pub fn verify_host(host: &str, fp: &str, known: &str) -> (r: Verdict)
    ensures
        r@ == verdict_on(host@, fp@, known@),
{
    let all = lines(known);
    let ghost v = texts(all@);
    let mut i: usize = 0;
    assert(v.skip(0) =~= v);
    while i < all.len()
        invariant
            i <= all@.len(),
            v == texts(all@),
            v == lines_of(known@),
            pinned_for(v, host@) == pinned_for(v.skip(i as int), host@),
        decreases all@.len() - i,
    {
        assert(v.skip(i as int)[0] == all@[i as int]@);
        assert(v.skip(i as int).skip(1) =~= v.skip(i + 1));
        let (h, f) = split_once(all[i].as_str(), ' ');
        if let Some(f) = f {
            if same(h.as_str(), host) {
                if same(f.as_str(), fp) {
                    return Verdict::Pinned;
                }
                return Verdict::Changed(f);
            }
        }
        i += 1;
    }
    assert(v.skip(i as int).len() == 0);
    Verdict::New
}

/// Holds a server's public key against the known hosts. With the verdict comes its fingerprint.
pub fn check_host(host: &str, pubkey: &str, known: &str) -> (r: Result<(Verdict, String), String>)
    ensures
        match r {
            Ok((v, fp)) => fingerprint_text(pubkey@) == Ok::<Seq<char>, Seq<char>>(fp@) && v@
                == verdict_on(host@, fp@, known@),
            Err(e) => fingerprint_text(pubkey@) == Err::<Seq<char>, Seq<char>>(e@),
        },
        r matches Ok((v, fp)) ==> forall|i: int| 0 <= i < fp@.len() ==> !white(#[trigger] fp@[i]),
{
    match fingerprint(pubkey) {
        Ok(fp) => Ok((verify_host(host, fp.as_str(), known), fp)),
        Err(e) => Err(e),
    }
}

/// The line that pins a host.
pub open spec fn pin(host: Seq<char>, fp: Seq<char>) -> Seq<char> {
    host + " "@ + fp + "\n"@
}

/// The line that pins a host, with its end.
pub fn pin_line(host: &str, fp: &str) -> (r: String)
    ensures
        r@ == pin(host@, fp@),
{
    let mut s = host.to_owned();
    s.append(" ");
    s.append(fp);
    s.append("\n");
    s
}

/// What is said when a host is pinned.
pub fn pin_notice(host: &str, fp: &str) -> (r: String)
    ensures
        r@ == "[rbuild] pinning new host key for "@ + host@ + ": "@ + fp@,
{
    let mut s = "[rbuild] pinning new host key for ".to_owned();
    s.append(host);
    s.append(": ");
    s.append(fp);
    s
}

/// What is said when a host has another key than the one pinned for it.
pub open spec fn changed_text(
    host: Seq<char>,
    expected: Seq<char>,
    got: Seq<char>,
    file: Seq<char>,
) -> Seq<char> {
    "HOST KEY CHANGED for "@ + host + "\n  expected "@ + expected + "\n  got      "@ + got
        + "\nIf you rebuilt the container, delete the line from "@ + file
}

/// What is said when a host has another key than the one pinned for it.
pub fn changed_message(host: &str, expected: &str, got: &str, file: &str) -> (r: String)
    ensures
        r@ == changed_text(host@, expected@, got@, file@),
{
    let mut s = "HOST KEY CHANGED for ".to_owned();
    s.append(host);
    s.append("\n  expected ");
    s.append(expected);
    s.append("\n  got      ");
    s.append(got);
    s.append("\nIf you rebuilt the container, delete the line from ");
    s.append(file);
    s
}

proof fn pieces_grow(s: Seq<char>, w: Seq<char>, c: char)
    requires
        !w.contains(c),
    ensures
        pieces(s + w, c) == pieces(s, c).drop_last().push(pieces(s, c).last() + w),
    decreases w.len(),
{
    pieces_not_empty(s, c);
    let p = pieces(s, c);
    if w.len() == 0 {
        assert(s + w =~= s);
        assert(p.last() + w =~= p.last());
        assert(p.drop_last().push(p.last()) =~= p);
    } else {
        let v = w.drop_last();
        assert(!v.contains(c)) by {
            if v.contains(c) {
                let k = choose|k: int| 0 <= k < v.len() && v[k] == c;
                assert(w[k] == c);
            }
        }
        pieces_grow(s, v, c);
        assert((s + w).drop_last() =~= s + v);
        assert((s + w).last() == w.last());
        assert(w[w.len() - 1] == w.last());
        let q = p.drop_last().push(p.last() + v);
        assert(q.drop_last() =~= p.drop_last());
        assert((p.last() + v).push(w.last()) =~= p.last() + w);
    }
}

/// A text whose last line is ended gains exactly the line that is put behind it.
pub proof fn a_line_is_added(s: Seq<char>, w: Seq<char>)
    requires
        s.len() == 0 || s.last() == '\n',
        !w.contains('\n'),
        w.len() == 0 || w.last() != '\r',
    ensures
        lines_of(s + w + seq!['\n']) == lines_of(s).push(w),
{
    let nl = '\n';
    let p = pieces(s, nl);
    pieces_not_empty(s, nl);
    assert(p.last() =~= Seq::<char>::empty());
    pieces_grow(s, w, nl);
    assert(Seq::<char>::empty() + w =~= w);
    let all = s + w + seq![nl];
    assert(all.drop_last() =~= s + w);
    assert(all.last() == nl);
    let q = p.drop_last().push(w);
    assert(pieces(all, nl) == q.push(seq![]));
    assert(pieces(all, nl).drop_last() =~= q);
    let f = |l: Seq<char>| without_return(l);
    assert(q.map_values(f) =~= p.drop_last().map_values(f).push(w));
}

proof fn pinned_behind(known: Seq<Seq<char>>, line: Seq<char>, host: Seq<char>)
    ensures
        pinned_for(known.push(line), host) == (match pinned_for(known, host) {
            Some(f) => Some(f),
            None => pinned_for(seq![line], host),
        }),
    decreases known.len(),
{
    let all = known.push(line);
    if known.len() == 0 {
        assert(all =~= seq![line]);
    } else {
        assert(all[0] == known[0]);
        assert(all.skip(1) =~= known.skip(1).push(line));
        pinned_behind(known.skip(1), line, host);
    }
}

/// A host that has been pinned is known by the key it was pinned with, and by no other.
pub proof fn a_pinned_host_is_held_to_its_key(
    host: Seq<char>,
    fp: Seq<char>,
    known: Seq<char>,
    later: Seq<char>,
)
    requires
        verdict_on(host, fp, known) == VerdictView::New,
        known.len() == 0 || known.last() == '\n',
        !host.contains(' '),
        !host.contains('\n'),
        forall|i: int| 0 <= i < fp.len() ==> !white(#[trigger] fp[i]),
    ensures
        verdict_on(host, later, known + pin(host, fp)) == (if later == fp {
            VerdictView::Pinned
        } else {
            VerdictView::Changed(fp)
        }),
{
    reveal_strlit(" ");
    reveal_strlit("\n");
    let w = host + " "@ + fp;
    assert(known + pin(host, fp) =~= known + w + seq!['\n']);
    assert(!w.contains('\n')) by {
        if w.contains('\n') {
            let k = choose|k: int| 0 <= k < w.len() && w[k] == '\n';
            if k < host.len() {
                assert(host[k] == '\n');
            } else if k > host.len() {
                assert(fp[k - host.len() - 1] == '\n');
                assert(white(fp[k - host.len() - 1]));
            }
        }
    }
    assert(w.last() != '\r') by {
        if fp.len() > 0 {
            assert(w.last() == fp[fp.len() - 1]);
            assert(!white(fp[fp.len() - 1]));
        } else {
            assert(w.last() == ' ');
        }
    }
    a_line_is_added(known, w);
    pinned_behind(lines_of(known), w, host);
    cut_at(host, ' ', fp);
    assert(w =~= host + seq![' '] + fp);
    assert(seq![w].skip(1).len() == 0);
}

/// A host that is pinned keeps its pin whatever is pinned after it.
pub proof fn a_pin_stays(host: Seq<char>, fp: Seq<char>, known: Seq<char>, line: Seq<char>)
    requires
        verdict_on(host, fp, known) != VerdictView::New,
        known.len() == 0 || known.last() == '\n',
        !line.contains('\n'),
        line.len() == 0 || line.last() != '\r',
    ensures
        verdict_on(host, fp, known + line + seq!['\n']) == verdict_on(host, fp, known),
{
    a_line_is_added(known, line);
    pinned_behind(lines_of(known), line, host);
}

/// Where the home directory is, as the environment says. On neither, nowhere.
pub fn choose_home(userprofile: Option<String>, home: Option<String>) -> (r: String)
    ensures
        r@ == (match (userprofile, home) {
            (Some(u), _) => u@,
            (None, Some(h)) => h@,
            (None, None) => Seq::<char>::empty(),
        }),
{
    match (userprofile, home) {
        (Some(u), _) => u,
        (None, Some(h)) => h,
        (None, None) => String::new(),
    }
}

proof fn not_for(line: Seq<char>, host: Seq<char>)
    ensures
        !host.contains(' ') ==> (cut_once(line, ' ').1 is Some && cut_once(line, ' ').0 == host <==> (host
            + seq![' ']).is_prefix_of(line)),
        host.contains(' ') ==> cut_once(line, ' ').1 is None || cut_once(line, ' ').0 != host,
        (host + seq![' ']).is_prefix_of(line) && !host.contains(' ') ==> cut_once(line, ' ').1 == Some(
            line.skip(host.len() as int + 1),
        ),
{
    let head = host + seq![' '];
    first_of_is_first(line, ' ');
    let at = first_of(line, ' ');
    if !host.contains(' ') && head.is_prefix_of(line) {
        let rest = line.skip(head.len() as int);
        assert(line =~= host + seq![' '] + rest);
        cut_at(host, ' ', rest);
    }
    if at < line.len() && line.take(at) == host {
        assert(head =~= line.subrange(0, head.len() as int));
        if host.contains(' ') {
            let k = choose|k: int| 0 <= k < host.len() && host[k] == ' ';
            assert(line[k] == line.take(at)[k]);
        }
    }
}

proof fn pinned_at(known: Seq<Seq<char>>, host: Seq<char>, i: int)
    requires
        0 <= i <= known.len(),
        !host.contains(' '),
        forall|j: int| 0 <= j < i ==> !(host + seq![' ']).is_prefix_of(#[trigger] known[j]),
        i < known.len() ==> (host + seq![' ']).is_prefix_of(known[i]),
    ensures
        i < known.len() ==> pinned_for(known, host) == Some(known[i].skip(host.len() as int + 1)),
        i == known.len() ==> pinned_for(known, host) is None,
    decreases known.len(),
{
    if known.len() > 0 {
        not_for(known[0], host);
        if i > 0 {
            assert(!(host + seq![' ']).is_prefix_of(known[0]));
            let rest = known.skip(1);
            assert forall|j: int| 0 <= j < i - 1 implies !(host + seq![' ']).is_prefix_of(#[trigger] rest[j]) by {
                assert(!(host + seq![' ']).is_prefix_of(known[j + 1]));
            }
            pinned_at(rest, host, i - 1);
        }
    }
}

/// A host is held to the first line that is its name, a space and a fingerprint, whatever stands on the
/// lines before or behind it; without such a line it is new.
pub proof fn a_host_is_held_to_its_first_line(host: Seq<char>, fp: Seq<char>, known: Seq<char>, i: int)
    requires
        !host.contains(' '),
        0 <= i <= lines_of(known).len(),
        forall|j: int| 0 <= j < i ==> !(host + seq![' ']).is_prefix_of(#[trigger] lines_of(known)[j]),
        i < lines_of(known).len() ==> (host + seq![' ']).is_prefix_of(lines_of(known)[i]),
    ensures
        i == lines_of(known).len() ==> verdict_on(host, fp, known) == VerdictView::New,
        i < lines_of(known).len() && lines_of(known)[i] == host + seq![' '] + fp ==> verdict_on(host, fp, known)
            == VerdictView::Pinned,
        i < lines_of(known).len() && lines_of(known)[i] != host + seq![' '] + fp ==> verdict_on(host, fp, known)
            == VerdictView::Changed(lines_of(known)[i].skip(host.len() as int + 1)),
{
    let v = lines_of(known);
    pinned_at(v, host, i);
    if i < v.len() {
        let rest = v[i].skip(host.len() as int + 1);
        assert(v[i] =~= host + seq![' '] + rest);
        if rest != fp {
            assert(host + seq![' '] + fp != v[i]) by {
                assert((host + seq![' '] + fp).skip(host.len() as int + 1) =~= fp);
            }
        }
    }
}

/// A name with a space in it is never pinned.
pub proof fn a_name_with_a_space_is_always_new(host: Seq<char>, fp: Seq<char>, known: Seq<char>)
    requires
        host.contains(' '),
    ensures
        verdict_on(host, fp, known) == VerdictView::New,
{
    never_pinned(lines_of(known), host);
}

proof fn never_pinned(known: Seq<Seq<char>>, host: Seq<char>)
    requires
        host.contains(' '),
    ensures
        pinned_for(known, host) is None,
    decreases known.len(),
{
    if known.len() > 0 {
        not_for(known[0], host);
        never_pinned(known.skip(1), host);
    }
}

proof fn key_lines_filter(
    text: Seq<Seq<char>>,
    trim: spec_fn(Seq<char>) -> Seq<char>,
    keep: spec_fn(Seq<char>) -> bool,
)
    requires
        forall|l: Seq<char>| #[trigger] trim(l) == trimmed(l),
        forall|l: Seq<char>| #[trigger] keep(l) == (l.len() > 0 && l[0] != '#'),
    ensures
        key_lines(text) == text.map_values(trim).filter(keep),
    decreases text.len(),
{
    reveal(Seq::filter);
    reveal_strlit("#");
    let all = text.map_values(trim);
    if text.len() > 0 {
        key_lines_filter(text.drop_last(), trim, keep);
        assert(all.drop_last() =~= text.drop_last().map_values(trim));
        assert(all.last() == trimmed(text.last()));
        let l = trimmed(text.last());
        if l.len() > 0 {
            assert(l.take(1)[0] == l[0]);
            if l[0] == '#' {
                assert(l.take(1) =~= "#"@);
            }
        }
    } else {
        assert(all.filter(keep) =~= Seq::<Seq<char>>::empty());
    }
}

proof fn identities_filter(
    v: Seq<Seq<char>>,
    keep: spec_fn(Seq<char>) -> bool,
    key: spec_fn(Seq<char>) -> Seq<u8>,
)
    requires
        forall|l: Seq<char>| #[trigger] keep(l) == (key_identity(l) is Ok),
        forall|l: Seq<char>| #[trigger] key(l) == key_identity(l)->Ok_0,
    ensures
        identities(v) == v.filter(keep).map_values(key),
    decreases v.len(),
{
    reveal(Seq::filter);
    if v.len() > 0 {
        identities_filter(v.drop_last(), keep, key);
        let before = v.drop_last().filter(keep);
        assert(before.push(v.last()).map_values(key) =~= before.map_values(key).push(key(v.last())));
    } else {
        assert(v.filter(keep).map_values(key) =~= Seq::<Seq<u8>>::empty());
    }
}

/// The keys of a text are those of its lines in order, without white space at the ends, that are neither
/// empty nor begin with a `#` and can be read.
pub proof fn which_keys_a_text_holds(text: Seq<char>)
    ensures
        key_lines(lines_of(text)) == lines_of(text).map_values(|l: Seq<char>| trimmed(l)).filter(
            |l: Seq<char>| l.len() > 0 && l[0] != '#',
        ),
        identities(key_lines(lines_of(text))) == key_lines(lines_of(text)).filter(
            |l: Seq<char>| key_identity(l) is Ok,
        ).map_values(|l: Seq<char>| key_identity(l)->Ok_0),
{
    key_lines_filter(
        lines_of(text),
        |l: Seq<char>| trimmed(l),
        |l: Seq<char>| l.len() > 0 && l[0] != '#',
    );
    identities_filter(
        key_lines(lines_of(text)),
        |l: Seq<char>| key_identity(l) is Ok,
        |l: Seq<char>| key_identity(l)->Ok_0,
    );
}

/// Who is let in: exactly one who shows an authorized key and a signature of this very nonce by it. A key
/// that cannot be read is said first, then a signature that cannot be.
pub proof fn who_is_let_in(authorized: Seq<Seq<u8>>, nonce: Seq<u8>, pubkey: Seq<char>, sig_pem: Seq<char>)
    ensures
        admission_of(authorized, nonce, pubkey, sig_pem) == AdmissionView::Accepted <==> (key_identity(
            pubkey,
        ) matches Ok(k) && signature_error(sig_pem) is None && authorized.contains(k) && signature_holds(
            pubkey,
            "rbuild@local"@,
            nonce,
            sig_pem,
        )),
        key_identity(pubkey) matches Err(e) ==> admission_of(authorized, nonce, pubkey, sig_pem)
            == AdmissionView::Broken(e),
        key_identity(pubkey) is Ok ==> (signature_error(sig_pem) matches Some(e) ==> admission_of(
            authorized,
            nonce,
            pubkey,
            sig_pem,
        ) == AdmissionView::Broken(e)),
        key_identity(pubkey) is Ok && signature_error(sig_pem) is None ==> !(admission_of(
            authorized,
            nonce,
            pubkey,
            sig_pem,
        ) is Broken),
{
}

/// What an attempt comes to, from what the key and the signature turned out to be.
pub proof fn what_an_attempt_comes_to(
    authorized: Seq<Seq<u8>>,
    key: Result<Seq<u8>, Seq<char>>,
    bad: Option<Seq<char>>,
    holds: bool,
)
    ensures
        key matches Err(e) ==> admitted(authorized, key, bad, holds) == AdmissionView::Broken(e),
        key is Ok ==> (bad matches Some(e) ==> admitted(authorized, key, bad, holds) == AdmissionView::Broken(
            e,
        )),
        key matches Ok(k) ==> (bad is None ==> admitted(authorized, key, bad, holds) == (if authorized.contains(
            k,
        ) && holds {
            AdmissionView::Accepted
        } else {
            AdmissionView::Denied
        })),
{
}

/// What the client answers with: both the signature and the key, or why it has one of them not, the
/// signature first.
pub proof fn what_the_client_answers(
    sig: Result<Seq<char>, Seq<char>>,
    pubkey: Result<Seq<char>, Seq<char>>,
)
    ensures
        sig matches Err(e) ==> auth_of(sig, pubkey) == Err::<ClientView, Seq<char>>(e),
        sig is Ok ==> (pubkey matches Err(e) ==> auth_of(sig, pubkey) == Err::<ClientView, Seq<char>>(e)),
        sig matches Ok(s) ==> (pubkey matches Ok(p) ==> auth_of(sig, pubkey) == Ok::<ClientView, Seq<char>>(
            ClientView::Auth { pubkey: p, sig_pem: s },
        )),
{
}

/// What is said of keys, word for word, and how a pin is written.
pub proof fn what_is_said_of_keys(
    path: Seq<char>,
    error: Seq<char>,
    host: Seq<char>,
    expected: Seq<char>,
    got: Seq<char>,
)
    ensures
        unreadable(path, error) == "reading "@ + path + ": "@ + error,
        pin(host, got) == host + " "@ + got + "\n"@,
        changed_text(host, expected, got, path) == "HOST KEY CHANGED for "@ + host + "\n  expected "@ + expected
            + "\n  got      "@ + got + "\nIf you rebuilt the container, delete the line from "@ + path,
{
}

} // verus!
