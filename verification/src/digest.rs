use vstd::prelude::*;
use sha2::{Digest, Sha256};

use crate::text::{concat_str, push_char};

verus! {

broadcast use vstd::string::group_string_axioms;

/// The SHA-256 digest of a byte sequence, as the sha2 crate computes it.
pub uninterp spec fn sha256(data: Seq<u8>) -> Seq<u8>;

/// `Sha256::digest` from the sha2 crate: the digest of `data`, a function of
/// the bytes alone.
#[verifier::external_body]
fn sha256_of(data: &[u8]) -> (r: [u8; 32])
    ensures
        r@ == sha256(data@),
{
    Sha256::digest(data).into()
}

/// The running state of a SHA-256 hasher of the sha2 crate. Its type is an
/// alias of a deeply generic wrapper that Verus cannot declare, so the state
/// is held opaque here; what it has been fed is tracked by `StreamDigest`.
#[verifier::external_body]
pub struct Sha256State {
    inner: Sha256,
}

/// A SHA-256 computation fed piece by piece: the bytes fed so far are kept
/// as a ghost sequence beside the hasher of the sha2 crate.
pub struct StreamDigest {
    state: Sha256State,
    fed: Ghost<Seq<u8>>,
    count: u64,
}

/// `Sha256::new` from the sha2 crate: a hasher that has been fed nothing.
#[verifier::external_body]
fn sha256_start() -> (r: StreamDigest)
    ensures
        r.fed@ == Seq::<u8>::empty(),
        r.count == 0,
{
    StreamDigest { state: Sha256State { inner: Sha256::new() }, fed: Ghost(Seq::empty()), count: 0 }
}

/// `Digest::update` from the sha2 crate: the chunk is appended to what the
/// hasher has been fed.
#[verifier::external_body]
fn sha256_update(digest: &mut StreamDigest, chunk: &[u8])
    ensures
        final(digest).fed@ == old(digest).fed@ + chunk@,
        final(digest).count == old(digest).count,
{
    digest.state.inner.update(chunk);
}

/// `Digest::finalize` from the sha2 crate: the digest of all the bytes the
/// hasher was fed, in order.
#[verifier::external_body]
fn sha256_finish(digest: StreamDigest) -> (r: [u8; 32])
    ensures
        r@ == sha256(digest.fed@),
{
    digest.state.inner.finalize().into()
}

impl StreamDigest {
    /// The bytes fed so far, in order.
    pub closed spec fn fed_view(&self) -> Seq<u8> {
        self.fed@
    }

    pub closed spec fn wf(&self) -> bool {
        self.count == self.fed@.len()
    }

    /// A digest that has been fed nothing.
    pub fn start() -> (r: StreamDigest)
        ensures
            r.wf(),
            r.fed_view() == Seq::<u8>::empty(),
    {
        sha256_start()
    }

    /// Feeds the next chunk of bytes.
    pub fn feed(&mut self, chunk: &[u8])
        requires
            old(self).wf(),
            old(self).fed_view().len() + chunk@.len() <= u64::MAX,
        ensures
            final(self).wf(),
            final(self).fed_view() == old(self).fed_view() + chunk@,
    {
        let n = chunk.len() as u64;
        sha256_update(self, chunk);
        self.count = self.count + n;
    }

    /// How many bytes have been fed.
    pub fn bytes_fed(&self) -> (r: u64)
        requires
            self.wf(),
        ensures
            r == self.fed_view().len(),
    {
        self.count
    }

    /// The digest of everything fed, in order.
    pub fn finish(self) -> (r: [u8; 32])
        ensures
            r@ == sha256(self.fed_view()),
    {
        sha256_finish(self)
    }
}

/// The lowercase hexadecimal digit of a value below 16.
pub open spec fn hex_char(v: u8) -> char {
    if v < 10 {
        (('0' as u8) + v) as char
    } else {
        (('a' as u8) + (v - 10)) as char
    }
}

/// Two lowercase hexadecimal digits per byte, high nibble first.
pub open spec fn hex_text(bytes: Seq<u8>) -> Seq<char>
    decreases bytes.len(),
{
    if bytes.len() == 0 {
        Seq::<char>::empty()
    } else {
        let b = bytes.last();
        hex_text(bytes.drop_last()).push(hex_char(b / 16)).push(hex_char(b % 16))
    }
}

fn hex_digit(v: u8) -> (c: char)
    requires
        v < 16,
    ensures
        c == hex_char(v),
{
    if v < 10 {
        ((48u8 + v) as char)
    } else {
        ((97u8 + (v - 10)) as char)
    }
}

/// A digest written as 64 lowercase hexadecimal digits.
pub fn hex_digest(digest: [u8; 32]) -> (r: String)
    ensures
        r@ == hex_text(digest@),
        r@.len() == 64,
{
    let mut out = String::new();
    let mut i: usize = 0;
    while i < 32
        invariant
            i <= 32,
            digest@.len() == 32,
            out@ == hex_text(digest@.take(i as int)),
            out@.len() == 2 * i,
        decreases 32 - i,
    {
        let b = digest[i];
        push_char(&mut out, hex_digit(b / 16));
        push_char(&mut out, hex_digit(b % 16));
        proof {
            assert(digest@.take(i + 1).drop_last() == digest@.take(i as int));
            assert(digest@.take(i + 1).last() == b);
        }
        i = i + 1;
    }
    assert(digest@.take(32) == digest@);
    out
}

/// The bytes that name a lock target: a fixed tag, a zero byte, then the
/// target's path bytes.
pub open spec fn lock_identity_bytes(identity: Seq<u8>) -> Seq<u8> {
    "arca-target-lock-v1"@.map_values(|c: char| c as u8).push(0u8) + identity
}

/// The hexadecimal digest that identifies a lock target by its path bytes.
pub fn path_identity_digest(identity: &[u8]) -> (r: String)
    ensures
        r@ == hex_text(sha256(lock_identity_bytes(identity@))),
{
    let tag = "arca-target-lock-v1";
    let mut data: Vec<u8> = Vec::new();
    let tag_bytes = tag.as_bytes();
    let mut i: usize = 0;
    proof {
        reveal_strlit("arca-target-lock-v1");
    }
    while i < tag_bytes.len()
        invariant
            i <= tag_bytes.len(),
            tag_bytes@ == vstd::utf8::encode_utf8(tag@),
            data@ == tag_bytes@.take(i as int),
        decreases tag_bytes.len() - i,
    {
        data.push(tag_bytes[i]);
        assert(tag_bytes@.take(i + 1) == tag_bytes@.take(i as int).push(tag_bytes@[i as int]));
        i = i + 1;
    }
    data.push(0u8);
    let mut j: usize = 0;
    let ghost head = data@;
    while j < identity.len()
        invariant
            j <= identity@.len(),
            data@ == head + identity@.take(j as int),
        decreases identity.len() - j,
    {
        data.push(identity[j]);
        assert(identity@.take(j + 1) == identity@.take(j as int).push(identity@[j as int]));
        j = j + 1;
    }
    proof {
        assert(identity@.take(identity@.len() as int) == identity@);
        assert(tag_bytes@.take(tag_bytes@.len() as int) == tag_bytes@);
        lemma_ascii_tag_bytes();
    }
    hex_digest(sha256_of(data.as_slice()))
}

proof fn lemma_ascii_tag_bytes()
    ensures
        vstd::utf8::encode_utf8("arca-target-lock-v1"@) == "arca-target-lock-v1"@.map_values(|c: char| c as u8),
{
    reveal_strlit("arca-target-lock-v1");
    vstd::utf8::is_ascii_chars_encode_utf8("arca-target-lock-v1"@);
}

/// The file name of the lock that guards a target.
pub fn target_lock_file_name(identity: &[u8]) -> (r: String)
    ensures
        r@ == ".arca-lock-"@ + hex_text(sha256(lock_identity_bytes(identity@))) + ".lock"@,
{
    let digest = path_identity_digest(identity);
    let head = concat_str(".arca-lock-", digest.as_str());
    concat_str(head.as_str(), ".lock")
}

} // verus!
