//! Identity store: the rules for a stable peer identity.
//!
//! A peer's identity is an asymmetric keypair kept in one file. On startup
//! the file's contents, if any, are handed to `load_identity`: existing
//! bytes are decoded — a file that does not decode is a fatal configuration
//! error, never silently replaced, since that would change the process's
//! network identity — and an absent file leads to a fresh keypair whose
//! encoding the caller must persist. The peer identifier is derived from
//! the encoded key deterministically, so the same file always yields the
//! same identifier across restarts.

use vstd::prelude::*;

verus! {

/// Whether the bytes decode as an encoded keypair.
pub uninterp spec fn is_valid_key_encoding(bytes: Seq<u8>) -> bool;

/// The peer identifier derived from an encoded keypair.
pub uninterp spec fn peer_id_of_encoding(bytes: Seq<u8>) -> Seq<char>;

/// Relies on `libp2p_identity::Keypair::from_protobuf_encoding`, whose
/// success depends on the bytes alone, and on `PeerId::from_public_key`
/// with its base58 `Display` form: the derived identifier is a function of
/// the encoded key bytes alone.
#[verifier::external_body]
fn decode_peer_id(bytes: &Vec<u8>) -> (r: Option<String>)
    ensures
        r is Some <==> is_valid_key_encoding(bytes@),
        r is Some ==> r->Some_0@ == peer_id_of_encoding(bytes@),
{
    match libp2p::identity::Keypair::from_protobuf_encoding(bytes) {
        Ok(k) => Some(libp2p::PeerId::from(k.public()).to_string()),
        Err(_) => None,
    }
}

/// Relies on `libp2p_identity::Keypair::generate_ed25519` and
/// `to_protobuf_encoding`: a fresh ed25519 keypair encodes without error,
/// and per the crate's source the encoding decodes back. Nothing is assumed
/// about which key was drawn.
#[verifier::external_body]
fn generate_key_encoding() -> (r: Option<Vec<u8>>)
    ensures
        r is Some ==> is_valid_key_encoding(r->Some_0@),
{
    let keypair = libp2p::identity::Keypair::generate_ed25519();
    keypair.to_protobuf_encoding().ok()
}

/// Why an identity could not be produced.
#[derive(Debug, Clone, PartialEq, Eq)]
pub enum IdentityError {
    /// The key file exists but its bytes do not decode as a keypair. Fatal:
    /// regenerating silently would change the process's network identity.
    CorruptKeyFile,
    /// A fresh keypair could not be encoded.
    KeyGenerationFailed,
}

/// A loaded identity: the encoded keypair and the identifier derived from
/// it.
#[derive(Debug)]
pub struct Identity {
    key_encoding: Vec<u8>,
    peer_id: String,
}

/// Ghost image of an `Identity`.
#[verifier::ext_equal]
pub struct IdentityView {
    pub key_encoding: Seq<u8>,
    pub peer_id: Seq<char>,
}

impl View for Identity {
    type V = IdentityView;

    closed spec fn view(&self) -> IdentityView {
        IdentityView { key_encoding: self.key_encoding@, peer_id: self.peer_id@ }
    }
}

/// An identity is well formed when its encoding decodes and its identifier
/// is the one derived from that encoding.
pub open spec fn identity_wf(v: IdentityView) -> bool {
    &&& is_valid_key_encoding(v.key_encoding)
    &&& v.peer_id == peer_id_of_encoding(v.key_encoding)
}

impl Identity {
    /// The derived peer identifier.
    pub fn peer_id(&self) -> (r: &String)
        ensures
            r@ == self@.peer_id,
    {
        &self.peer_id
    }

    /// The encoded keypair, as it is persisted.
    pub fn key_encoding(&self) -> (r: &Vec<u8>)
        ensures
            r@ == self@.key_encoding,
    {
        &self.key_encoding
    }
}

/// A copy of the bytes.
fn clone_bytes(v: &Vec<u8>) -> (r: Vec<u8>)
    ensures
        r@ == v@,
{
    let n = v.len();
    let mut r: Vec<u8> = Vec::new();
    let mut i: usize = 0;
    while i < n
        invariant
            n == v@.len(),
            i <= n,
            r@ == v@.subrange(0, i as int),
        decreases n - i,
    {
        r.push(v[i]);
        proof {
            assert(v@.subrange(0, i + 1 as int) =~= v@.subrange(0, i as int).push(v@[i as int]));
        }
        i = i + 1;
    }
    proof {
        assert(v@.subrange(0, n as int) =~= v@);
    }
    r
}

/// Decide the identity from the key file's contents, if the file exists.
/// Existing bytes are decoded, and bytes that do not decode are a fatal
/// error. With no file a fresh keypair is generated; the returned bytes
/// must then be written to the file, so the next start derives the same
/// identifier again.
pub fn load_identity(existing: Option<Vec<u8>>) -> (r: Result<
    (Identity, Option<Vec<u8>>),
    IdentityError,
>)
    ensures
        match r {
            Ok(p) => {
                &&& identity_wf(p.0@)
                &&& match existing {
                    Some(bytes) => {
                        &&& is_valid_key_encoding(bytes@)
                        &&& p.0@.key_encoding == bytes@
                        &&& p.1 is None
                    },
                    None => p.1 matches Some(persist) && persist@ == p.0@.key_encoding,
                }
            },
            Err(IdentityError::CorruptKeyFile) => existing matches Some(bytes)
                && !is_valid_key_encoding(bytes@),
            Err(IdentityError::KeyGenerationFailed) => existing is None,
        },
{
    match existing {
        Some(bytes) => {
            match decode_peer_id(&bytes) {
                Some(pid) => Ok((Identity { key_encoding: bytes, peer_id: pid }, None)),
                None => Err(IdentityError::CorruptKeyFile),
            }
        },
        None => {
            match generate_key_encoding() {
                Some(bytes) => {
                    match decode_peer_id(&bytes) {
                        Some(pid) => {
                            let persist = clone_bytes(&bytes);
                            Ok((
                                Identity { key_encoding: bytes, peer_id: pid },
                                Some(persist),
                            ))
                        },
                        None => Err(IdentityError::KeyGenerationFailed),
                    }
                },
                None => Err(IdentityError::KeyGenerationFailed),
            }
        },
    }
}

/// Identity stability: two well-formed identities kept under the same
/// encoded key bytes carry the same peer identifier. Loading the same key
/// file twice therefore yields the same identifier both times.
pub proof fn lemma_identity_stable(a: IdentityView, b: IdentityView)
    requires
        identity_wf(a),
        identity_wf(b),
        a.key_encoding == b.key_encoding,
    ensures
        a.peer_id == b.peer_id,
{
}

} // verus!
