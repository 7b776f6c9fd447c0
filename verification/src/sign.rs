//! Webhook signing: an HMAC (512-bit digest) over `timestamp.payload`,
//! base64-encoded.
//!
//! The digest and the encoding come from outside crates; each is named by
//! an uninterpreted function and trusted only to be a function of its
//! inputs. Everything around them — assembling the signed text, comparing a
//! presented signature with a recomputed one — is verified.

use vstd::prelude::*;
use vstd::string::StringSliceAdditionalSpecFns;

verus! {

/// The HMAC-SHA-512 tag of `msg` under `key`.
pub uninterp spec fn hmac_sha512_of(key: Seq<u8>, msg: Seq<u8>) -> Seq<u8>;

/// The standard base64 encoding (with padding) of `data`.
pub uninterp spec fn base64_of(data: Seq<u8>) -> Seq<char>;

/// Relies on hmac's `Hmac<Sha512>`: the tag depends on key and message
/// alone, is 64 bytes, and any key length is accepted.
#[verifier::external_body]
fn hmac_sha512(key: &[u8], msg: &[u8]) -> (r: Vec<u8>)
    ensures
        r@ == hmac_sha512_of(key@, msg@),
        r@.len() == 64,
{
    let mut mac = <hmac::Hmac<sha2::Sha512> as hmac::Mac>::new_from_slice(key).unwrap();
    hmac::Mac::update(&mut mac, msg);
    hmac::Mac::finalize(mac).into_bytes().to_vec()
}

/// Relies on base64's `STANDARD` engine: the encoding depends on the input
/// alone; four output characters for every started group of three bytes.
#[verifier::external_body]
fn base64_encode(data: &[u8]) -> (r: String)
    ensures
        r@ == base64_of(data@),
        r@.len() == 4 * ((data@.len() + 2) / 3),
{
    base64::Engine::encode(&base64::engine::general_purpose::STANDARD, data)
}

/// The text the webhook signature covers: `timestamp`, one dot, the payload.
pub open spec fn signing_input(timestamp: Seq<u8>, payload: Seq<u8>) -> Seq<u8> {
    timestamp + ".".spec_bytes() + payload
}

/// The webhook signature for a payload at a timestamp under a shared
/// secret.
pub open spec fn signature_of(secret: Seq<u8>, timestamp: Seq<u8>, payload: Seq<u8>) -> Seq<char> {
    base64_of(hmac_sha512_of(secret, signing_input(timestamp, payload)))
}

/// Compute the signature a webhook call carries in its `X-Signature`
/// header.
pub fn sign(secret: &[u8], timestamp: &[u8], payload: &[u8]) -> (sig: String)
    ensures
        sig@ == signature_of(secret@, timestamp@, payload@),
{
    let mut msg: Vec<u8> = Vec::new();
    msg.extend_from_slice(timestamp);
    msg.extend_from_slice(".".as_bytes());
    msg.extend_from_slice(payload);
    proof {
        assert(msg@ =~= signing_input(timestamp@, payload@));
    }
    base64_encode(hmac_sha512(secret, msg.as_slice()).as_slice())
}

/// Recompute the signature over a received `(timestamp, payload)` pair and
/// compare: accepts exactly the signature the sender computed over the same
/// bytes with the same secret.
pub fn verify_signature(secret: &[u8], timestamp: &[u8], payload: &[u8], signature: &String) -> (ok:
    bool)
    ensures
        ok <==> signature@ == signature_of(secret@, timestamp@, payload@),
{
    let expected = sign(secret, timestamp, payload);
    signature.eq(&expected)
}

/// Recomputing the signature over the exact `(timestamp, payload)` pair the
/// sender used, with the same secret, always matches: the signature depends
/// on those bytes alone.
pub fn recomputed_signature_matches(secret: &[u8], timestamp: &[u8], payload: &[u8]) -> (ok: bool)
    ensures
        ok,
{
    let sig = sign(secret, timestamp, payload);
    verify_signature(secret, timestamp, payload, &sig)
}

/// The decimal digits of `n`.
pub open spec fn dec_of(n: nat) -> Seq<u8>
    decreases n,
{
    if n < 10 {
        seq![(48 + n) as u8]
    } else {
        dec_of(n / 10) + seq![(48 + n % 10) as u8]
    }
}

/// Format a timestamp as decimal ASCII, as carried in the `X-Timestamp`
/// header.
pub fn u64_to_dec(n: u64) -> (r: Vec<u8>)
    ensures
        r@ == dec_of(n as nat),
{
    let mut rev: Vec<u8> = Vec::new();
    let mut m: u64 = n;
    while m >= 10
        invariant
            dec_of(n as nat) == dec_of(m as nat) + rev@.reverse(),
        decreases m,
    {
        let d: u8 = (m % 10) as u8;
        let ghost revpre = rev@;
        rev.push(48 + d);
        m = m / 10;
        proof {
            assert(revpre.push((48 + d) as u8).reverse() =~= seq![(48 + d) as u8]
                + revpre.reverse());
            assert(dec_of(m as nat) + (seq![(48 + d) as u8] + revpre.reverse()) =~= (dec_of(
                m as nat,
            ) + seq![(48 + d) as u8]) + revpre.reverse());
        }
    }
    let mut out: Vec<u8> = Vec::new();
    out.push(48 + (m as u8));
    proof {
        assert(out@ =~= dec_of(m as nat));
    }
    let mut i: usize = rev.len();
    while i > 0
        invariant
            i <= rev@.len(),
            out@ == dec_of(m as nat) + rev@.subrange(i as int, rev@.len() as int).reverse(),
        decreases i,
    {
        i -= 1;
        let ghost outpre = out@;
        out.push(rev[i]);
        proof {
            let tail = rev@.subrange(i as int, rev@.len() as int);
            assert(tail.reverse() =~= rev@.subrange(i + 1, rev@.len() as int).reverse().push(
                rev@[i as int],
            ));
            assert(out@ =~= dec_of(m as nat) + tail.reverse());
        }
    }
    proof {
        assert(rev@.subrange(0, rev@.len() as int) =~= rev@);
        assert(out@ =~= dec_of(n as nat));
    }
    out
}

} // verus!
