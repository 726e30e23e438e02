//! The signed document and its envelope.
//!
//! An envelope is text of the form
//!
//! ```text
//! FRAUTH-CONTENTS
//! <payload: one or more lines, each ending in a newline>
//! FRAUTH-SIGNATURE
//! <signature, base64>
//! FRAUTH-ENDOFFILE
//! ```
//!
//! The payload is the serialized published identity, and the signature is
//! over exactly its bytes. Reading an envelope checks its layout and its
//! signature's form (`PublicFile::try_from_str`); once the payload has been
//! parsed, `PublicFile::authenticate` checks the embedded key and the
//! signature. Each failure has its own kind of `Error`.
use crate::crypto::{
    base64_bytes, base64_decode, base64_encode, base64_text, ed25519_point, ed25519_signature,
    ed25519_verifies, is_base64_char, is_signature_shape, public_key_accepted, signature_shape,
    verify_signature, KeyPair,
};
use crate::lines::{
    is_space, join_lines, lemma_join_lines_of, lemma_join_lines_shrinks, lemma_lines_around,
    lemma_lines_concat, lemma_one_line, line_spans, lines_of, push_all, push_span, span_holds,
    span_is, trim, trim_end, trim_span, trim_start, whole_lines, NEWLINE,
};
use crate::schema::PublishUserInfo;
use vstd::prelude::*;
use vstd::slice::slice_subrange;
use vstd::utf8::{encode_utf8, is_ascii_chars, is_ascii_chars_encode_utf8};

verus! {

/// Why an envelope was not accepted.
#[derive(Clone, Copy, Debug, PartialEq, Eq, Structural)]
pub enum Error {
    /// The markers and lines are not laid out as an envelope.
    Layout,
    /// The payload is not a published identity.
    PayloadParse,
    /// The signature line is not base64 of a well-formed signature.
    SignatureDecode,
    /// The embedded public key is not base64 of a valid key.
    PublicKeyDecode,
    /// The signature does not check out.
    Verification,
}

/// `FRAUTH-CONTENTS`
pub open spec fn top_marker() -> Seq<u8> {
    seq![70u8, 82, 65, 85, 84, 72, 45, 67, 79, 78, 84, 69, 78, 84, 83]
}

/// `FRAUTH-SIGNATURE`
pub open spec fn sig_marker() -> Seq<u8> {
    seq![70u8, 82, 65, 85, 84, 72, 45, 83, 73, 71, 78, 65, 84, 85, 82, 69]
}

/// `FRAUTH-ENDOFFILE`
pub open spec fn end_marker() -> Seq<u8> {
    seq![70u8, 82, 65, 85, 84, 72, 45, 69, 78, 68, 79, 70, 70, 73, 76, 69]
}

fn top_marker_bytes() -> (r: [u8; 15])
    ensures
        r@ == top_marker(),
{
    let r: [u8; 15] = [70, 82, 65, 85, 84, 72, 45, 67, 79, 78, 84, 69, 78, 84, 83];
    assert(r@ =~= top_marker());
    r
}

fn sig_marker_bytes() -> (r: [u8; 16])
    ensures
        r@ == sig_marker(),
{
    let r: [u8; 16] = [70, 82, 65, 85, 84, 72, 45, 83, 73, 71, 78, 65, 84, 85, 82, 69];
    assert(r@ =~= sig_marker());
    r
}

fn end_marker_bytes() -> (r: [u8; 16])
    ensures
        r@ == end_marker(),
{
    let r: [u8; 16] = [70, 82, 65, 85, 84, 72, 45, 69, 78, 68, 79, 70, 70, 73, 76, 69];
    assert(r@ =~= end_marker());
    r
}

/// Lines laid out as an envelope: the top marker first, the end marker last,
/// and the signature marker exactly once among the others, with at least one
/// payload line before it and the signature line alone after it.
pub open spec fn layout_ok(ls: Seq<Seq<u8>>) -> bool {
    let n = ls.len();
    &&& n >= 5
    &&& ls[0] == top_marker()
    &&& ls[n - 1] == end_marker()
    &&& ls[n - 3] == sig_marker()
    &&& ls[n - 2] != sig_marker()
    &&& forall|i: int| 1 <= i < n - 3 ==> #[trigger] ls[i] != sig_marker()
}

/// The payload of envelope lines: the lines between the top marker and the
/// signature marker, each followed by a newline.
pub open spec fn payload_of(ls: Seq<Seq<u8>>) -> Seq<u8> {
    join_lines(ls.subrange(1, ls.len() - 3))
}

/// What reading an envelope gives: its payload and its signature.
pub open spec fn envelope_of(t: Seq<u8>) -> Result<(Seq<u8>, Seq<u8>), Error> {
    let ls = lines_of(t);
    if !layout_ok(ls) {
        Err(Error::Layout)
    } else {
        match base64_bytes(trim(ls[ls.len() - 2])) {
            Some(sig) => if signature_shape(sig) {
                Ok((payload_of(ls), sig))
            } else {
                Err(Error::SignatureDecode)
            },
            None => Err(Error::SignatureDecode),
        }
    }
}

/// The envelope text of a payload and its signature.
pub open spec fn file_repr(payload: Seq<u8>, sig: Seq<u8>) -> Seq<u8> {
    top_marker() + seq![NEWLINE] + payload + sig_marker() + seq![NEWLINE] + encode_utf8(
        base64_text(sig),
    ) + seq![NEWLINE] + end_marker() + seq![NEWLINE]
}

/// Whether the embedded public key (base64 text) reads as a key under which
/// `sig` is a signature of `payload`.
pub open spec fn authenticity(payload: Seq<u8>, sig: Seq<u8>, pubkey: Seq<char>) -> Result<(), Error> {
    match base64_bytes(encode_utf8(pubkey)) {
        None => Err(Error::PublicKeyDecode),
        Some(k) => if !(k.len() == 32 && ed25519_point(k)) {
            Err(Error::PublicKeyDecode)
        } else if !ed25519_verifies(k, payload, sig) {
            Err(Error::Verification)
        } else {
            Ok(())
        },
    }
}

/// A payload that an envelope carries unchanged: whole lines, none of them
/// the signature marker.
pub open spec fn carriable(p: Seq<u8>) -> bool {
    &&& whole_lines(p)
    &&& forall|i: int| 0 <= i < lines_of(p).len() ==> #[trigger] lines_of(p)[i] != sig_marker()
}

/// The bytes of base64 text: no line ending, white space or dash among them.
proof fn lemma_base64_line(chars: Seq<char>)
    requires
        forall|i: int| 0 <= i < chars.len() ==> is_base64_char(#[trigger] chars[i]),
    ensures
        forall|i: int|
            0 <= i < encode_utf8(chars).len() ==> encode_utf8(chars)[i] != NEWLINE && !is_space(
                #[trigger] encode_utf8(chars)[i],
            ) && encode_utf8(chars)[i] != 45 && encode_utf8(chars)[i] != 0x0d,
{
    let b = encode_utf8(chars);
    assert(is_ascii_chars(chars));
    is_ascii_chars_encode_utf8(chars);
    assert forall|i: int| 0 <= i < b.len() implies b[i] != NEWLINE && !is_space(#[trigger] b[i])
        && b[i] != 45 && b[i] != 0x0d by {
        assert(b[i] == chars[i] as u8);
        assert(is_base64_char(chars[i]));
    }
}

/// An envelope of payload `q` with signature line `b`.
pub open spec fn repr_with(q: Seq<u8>, b: Seq<u8>) -> Seq<u8> {
    top_marker() + seq![NEWLINE] + q + sig_marker() + seq![NEWLINE] + b + seq![NEWLINE]
        + end_marker() + seq![NEWLINE]
}

/// The lines after the payload of an envelope.
proof fn lemma_tail_lines(b: Seq<u8>)
    requires
        forall|i: int|
            0 <= i < b.len() ==> #[trigger] b[i] != NEWLINE && b[i] != 45 && b[i] != 0x0d,
    ensures
        lines_of(b + seq![NEWLINE] + end_marker() + seq![NEWLINE]) == seq![b, end_marker()],
        lines_of(sig_marker() + seq![NEWLINE] + b + seq![NEWLINE] + end_marker() + seq![NEWLINE])
            == seq![sig_marker(), b, end_marker()],
{
    lemma_one_line(sig_marker());
    lemma_one_line(b);
    lemma_one_line(end_marker());
    let tail3 = end_marker() + seq![NEWLINE];
    let tail2 = (b + seq![NEWLINE]) + tail3;
    let tail1 = (sig_marker() + seq![NEWLINE]) + tail2;
    lemma_lines_concat(b + seq![NEWLINE], tail3);
    lemma_lines_concat(sig_marker() + seq![NEWLINE], tail2);
    assert(b + seq![NEWLINE] + end_marker() + seq![NEWLINE] =~= tail2);
    assert(sig_marker() + seq![NEWLINE] + b + seq![NEWLINE] + end_marker() + seq![NEWLINE]
        =~= tail1);
    assert(lines_of(tail2) =~= seq![b, end_marker()]);
    assert(lines_of(tail1) =~= seq![sig_marker(), b, end_marker()]);
}

/// The lines of an envelope: the top marker's, then those of the rest.
proof fn lemma_envelope_lines(q: Seq<u8>, b: Seq<u8>)
    ensures
        lines_of(repr_with(q, b)) == seq![top_marker()] + lines_of(
            q + (sig_marker() + seq![NEWLINE] + b + seq![NEWLINE] + end_marker() + seq![NEWLINE]),
        ),
{
    lemma_one_line(top_marker());
    let top = top_marker() + seq![NEWLINE];
    let tail1 = sig_marker() + seq![NEWLINE] + b + seq![NEWLINE] + end_marker() + seq![NEWLINE];
    assert(repr_with(q, b) =~= top + (q + tail1));
    lemma_lines_concat(top, q + tail1);
}

/// Changing a byte of a carriable payload other than its last newline.
proof fn lemma_tampered_inside(p: Seq<u8>, b: Seq<u8>, k: int, v: u8)
    requires
        carriable(p),
        0 <= k < p.len() - 1,
        v != p[k],
        forall|i: int|
            0 <= i < b.len() ==> #[trigger] b[i] != NEWLINE && b[i] != 45 && b[i] != 0x0d,
    ensures
        envelope_of(repr_with(p.update(k, v), b)) matches Ok(e) ==> e.0 != p,
{
    let changed = p.update(k, v);
    let tail1 = sig_marker() + seq![NEWLINE] + b + seq![NEWLINE] + end_marker() + seq![NEWLINE];
    lemma_tail_lines(b);
    lemma_envelope_lines(changed, b);
    assert(changed.last() == p.last());
    lemma_lines_concat(changed, tail1);
    let ls = lines_of(repr_with(changed, b));
    assert(ls =~= seq![top_marker()] + lines_of(changed) + seq![sig_marker(), b, end_marker()]);
    if layout_ok(ls) {
        assert(ls.subrange(1, ls.len() - 3) =~= lines_of(changed));
        lemma_join_lines_shrinks(changed);
        if join_lines(lines_of(changed)) == p {
            assert(changed[k] != p[k]);
        }
    }
}

/// Changing the last newline of a carriable payload.
#[verifier::rlimit(40)]
proof fn lemma_tampered_end(p: Seq<u8>, b: Seq<u8>, v: u8)
    requires
        carriable(p),
        v != NEWLINE,
        forall|i: int|
            0 <= i < b.len() ==> #[trigger] b[i] != NEWLINE && b[i] != 45 && b[i] != 0x0d,
    ensures
        envelope_of(repr_with(p.update(p.len() - 1, v), b)) is Err,
{
    let changed = p.update(p.len() - 1, v);
    let tail2 = b + seq![NEWLINE] + end_marker() + seq![NEWLINE];
    let tail1 = sig_marker() + seq![NEWLINE] + tail2;
    lemma_tail_lines(b);
    lemma_envelope_lines(changed, b);
    let q = p.drop_last();
    let w = seq![v] + sig_marker();
    assert(changed + (sig_marker() + seq![NEWLINE] + b + seq![NEWLINE] + end_marker() + seq![NEWLINE])
        =~= q + w + seq![NEWLINE] + tail2);
    assert forall|i: int| 0 <= i < w.len() implies w[i] != NEWLINE by {
        if i > 0 {
            assert(w[i] == sig_marker()[i - 1]);
        }
    }
    assert(w.last() == sig_marker().last());
    let (pre, line) = lemma_lines_around(q, w, tail2);
    let ls = lines_of(repr_with(changed, b));
    assert(ls =~= seq![top_marker()] + pre + seq![line] + seq![b, end_marker()]);
    assert(ls[ls.len() - 3] == line);
    assert(line != sig_marker());
    assert(!layout_ok(ls));
}

/// Changing one byte of a carriable payload inside its envelope: reading the
/// result fails, or hands on a payload other than the one signed.
proof fn lemma_tampered(p: Seq<u8>, b: Seq<u8>, k: int, v: u8)
    requires
        carriable(p),
        0 <= k < p.len(),
        v != p[k],
        forall|i: int|
            0 <= i < b.len() ==> #[trigger] b[i] != NEWLINE && b[i] != 45 && b[i] != 0x0d,
    ensures
        envelope_of(repr_with(p.update(k, v), b)) matches Ok(e) ==> e.0 != p,
{
    if k < p.len() - 1 {
        lemma_tampered_inside(p, b, k, v);
    } else {
        lemma_tampered_end(p, b, v);
    }
}

/// Reading the envelope of a carriable payload gives back the payload and
/// the signature, given what base64 text is known to be.
#[verifier::rlimit(40)]
proof fn lemma_reads_back(p: Seq<u8>, s: Seq<u8>)
    requires
        carriable(p),
        signature_shape(s),
        base64_bytes(encode_utf8(base64_text(s))) == Some(s),
        forall|i: int| 0 <= i < base64_text(s).len() ==> is_base64_char(#[trigger] base64_text(s)[i]),
    ensures
        envelope_of(file_repr(p, s)) == Ok::<(Seq<u8>, Seq<u8>), Error>((p, s)),
{
    let b = encode_utf8(base64_text(s));
    lemma_base64_line(base64_text(s));
    lemma_one_line(top_marker());
    lemma_one_line(sig_marker());
    lemma_one_line(b);
    lemma_one_line(end_marker());
    let top = top_marker() + seq![NEWLINE];
    let tail3 = end_marker() + seq![NEWLINE];
    let tail2 = (b + seq![NEWLINE]) + tail3;
    let tail1 = (sig_marker() + seq![NEWLINE]) + tail2;
    let body = p + tail1;
    assert(file_repr(p, s) =~= top + body);
    lemma_lines_concat(b + seq![NEWLINE], tail3);
    lemma_lines_concat(sig_marker() + seq![NEWLINE], tail2);
    lemma_lines_concat(p, tail1);
    lemma_lines_concat(top, body);
    lemma_join_lines_of(p);
    let ls = lines_of(top + body);
    assert(ls =~= seq![top_marker()] + lines_of(p) + seq![sig_marker(), b, end_marker()]);
    if b == sig_marker() {
        assert(b[6] == 45);
    }
    assert(ls.subrange(1, ls.len() - 3) =~= lines_of(p));
    assert(trim_start(b) == b);
    assert(trim_end(b) == b);
    assert(layout_ok(ls));
}

/// An envelope whose lines after the first hold no signature marker, or hold
/// it twice, or whose payload or signature region is empty, is refused for
/// its layout.
pub proof fn lemma_layout_rejections(t: Seq<u8>)
    ensures
        (forall|i: int| 1 <= i < lines_of(t).len() ==> #[trigger] lines_of(t)[i] != sig_marker())
            ==> envelope_of(t) == Err::<(Seq<u8>, Seq<u8>), Error>(Error::Layout),
        (exists|i: int, j: int|
            1 <= i < j < lines_of(t).len() && #[trigger] lines_of(t)[i] == sig_marker()
                && #[trigger] lines_of(t)[j] == sig_marker()) ==> envelope_of(t) == Err::<
            (Seq<u8>, Seq<u8>),
            Error,
        >(Error::Layout),
        lines_of(t).len() >= 2 && lines_of(t)[1] == sig_marker() ==> envelope_of(t) == Err::<
            (Seq<u8>, Seq<u8>),
            Error,
        >(Error::Layout),
        lines_of(t).len() >= 2 && lines_of(t)[lines_of(t).len() - 2] == sig_marker()
            ==> envelope_of(t) == Err::<(Seq<u8>, Seq<u8>), Error>(Error::Layout),
{
    let ls = lines_of(t);
    let n = ls.len();
    assert(end_marker()[7] != sig_marker()[7]);
    assert(end_marker() != sig_marker());
    if layout_ok(ls) {
        assert(ls[n - 3] == sig_marker());
        assert forall|i: int, j: int|
            1 <= i < j < n && #[trigger] ls[i] == sig_marker() implies #[trigger] ls[j]
            != sig_marker() by {
            if j < n - 3 {
            } else if j == n - 3 {
                assert(ls[i] != sig_marker());
            }
        }
    }
}

/// A signed document: the serialized published identity and a detached
/// signature over exactly those bytes.
#[derive(Debug)]
pub struct PublicFile {
    pub payload: Vec<u8>,
    pub sig: Vec<u8>,
}

impl PublicFile {
    /// Signs `payload` with `keypair`.
    pub fn from_public_info(keypair: &KeyPair, payload: Vec<u8>) -> (r: PublicFile)
        ensures
            r.payload@ == payload@,
            r.sig@ == ed25519_signature(keypair.secret_bytes(), payload@),
            signature_shape(r.sig@),
            ed25519_verifies(keypair.public_bytes(), payload@, r.sig@),
            keypair.public_bytes().len() == 32,
            ed25519_point(keypair.public_bytes()),
    {
        let sig = keypair.sign(payload.as_slice());
        PublicFile { payload, sig }
    }

    /// The envelope text of this document. Reading it back gives the same
    /// payload and signature, whenever the payload is carriable and the
    /// signature well formed.
    pub fn to_file_repr(&self) -> (r: Vec<u8>)
        ensures
            r@ == file_repr(self.payload@, self.sig@),
            carriable(self.payload@) && signature_shape(self.sig@) ==> envelope_of(r@) == Ok::<
                (Seq<u8>, Seq<u8>),
                Error,
            >((self.payload@, self.sig@)),
            carriable(self.payload@) ==> forall|j: int, v: u8|
                16 <= j < 16 + self.payload@.len() && v != r@[j] ==> (envelope_of(
                    #[trigger] r@.update(j, v),
                ) matches Ok(e) ==> e.0 != self.payload@),
    {
        let mut out: Vec<u8> = Vec::new();
        let top = top_marker_bytes();
        let sig = sig_marker_bytes();
        let end = end_marker_bytes();
        push_all(&mut out, top.as_slice());
        out.push(NEWLINE);
        push_all(&mut out, self.payload.as_slice());
        push_all(&mut out, sig.as_slice());
        out.push(NEWLINE);
        let text = base64_encode(self.sig.as_slice());
        push_all(&mut out, text.as_str().as_bytes());
        proof {
            if carriable(self.payload@) && signature_shape(self.sig@) {
                lemma_reads_back(self.payload@, self.sig@);
            }
            let p = self.payload@;
            let b = encode_utf8(base64_text(self.sig@));
            let whole = top_marker() + seq![NEWLINE] + p + sig_marker() + seq![NEWLINE] + b
                + seq![NEWLINE] + end_marker() + seq![NEWLINE];
            if carriable(p) {
                lemma_base64_line(base64_text(self.sig@));
                assert forall|j: int, v: u8|
                    16 <= j < 16 + p.len() && v != whole[j] implies (envelope_of(
                    #[trigger] whole.update(j, v),
                ) matches Ok(e) ==> e.0 != p) by {
                    assert(whole[j] == p[j - 16]);
                    assert(whole.update(j, v) =~= repr_with(p.update(j - 16, v), b));
                    lemma_tampered(p, b, j - 16, v);
                }
            }
        }
        out.push(NEWLINE);
        push_all(&mut out, end.as_slice());
        out.push(NEWLINE);
        assert(out@ =~= file_repr(self.payload@, self.sig@));
        out
    }

    /// Reads an envelope: checks its layout and reads its signature. The
    /// payload is handed back as it was signed.
    pub fn try_from_str(input: &[u8]) -> (r: Result<PublicFile, Error>)
        ensures
            r matches Ok(f) ==> envelope_of(input@) == Ok::<(Seq<u8>, Seq<u8>), Error>(
                (f.payload@, f.sig@),
            ),
            r matches Err(e) ==> envelope_of(input@) == Err::<(Seq<u8>, Seq<u8>), Error>(e),
    {
        let spans = line_spans(input);
        let ghost ls = lines_of(input@);
        let n = spans.len();
        if n < 5 {
            return Err(Error::Layout);
        }
        let top = top_marker_bytes();
        let divider = sig_marker_bytes();
        let end = end_marker_bytes();
        assert(span_holds(input@, spans@[0], ls[0]));
        assert(span_holds(input@, spans@[n - 1], ls[n - 1]));
        assert(span_holds(input@, spans@[n - 2], ls[n - 2]));
        assert(span_holds(input@, spans@[n - 3], ls[n - 3]));
        if !span_is(input, spans[0], top.as_slice()) {
            return Err(Error::Layout);
        }
        if !span_is(input, spans[n - 1], end.as_slice()) {
            return Err(Error::Layout);
        }
        if !span_is(input, spans[n - 3], divider.as_slice()) {
            return Err(Error::Layout);
        }
        if span_is(input, spans[n - 2], divider.as_slice()) {
            return Err(Error::Layout);
        }
        let mut i: usize = 1;
        while i < n - 3
            invariant
                ls == lines_of(input@),
                n == spans@.len(),
                n == ls.len(),
                n >= 5,
                1 <= i <= n - 3,
                divider@ == sig_marker(),
                forall|j: int| 0 <= j < spans@.len() ==> span_holds(input@, #[trigger] spans@[j], ls[j]),
                forall|j: int| 1 <= j < i ==> #[trigger] ls[j] != sig_marker(),
            decreases n - 3 - i,
        {
            assert(span_holds(input@, spans@[i as int], ls[i as int]));
            if span_is(input, spans[i], divider.as_slice()) {
                assert(!layout_ok(ls));
                return Err(Error::Layout);
            }
            i = i + 1;
        }
        assert(layout_ok(ls));
        let (a, b) = trim_span(input, spans[n - 2]);
        let sig = match base64_decode(slice_subrange(input, a, b)) {
            Some(v) => v,
            None => {
                return Err(Error::SignatureDecode);
            },
        };
        if !is_signature_shape(sig.as_slice()) {
            return Err(Error::SignatureDecode);
        }
        let mut payload: Vec<u8> = Vec::new();
        let mut k: usize = 1;
        assert(ls.subrange(1, 1) =~= Seq::<Seq<u8>>::empty());
        while k < n - 3
            invariant
                ls == lines_of(input@),
                n == spans@.len(),
                n == ls.len(),
                n >= 5,
                1 <= k <= n - 3,
                forall|j: int| 0 <= j < spans@.len() ==> span_holds(input@, #[trigger] spans@[j], ls[j]),
                payload@ == join_lines(ls.subrange(1, k as int)),
            decreases n - 3 - k,
        {
            assert(span_holds(input@, spans@[k as int], ls[k as int]));
            push_span(&mut payload, input, spans[k]);
            payload.push(NEWLINE);
            assert(ls.subrange(1, k + 1).drop_last() =~= ls.subrange(1, k as int));
            assert(payload@ =~= join_lines(ls.subrange(1, k + 1)));
            k = k + 1;
        }
        Ok(PublicFile { payload, sig })
    }

    /// Checks a parsed payload against this document: `None` when the payload
    /// did not parse as a published identity; otherwise its public key must
    /// read as a valid key under which the signature checks out.
    pub fn authenticate(&self, parsed: Option<PublishUserInfo>) -> (r: Result<PublishUserInfo, Error>)
        ensures
            parsed is None ==> r == Err::<PublishUserInfo, Error>(Error::PayloadParse),
            parsed matches Some(info) ==> match authenticity(self.payload@, self.sig@, info.pubkey@) {
                Ok(_) => r == Ok::<PublishUserInfo, Error>(info),
                Err(e) => r == Err::<PublishUserInfo, Error>(e),
            },
    {
        let info = match parsed {
            Some(info) => info,
            None => {
                return Err(Error::PayloadParse);
            },
        };
        let key = match base64_decode(info.pubkey.as_str().as_bytes()) {
            Some(k) => k,
            None => {
                return Err(Error::PublicKeyDecode);
            },
        };
        if !public_key_accepted(key.as_slice()) {
            return Err(Error::PublicKeyDecode);
        }
        if !verify_signature(key.as_slice(), self.payload.as_slice(), self.sig.as_slice()) {
            return Err(Error::Verification);
        }
        Ok(info)
    }
}

/// The envelope of `payload` signed with `keypair`. Reading it back gives
/// the payload and its signature, whenever the payload is carriable, and the
/// signature checks out under any text that reads as the pair's public key
/// (such as `KeyPair::public_text`).
pub fn encode(payload: Vec<u8>, keypair: &KeyPair) -> (r: Vec<u8>)
    ensures
        r@ == file_repr(payload@, ed25519_signature(keypair.secret_bytes(), payload@)),
        carriable(payload@) ==> envelope_of(r@) == Ok::<(Seq<u8>, Seq<u8>), Error>(
            (payload@, ed25519_signature(keypair.secret_bytes(), payload@)),
        ),
        forall|key_text: Seq<char>|
            base64_bytes(encode_utf8(key_text)) == Some(keypair.public_bytes()) ==> #[trigger] authenticity(
                payload@,
                ed25519_signature(keypair.secret_bytes(), payload@),
                key_text,
            ) == Ok::<(), Error>(()),
{
    let file = PublicFile::from_public_info(keypair, payload);
    proof {
        assert forall|key_text: Seq<char>|
            base64_bytes(encode_utf8(key_text)) == Some(keypair.public_bytes()) implies #[trigger] authenticity(
                file.payload@,
                file.sig@,
                key_text,
            ) == Ok::<(), Error>(()) by {}
    }
    file.to_file_repr()
}

} // verus!
