//! Framing and authentication of messages on the wire.
//!
//! A message travels as a list of frames: the routing identities, a
//! delimiter, a signature, then header, parent header, metadata and content,
//! each as serialized bytes, and any number of binary buffers. The signature
//! is the HMAC-SHA256 of header, parent header, metadata and content, taken
//! one after the other, written in lowercase hexadecimal; with an empty key
//! it is empty and nothing is checked.

use hmac::{Hmac, Mac};
use sha2::Sha256;
use vstd::prelude::*;
use vstd::slice::slice_to_vec;
use vstd::utf8::valid_utf8;

verus! {

/// The HMAC-SHA256 of `message` under `key`: what `hmac::Hmac<sha2::Sha256>`
/// computes. It is a function of the key and the message alone.
pub uninterp spec fn hmac_sha256(key: Seq<u8>, message: Seq<u8>) -> Seq<u8>;

/// Computes a MAC with `hmac::Hmac<sha2::Sha256>`: `new_from_slice` with the
/// key, which accepts a key of any length, one `update` with the message,
/// then `finalize`. The result is the HMAC-SHA256 of the message.
#[verifier::external_body]
fn hmac_sha256_digest(key: &[u8], message: &[u8]) -> (mac: Vec<u8>)
    ensures
        mac@ == hmac_sha256(key@, message@),
{
    let mut mac = Hmac::<Sha256>::new_from_slice(key).expect("HMAC accepts any key size");
    mac.update(message);
    mac.finalize().into_bytes().to_vec()
}

/// The character that writes the hexadecimal digit `n`, in lower case.
pub open spec fn hex_digit(n: int) -> u8 {
    if n < 10 {
        (0x30 + n) as u8
    } else {
        (0x61 + n - 10) as u8
    }
}

/// `data` in lowercase hexadecimal: two digits for each byte, the high half
/// first.
pub open spec fn hex_encoding(data: Seq<u8>) -> Seq<u8> {
    Seq::new(
        2 * data.len(),
        |i: int|
            if i % 2 == 0 {
                hex_digit(data[i / 2] as int / 16)
            } else {
                hex_digit(data[i / 2] as int % 16)
            },
    )
}

/// Writes bytes in hexadecimal with `hex::encode`, which gives two lowercase
/// digits for each byte, and hands the text back as its bytes.
#[verifier::external_body]
fn hex_encode(data: &[u8]) -> (text: Vec<u8>)
    ensures
        text@ == hex_encoding(data@),
{
    hex::encode(data).into_bytes()
}

/// Tests with `std::str::from_utf8` whether bytes are well-formed UTF-8.
#[verifier::external_body]
fn is_utf8(bytes: &[u8]) -> (b: bool)
    ensures
        b == valid_utf8(bytes@),
{
    std::str::from_utf8(bytes).is_ok()
}

/// The frame that parts the routing identities from the message: the bytes
/// of `<IDS|MSG>`.
pub open spec fn delimiter() -> Seq<u8> {
    seq![0x3cu8, 0x49u8, 0x44u8, 0x53u8, 0x7cu8, 0x4du8, 0x53u8, 0x47u8, 0x3eu8]
}

/// A message as a value.
#[verifier::ext_equal]
pub struct MessageView {
    pub identities: Seq<Seq<u8>>,
    pub header: Seq<u8>,
    pub parent_header: Seq<u8>,
    pub metadata: Seq<u8>,
    pub content: Seq<u8>,
    pub buffers: Seq<Seq<u8>>,
}

/// The bytes that the signature covers: header, parent header, metadata and
/// content, one after the other.
pub open spec fn signed_text(m: MessageView) -> Seq<u8> {
    m.header + m.parent_header + m.metadata + m.content
}

/// The signature of a message under `key`: empty for an empty key, else the
/// MAC of the signed text in hexadecimal.
pub open spec fn signature(key: Seq<u8>, m: MessageView) -> Seq<u8> {
    if key.len() == 0 {
        Seq::empty()
    } else {
        hex_encoding(hmac_sha256(key, signed_text(m)))
    }
}

/// The frames of a message that carries the signature `sig`.
pub open spec fn frames_of(m: MessageView, sig: Seq<u8>) -> Seq<Seq<u8>> {
    m.identities + seq![delimiter(), sig, m.header, m.parent_header, m.metadata, m.content]
        + m.buffers
}

/// The frames of a message, signed under `key`.
pub open spec fn encode(m: MessageView, key: Seq<u8>) -> Seq<Seq<u8>> {
    frames_of(m, signature(key, m))
}

/// Index of the first delimiter among `frames`, or `frames.len()` if there
/// is none.
pub open spec fn delimiter_index(frames: Seq<Seq<u8>>) -> nat
    decreases frames.len(),
{
    if frames.len() == 0 || frames[0] == delimiter() {
        0
    } else {
        1 + delimiter_index(frames.drop_first())
    }
}

/// Why frames were not accepted as a message.
#[derive(Debug, Clone, Copy, PartialEq, Eq)]
pub enum DecodeError {
    /// No frame is the delimiter.
    NoDelimiter,
    /// Fewer than five frames follow the delimiter.
    TooFewFrames,
    /// The signature frame is not text.
    SignatureNotText,
    /// The signature is not the one that the key gives for the message.
    SignatureMismatch,
}

impl DecodeError {
    /// Whether the frames were refused for their signature, as opposed to
    /// their shape.
    pub open spec fn is_authentication_failure(self) -> bool {
        self == DecodeError::SignatureMismatch
    }

    /// Tells whether the frames were refused for their signature.
    pub fn authentication_failed(&self) -> (b: bool)
        ensures
            b == self.is_authentication_failure(),
    {
        match self {
            DecodeError::SignatureMismatch => true,
            _ => false,
        }
    }
}

/// The message that stands after the delimiter at index `d`, with the
/// frames before the delimiter as its identities.
pub open spec fn message_at(frames: Seq<Seq<u8>>, d: int) -> MessageView {
    MessageView {
        identities: frames.take(d),
        header: frames[d + 2],
        parent_header: frames[d + 3],
        metadata: frames[d + 4],
        content: frames[d + 5],
        buffers: frames.skip(d + 6),
    }
}

/// Taking frames apart, without the check of the signature: the signature
/// frame and the message, or the reason why the frames have no such shape.
pub open spec fn split(frames: Seq<Seq<u8>>) -> Result<(Seq<u8>, MessageView), DecodeError> {
    let d = delimiter_index(frames) as int;
    if d >= frames.len() {
        Err(DecodeError::NoDelimiter)
    } else if frames.len() - d - 1 < 5 {
        Err(DecodeError::TooFewFrames)
    } else if !valid_utf8(frames[d + 1]) {
        Err(DecodeError::SignatureNotText)
    } else {
        Ok((frames[d + 1], message_at(frames, d)))
    }
}

/// What frames decode to under `key`. Frames of the right shape are a
/// message if the key is empty or the signature frame is the signature that
/// the key gives for the message, and a signature mismatch otherwise.
pub open spec fn decode(frames: Seq<Seq<u8>>, key: Seq<u8>) -> Result<MessageView, DecodeError> {
    match split(frames) {
        Err(e) => Err(e),
        Ok((sig, m)) => if key.len() > 0 && sig != signature(key, m) {
            Err(DecodeError::SignatureMismatch)
        } else {
            Ok(m)
        },
    }
}

/// The views of a sequence of byte vectors, element by element.
pub open spec fn byte_views(v: Seq<Vec<u8>>) -> Seq<Seq<u8>> {
    v.map_values(|b: Vec<u8>| b@)
}

/// A message as it travels: routing identities, the four parts as serialized
/// bytes, and buffers.
pub struct Envelope {
    pub identities: Vec<Vec<u8>>,
    pub header: Vec<u8>,
    pub parent_header: Vec<u8>,
    pub metadata: Vec<u8>,
    pub content: Vec<u8>,
    pub buffers: Vec<Vec<u8>>,
}

impl View for Envelope {
    type V = MessageView;

    open spec fn view(&self) -> MessageView {
        MessageView {
            identities: byte_views(self.identities@),
            header: self.header@,
            parent_header: self.parent_header@,
            metadata: self.metadata@,
            content: self.content@,
            buffers: byte_views(self.buffers@),
        }
    }
}

/// Whether two byte strings are equal.
pub fn bytes_eq(a: &[u8], b: &[u8]) -> (eq: bool)
    ensures
        eq == (a@ == b@),
{
    if a.len() != b.len() {
        return false;
    }
    let mut i: usize = 0;
    while i < a.len()
        invariant
            i <= a.len() == b.len(),
            forall|k: int| 0 <= k < i ==> a@[k] == b@[k],
        decreases a.len() - i,
    {
        if a[i] != b[i] {
            return false;
        }
        i += 1;
    }
    assert(a@ =~= b@);
    true
}

/// The delimiter frame.
pub fn delimiter_frame() -> (d: Vec<u8>)
    ensures
        d@ == delimiter(),
{
    let d = vec![0x3cu8, 0x49u8, 0x44u8, 0x53u8, 0x7cu8, 0x4du8, 0x53u8, 0x47u8, 0x3eu8];
    assert(d@ =~= delimiter());
    d
}

/// Appends copies of the frames `src[from..]` to `out`.
pub(crate) fn push_frames(out: &mut Vec<Vec<u8>>, src: &[Vec<u8>], from: usize)
    requires
        from <= src.len(),
    ensures
        byte_views(final(out)@) == byte_views(old(out)@) + byte_views(src@).skip(from as int),
{
    let mut i: usize = from;
    assert(byte_views(out@) + byte_views(src@).subrange(from as int, from as int) =~= byte_views(
        out@,
    ));
    while i < src.len()
        invariant
            from <= i <= src.len(),
            byte_views(out@) == byte_views(old(out)@) + byte_views(src@).subrange(
                from as int,
                i as int,
            ),
        decreases src.len() - i,
    {
        let frame = slice_to_vec(src[i].as_slice());
        proof {
            assert(byte_views(out@.push(frame)) =~= byte_views(out@).push(frame@));
            assert(byte_views(src@).subrange(from as int, i + 1) =~= byte_views(src@).subrange(
                from as int,
                i as int,
            ).push(src@[i as int]@));
            assert(byte_views(out@).push(frame@) =~= byte_views(old(out)@) + byte_views(
                src@,
            ).subrange(from as int, i + 1));
        }
        out.push(frame);
        i += 1;
    }
    assert(byte_views(src@).subrange(from as int, src.len() as int) =~= byte_views(src@).skip(
        from as int,
    ));
}

/// The delimiter index is the only index that has no delimiter before it and
/// either the delimiter at it or the end of the frames.
pub proof fn lemma_delimiter_index(frames: Seq<Seq<u8>>, k: int)
    requires
        0 <= k <= frames.len(),
        forall|i: int| 0 <= i < k ==> frames[i] != delimiter(),
        k < frames.len() ==> frames[k] == delimiter(),
    ensures
        delimiter_index(frames) == k,
    decreases frames.len(),
{
    if k > 0 {
        let rest = frames.drop_first();
        assert forall|i: int| 0 <= i < k - 1 implies rest[i] != delimiter() by {
            assert(rest[i] == frames[i + 1]);
        }
        lemma_delimiter_index(rest, k - 1);
    }
}

/// No delimiter stands before the delimiter index, and the delimiter stands
/// at it unless it is the end of the frames.
pub proof fn lemma_delimiter_index_bounds(frames: Seq<Seq<u8>>)
    ensures
        delimiter_index(frames) <= frames.len(),
        forall|i: int| 0 <= i < delimiter_index(frames) ==> frames[i] != delimiter(),
        delimiter_index(frames) < frames.len() ==> frames[delimiter_index(frames) as int]
            == delimiter(),
    decreases frames.len(),
{
    if frames.len() == 0 || frames[0] == delimiter() {
    } else {
        let rest = frames.drop_first();
        lemma_delimiter_index_bounds(rest);
        assert forall|i: int| 0 <= i < delimiter_index(frames) implies frames[i]
            != delimiter() by {
            if i > 0 {
                assert(frames[i] == rest[i - 1]);
            }
        }
    }
}

/// Text in hexadecimal is well-formed UTF-8.
pub proof fn lemma_hex_is_text(data: Seq<u8>)
    ensures
        valid_utf8(hex_encoding(data)),
{
    let text = hex_encoding(data);
    assert(valid_utf8(text.subrange(0, 0)));
    assert forall|i: int| 0 <= i < text.len() implies #[trigger] vstd::utf8::is_leading_byte_width_1(
        text[i],
    ) by {
        let v = data[i / 2] as int;
        assert(0 <= v / 16 < 16 && 0 <= v % 16 < 16);
    }
    vstd::utf8::partial_valid_utf8_extend_ascii_block(text, 0, text.len() as int);
    assert(text.subrange(0, text.len() as int) =~= text);
}

/// Different bytes have different hexadecimal text.
pub proof fn lemma_hex_injective(a: Seq<u8>, b: Seq<u8>)
    requires
        hex_encoding(a) == hex_encoding(b),
    ensures
        a == b,
{
    assert(2 * a.len() == hex_encoding(a).len());
    assert(2 * b.len() == hex_encoding(b).len());
    assert forall|j: int| 0 <= j < a.len() implies a[j] == b[j] by {
        let x = a[j] as int;
        let y = b[j] as int;
        assert((2 * j) % 2 == 0 && (2 * j) / 2 == j);
        assert((2 * j + 1) % 2 == 1 && (2 * j + 1) / 2 == j);
        assert(hex_encoding(a)[2 * j] == hex_digit(x / 16));
        assert(hex_encoding(b)[2 * j] == hex_digit(y / 16));
        assert(hex_encoding(a)[2 * j + 1] == hex_digit(x % 16));
        assert(hex_encoding(b)[2 * j + 1] == hex_digit(y % 16));
        assert(0 <= x / 16 < 16 && 0 <= x % 16 < 16);
        assert(0 <= y / 16 < 16 && 0 <= y % 16 < 16);
        assert(x / 16 == y / 16);
        assert(x % 16 == y % 16);
    }
    assert(a =~= b);
}

/// Taking apart the frames of a message whose identities hold no delimiter
/// gives back the signature frame and the message.
pub proof fn lemma_split_frames_of(m: MessageView, sig: Seq<u8>)
    requires
        !m.identities.contains(delimiter()),
        valid_utf8(sig),
    ensures
        split(frames_of(m, sig)) == Ok::<(Seq<u8>, MessageView), DecodeError>((sig, m)),
{
    let frames = frames_of(m, sig);
    let d = m.identities.len() as int;
    assert forall|i: int| 0 <= i < d implies frames[i] != delimiter() by {
        assert(frames[i] == m.identities[i]);
    }
    assert(frames[d] == delimiter());
    lemma_delimiter_index(frames, d);
    assert(frames.take(d) =~= m.identities);
    assert(frames.skip(d + 6) =~= m.buffers);
    assert(message_at(frames, d) =~= m);
}

/// Round trip. Decoding the frames of a message under the key that signed
/// them gives back the message: the same identities, the same bytes of
/// header, parent header, metadata and content, the same buffers, with the
/// signature accepted. This holds for every key, the empty one too, and for
/// every message whose identities hold no frame equal to the delimiter.
pub proof fn lemma_round_trip(m: MessageView, key: Seq<u8>)
    requires
        !m.identities.contains(delimiter()),
    ensures
        decode(encode(m, key), key) == Ok::<MessageView, DecodeError>(m),
{
    let sig = signature(key, m);
    if key.len() == 0 {
        assert(valid_utf8(sig));
    } else {
        lemma_hex_is_text(hmac_sha256(key, signed_text(m)));
    }
    lemma_split_frames_of(m, sig);
}

/// The identities of a decoded message hold no delimiter, so the message
/// can be encoded and decoded again.
pub proof fn lemma_decoded_identities(frames: Seq<Seq<u8>>, key: Seq<u8>)
    requires
        decode(frames, key) is Ok,
    ensures
        !decode(frames, key)->Ok_0.identities.contains(delimiter()),
{
    lemma_delimiter_index_bounds(frames);
    let d = delimiter_index(frames) as int;
    let ids = frames.take(d);
    if ids.contains(delimiter()) {
        let i = choose|i: int| 0 <= i < ids.len() && ids[i] == delimiter();
        assert(frames[i] == ids[i]);
    }
}

/// Decoding, then encoding. Frames that decode under a key that is not
/// empty are the frames of the message they decode to, signed under that
/// key: nothing in them goes unread.
pub proof fn lemma_decode_then_encode(frames: Seq<Seq<u8>>, key: Seq<u8>)
    requires
        key.len() > 0,
        decode(frames, key) is Ok,
    ensures
        encode(decode(frames, key)->Ok_0, key) == frames,
{
    lemma_delimiter_index_bounds(frames);
    let d = delimiter_index(frames) as int;
    let m = message_at(frames, d);
    assert(encode(m, key) =~= frames);
}

/// One of the four signed parts of a message.
pub enum Part {
    Header,
    ParentHeader,
    Metadata,
    Content,
}

/// The bytes of one part of a message.
pub open spec fn part_of(m: MessageView, which: Part) -> Seq<u8> {
    match which {
        Part::Header => m.header,
        Part::ParentHeader => m.parent_header,
        Part::Metadata => m.metadata,
        Part::Content => m.content,
    }
}

/// The message `m` with byte `i` of one part replaced by `b`.
pub open spec fn with_byte(m: MessageView, which: Part, i: int, b: u8) -> MessageView {
    match which {
        Part::Header => MessageView { header: m.header.update(i, b), ..m },
        Part::ParentHeader => MessageView { parent_header: m.parent_header.update(i, b), ..m },
        Part::Metadata => MessageView { metadata: m.metadata.update(i, b), ..m },
        Part::Content => MessageView { content: m.content.update(i, b), ..m },
    }
}

/// A change of one byte in a signed part changes the signed text.
pub proof fn lemma_changed_byte_changes_text(m: MessageView, which: Part, i: int, b: u8)
    requires
        0 <= i < part_of(m, which).len(),
        b != part_of(m, which)[i],
    ensures
        signed_text(with_byte(m, which, i, b)) != signed_text(m),
        signed_text(with_byte(m, which, i, b)).len() == signed_text(m).len(),
{
    let t = with_byte(m, which, i, b);
    let at = match which {
        Part::Header => i,
        Part::ParentHeader => m.header.len() + i,
        Part::Metadata => m.header.len() + m.parent_header.len() + i,
        Part::Content => m.header.len() + m.parent_header.len() + m.metadata.len() + i,
    };
    assert(signed_text(t)[at] == b);
    assert(signed_text(m)[at] == part_of(m, which)[i]);
}

/// A message `t` that travels under the signature of another message `m`
/// is refused whenever its MAC differs from that of `m`.
pub proof fn lemma_changed_text_is_refused(m: MessageView, t: MessageView, key: Seq<u8>)
    requires
        key.len() > 0,
        !t.identities.contains(delimiter()),
        hmac_sha256(key, signed_text(t)) != hmac_sha256(key, signed_text(m)),
    ensures
        decode(frames_of(t, signature(key, m)), key) == Err::<MessageView, DecodeError>(
            DecodeError::SignatureMismatch,
        ),
{
    let sig = signature(key, m);
    lemma_hex_is_text(hmac_sha256(key, signed_text(m)));
    lemma_split_frames_of(t, sig);
    if sig == signature(key, t) {
        lemma_hex_injective(hmac_sha256(key, signed_text(m)), hmac_sha256(key, signed_text(t)));
    }
}

/// Tamper detection. Take the frames of a message signed under a key that
/// is not empty, and change one byte in header, parent header, metadata or
/// content. Decoding under the same key then fails with a signature
/// mismatch, unless the changed text has the very MAC of the text as it was
/// signed.
/// The signed text is changed in every such case.
pub proof fn lemma_tamper_detected(m: MessageView, key: Seq<u8>, which: Part, i: int, b: u8)
    requires
        key.len() > 0,
        !m.identities.contains(delimiter()),
        0 <= i < part_of(m, which).len(),
        b != part_of(m, which)[i],
        hmac_sha256(key, signed_text(with_byte(m, which, i, b))) != hmac_sha256(
            key,
            signed_text(m),
        ),
    ensures
        signed_text(with_byte(m, which, i, b)) != signed_text(m),
        decode(frames_of(with_byte(m, which, i, b), signature(key, m)), key) == Err::<
            MessageView,
            DecodeError,
        >(DecodeError::SignatureMismatch),
{
    lemma_changed_byte_changes_text(m, which, i, b);
    lemma_changed_text_is_refused(m, with_byte(m, which, i, b), key);
}

/// The empty key. A message encoded under the empty key has an empty
/// signature frame, and decoding under the empty key never fails for the
/// signature, whatever the frames hold.
pub proof fn lemma_empty_key(m: MessageView, frames: Seq<Seq<u8>>)
    ensures
        signature(Seq::<u8>::empty(), m) == Seq::<u8>::empty(),
        encode(m, Seq::<u8>::empty())[m.identities.len() as int + 1] == Seq::<u8>::empty(),
        decode(frames, Seq::<u8>::empty()) matches Err(e) ==> !e.is_authentication_failure(),
        split(frames) is Ok ==> decode(frames, Seq::<u8>::empty()) is Ok,
{
}

/// Whether the frame at `index` of a message of `count` frames is sent with
/// the mark that more frames follow: every frame but the last is.
pub fn more_follows(index: usize, count: usize) -> (more: bool)
    requires
        index < count,
    ensures
        more == (index + 1 < count),
{
    index < count - 1
}

/// The signature of a message: empty under an empty key, else the MAC of
/// header, parent header, metadata and content in hexadecimal.
pub fn compute_hmac(
    key: &[u8],
    header: &[u8],
    parent_header: &[u8],
    metadata: &[u8],
    content: &[u8],
) -> (sig: Vec<u8>)
    ensures
        sig@ == if key@.len() == 0 {
            Seq::<u8>::empty()
        } else {
            hex_encoding(hmac_sha256(key@, header@ + parent_header@ + metadata@ + content@))
        },
{
    if key.len() == 0 {
        return Vec::new();
    }
    let mut text: Vec<u8> = slice_to_vec(header);
    let mut part = slice_to_vec(parent_header);
    text.append(&mut part);
    let mut part = slice_to_vec(metadata);
    text.append(&mut part);
    let mut part = slice_to_vec(content);
    text.append(&mut part);
    let mac = hmac_sha256_digest(key, text.as_slice());
    signature_text(mac.as_slice())
}

/// The signature frame for a MAC: the MAC in lowercase hexadecimal.
pub fn signature_text(mac: &[u8]) -> (sig: Vec<u8>)
    ensures
        sig@ == hex_encoding(mac@),
{
    hex_encode(mac)
}

impl Envelope {
    /// The frames of this message with `sig` as its signature frame: the
    /// identities, the delimiter, the signature, header, parent header,
    /// metadata, content, and the buffers.
    pub fn frames_with_signature(&self, sig: Vec<u8>) -> (frames: Vec<Vec<u8>>)
        ensures
            byte_views(frames@) == frames_of(self@, sig@),
    {
        let mut frames: Vec<Vec<u8>> = Vec::new();
        assert(byte_views(frames@) =~= Seq::<Seq<u8>>::empty());
        push_frames(&mut frames, self.identities.as_slice(), 0);
        assert(byte_views(frames@) =~= self@.identities);
        let ghost ids = byte_views(frames@);
        let delim = delimiter_frame();
        let header = slice_to_vec(self.header.as_slice());
        let parent_header = slice_to_vec(self.parent_header.as_slice());
        let metadata = slice_to_vec(self.metadata.as_slice());
        let content = slice_to_vec(self.content.as_slice());
        let ghost fixed = seq![
            delimiter(),
            sig@,
            self.header@,
            self.parent_header@,
            self.metadata@,
            self.content@,
        ];
        frames.push(delim);
        frames.push(sig);
        frames.push(header);
        frames.push(parent_header);
        frames.push(metadata);
        frames.push(content);
        assert(byte_views(frames@) =~= ids + fixed);
        push_frames(&mut frames, self.buffers.as_slice(), 0);
        assert(byte_views(self.buffers@).skip(0) =~= byte_views(self.buffers@));
        frames
    }

    /// Encodes the message as frames, signed under `key`.
    pub fn to_frames(&self, key: &[u8]) -> (frames: Vec<Vec<u8>>)
        ensures
            byte_views(frames@) == encode(self@, key@),
    {
        let sig = compute_hmac(
            key,
            self.header.as_slice(),
            self.parent_header.as_slice(),
            self.metadata.as_slice(),
            self.content.as_slice(),
        );
        self.frames_with_signature(sig)
    }

    /// Takes frames apart into the signature frame and the message, without
    /// checking the signature. Fails if no frame is the delimiter, if fewer
    /// than five frames follow it, or if the signature frame is not text.
    pub fn split_frames(frames: &[Vec<u8>]) -> (r: Result<(Vec<u8>, Envelope), DecodeError>)
        ensures
            match r {
                Ok((sig, m)) => split(byte_views(frames@)) == Ok::<
                    (Seq<u8>, MessageView),
                    DecodeError,
                >((sig@, m@)),
                Err(e) => split(byte_views(frames@)) == Err::<(Seq<u8>, MessageView), DecodeError>(
                    e,
                ),
            },
    {
        let ghost fs = byte_views(frames@);
        let delim = delimiter_frame();
        let n = frames.len();
        let mut d: usize = 0;
        while d < n && !bytes_eq(frames[d].as_slice(), delim.as_slice())
            invariant
                d <= n == frames.len(),
                fs == byte_views(frames@),
                delim@ == delimiter(),
                forall|i: int| 0 <= i < d ==> fs[i] != delimiter(),
            decreases n - d,
        {
            assert(fs[d as int] == frames@[d as int]@);
            d += 1;
        }
        proof {
            if d < n {
                assert(fs[d as int] == frames@[d as int]@);
            }
            lemma_delimiter_index(fs, d as int);
        }
        if d >= n {
            return Err(DecodeError::NoDelimiter);
        }
        if n - d - 1 < 5 {
            return Err(DecodeError::TooFewFrames);
        }
        assert(fs[d + 1] == frames@[d + 1]@);
        if !is_utf8(frames[d + 1].as_slice()) {
            return Err(DecodeError::SignatureNotText);
        }
        let sig = slice_to_vec(frames[d + 1].as_slice());
        let mut identities: Vec<Vec<u8>> = Vec::new();
        let mut i: usize = 0;
        assert(byte_views(identities@) =~= fs.take(0));
        while i < d
            invariant
                i <= d < n == frames.len(),
                fs == byte_views(frames@),
                byte_views(identities@) == fs.take(i as int),
            decreases d - i,
        {
            let frame = slice_to_vec(frames[i].as_slice());
            proof {
                assert(byte_views(identities@.push(frame)) =~= byte_views(identities@).push(
                    frame@,
                ));
                assert(fs.take(i + 1) =~= fs.take(i as int).push(frames@[i as int]@));
            }
            identities.push(frame);
            i += 1;
        }
        let mut buffers: Vec<Vec<u8>> = Vec::new();
        assert(byte_views(buffers@) =~= Seq::<Seq<u8>>::empty());
        push_frames(&mut buffers, frames, d + 6);
        assert(byte_views(buffers@) =~= fs.skip(d + 6));
        let m = Envelope {
            identities,
            header: slice_to_vec(frames[d + 2].as_slice()),
            parent_header: slice_to_vec(frames[d + 3].as_slice()),
            metadata: slice_to_vec(frames[d + 4].as_slice()),
            content: slice_to_vec(frames[d + 5].as_slice()),
            buffers,
        };
        proof {
            assert(fs[d + 2] == frames@[d + 2]@);
            assert(fs[d + 3] == frames@[d + 3]@);
            assert(fs[d + 4] == frames@[d + 4]@);
            assert(fs[d + 5] == frames@[d + 5]@);
            assert(m@ == message_at(fs, d as int));
        }
        Ok((sig, m))
    }

    /// Decodes frames under `key`. Frames without a delimiter, with fewer
    /// than five frames after it, or with a signature frame that is not text
    /// are malformed. With a key that is not empty, the signature frame must
    /// be the signature that the key gives for the four parts, byte for
    /// byte; with an empty key no signature is checked.
    pub fn from_frames(frames: &[Vec<u8>], key: &[u8]) -> (r: Result<Envelope, DecodeError>)
        ensures
            match r {
                Ok(m) => decode(byte_views(frames@), key@) == Ok::<MessageView, DecodeError>(m@),
                Err(e) => decode(byte_views(frames@), key@) == Err::<MessageView, DecodeError>(e),
            },
    {
        match Envelope::split_frames(frames) {
            Err(e) => Err(e),
            Ok((sig, m)) => {
                if key.len() > 0 {
                    let expected = compute_hmac(
                        key,
                        m.header.as_slice(),
                        m.parent_header.as_slice(),
                        m.metadata.as_slice(),
                        m.content.as_slice(),
                    );
                    if !bytes_eq(sig.as_slice(), expected.as_slice()) {
                        return Err(DecodeError::SignatureMismatch);
                    }
                }
                Ok(m)
            },
        }
    }
}

} // verus!
