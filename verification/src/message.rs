//! Messages whose parts are JSON documents.
//!
//! A `JupyterMessage` is an envelope whose four parts are documents: on the
//! way in each part is parsed, and a part that does not parse counts as the
//! empty object; on the way out each part is printed.

use crate::codec::{
    byte_views, decode, delimiter, encode, lemma_round_trip, DecodeError, Envelope, MessageView,
};
use crate::json::{
    document, json_object, json_of, json_parse, json_parsed, json_print, json_text, JsonView,
};
use serde_json::Value;
use vstd::prelude::*;

verus! {

/// A message: routing identities, header, parent header, metadata and
/// content as documents, and binary buffers.
pub struct JupyterMessage {
    pub identities: Vec<Vec<u8>>,
    pub header: Value,
    pub parent_header: Value,
    pub metadata: Value,
    pub content: Value,
    pub buffers: Vec<Vec<u8>>,
}

/// A message as a value.
#[verifier::ext_equal]
pub struct DocumentsView {
    pub identities: Seq<Seq<u8>>,
    pub header: JsonView,
    pub parent_header: JsonView,
    pub metadata: JsonView,
    pub content: JsonView,
    pub buffers: Seq<Seq<u8>>,
}

impl View for JupyterMessage {
    type V = DocumentsView;

    open spec fn view(&self) -> DocumentsView {
        DocumentsView {
            identities: byte_views(self.identities@),
            header: json_of(self.header),
            parent_header: json_of(self.parent_header),
            metadata: json_of(self.metadata),
            content: json_of(self.content),
            buffers: byte_views(self.buffers@),
        }
    }
}

/// The envelope of a message: every part printed.
pub open spec fn printed(m: DocumentsView) -> MessageView {
    MessageView {
        identities: m.identities,
        header: json_text(m.header),
        parent_header: json_text(m.parent_header),
        metadata: json_text(m.metadata),
        content: json_text(m.content),
        buffers: m.buffers,
    }
}

/// The message in an envelope: every part parsed, with the empty object for
/// a part that does not parse.
pub open spec fn parsed(raw: MessageView) -> DocumentsView {
    DocumentsView {
        identities: raw.identities,
        header: document(raw.header),
        parent_header: document(raw.parent_header),
        metadata: document(raw.metadata),
        content: document(raw.content),
        buffers: raw.buffers,
    }
}

/// Whether a document reads back from its own text.
pub open spec fn reads_back(doc: JsonView) -> bool {
    json_parsed(json_text(doc)) == Some(doc)
}

/// Round trip of a message. A message whose identities hold no delimiter
/// and whose four documents read back from their own text comes back from
/// its frames as it was, under every key.
pub proof fn lemma_message_round_trip(m: DocumentsView, key: Seq<u8>)
    requires
        !m.identities.contains(delimiter()),
        reads_back(m.header),
        reads_back(m.parent_header),
        reads_back(m.metadata),
        reads_back(m.content),
    ensures
        decode(encode(printed(m), key), key) == Ok::<MessageView, DecodeError>(printed(m)),
        parsed(printed(m)) == m,
{
    lemma_round_trip(printed(m), key);
    assert(parsed(printed(m)) =~= m);
}

/// The document that a text stands for: what it parses to, or the empty
/// object if it does not parse.
pub fn document_of(text: &[u8]) -> (v: Value)
    ensures
        json_of(v) == document(text@),
{
    match json_parse(text) {
        Some(v) => v,
        None => json_object(),
    }
}

impl JupyterMessage {
    /// Reads the parts of an envelope. A part that is not JSON reads as the
    /// empty object, so that one bad part does not lose the message.
    pub fn from_envelope(raw: Envelope) -> (m: Self)
        ensures
            m@ == parsed(raw@),
    {
        let header = document_of(raw.header.as_slice());
        let parent_header = document_of(raw.parent_header.as_slice());
        let metadata = document_of(raw.metadata.as_slice());
        let content = document_of(raw.content.as_slice());
        JupyterMessage {
            identities: raw.identities,
            header,
            parent_header,
            metadata,
            content,
            buffers: raw.buffers,
        }
    }

    /// Prints the parts of the message into an envelope.
    pub fn to_envelope(&self) -> (raw: Envelope)
        ensures
            raw@ == printed(self@),
    {
        let mut identities: Vec<Vec<u8>> = Vec::new();
        let mut buffers: Vec<Vec<u8>> = Vec::new();
        crate::codec::push_frames(&mut identities, self.identities.as_slice(), 0);
        crate::codec::push_frames(&mut buffers, self.buffers.as_slice(), 0);
        proof {
            assert(byte_views(self.identities@).skip(0) =~= byte_views(self.identities@));
            assert(byte_views(self.buffers@).skip(0) =~= byte_views(self.buffers@));
            assert(byte_views(identities@) =~= byte_views(self.identities@));
            assert(byte_views(buffers@) =~= byte_views(self.buffers@));
        }
        Envelope {
            identities,
            header: json_print(&self.header),
            parent_header: json_print(&self.parent_header),
            metadata: json_print(&self.metadata),
            content: json_print(&self.content),
            buffers,
        }
    }

    /// Decodes a multipart message: the frames are taken apart and the
    /// signature is checked as for an envelope, then the parts are read.
    pub fn from_frames(frames: &[Vec<u8>], key: &[u8]) -> (r: Result<Self, DecodeError>)
        ensures
            match r {
                Ok(m) => decode(byte_views(frames@), key@) matches Ok(raw) && m@ == parsed(raw),
                Err(e) => decode(byte_views(frames@), key@) == Err::<MessageView, DecodeError>(e),
            },
    {
        match Envelope::from_frames(frames, key) {
            Ok(raw) => Ok(JupyterMessage::from_envelope(raw)),
            Err(e) => Err(e),
        }
    }

    /// Encodes the message as frames: the parts are printed, signed under
    /// `key`, and framed as an envelope.
    pub fn to_frames(&self, key: &[u8]) -> (frames: Vec<Vec<u8>>)
        ensures
            byte_views(frames@) == encode(printed(self@), key@),
    {
        self.to_envelope().to_frames(key)
    }
}

} // verus!
