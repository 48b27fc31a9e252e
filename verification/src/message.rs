//! The message envelope and its wire encoding.
//!
//! A message on the wire is, in this order: one tag byte for the kind of body,
//! the 32 bytes of the sender, a length prefix, that many bytes of UTF-8 text
//! (the name or the chat line), and the 16 bytes of the nonce.

use vstd::prelude::*;
use vstd::utf8::{
    decode_utf8, decode_utf8_encode_utf8, encode_utf8, encode_utf8_decode_utf8,
    encode_utf8_valid_utf8, valid_utf8,
};
use crate::ascii::text_from_utf8;
use crate::identity::{PeerId, ID_LEN};
use crate::wire::{
    copy_range, declared_length, lemma_declared_length_of_prefix, lemma_length_prefix_len,
    lemma_prefix_of_declared_length, length_prefix, push_all, push_length, read_id, read_length,
};

verus! {

/// Tag byte of an identity announcement.
pub const TAG_ABOUT_ME: u8 = 0;

/// Tag byte of a chat line.
pub const TAG_CHAT: u8 = 1;

/// Width in bytes of the nonce.
pub const NONCE_LEN: usize = 16;

/// Bytes of an encoded message that are not text: tag, sender, length prefix, nonce.
pub const FRAME_LEN: usize = 57;

/// Offset of the length prefix in an encoded message.
pub const LEN_AT: usize = 33;

/// Offset of the text in an encoded message.
pub const TEXT_AT: usize = 41;

/// What a peer can say.
#[derive(Clone, Debug, PartialEq, Eq)]
pub enum MessageBody {
    /// The sender announces the name it wants to be shown under.
    AboutMe { from: PeerId, name: String },
    /// A line of chat.
    Chat { from: PeerId, text: String },
}

/// Mathematical value of a [`MessageBody`].
pub enum BodyModel {
    AboutMe { from: Seq<u8>, name: Seq<char> },
    Chat { from: Seq<u8>, text: Seq<char> },
}

impl BodyModel {
    /// The tag byte that announces this kind of body.
    pub open spec fn tag(self) -> u8 {
        match self {
            BodyModel::AboutMe { .. } => TAG_ABOUT_ME,
            BodyModel::Chat { .. } => TAG_CHAT,
        }
    }

    /// The sender's identifier bytes.
    pub open spec fn sender(self) -> Seq<u8> {
        match self {
            BodyModel::AboutMe { from, .. } => from,
            BodyModel::Chat { from, .. } => from,
        }
    }

    /// The text that the body carries: the name or the chat line.
    pub open spec fn text(self) -> Seq<char> {
        match self {
            BodyModel::AboutMe { name, .. } => name,
            BodyModel::Chat { text, .. } => text,
        }
    }

    /// The body of the kind that `tag` announces.
    pub open spec fn of_tag(tag: u8, from: Seq<u8>, text: Seq<char>) -> BodyModel {
        if tag == TAG_ABOUT_ME {
            BodyModel::AboutMe { from, name: text }
        } else {
            BodyModel::Chat { from, text }
        }
    }
}

impl View for MessageBody {
    type V = BodyModel;

    open spec fn view(&self) -> BodyModel {
        match self {
            MessageBody::AboutMe { from, name } => BodyModel::AboutMe { from: from@, name: name@ },
            MessageBody::Chat { from, text } => BodyModel::Chat { from: from@, text: text@ },
        }
    }
}

/// A body together with the nonce that makes its encoding unique.
#[derive(Clone, Debug, PartialEq, Eq)]
pub struct Message {
    pub body: MessageBody,
    pub nonce: [u8; 16],
}

/// Mathematical value of a [`Message`].
pub struct MessageModel {
    pub body: BodyModel,
    pub nonce: Seq<u8>,
}

impl MessageModel {
    /// Holds of the value of every [`Message`]: the sender has 32 bytes, the
    /// nonce 16, and the text's length fits a length prefix.
    pub open spec fn wf(self) -> bool {
        &&& self.body.sender().len() == ID_LEN
        &&& self.nonce.len() == NONCE_LEN
        &&& encode_utf8(self.body.text()).len() <= u64::MAX
    }
}

impl View for Message {
    type V = MessageModel;

    open spec fn view(&self) -> MessageModel {
        MessageModel { body: self.body@, nonce: self.nonce@ }
    }
}

/// Why a payload is not a message.
#[derive(Clone, Copy, Debug, PartialEq, Eq, Structural)]
pub enum MalformedMessageError {
    /// The payload ends before the fields that it announces.
    Truncated,
    /// The first byte names no kind of body.
    UnknownTag,
    /// Bytes are left over behind the nonce.
    TrailingBytes,
    /// The text is not UTF-8.
    InvalidText,
}

impl MalformedMessageError {
    /// The reason in words, as a notification shows it.
    pub open spec fn text(self) -> Seq<char> {
        match self {
            MalformedMessageError::Truncated => "payload is truncated"@,
            MalformedMessageError::UnknownTag => "unknown kind of message"@,
            MalformedMessageError::TrailingBytes => "bytes are left over"@,
            MalformedMessageError::InvalidText => "text is not UTF-8"@,
        }
    }

    /// The reason in words.
    pub fn describe(&self) -> (words: &'static str)
        ensures
            words@ == self.text(),
    {
        match self {
            MalformedMessageError::Truncated => "payload is truncated",
            MalformedMessageError::UnknownTag => "unknown kind of message",
            MalformedMessageError::TrailingBytes => "bytes are left over",
            MalformedMessageError::InvalidText => "text is not UTF-8",
        }
    }
}

/// The bytes that carry `m`.
pub open spec fn encode_message(m: MessageModel) -> Seq<u8> {
    let text = encode_utf8(m.body.text());
    seq![m.body.tag()] + m.body.sender() + length_prefix(text.len()) + text + m.nonce
}

/// The message that `bytes` carry, or why they carry none.
pub open spec fn decode_message(bytes: Seq<u8>) -> Result<MessageModel, MalformedMessageError> {
    let text_end = bytes.len() - NONCE_LEN;
    if bytes.len() == 0 {
        Err(MalformedMessageError::Truncated)
    } else if bytes[0] != TAG_ABOUT_ME && bytes[0] != TAG_CHAT {
        Err(MalformedMessageError::UnknownTag)
    } else if bytes.len() < FRAME_LEN {
        Err(MalformedMessageError::Truncated)
    } else if declared_length(bytes, LEN_AT as int) > bytes.len() - FRAME_LEN {
        Err(MalformedMessageError::Truncated)
    } else if declared_length(bytes, LEN_AT as int) < bytes.len() - FRAME_LEN {
        Err(MalformedMessageError::TrailingBytes)
    } else if !valid_utf8(bytes.subrange(TEXT_AT as int, text_end)) {
        Err(MalformedMessageError::InvalidText)
    } else {
        Ok(
            MessageModel {
                body: BodyModel::of_tag(
                    bytes[0],
                    bytes.subrange(1, LEN_AT as int),
                    decode_utf8(bytes.subrange(TEXT_AT as int, text_end)),
                ),
                nonce: bytes.subrange(text_end, bytes.len() as int),
            },
        )
    }
}

/// Whether `got` is the outcome `want`: the same error, or a message of that value.
pub open spec fn decoded_as(
    got: Result<Message, MalformedMessageError>,
    want: Result<MessageModel, MalformedMessageError>,
) -> bool {
    match want {
        Ok(m) => got is Ok && got->Ok_0@ == m,
        Err(e) => got == Err::<Message, MalformedMessageError>(e),
    }
}

/// Where the fields of an encoded message stand.
proof fn lemma_encoding_layout(m: MessageModel)
    requires
        m.wf(),
    ensures
        ({
            let bytes = encode_message(m);
            let text = encode_utf8(m.body.text());
            &&& bytes.len() == 57 + text.len()
            &&& bytes[0] == m.body.tag()
            &&& bytes.subrange(1, 33) == m.body.sender()
            &&& declared_length(bytes, 33) == text.len()
            &&& bytes.subrange(33, 41) == length_prefix(text.len())
            &&& bytes.subrange(41, bytes.len() - 16) == text
            &&& bytes.subrange(bytes.len() - 16, bytes.len() as int) == m.nonce
        }),
{
    let bytes = encode_message(m);
    let text = encode_utf8(m.body.text());
    let head = seq![m.body.tag()] + m.body.sender();
    lemma_length_prefix_len(text.len());
    lemma_declared_length_of_prefix(head, text.len(), text + m.nonce);
    assert(bytes =~= head + length_prefix(text.len()) + (text + m.nonce));
    assert(bytes.subrange(1, 33) =~= m.body.sender());
    assert(bytes.subrange(33, 41) =~= length_prefix(text.len()));
    assert(bytes.subrange(41, bytes.len() - 16) =~= text);
    assert(bytes.subrange(bytes.len() - 16, bytes.len() as int) =~= m.nonce);
}

/// Decoding undoes encoding: the bytes of a message carry that message, body
/// and nonce.
pub proof fn lemma_message_round_trip(m: MessageModel)
    requires
        m.wf(),
    ensures
        decode_message(encode_message(m)) == Ok::<MessageModel, MalformedMessageError>(m),
{
    lemma_encoding_layout(m);
    encode_utf8_valid_utf8(m.body.text());
    encode_utf8_decode_utf8(m.body.text());
}

/// Only encodings decode: a payload that carries a message is the encoding of
/// that message, so no two payloads carry the same one.
pub proof fn lemma_message_canonical(bytes: Seq<u8>, m: MessageModel)
    requires
        decode_message(bytes) == Ok::<MessageModel, MalformedMessageError>(m),
    ensures
        m.wf(),
        encode_message(m) == bytes,
{
    let text = bytes.subrange(41, bytes.len() - 16);
    decode_utf8_encode_utf8(text);
    lemma_prefix_of_declared_length(bytes, 33);
    assert(encode_utf8(m.body.text()) == text);
    assert(encode_message(m) =~= bytes);
}

/// A payload cut short is refused: every proper prefix of an encoded message
/// decodes to [`MalformedMessageError::Truncated`].
pub proof fn lemma_truncated_message_refused(m: MessageModel, keep: int)
    requires
        m.wf(),
        0 <= keep < encode_message(m).len(),
    ensures
        decode_message(encode_message(m).subrange(0, keep)) == Err::<
            MessageModel,
            MalformedMessageError,
        >(MalformedMessageError::Truncated),
{
    let bytes = encode_message(m);
    let cut = bytes.subrange(0, keep);
    lemma_encoding_layout(m);
    if keep >= 57 {
        assert(cut.subrange(33, 41) =~= bytes.subrange(33, 41));
    }
}

/// A damaged frame is refused: a payload as long as an encoded message, but
/// with a tag that names no kind of body or with another length prefix, is no
/// message.
pub proof fn lemma_damaged_frame_refused(m: MessageModel, damaged: Seq<u8>)
    requires
        m.wf(),
        damaged.len() == encode_message(m).len(),
        (damaged[0] != TAG_ABOUT_ME && damaged[0] != TAG_CHAT) || damaged.subrange(
            LEN_AT as int,
            TEXT_AT as int,
        ) != encode_message(m).subrange(LEN_AT as int, TEXT_AT as int),
    ensures
        decode_message(damaged) is Err,
{
    lemma_encoding_layout(m);
    lemma_prefix_of_declared_length(damaged, 33);
}

/// `rand::random` at the nonce's type: sixteen bytes from the thread's
/// generator. Nothing is promised of their value.
#[verifier::external_body]
fn fresh_nonce() -> (nonce: [u8; 16]) {
    rand::random::<[u8; 16]>()
}

impl MessageBody {
    /// The peer that sent the body.
    pub fn sender(&self) -> (from: &PeerId)
        ensures
            from@ == self@.sender(),
    {
        match self {
            MessageBody::AboutMe { from, .. } => from,
            MessageBody::Chat { from, .. } => from,
        }
    }
}

impl Message {
    /// Wraps `body` with a nonce drawn at random for this message alone.
    pub fn new(body: MessageBody) -> (m: Message)
        ensures
            m.body == body,
    {
        Message::with_nonce(body, fresh_nonce())
    }

    /// Wraps `body` with the nonce given.
    pub fn with_nonce(body: MessageBody, nonce: [u8; 16]) -> (m: Message)
        ensures
            m.body == body,
            m.nonce == nonce,
    {
        Message { body, nonce }
    }

    /// Encodes the message for the wire.
    pub fn to_vec(&self) -> (bytes: Vec<u8>)
        ensures
            bytes@ == encode_message(self@),
            self@.wf(),
            decode_message(bytes@) == Ok::<MessageModel, MalformedMessageError>(self@),
    {
        let mut out: Vec<u8> = Vec::new();
        match &self.body {
            MessageBody::AboutMe { from, name } => {
                out.push(TAG_ABOUT_ME);
                push_all(&mut out, from.as_bytes().as_slice());
                let text = name.as_str().as_bytes();
                push_length(&mut out, text.len());
                push_all(&mut out, text);
            },
            MessageBody::Chat { from, text } => {
                out.push(TAG_CHAT);
                push_all(&mut out, from.as_bytes().as_slice());
                let text = text.as_str().as_bytes();
                push_length(&mut out, text.len());
                push_all(&mut out, text);
            },
        }
        push_all(&mut out, self.nonce.as_slice());
        assert(out@ =~= encode_message(self@));
        proof {
            lemma_message_round_trip(self@);
        }
        out
    }

    /// Decodes a payload taken from the wire.
    pub fn from_bytes(bytes: &[u8]) -> (r: Result<Message, MalformedMessageError>)
        ensures
            decoded_as(r, decode_message(bytes@)),
    {
        let n = bytes.len();
        if n == 0 {
            return Err(MalformedMessageError::Truncated);
        }
        let tag = bytes[0];
        if tag != TAG_ABOUT_ME && tag != TAG_CHAT {
            return Err(MalformedMessageError::UnknownTag);
        }
        if n < FRAME_LEN {
            return Err(MalformedMessageError::Truncated);
        }
        let declared = read_length(bytes, LEN_AT);
        let have = (n - FRAME_LEN) as u64;
        if declared > have {
            return Err(MalformedMessageError::Truncated);
        }
        if declared < have {
            return Err(MalformedMessageError::TrailingBytes);
        }
        let from = PeerId::from_bytes(read_id(bytes, 1));
        let nonce_at = n - NONCE_LEN;
        match text_from_utf8(copy_range(bytes, TEXT_AT, nonce_at)) {
            None => Err(MalformedMessageError::InvalidText),
            Some(text) => {
                let mut nonce: [u8; 16] = [0u8; 16];
                let mut i: usize = 0;
                while i < 16
                    invariant
                        i <= 16,
                        nonce_at + 16 == n,
                        n == bytes@.len(),
                        forall|k: int| 0 <= k < i ==> nonce@[k] == bytes@[nonce_at + k],
                    decreases 16 - i,
                {
                    nonce[i] = bytes[nonce_at + i];
                    i += 1;
                }
                assert(nonce@ =~= bytes@.subrange(n - 16, n as int));
                let body = if tag == TAG_ABOUT_ME {
                    MessageBody::AboutMe { from, name: text }
                } else {
                    MessageBody::Chat { from, text }
                };
                Ok(Message { body, nonce })
            },
        }
    }
}

} // verus!
