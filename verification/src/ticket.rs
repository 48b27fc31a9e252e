//! Tickets: the topic and the peers to start from, as bytes and as text.
//!
//! A ticket in bytes is the 32 bytes of the topic, a length prefix that
//! counts the addresses, and then each address in turn: the 32 bytes of the
//! peer, a length prefix, and that many bytes of connection hints. As text it
//! is those bytes in unpadded base 32, written in lower case and read in any
//! case.

use vstd::prelude::*;
use vstd::utf8::encode_utf8;
use crate::ascii::{
    ascii_chars, ascii_lower, ascii_string, ascii_upper, is_ascii_bytes,
    lemma_folded_text_is_same, lemma_same_text_same_bytes, same_text_ignoring_case, text_lower,
    text_upper, to_ascii_lower, to_ascii_upper, upper_char,
};
use crate::base32::{
    base32_bytes, base32_decode, base32_encode, base32_text, encoded_len, is_base32_symbol,
    is_base32_symbols, is_token_char, is_token_text, lemma_symbols_only_from_token_text,
    max_decode_len, max_encode_len,
};
use crate::identity::{AddressModel, PeerAddress, PeerId, TopicId, ID_LEN};
use crate::wire::{
    copy_range, declared_length, lemma_declared_length_of_prefix, lemma_length_prefix_len,
    lemma_prefix_of_declared_length, length_prefix, push_all, push_length, read_id, read_length,
};

verus! {

/// Bytes of an encoded address that are not hints: the peer and the length prefix.
pub const ADDRESS_HEAD: usize = 40;

/// Bytes of an encoded ticket that stand before its addresses: the topic and the count.
pub const TICKET_HEAD: usize = 40;

/// A topic and the addresses of peers that are known to be in it.
#[derive(Clone, Debug, PartialEq, Eq)]
pub struct Ticket {
    pub topic: TopicId,
    pub nodes: Vec<PeerAddress>,
}

/// Mathematical value of a [`Ticket`].
pub struct TicketModel {
    pub topic: Seq<u8>,
    pub nodes: Seq<AddressModel>,
}

/// The values of a run of addresses, in order.
pub open spec fn address_models(nodes: Seq<PeerAddress>) -> Seq<AddressModel> {
    Seq::new(nodes.len(), |i: int| nodes[i]@)
}

impl View for Ticket {
    type V = TicketModel;

    open spec fn view(&self) -> TicketModel {
        TicketModel { topic: self.topic@, nodes: address_models(self.nodes@) }
    }
}

/// Holds of every address in memory: the peer has 32 bytes and the length of
/// the hints fits a length prefix.
pub open spec fn address_wf(a: AddressModel) -> bool {
    &&& a.id.len() == ID_LEN
    &&& a.hints.len() <= u64::MAX
}

/// Holds of every run of addresses in memory.
pub open spec fn addresses_wf(nodes: Seq<AddressModel>) -> bool {
    forall|i: int| 0 <= i < nodes.len() ==> address_wf(#[trigger] nodes[i])
}

impl TicketModel {
    /// Holds of the value of every [`Ticket`]: identifiers have 32 bytes, and
    /// every count and length fits a length prefix.
    pub open spec fn wf(self) -> bool {
        &&& self.topic.len() == ID_LEN
        &&& self.nodes.len() <= u64::MAX
        &&& addresses_wf(self.nodes)
    }
}

/// Why a token or a payload is not a ticket.
#[derive(Clone, Copy, Debug, PartialEq, Eq, Structural)]
pub enum TicketDecodeError {
    /// The text is longer than the base-32 decoder takes.
    TooLong,
    /// The text is not unpadded base 32.
    NotBase32,
    /// The bytes end before the fields that they announce.
    Truncated,
    /// Bytes are left over behind the last address.
    TrailingBytes,
}

/// The bytes that carry one address.
pub open spec fn encode_address(a: AddressModel) -> Seq<u8> {
    a.id + length_prefix(a.hints.len()) + a.hints
}

/// The bytes that carry a run of addresses, one behind the other.
pub open spec fn encode_addresses(nodes: Seq<AddressModel>) -> Seq<u8>
    decreases nodes.len(),
{
    if nodes.len() == 0 {
        Seq::empty()
    } else {
        encode_address(nodes[0]) + encode_addresses(nodes.drop_first())
    }
}

/// The bytes that carry `t`.
pub open spec fn encode_ticket(t: TicketModel) -> Seq<u8> {
    t.topic + length_prefix(t.nodes.len()) + encode_addresses(t.nodes)
}

/// The `count` addresses that `bytes` carry and end with, or why they do not.
pub open spec fn decode_addresses(bytes: Seq<u8>, count: nat) -> Result<
    Seq<AddressModel>,
    TicketDecodeError,
>
    decreases count,
{
    if count == 0 {
        if bytes.len() == 0 {
            Ok(Seq::empty())
        } else {
            Err(TicketDecodeError::TrailingBytes)
        }
    } else if bytes.len() < ADDRESS_HEAD {
        Err(TicketDecodeError::Truncated)
    } else if declared_length(bytes, ID_LEN as int) > bytes.len() - ADDRESS_HEAD {
        Err(TicketDecodeError::Truncated)
    } else {
        let hints_end = ADDRESS_HEAD + declared_length(bytes, ID_LEN as int);
        let first = AddressModel {
            id: bytes.subrange(0, ID_LEN as int),
            hints: bytes.subrange(ADDRESS_HEAD as int, hints_end),
        };
        match decode_addresses(bytes.subrange(hints_end, bytes.len() as int), (count - 1) as nat) {
            Ok(rest) => Ok(seq![first] + rest),
            Err(e) => Err(e),
        }
    }
}

/// The ticket that `bytes` carry, or why they carry none.
pub open spec fn decode_ticket(bytes: Seq<u8>) -> Result<TicketModel, TicketDecodeError> {
    if bytes.len() < TICKET_HEAD {
        Err(TicketDecodeError::Truncated)
    } else {
        match decode_addresses(
            bytes.subrange(TICKET_HEAD as int, bytes.len() as int),
            declared_length(bytes, ID_LEN as int),
        ) {
            Ok(nodes) => Ok(TicketModel { topic: bytes.subrange(0, ID_LEN as int), nodes }),
            Err(e) => Err(e),
        }
    }
}

/// The token for `t`: its bytes in unpadded base 32, in lower case.
pub open spec fn ticket_token(t: TicketModel) -> Seq<char> {
    ascii_chars(ascii_lower(base32_text(encode_ticket(t))))
}

/// The ticket that the token `text` stands for. A text longer than the
/// decoder takes, or with a character that is no letter and no digit from 2
/// to 7, is refused; any other is read in upper case, taken out of base 32
/// and decoded.
pub open spec fn parse_token(text: Seq<char>) -> Result<TicketModel, TicketDecodeError> {
    if encode_utf8(text).len() > max_decode_len() {
        Err(TicketDecodeError::TooLong)
    } else if !is_token_text(text) {
        Err(TicketDecodeError::NotBase32)
    } else {
        match base32_bytes(ascii_upper(encode_utf8(text))) {
            Some(bytes) => decode_ticket(bytes),
            None => Err(TicketDecodeError::NotBase32),
        }
    }
}

/// Whether `c` stands in the tokens that are written: a lower-case letter or
/// a digit from 2 to 7.
pub open spec fn is_written_token_char(c: char) -> bool {
    ('a' <= c <= 'z') || ('2' <= c <= '7')
}

/// Encoding one more address appends its bytes.
pub proof fn lemma_encode_addresses_push(nodes: Seq<AddressModel>, last: AddressModel)
    ensures
        encode_addresses(nodes.push(last)) == encode_addresses(nodes) + encode_address(last),
    decreases nodes.len(),
{
    let all = nodes.push(last);
    if nodes.len() == 0 {
        assert(all.drop_first() =~= Seq::<AddressModel>::empty());
        assert(encode_addresses(all.drop_first()) =~= Seq::<u8>::empty());
        assert(encode_addresses(all) =~= encode_address(last));
        assert(encode_addresses(nodes) + encode_address(last) =~= encode_address(last));
    } else {
        lemma_encode_addresses_push(nodes.drop_first(), last);
        assert(all.drop_first() =~= nodes.drop_first().push(last));
        assert(encode_addresses(all) =~= encode_addresses(nodes) + encode_address(last));
    }
}

/// Decoding undoes encoding, for a run of addresses.
pub proof fn lemma_addresses_round_trip(nodes: Seq<AddressModel>)
    requires
        addresses_wf(nodes),
    ensures
        decode_addresses(encode_addresses(nodes), nodes.len()) == Ok::<
            Seq<AddressModel>,
            TicketDecodeError,
        >(nodes),
    decreases nodes.len(),
{
    if nodes.len() > 0 {
        let first = nodes[0];
        let rest = nodes.drop_first();
        let tail = encode_addresses(rest);
        let bytes = encode_addresses(nodes);
        let n = first.hints.len();
        let end = 40 + n as int;
        assert(address_wf(first));
        assert(addresses_wf(rest)) by {
            assert forall|i: int| 0 <= i < rest.len() implies address_wf(#[trigger] rest[i]) by {
                assert(rest[i] == nodes[i + 1]);
            }
        }
        lemma_addresses_round_trip(rest);
        lemma_length_prefix_len(n);
        lemma_declared_length_of_prefix(first.id, n, first.hints + tail);
        assert(bytes =~= first.id + length_prefix(n) + (first.hints + tail));
        assert(bytes.subrange(0, 32) =~= first.id);
        assert(bytes.subrange(40, end) =~= first.hints);
        assert(bytes.subrange(end, bytes.len() as int) =~= tail);
        assert(seq![first] + rest =~= nodes);
        assert(declared_length(bytes, 32) == n);
        assert(bytes.len() == 40 + n + tail.len());
        let read = AddressModel { id: bytes.subrange(0, 32), hints: bytes.subrange(40, end) };
        assert(read == first);
        assert(decode_addresses(bytes, nodes.len()) == Ok::<Seq<AddressModel>, TicketDecodeError>(
            seq![read] + rest,
        ));
    } else {
        assert(nodes =~= Seq::<AddressModel>::empty());
    }
}

/// Decoding undoes encoding: the bytes of a ticket carry that ticket, its
/// topic and its addresses in their order.
pub proof fn lemma_ticket_round_trip(t: TicketModel)
    requires
        t.wf(),
    ensures
        decode_ticket(encode_ticket(t)) == Ok::<TicketModel, TicketDecodeError>(t),
{
    let bytes = encode_ticket(t);
    let body = encode_addresses(t.nodes);
    lemma_length_prefix_len(t.nodes.len());
    lemma_declared_length_of_prefix(t.topic, t.nodes.len(), body);
    lemma_addresses_round_trip(t.nodes);
    assert(bytes.subrange(0, 32) =~= t.topic);
    assert(bytes.subrange(40, bytes.len() as int) =~= body);
}

/// Only encodings decode, for a run of addresses.
pub proof fn lemma_addresses_canonical(bytes: Seq<u8>, count: nat, nodes: Seq<AddressModel>)
    requires
        decode_addresses(bytes, count) == Ok::<Seq<AddressModel>, TicketDecodeError>(nodes),
    ensures
        nodes.len() == count,
        addresses_wf(nodes),
        encode_addresses(nodes) == bytes,
    decreases count,
{
    if count == 0 {
        assert(bytes =~= Seq::<u8>::empty());
    } else {
        let n = declared_length(bytes, 32) as int;
        let tail = bytes.subrange(40 + n, bytes.len() as int);
        let rest = decode_addresses(tail, (count - 1) as nat)->Ok_0;
        lemma_addresses_canonical(tail, (count - 1) as nat, rest);
        lemma_prefix_of_declared_length(bytes, 32);
        assert(nodes.drop_first() =~= rest);
        assert(addresses_wf(nodes)) by {
            assert forall|i: int| 0 <= i < nodes.len() implies address_wf(#[trigger] nodes[i]) by {
                if i > 0 {
                    assert(nodes[i] == rest[i - 1]);
                }
            }
        }
        assert(encode_addresses(nodes) =~= bytes);
    }
}

/// Only encodings decode: bytes that carry a ticket are the encoding of that
/// ticket, so no two payloads carry the same one.
pub proof fn lemma_ticket_canonical(bytes: Seq<u8>, t: TicketModel)
    requires
        decode_ticket(bytes) == Ok::<TicketModel, TicketDecodeError>(t),
    ensures
        t.wf(),
        encode_ticket(t) == bytes,
{
    let body = bytes.subrange(40, bytes.len() as int);
    lemma_addresses_canonical(body, declared_length(bytes, 32), t.nodes);
    lemma_prefix_of_declared_length(bytes, 32);
    assert(encode_ticket(t) =~= bytes);
}

/// A run of addresses cut short is refused as truncated.
pub proof fn lemma_truncated_addresses_refused(nodes: Seq<AddressModel>, keep: int)
    requires
        addresses_wf(nodes),
        0 <= keep < encode_addresses(nodes).len(),
    ensures
        decode_addresses(encode_addresses(nodes).subrange(0, keep), nodes.len()) == Err::<
            Seq<AddressModel>,
            TicketDecodeError,
        >(TicketDecodeError::Truncated),
    decreases nodes.len(),
{
    let first = nodes[0];
    let rest = nodes.drop_first();
    let tail = encode_addresses(rest);
    let bytes = encode_addresses(nodes);
    let cut = bytes.subrange(0, keep);
    let n = first.hints.len();
    let end = 40 + n as int;
    assert(address_wf(first));
    lemma_length_prefix_len(n);
    lemma_declared_length_of_prefix(first.id, n, first.hints + tail);
    assert(bytes =~= first.id + length_prefix(n) + (first.hints + tail));
    if keep >= 40 {
        assert(cut.subrange(32, 40) =~= bytes.subrange(32, 40));
        if keep >= end {
            assert(addresses_wf(rest)) by {
                assert forall|i: int| 0 <= i < rest.len() implies address_wf(
                    #[trigger] rest[i],
                ) by {
                    assert(rest[i] == nodes[i + 1]);
                }
            }
            assert(bytes.subrange(end, bytes.len() as int) =~= tail);
            assert(cut.subrange(end, cut.len() as int) =~= tail.subrange(0, keep - end));
            lemma_truncated_addresses_refused(rest, keep - end);
        }
    }
}

/// A ticket cut short is refused: every proper prefix of a ticket's bytes
/// decodes to [`TicketDecodeError::Truncated`].
pub proof fn lemma_truncated_ticket_refused(t: TicketModel, keep: int)
    requires
        t.wf(),
        0 <= keep < encode_ticket(t).len(),
    ensures
        decode_ticket(encode_ticket(t).subrange(0, keep)) == Err::<TicketModel, TicketDecodeError>(
            TicketDecodeError::Truncated,
        ),
{
    let bytes = encode_ticket(t);
    let cut = bytes.subrange(0, keep);
    let body = encode_addresses(t.nodes);
    lemma_length_prefix_len(t.nodes.len());
    lemma_declared_length_of_prefix(t.topic, t.nodes.len(), body);
    if keep >= 40 {
        assert(cut.subrange(32, 40) =~= bytes.subrange(32, 40));
        assert(bytes.subrange(40, bytes.len() as int) =~= body);
        assert(cut.subrange(40, cut.len() as int) =~= body.subrange(0, keep - 40));
        lemma_truncated_addresses_refused(t.nodes, keep - 40);
    }
}

/// A token is read in any case: two texts that differ only in the case of
/// their letters stand for the same ticket, or fail alike.
pub proof fn lemma_token_ignores_case(a: Seq<char>, b: Seq<char>)
    requires
        same_text_ignoring_case(a, b),
    ensures
        parse_token(a) == parse_token(b),
{
    lemma_same_text_same_bytes(a, b);
    let folded = ascii_upper(encode_utf8(a));
    assert(encode_utf8(a).len() == folded.len());
    assert(encode_utf8(b).len() == folded.len());
    assert(is_token_text(a) == is_token_text(b)) by {
        assert forall|i: int| 0 <= i < a.len() implies is_token_char(a[i]) == is_token_char(
            b[i],
        ) by {
            assert(upper_char(a[i]) == upper_char(b[i]));
        }
        if is_token_text(a) {
            assert forall|i: int| 0 <= i < b.len() implies is_token_char(#[trigger] b[i]) by {
                assert(is_token_char(a[i]));
            }
        }
        if is_token_text(b) {
            assert forall|i: int| 0 <= i < a.len() implies is_token_char(#[trigger] a[i]) by {
                assert(is_token_char(b[i]));
            }
        }
    }
}

/// A text with a character outside the alphabet is refused: one that is no
/// letter and no digit from 2 to 7, wherever it stands.
pub proof fn lemma_foreign_character_refused(text: Seq<char>, at: int)
    requires
        encode_utf8(text).len() <= max_decode_len(),
        0 <= at < text.len(),
        !is_token_char(text[at]),
    ensures
        parse_token(text) == Err::<TicketModel, TicketDecodeError>(TicketDecodeError::NotBase32),
{
}

/// The upper-case and the lower-case form of a token stand for what the
/// token stands for.
pub proof fn lemma_token_case_folded(text: Seq<char>)
    ensures
        parse_token(text_upper(text)) == parse_token(text),
        parse_token(text_lower(text)) == parse_token(text),
{
    lemma_folded_text_is_same(text);
    lemma_token_ignores_case(text_upper(text), text);
    lemma_token_ignores_case(text_lower(text), text);
}

/// Lower-casing base-32 symbols and upper-casing them again changes nothing,
/// and the lower-case text is made of lower-case letters and the digits from
/// 2 to 7.
pub proof fn lemma_symbols_survive_folding(text: Seq<u8>)
    requires
        is_base32_symbols(text),
    ensures
        ascii_upper(ascii_lower(text)) == text,
        is_ascii_bytes(ascii_lower(text)),
        forall|i: int|
            0 <= i < text.len() ==> is_written_token_char(
                #[trigger] ascii_chars(ascii_lower(text))[i],
            ),
{
    assert(ascii_upper(ascii_lower(text)) =~= text);
    assert forall|i: int| 0 <= i < text.len() implies is_written_token_char(
        #[trigger] ascii_chars(ascii_lower(text))[i],
    ) by {
        assert(is_base32_symbol(text[i]));
    }
}

/// A ticket whose bytes the encoder takes has a token that the decoder takes.
pub proof fn lemma_token_fits_decoder(n: nat)
    requires
        n <= max_encode_len(),
    ensures
        encoded_len(n) <= max_decode_len(),
{
}

/// Whether `got` is the outcome `want`: the same error, or a ticket of that value.
pub open spec fn decoded_as(
    got: Result<Ticket, TicketDecodeError>,
    want: Result<TicketModel, TicketDecodeError>,
) -> bool {
    match want {
        Ok(t) => got is Ok && got->Ok_0@ == t,
        Err(e) => got == Err::<Ticket, TicketDecodeError>(e),
    }
}

/// `acc` followed by what is still to be read, or the error of the rest.
pub open spec fn prepend(
    acc: Seq<AddressModel>,
    rest: Result<Seq<AddressModel>, TicketDecodeError>,
) -> Result<Seq<AddressModel>, TicketDecodeError> {
    match rest {
        Ok(more) => Ok(acc + more),
        Err(e) => Err(e),
    }
}

impl Ticket {
    /// A ticket for `topic` that lists `nodes` as the peers to start from.
    pub fn new(topic: TopicId, nodes: Vec<PeerAddress>) -> (ticket: Ticket)
        ensures
            ticket.topic == topic,
            ticket.nodes == nodes,
    {
        Ticket { topic, nodes }
    }

    /// Encodes the ticket as bytes.
    pub fn to_bytes(&self) -> (bytes: Vec<u8>)
        ensures
            bytes@ == encode_ticket(self@),
            self@.wf(),
            decode_ticket(bytes@) == Ok::<TicketModel, TicketDecodeError>(self@),
    {
        let mut out: Vec<u8> = Vec::new();
        push_all(&mut out, self.topic.as_bytes().as_slice());
        push_length(&mut out, self.nodes.len());
        let ghost head = out@;
        let ghost all = address_models(self.nodes@);
        let mut i: usize = 0;
        assert(all.subrange(0, 0) =~= Seq::<AddressModel>::empty());
        while i < self.nodes.len()
            invariant
                i <= self.nodes@.len(),
                all == address_models(self.nodes@),
                out@ == head + encode_addresses(all.subrange(0, i as int)),
                forall|k: int| 0 <= k < i ==> address_wf(#[trigger] all[k]),
            decreases self.nodes@.len() - i,
        {
            let node = &self.nodes[i];
            push_all(&mut out, node.id.as_bytes().as_slice());
            push_length(&mut out, node.hints.len());
            push_all(&mut out, node.hints.as_slice());
            proof {
                lemma_encode_addresses_push(all.subrange(0, i as int), all[i as int]);
                assert(all.subrange(0, i + 1) =~= all.subrange(0, i as int).push(all[i as int]));
                assert(out@ =~= head + encode_addresses(all.subrange(0, i + 1)));
            }
            i += 1;
        }
        proof {
            assert(all.subrange(0, i as int) =~= all);
            assert(out@ =~= encode_ticket(self@));
            lemma_ticket_round_trip(self@);
        }
        out
    }

    /// Decodes a ticket from bytes.
    pub fn from_bytes(bytes: &[u8]) -> (r: Result<Ticket, TicketDecodeError>)
        ensures
            decoded_as(r, decode_ticket(bytes@)),
    {
        let n = bytes.len();
        if n < TICKET_HEAD {
            return Err(TicketDecodeError::Truncated);
        }
        let topic = TopicId::from_bytes(read_id(bytes, 0));
        let count = read_length(bytes, 32);
        let ghost body = bytes@.subrange(40, n as int);
        let mut nodes: Vec<PeerAddress> = Vec::new();
        let mut at: usize = TICKET_HEAD;
        let mut done: u64 = 0;
        assert(bytes@.subrange(at as int, n as int) == body);
        assert(address_models(nodes@) + Seq::<AddressModel>::empty() =~= Seq::<
            AddressModel,
        >::empty());
        while done < count
            invariant
                n == bytes@.len(),
                40 <= at <= n,
                done <= count,
                count == declared_length(bytes@, 32),
                body == bytes@.subrange(40, n as int),
                decode_addresses(body, count as nat) == prepend(
                    address_models(nodes@),
                    decode_addresses(bytes@.subrange(at as int, n as int), (count - done) as nat),
                ),
            decreases count - done,
        {
            let ghost rest = bytes@.subrange(at as int, n as int);
            if n - at < ADDRESS_HEAD {
                assert(decode_addresses(rest, (count - done) as nat) == Err::<
                    Seq<AddressModel>,
                    TicketDecodeError,
                >(TicketDecodeError::Truncated));
                return Err(TicketDecodeError::Truncated);
            }
            let id = PeerId::from_bytes(read_id(bytes, at));
            let declared = read_length(bytes, at + 32);
            assert(rest.subrange(32, 40) =~= bytes@.subrange(at + 32, at + 40));
            if declared > (n - at - ADDRESS_HEAD) as u64 {
                assert(decode_addresses(rest, (count - done) as nat) == Err::<
                    Seq<AddressModel>,
                    TicketDecodeError,
                >(TicketDecodeError::Truncated));
                return Err(TicketDecodeError::Truncated);
            }
            let from = at + ADDRESS_HEAD;
            let to = from + declared as usize;
            let hints = copy_range(bytes, from, to);
            proof {
                let first = AddressModel { id: id@, hints: hints@ };
                assert(rest.subrange(0, 32) =~= id@);
                assert(rest.subrange(40, 40 + declared) =~= hints@);
                assert(rest.subrange(40 + declared, rest.len() as int) =~= bytes@.subrange(
                    to as int,
                    n as int,
                ));
                let old_models = address_models(nodes@);
                let new_models = address_models(nodes@.push(PeerAddress { id, hints }));
                assert(new_models =~= old_models.push(first));
                let tail = decode_addresses(
                    bytes@.subrange(to as int, n as int),
                    (count - done - 1) as nat,
                );
                if tail is Ok {
                    assert(old_models + (seq![first] + tail->Ok_0) =~= new_models + tail->Ok_0);
                }
            }
            nodes.push(PeerAddress { id, hints });
            at = to;
            done += 1;
        }
        if at != n {
            return Err(TicketDecodeError::TrailingBytes);
        }
        proof {
            assert(bytes@.subrange(at as int, n as int) =~= Seq::<u8>::empty());
            assert(address_models(nodes@) + Seq::<AddressModel>::empty() =~= address_models(
                nodes@,
            ));
        }
        Ok(Ticket { topic, nodes })
    }

    /// The token to hand to those who are to join: the ticket's bytes in
    /// unpadded base 32, in lower case. It is made of lower-case letters and
    /// the digits from 2 to 7, eight characters for every five bytes, and
    /// reading it gives the ticket back.
    pub fn to_text(&self) -> (text: String)
        requires
            encode_ticket(self@).len() <= max_encode_len(),
        ensures
            text@ == ticket_token(self@),
            text@.len() == encoded_len(encode_ticket(self@).len()),
            forall|i: int| 0 <= i < text@.len() ==> is_written_token_char(#[trigger] text@[i]),
            parse_token(text@) == Ok::<TicketModel, TicketDecodeError>(self@),
    {
        let bytes = self.to_bytes();
        let upper = base32_encode(bytes.as_slice());
        let lower = to_ascii_lower(upper.as_slice());
        proof {
            lemma_symbols_survive_folding(upper@);
            lemma_token_fits_decoder(bytes@.len());
        }
        let text = ascii_string(lower);
        proof {
            assert forall|i: int| 0 <= i < text@.len() implies is_token_char(
                #[trigger] text@[i],
            ) && is_written_token_char(text@[i]) by {
                assert(is_written_token_char(ascii_chars(ascii_lower(upper@))[i]));
            }
        }
        text
    }

    /// The token of the ticket, or none where the ticket has more bytes than
    /// the base-32 encoder takes.
    pub fn try_to_text(&self) -> (text: Option<String>)
        ensures
            text is Some <==> encode_ticket(self@).len() <= max_encode_len(),
            text is Some ==> text->Some_0@ == ticket_token(self@),
            text is Some ==> parse_token(text->Some_0@) == Ok::<TicketModel, TicketDecodeError>(
                self@,
            ),
    {
        let bytes = self.to_bytes();
        if bytes.len() > usize::MAX / 512 {
            None
        } else {
            Some(self.to_text())
        }
    }

    /// Reads a token, in whatever case its letters are.
    pub fn from_text(text: &str) -> (r: Result<Ticket, TicketDecodeError>)
        ensures
            decoded_as(r, parse_token(text@)),
    {
        let raw = text.as_bytes();
        if raw.len() > usize::MAX / 8 {
            return Err(TicketDecodeError::TooLong);
        }
        let upper = to_ascii_upper(raw);
        match base32_decode(upper.as_slice()) {
            Ok(bytes) => {
                proof {
                    lemma_symbols_only_from_token_text(text@);
                }
                Ticket::from_bytes(bytes.as_slice())
            },
            Err(_) => Err(TicketDecodeError::NotBase32),
        }
    }
}

impl core::str::FromStr for Ticket {
    type Err = TicketDecodeError;

    /// Reads a token, as [`Ticket::from_text`] does.
    fn from_str(text: &str) -> (r: Result<Ticket, TicketDecodeError>)
        ensures
            decoded_as(r, parse_token(text@)),
    {
        Ticket::from_text(text)
    }
}

} // verus!
