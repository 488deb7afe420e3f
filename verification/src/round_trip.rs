//! What holds between writing a message and reading it back.

use crate::messages::{
    AvailableDocumentsView, DocumentSyncErrorView, DocumentSyncMessageView, DocumentView,
    MessageView, Reason, RequestDocumentView, SyncErrorReasonView, encode_available_documents,
    encode_document, encode_ids, encode_message, encode_reason, encode_request_document,
    encode_sync_error, encode_sync_message, reason_number, reason_of_number,
};
use crate::reader::{
    behind, decode_message, empty_document, empty_reason,
    empty_request_document, empty_sync_error, empty_sync_message, is_variant_tag,
    parse_available_documents, parse_document, parse_message, parse_reason,
    parse_request_document, parse_sync_error, parse_sync_message, take_string,
    take_tag,
};
use crate::wire::{
    DecodeError, delimited, lemma_span_bounds, lemma_take_delimited_of_payload,
    lemma_take_varint32_of_varint, lemma_take_varint64_of_varint, optional_delimited,
    skip_unknown, take_delimited, take_varint32, varint, varint_span, varint_value,
};
use vstd::prelude::*;
use vstd::utf8::{
    decode_utf8, encode_utf8, encode_utf8_decode_utf8, encode_utf8_valid_utf8, valid_utf8,
};

verus! {

/// The length and the payload of a field, and what follows the field.
pub open spec fn field_body(payload: Seq<u8>, rest: Seq<u8>) -> Seq<u8> {
    varint(payload.len()) + payload + rest
}

/// The count of bytes that the length and the payload of a field take.
pub open spec fn field_body_len(payload: Seq<u8>) -> nat {
    (varint(payload.len()).len() + payload.len()) as nat
}

/// A byte below 128 is its own varint.
pub proof fn lemma_take_small(b: u8, rest: Seq<u8>)
    requires
        b < 128,
    ensures
        take_varint32(seq![b] + rest) == Ok::<(u32, nat), DecodeError>((b as u32, 1nat)),
        take_tag(seq![b] + rest) == Ok::<(u32, Seq<u8>), DecodeError>((b as u32, rest)),
{
    let s = seq![b] + rest;
    assert(s[0] == b);
    assert(varint_span(s, 0) == Ok::<nat, DecodeError>(1));
    assert(varint_value(s, 1, 1) == 0);
    assert(varint_value(s, 0, 1) == b as nat);
    assert(behind(s, 1) =~= rest);
}

/// A field of wire type 2 with a one-byte tag and a payload of less than
/// 2^32 bytes is read back as that tag and that payload, and what followed
/// the field is left.
pub proof fn lemma_field(tag: u8, payload: Seq<u8>, rest: Seq<u8>)
    requires
        tag < 128,
        payload.len() < 0x1_0000_0000,
    ensures
        delimited(tag, payload) + rest == seq![tag] + field_body(payload, rest),
        take_tag(delimited(tag, payload) + rest) == Ok::<(u32, Seq<u8>), DecodeError>(
            (tag as u32, field_body(payload, rest)),
        ),
        take_delimited(field_body(payload, rest)) == Ok::<(Seq<u8>, nat), DecodeError>(
            (payload, field_body_len(payload)),
        ),
        behind(field_body(payload, rest), field_body_len(payload)) == rest,
        (delimited(tag, payload) + rest).len() > 0,
{
    let body = field_body(payload, rest);
    assert(delimited(tag, payload) + rest =~= seq![tag] + body);
    lemma_take_small(tag, body);
    lemma_take_delimited_of_payload(payload, rest);
    assert(behind(body, field_body_len(payload)) =~= rest);
}

/// A string comes back from its UTF-8 bytes, and only the empty string has
/// no bytes.
pub proof fn lemma_utf8(text: Seq<char>)
    ensures
        valid_utf8(encode_utf8(text)),
        decode_utf8(encode_utf8(text)) == text,
        encode_utf8(text).len() == 0 ==> text == Seq::<char>::empty(),
{
    encode_utf8_valid_utf8(text);
    encode_utf8_decode_utf8(text);
    if encode_utf8(text).len() == 0 {
        assert(decode_utf8(encode_utf8(text)) =~= Seq::<char>::empty());
    }
}

/// A string field is read back as the string.
pub proof fn lemma_string_field(tag: u8, text: Seq<char>, rest: Seq<u8>)
    requires
        tag < 128,
        encode_utf8(text).len() < 0x1_0000_0000,
    ensures
        take_tag(delimited(tag, encode_utf8(text)) + rest) == Ok::<(u32, Seq<u8>), DecodeError>(
            (tag as u32, field_body(encode_utf8(text), rest)),
        ),
        take_string(field_body(encode_utf8(text), rest)) == Ok::<(Seq<char>, nat), DecodeError>(
            (text, field_body_len(encode_utf8(text))),
        ),
        behind(field_body(encode_utf8(text), rest), field_body_len(encode_utf8(text))) == rest,
        (delimited(tag, encode_utf8(text)) + rest).len() > 0,
{
    lemma_field(tag, encode_utf8(text), rest);
    lemma_utf8(text);
}

/// A sync message is read back from its fields.
pub proof fn lemma_sync_message_round_trip(m: DocumentSyncMessageView)
    requires
        encode_sync_message(m).len() < 0x1_0000_0000,
    ensures
        parse_sync_message(encode_sync_message(m), empty_sync_message()) == Ok::<
            DocumentSyncMessageView,
            DecodeError,
        >(m),
{
    let id_bytes = encode_utf8(m.id);
    let second = optional_delimited(18, m.message);
    let none = Seq::<u8>::empty();
    let with_id = DocumentSyncMessageView { id: m.id, message: Seq::empty() };
    lemma_utf8(m.id);
    assert(parse_sync_message(none, m) == Ok::<DocumentSyncMessageView, DecodeError>(m));
    // the second field, read into a message that has the identifier already
    assert(parse_sync_message(second, with_id) == Ok::<DocumentSyncMessageView, DecodeError>(m))
        by {
        if m.message.len() == 0 {
            assert(m.message =~= Seq::<u8>::empty());
        } else {
            lemma_field(18, m.message, none);
            assert(second =~= delimited(18, m.message) + none);
        }
    }
    if id_bytes.len() == 0 {
        assert(encode_sync_message(m) =~= second);
    } else {
        lemma_string_field(10, m.id, second);
        assert(encode_sync_message(m) =~= delimited(10, id_bytes) + second);
    }
}

/// A reason is read back from its fields.
pub proof fn lemma_reason_round_trip(r: SyncErrorReasonView)
    requires
        encode_reason(r).len() < 0x1_0000_0000,
    ensures
        parse_reason(encode_reason(r), empty_reason()) == Ok::<SyncErrorReasonView, DecodeError>(r),
{
    let text = encode_utf8(r.details);
    let second = optional_delimited(18, text);
    let none = Seq::<u8>::empty();
    let with_kind = SyncErrorReasonView { reason: r.reason, details: Seq::empty() };
    lemma_utf8(r.details);
    assert(parse_reason(none, r) == Ok::<SyncErrorReasonView, DecodeError>(r));
    assert(parse_reason(second, with_kind) == Ok::<SyncErrorReasonView, DecodeError>(r)) by {
        if text.len() != 0 {
            lemma_string_field(18, r.details, none);
            assert(second =~= delimited(18, text) + none);
        }
    }
    if r.reason == Reason::UNKNOWN {
        assert(encode_reason(r) =~= second);
    } else {
        let number = reason_number(r.reason);
        assert(encode_reason(r) =~= seq![8u8] + (seq![number] + second));
        lemma_take_small(8, seq![number] + second);
        lemma_take_small(number, second);
        assert(behind(seq![number] + second, 1) =~= second);
        assert(reason_of_number(number as int) == r.reason);
    }
}

/// An error report is read back from its fields.
pub proof fn lemma_sync_error_round_trip(m: DocumentSyncErrorView)
    requires
        encode_sync_error(m).len() < 0x1_0000_0000,
    ensures
        parse_sync_error(encode_sync_error(m), empty_sync_error()) == Ok::<
            DocumentSyncErrorView,
            DecodeError,
        >(m),
{
    let id_bytes = encode_utf8(m.id);
    let none = Seq::<u8>::empty();
    let second = match m.reason {
        Some(r) => delimited(18, encode_reason(r)),
        None => none,
    };
    let with_id = DocumentSyncErrorView { id: m.id, reason: None };
    lemma_utf8(m.id);
    assert(parse_sync_error(none, m) == Ok::<DocumentSyncErrorView, DecodeError>(m));
    assert(parse_sync_error(second, with_id) == Ok::<DocumentSyncErrorView, DecodeError>(m)) by {
        match m.reason {
            Some(r) => {
                lemma_reason_round_trip(r);
                lemma_field(18, encode_reason(r), none);
                assert(second =~= delimited(18, encode_reason(r)) + none);
            },
            None => {},
        }
    }
    if id_bytes.len() == 0 {
        assert(encode_sync_error(m) =~= second);
    } else {
        lemma_string_field(10, m.id, second);
        assert(encode_sync_error(m) =~= delimited(10, id_bytes) + second);
    }
}

/// The fields of a list of identifiers are read back behind the identifiers
/// that were read before.
pub proof fn lemma_ids_round_trip(ids: Seq<Seq<char>>, acc: Seq<Seq<char>>)
    requires
        encode_ids(ids).len() < 0x1_0000_0000,
    ensures
        parse_available_documents(encode_ids(ids), AvailableDocumentsView { ids: acc }) == Ok::<
            AvailableDocumentsView,
            DecodeError,
        >(AvailableDocumentsView { ids: acc + ids }),
    decreases ids.len(),
{
    if ids.len() == 0 {
        assert(acc + ids =~= acc);
    } else {
        let rest = encode_ids(ids.drop_first());
        lemma_string_field(10, ids[0], rest);
        lemma_ids_round_trip(ids.drop_first(), acc.push(ids[0]));
        assert(acc.push(ids[0]) + ids.drop_first() =~= acc + ids);
    }
}

/// A request for a document is read back from its field.
pub proof fn lemma_request_document_round_trip(m: RequestDocumentView)
    requires
        encode_request_document(m).len() < 0x1_0000_0000,
    ensures
        parse_request_document(encode_request_document(m), empty_request_document()) == Ok::<
            RequestDocumentView,
            DecodeError,
        >(m),
{
    let id_bytes = encode_utf8(m.id);
    let none = Seq::<u8>::empty();
    lemma_utf8(m.id);
    assert(parse_request_document(none, m) == Ok::<RequestDocumentView, DecodeError>(m));
    if id_bytes.len() != 0 {
        lemma_string_field(10, m.id, none);
        assert(encode_request_document(m) =~= delimited(10, id_bytes) + none);
    }
}

/// A document is read back from its fields.
pub proof fn lemma_document_round_trip(m: DocumentView)
    requires
        encode_document(m).len() < 0x1_0000_0000,
    ensures
        parse_document(encode_document(m), empty_document()) == Ok::<DocumentView, DecodeError>(m),
{
    let id_bytes = encode_utf8(m.id);
    let second = optional_delimited(18, m.document);
    let none = Seq::<u8>::empty();
    let with_id = DocumentView { id: m.id, document: Seq::empty() };
    lemma_utf8(m.id);
    assert(parse_document(none, m) == Ok::<DocumentView, DecodeError>(m));
    assert(parse_document(second, with_id) == Ok::<DocumentView, DecodeError>(m)) by {
        if m.document.len() == 0 {
            assert(m.document =~= Seq::<u8>::empty());
        } else {
            lemma_field(18, m.document, none);
            assert(second =~= delimited(18, m.document) + none);
        }
    }
    if id_bytes.len() == 0 {
        assert(encode_document(m) =~= second);
    } else {
        lemma_string_field(10, m.id, second);
        assert(encode_document(m) =~= delimited(10, id_bytes) + second);
    }
}

/// The payload of the one field of an envelope: the fields of the message
/// that the envelope holds. Every other payload in the envelope is a part
/// of it.
pub open spec fn envelope_payload(m: MessageView) -> Seq<u8> {
    match m {
        MessageView::sync_message(x) => encode_sync_message(x),
        MessageView::sync_error(x) => encode_sync_error(x),
        MessageView::available_documents(x) => encode_available_documents(x),
        MessageView::request_available_documents => Seq::<u8>::empty(),
        MessageView::request_document(x) => encode_request_document(x),
        MessageView::document(x) => encode_document(x),
        MessageView::Empty => Seq::<u8>::empty(),
    }
}

/// Whether every length in the envelope can be read back: lengths are read
/// as 32 bits, so the payload of the envelope's field, and with it every
/// payload within, has to be shorter than 2^32 bytes.
pub open spec fn lengths_fit(m: MessageView) -> bool {
    envelope_payload(m).len() < 0x1_0000_0000
}

/// The bytes of an envelope that holds a message, followed by any bytes
/// `rest`, are read as that message and then `rest`: whatever was read
/// before is replaced.
pub proof fn lemma_envelope_then(m: MessageView, rest: Seq<u8>, acc: MessageView)
    requires
        lengths_fit(m),
        m != MessageView::Empty,
    ensures
        parse_message(encode_message(m) + rest, acc) == parse_message(rest, m),
{
    match m {
        MessageView::sync_message(x) => {
            lemma_sync_message_round_trip(x);
            lemma_field(10, encode_sync_message(x), rest);
        },
        MessageView::sync_error(x) => {
            lemma_sync_error_round_trip(x);
            lemma_field(18, encode_sync_error(x), rest);
        },
        MessageView::available_documents(x) => {
            lemma_ids_round_trip(x.ids, Seq::empty());
            assert(Seq::<Seq<char>>::empty() + x.ids =~= x.ids);
            lemma_field(26, encode_available_documents(x), rest);
        },
        MessageView::request_available_documents => {
            lemma_field(34, Seq::<u8>::empty(), rest);
        },
        MessageView::request_document(x) => {
            lemma_request_document_round_trip(x);
            lemma_field(42, encode_request_document(x), rest);
        },
        MessageView::document(x) => {
            lemma_document_round_trip(x);
            lemma_field(50, encode_document(x), rest);
        },
        MessageView::Empty => {},
    }
}

/// Round trip: every envelope whose lengths fit is read back from its
/// bytes as it was, the envelope that holds no message and messages with
/// empty fields included.
pub proof fn lemma_decode_encode(m: MessageView)
    requires
        lengths_fit(m),
    ensures
        decode_message(encode_message(m)) == Ok::<MessageView, DecodeError>(m),
{
    let none = Seq::<u8>::empty();
    assert(parse_message(none, m) == Ok::<MessageView, DecodeError>(m));
    if m != MessageView::Empty {
        lemma_envelope_then(m, none, MessageView::Empty);
        assert(encode_message(m) + none =~= encode_message(m));
    }
}

/// A varint that ends within `s` is the same varint when bytes follow `s`.
pub proof fn lemma_span_with_suffix(s: Seq<u8>, rest: Seq<u8>, i: nat)
    ensures
        varint_span(s, i) matches Ok(n) ==> varint_span(s + rest, i) == Ok::<nat, DecodeError>(n),
    decreases 10 - i,
{
    if i < 10 && i < s.len() {
        assert((s + rest)[i as int] == s[i as int]);
        if s[i as int] >= 128 {
            lemma_span_with_suffix(s, rest, i + 1);
        }
    }
}

/// The bytes of `s` spell the same number when bytes follow `s`.
pub proof fn lemma_value_with_suffix(s: Seq<u8>, rest: Seq<u8>, i: nat, n: nat)
    requires
        n <= s.len(),
    ensures
        varint_value(s + rest, i, n) == varint_value(s, i, n),
    decreases n - i,
{
    if i < n {
        assert((s + rest)[i as int] == s[i as int]);
        lemma_value_with_suffix(s, rest, i + 1, n);
    }
}

/// A value that fills `value` exactly is passed over in the same way when
/// bytes follow it.
pub proof fn lemma_skip_with_suffix(tag: u32, value: Seq<u8>, rest: Seq<u8>)
    requires
        skip_unknown(tag, value) == Ok::<nat, DecodeError>(value.len()),
    ensures
        skip_unknown(tag, value + rest) == Ok::<nat, DecodeError>(value.len()),
        behind(value + rest, value.len()) == rest,
{
    assert(behind(value + rest, value.len()) =~= rest);
    let wire_type = tag % 8;
    if wire_type == 0 {
        lemma_span_with_suffix(value, rest, 0);
    } else if wire_type == 2 {
        lemma_span_bounds(value, 0);
        lemma_span_with_suffix(value, rest, 0);
        let n = varint_span(value, 0)->Ok_0;
        lemma_value_with_suffix(value, rest, 0, n);
    }
}

/// Whether `value` is exactly one value of the wire type of `tag`, and `tag`
/// none of the six tags of an envelope: the bytes `varint(tag) + value` are
/// then a field that an envelope does not know.
pub open spec fn is_unknown_field(tag: u32, value: Seq<u8>) -> bool {
    !is_variant_tag(tag) && skip_unknown(tag, value) == Ok::<nat, DecodeError>(value.len())
}

/// A field that an envelope does not know is passed over: what was read
/// before it stays, and reading goes on behind it.
pub proof fn lemma_unknown_field_passed_over(
    tag: u32,
    value: Seq<u8>,
    rest: Seq<u8>,
    acc: MessageView,
)
    requires
        is_unknown_field(tag, value),
    ensures
        parse_message(varint(tag as nat) + value + rest, acc) == parse_message(rest, acc),
{
    let s = varint(tag as nat) + value + rest;
    assert(s =~= varint(tag as nat) + (value + rest));
    lemma_take_varint32_of_varint(tag as nat, value + rest);
    assert(behind(s, varint(tag as nat).len()) =~= value + rest);
    lemma_skip_with_suffix(tag, value, rest);
}

/// Forward compatibility: an envelope with a field that it does not know,
/// before or behind the field of its message, is read as the envelope
/// without that field.
pub proof fn lemma_unknown_field_ignored(m: MessageView, tag: u32, value: Seq<u8>)
    requires
        lengths_fit(m),
        is_unknown_field(tag, value),
    ensures
        decode_message(encode_message(m) + (varint(tag as nat) + value)) == Ok::<
            MessageView,
            DecodeError,
        >(m),
        decode_message(varint(tag as nat) + value + encode_message(m)) == Ok::<
            MessageView,
            DecodeError,
        >(m),
{
    let none = Seq::<u8>::empty();
    let field = varint(tag as nat) + value;
    lemma_decode_encode(m);
    lemma_unknown_field_passed_over(tag, value, encode_message(m), MessageView::Empty);
    lemma_unknown_field_passed_over(tag, value, none, m);
    assert(field + none =~= field);
    assert(parse_message(none, m) == Ok::<MessageView, DecodeError>(m));
    if m != MessageView::Empty {
        lemma_envelope_then(m, field, MessageView::Empty);
    } else {
        assert(encode_message(m) + field =~= field);
    }
}

/// The fields that an envelope passes over: under a tag that is none of
/// the six, a varint, eight bytes, four bytes, or a length and as many
/// bytes as it says.
pub proof fn lemma_unknown_fields(tag: u32, number: u64, bytes: Seq<u8>)
    requires
        !is_variant_tag(tag),
        bytes.len() < 0x1_0000_0000_0000_0000,
    ensures
        tag % 8 == 0 ==> is_unknown_field(tag, varint(number as nat)),
        tag % 8 == 1 && bytes.len() == 8 ==> is_unknown_field(tag, bytes),
        tag % 8 == 5 && bytes.len() == 4 ==> is_unknown_field(tag, bytes),
        tag % 8 == 2 ==> is_unknown_field(tag, varint(bytes.len()) + bytes),
{
    let none = Seq::<u8>::empty();
    lemma_take_varint64_of_varint(number as nat, none);
    assert(varint(number as nat) + none =~= varint(number as nat));
    lemma_take_varint64_of_varint(bytes.len(), bytes);
}

} // verus!
