//! Reading the messages of the sync protocol back from their bytes.

use crate::messages::{
    AvailableDocuments, AvailableDocumentsView, Document, DocumentSyncError, DocumentSyncErrorView,
    DocumentSyncMessage, DocumentSyncMessageView, DocumentView, Message, MessageView, OneOfmsg,
    Reason, RequestAvailableDocuments, RequestDocument, RequestDocumentView, SyncErrorReason,
    SyncErrorReasonView, reason_of_number,
};
use crate::wire::{
    DecodeError, lemma_span_bounds, read_delimited, read_unknown, read_varint32, skip_unknown,
    take_delimited, take_varint32,
};
use vstd::prelude::*;
use vstd::slice::slice_subrange;
use vstd::slice::slice_to_vec;
use vstd::utf8::{decode_utf8, valid_utf8};

verus! {

/// The string in the length-delimited field at the head of `s`, and the
/// count of bytes that the field takes.
pub open spec fn take_string(s: Seq<u8>) -> Result<(Seq<char>, nat), DecodeError> {
    match take_delimited(s) {
        Err(e) => Err(e),
        Ok((payload, n)) => if valid_utf8(payload) {
            Ok((decode_utf8(payload), n))
        } else {
            Err(DecodeError::Utf8)
        },
    }
}

/// What reading the value of a field leaves of `s`: the bytes behind the
/// first `n`.
pub open spec fn behind(s: Seq<u8>, n: nat) -> Seq<u8> {
    s.subrange(n as int, s.len() as int)
}

/// The tag at the head of `s` and the bytes behind it.
pub open spec fn take_tag(s: Seq<u8>) -> Result<(u32, Seq<u8>), DecodeError> {
    match take_varint32(s) {
        Err(e) => Err(e),
        Ok((tag, n)) => Ok((tag, behind(s, n))),
    }
}

/// A tag takes at least one byte.
pub proof fn lemma_take_tag_shrinks(s: Seq<u8>)
    ensures
        take_tag(s) matches Ok((_, rest)) ==> rest.len() < s.len(),
{
    lemma_span_bounds(s, 0);
}

/// What is left behind a value is no longer than what the value was read
/// from.
pub proof fn lemma_values_fit(tag: u32, s: Seq<u8>)
    ensures
        take_varint32(s) matches Ok((_, n)) ==> n <= s.len(),
        take_delimited(s) matches Ok((_, n)) ==> n <= s.len(),
        take_string(s) matches Ok((_, n)) ==> n <= s.len(),
        skip_unknown(tag, s) matches Ok(n) ==> n <= s.len(),
{
    lemma_span_bounds(s, 0);
}

pub open spec fn empty_sync_message() -> DocumentSyncMessageView {
    DocumentSyncMessageView { id: Seq::empty(), message: Seq::empty() }
}

pub open spec fn empty_reason() -> SyncErrorReasonView {
    SyncErrorReasonView { reason: Reason::UNKNOWN, details: Seq::empty() }
}

pub open spec fn empty_sync_error() -> DocumentSyncErrorView {
    DocumentSyncErrorView { id: Seq::empty(), reason: None }
}

pub open spec fn empty_available_documents() -> AvailableDocumentsView {
    AvailableDocumentsView { ids: Seq::empty() }
}

pub open spec fn empty_request_document() -> RequestDocumentView {
    RequestDocumentView { id: Seq::empty() }
}

pub open spec fn empty_document() -> DocumentView {
    DocumentView { id: Seq::empty(), document: Seq::empty() }
}

/// Reads the fields in `s` one after another into `acc`: field 1 is the
/// identifier, field 2 the payload, a later one of either replaces an
/// earlier, and any other field is passed over.
pub open spec fn parse_sync_message(s: Seq<u8>, acc: DocumentSyncMessageView) -> Result<
    DocumentSyncMessageView,
    DecodeError,
>
    decreases s.len(),
{
    if s.len() == 0 {
        Ok(acc)
    } else {
        match take_tag(s) {
            Err(e) => Err(e),
            Ok((tag, rest)) => {
                proof {
                    lemma_take_tag_shrinks(s);
                    lemma_values_fit(tag, rest);
                }
                if tag == 10 {
                    match take_string(rest) {
                        Err(e) => Err(e),
                        Ok((id, n)) => parse_sync_message(
                            behind(rest, n),
                            DocumentSyncMessageView { id, message: acc.message },
                        ),
                    }
                } else if tag == 18 {
                    match take_delimited(rest) {
                        Err(e) => Err(e),
                        Ok((message, n)) => parse_sync_message(
                            behind(rest, n),
                            DocumentSyncMessageView { id: acc.id, message },
                        ),
                    }
                } else {
                    match skip_unknown(tag, rest) {
                        Err(e) => Err(e),
                        Ok(n) => parse_sync_message(behind(rest, n), acc),
                    }
                }
            },
        }
    }
}

/// Reads the fields in `s` one after another into `acc`: field 1, a varint,
/// is the kind of failure, field 2 the free text.
pub open spec fn parse_reason(s: Seq<u8>, acc: SyncErrorReasonView) -> Result<
    SyncErrorReasonView,
    DecodeError,
>
    decreases s.len(),
{
    if s.len() == 0 {
        Ok(acc)
    } else {
        match take_tag(s) {
            Err(e) => Err(e),
            Ok((tag, rest)) => {
                proof {
                    lemma_take_tag_shrinks(s);
                    lemma_values_fit(tag, rest);
                }
                if tag == 8 {
                    match take_varint32(rest) {
                        Err(e) => Err(e),
                        Ok((number, n)) => parse_reason(
                            behind(rest, n),
                            SyncErrorReasonView {
                                reason: reason_of_number(number as int),
                                details: acc.details,
                            },
                        ),
                    }
                } else if tag == 18 {
                    match take_string(rest) {
                        Err(e) => Err(e),
                        Ok((details, n)) => parse_reason(
                            behind(rest, n),
                            SyncErrorReasonView { reason: acc.reason, details },
                        ),
                    }
                } else {
                    match skip_unknown(tag, rest) {
                        Err(e) => Err(e),
                        Ok(n) => parse_reason(behind(rest, n), acc),
                    }
                }
            },
        }
    }
}

/// Reads the fields in `s` one after another into `acc`: field 1 is the
/// identifier, field 2 the reason, itself a message.
pub open spec fn parse_sync_error(s: Seq<u8>, acc: DocumentSyncErrorView) -> Result<
    DocumentSyncErrorView,
    DecodeError,
>
    decreases s.len(),
{
    if s.len() == 0 {
        Ok(acc)
    } else {
        match take_tag(s) {
            Err(e) => Err(e),
            Ok((tag, rest)) => {
                proof {
                    lemma_take_tag_shrinks(s);
                    lemma_values_fit(tag, rest);
                }
                if tag == 10 {
                    match take_string(rest) {
                        Err(e) => Err(e),
                        Ok((id, n)) => parse_sync_error(
                            behind(rest, n),
                            DocumentSyncErrorView { id, reason: acc.reason },
                        ),
                    }
                } else if tag == 18 {
                    match take_delimited(rest) {
                        Err(e) => Err(e),
                        Ok((inner, n)) => match parse_reason(inner, empty_reason()) {
                            Err(e) => Err(e),
                            Ok(reason) => parse_sync_error(
                                behind(rest, n),
                                DocumentSyncErrorView { id: acc.id, reason: Some(reason) },
                            ),
                        },
                    }
                } else {
                    match skip_unknown(tag, rest) {
                        Err(e) => Err(e),
                        Ok(n) => parse_sync_error(behind(rest, n), acc),
                    }
                }
            },
        }
    }
}

/// Reads the fields in `s` one after another into `acc`: each field 1 adds
/// an identifier at the end.
pub open spec fn parse_available_documents(s: Seq<u8>, acc: AvailableDocumentsView) -> Result<
    AvailableDocumentsView,
    DecodeError,
>
    decreases s.len(),
{
    if s.len() == 0 {
        Ok(acc)
    } else {
        match take_tag(s) {
            Err(e) => Err(e),
            Ok((tag, rest)) => {
                proof {
                    lemma_take_tag_shrinks(s);
                    lemma_values_fit(tag, rest);
                }
                if tag == 10 {
                    match take_string(rest) {
                        Err(e) => Err(e),
                        Ok((id, n)) => parse_available_documents(
                            behind(rest, n),
                            AvailableDocumentsView { ids: acc.ids.push(id) },
                        ),
                    }
                } else {
                    match skip_unknown(tag, rest) {
                        Err(e) => Err(e),
                        Ok(n) => parse_available_documents(behind(rest, n), acc),
                    }
                }
            },
        }
    }
}

/// Reads the fields in `s` one after another into `acc`: field 1 is the
/// identifier.
pub open spec fn parse_request_document(s: Seq<u8>, acc: RequestDocumentView) -> Result<
    RequestDocumentView,
    DecodeError,
>
    decreases s.len(),
{
    if s.len() == 0 {
        Ok(acc)
    } else {
        match take_tag(s) {
            Err(e) => Err(e),
            Ok((tag, rest)) => {
                proof {
                    lemma_take_tag_shrinks(s);
                    lemma_values_fit(tag, rest);
                }
                if tag == 10 {
                    match take_string(rest) {
                        Err(e) => Err(e),
                        Ok((id, n)) => parse_request_document(
                            behind(rest, n),
                            RequestDocumentView { id },
                        ),
                    }
                } else {
                    match skip_unknown(tag, rest) {
                        Err(e) => Err(e),
                        Ok(n) => parse_request_document(behind(rest, n), acc),
                    }
                }
            },
        }
    }
}

/// Reads the fields in `s` one after another into `acc`: field 1 is the
/// identifier, field 2 the document's bytes.
pub open spec fn parse_document(s: Seq<u8>, acc: DocumentView) -> Result<DocumentView, DecodeError>
    decreases s.len(),
{
    if s.len() == 0 {
        Ok(acc)
    } else {
        match take_tag(s) {
            Err(e) => Err(e),
            Ok((tag, rest)) => {
                proof {
                    lemma_take_tag_shrinks(s);
                    lemma_values_fit(tag, rest);
                }
                if tag == 10 {
                    match take_string(rest) {
                        Err(e) => Err(e),
                        Ok((id, n)) => parse_document(
                            behind(rest, n),
                            DocumentView { id, document: acc.document },
                        ),
                    }
                } else if tag == 18 {
                    match take_delimited(rest) {
                        Err(e) => Err(e),
                        Ok((document, n)) => parse_document(
                            behind(rest, n),
                            DocumentView { id: acc.id, document },
                        ),
                    }
                } else {
                    match skip_unknown(tag, rest) {
                        Err(e) => Err(e),
                        Ok(n) => parse_document(behind(rest, n), acc),
                    }
                }
            },
        }
    }
}

/// The message in the field with tag `tag` of an envelope, read from the
/// field's payload. Only called with one of the six tags of an envelope.
pub open spec fn parse_variant(tag: u32, inner: Seq<u8>) -> Result<MessageView, DecodeError> {
    if tag == 10 {
        match parse_sync_message(inner, empty_sync_message()) {
            Err(e) => Err(e),
            Ok(m) => Ok(MessageView::sync_message(m)),
        }
    } else if tag == 18 {
        match parse_sync_error(inner, empty_sync_error()) {
            Err(e) => Err(e),
            Ok(m) => Ok(MessageView::sync_error(m)),
        }
    } else if tag == 26 {
        match parse_available_documents(inner, empty_available_documents()) {
            Err(e) => Err(e),
            Ok(m) => Ok(MessageView::available_documents(m)),
        }
    } else if tag == 34 {
        Ok(MessageView::request_available_documents)
    } else if tag == 42 {
        match parse_request_document(inner, empty_request_document()) {
            Err(e) => Err(e),
            Ok(m) => Ok(MessageView::request_document(m)),
        }
    } else {
        match parse_document(inner, empty_document()) {
            Err(e) => Err(e),
            Ok(m) => Ok(MessageView::document(m)),
        }
    }
}

/// Whether `tag` is one of the six tags of an envelope: the fields 1 to 6,
/// each of wire type 2.
pub open spec fn is_variant_tag(tag: u32) -> bool {
    tag == 10 || tag == 18 || tag == 26 || tag == 34 || tag == 42 || tag == 50
}

/// Reads the fields in `s` one after another: each of the six tags of an
/// envelope replaces `acc` by the message in its field, and any other field
/// is passed over. What is left at the end is the message of the tag that
/// came last, or `acc` where none came.
pub open spec fn parse_message(s: Seq<u8>, acc: MessageView) -> Result<MessageView, DecodeError>
    decreases s.len(),
{
    if s.len() == 0 {
        Ok(acc)
    } else {
        match take_tag(s) {
            Err(e) => Err(e),
            Ok((tag, rest)) => {
                proof {
                    lemma_take_tag_shrinks(s);
                    lemma_values_fit(tag, rest);
                }
                if is_variant_tag(tag) {
                    match take_delimited(rest) {
                        Err(e) => Err(e),
                        Ok((inner, n)) => match parse_variant(tag, inner) {
                            Err(e) => Err(e),
                            Ok(m) => parse_message(behind(rest, n), m),
                        },
                    }
                } else {
                    match skip_unknown(tag, rest) {
                        Err(e) => Err(e),
                        Ok(n) => parse_message(behind(rest, n), acc),
                    }
                }
            },
        }
    }
}

/// The envelope that the bytes `s` hold, or why they hold none.
pub open spec fn decode_message(s: Seq<u8>) -> Result<MessageView, DecodeError> {
    parse_message(s, MessageView::Empty)
}

/// Whether reading gave a value with the view that the format asks for, or
/// the error that it asks for.
pub open spec fn reads_as<T: View>(r: Result<T, DecodeError>, wanted: Result<T::V, DecodeError>)
    -> bool {
    match wanted {
        Ok(v) => r matches Ok(m) && m@ == v,
        Err(e) => r matches Err(x) && x == e,
    }
}

/// Checks with `core::str::from_utf8` that the bytes are UTF-8 and hands them
/// out as a string. The contract claims that the call succeeds exactly on
/// valid UTF-8 and that the string has the characters that the bytes spell.
#[verifier::external_body]
fn str_from_utf8(bytes: &[u8]) -> (r: Option<&str>)
    ensures
        match r {
            Some(s) => valid_utf8(bytes@) && s@ == decode_utf8(bytes@),
            None => !valid_utf8(bytes@),
        },
{
    core::str::from_utf8(bytes).ok()
}

/// The bytes of `s` behind the first `n`.
fn advance(s: &[u8], n: usize) -> (r: &[u8])
    requires
        n <= s@.len(),
    ensures
        r@ == behind(s@, n as nat),
{
    slice_subrange(s, n, s.len())
}

/// Reads the tag at the head of `s` and hands out the bytes behind it.
fn read_tag(s: &[u8]) -> (r: Result<(u32, &[u8]), DecodeError>)
    ensures
        match take_tag(s@) {
            Ok((tag, rest)) => r matches Ok((t, b)) && t == tag && b@ == rest && rest.len()
                < s@.len(),
            Err(e) => r matches Err(x) && x == e,
        },
{
    match read_varint32(s) {
        Err(e) => Err(e),
        Ok((tag, n)) => Ok((tag, advance(s, n))),
    }
}

/// Reads the string in the length-delimited field at the head of `s`.
fn read_string(s: &[u8]) -> (r: Result<(String, usize), DecodeError>)
    ensures
        match take_string(s@) {
            Ok((text, n)) => r matches Ok((t, m)) && t@ == text && m == n && n <= s@.len(),
            Err(e) => r matches Err(x) && x == e,
        },
{
    match read_delimited(s) {
        Err(e) => Err(e),
        Ok((payload, n)) => match str_from_utf8(payload) {
            Some(text) => Ok((text.to_owned(), n)),
            None => Err(DecodeError::Utf8),
        },
    }
}

impl DocumentSyncMessage {
    /// Reads the message that the bytes hold.
    pub fn from_reader(bytes: &[u8]) -> (r: Result<DocumentSyncMessage, DecodeError>)
        ensures
            reads_as(r, parse_sync_message(bytes@, empty_sync_message())),
    {
        let mut acc = DocumentSyncMessage { id: String::new(), message: Vec::new() };
        let mut rest: &[u8] = bytes;
        while rest.len() > 0
            invariant
                parse_sync_message(bytes@, empty_sync_message()) == parse_sync_message(
                    rest@,
                    acc@,
                ),
            decreases rest@.len(),
        {
            let (tag, after) = match read_tag(rest) {
                Err(e) => {
                    return Err(e);
                },
                Ok(x) => x,
            };
            if tag == 10 {
                match read_string(after) {
                    Err(e) => {
                        return Err(e);
                    },
                    Ok((id, n)) => {
                        acc.id = id;
                        rest = advance(after, n);
                    },
                }
            } else if tag == 18 {
                match read_delimited(after) {
                    Err(e) => {
                        return Err(e);
                    },
                    Ok((payload, n)) => {
                        acc.message = slice_to_vec(payload);
                        rest = advance(after, n);
                    },
                }
            } else {
                match read_unknown(tag, after) {
                    Err(e) => {
                        return Err(e);
                    },
                    Ok(n) => {
                        rest = advance(after, n);
                    },
                }
            }
        }
        Ok(acc)
    }
}

impl SyncErrorReason {
    /// Reads the reason that the bytes hold.
    pub fn from_reader(bytes: &[u8]) -> (r: Result<SyncErrorReason, DecodeError>)
        ensures
            reads_as(r, parse_reason(bytes@, empty_reason())),
    {
        let mut acc = SyncErrorReason { reason: Reason::UNKNOWN, details: String::new() };
        let mut rest: &[u8] = bytes;
        while rest.len() > 0
            invariant
                parse_reason(bytes@, empty_reason()) == parse_reason(rest@, acc@),
            decreases rest@.len(),
        {
            let (tag, after) = match read_tag(rest) {
                Err(e) => {
                    return Err(e);
                },
                Ok(x) => x,
            };
            if tag == 8 {
                match read_varint32(after) {
                    Err(e) => {
                        return Err(e);
                    },
                    Ok((number, n)) => {
                        acc.reason = Reason::from_wire(number);
                        rest = advance(after, n);
                    },
                }
            } else if tag == 18 {
                match read_string(after) {
                    Err(e) => {
                        return Err(e);
                    },
                    Ok((details, n)) => {
                        acc.details = details;
                        rest = advance(after, n);
                    },
                }
            } else {
                match read_unknown(tag, after) {
                    Err(e) => {
                        return Err(e);
                    },
                    Ok(n) => {
                        rest = advance(after, n);
                    },
                }
            }
        }
        Ok(acc)
    }
}

impl DocumentSyncError {
    /// Reads the report that the bytes hold.
    pub fn from_reader(bytes: &[u8]) -> (r: Result<DocumentSyncError, DecodeError>)
        ensures
            reads_as(r, parse_sync_error(bytes@, empty_sync_error())),
    {
        let mut acc = DocumentSyncError { id: String::new(), reason: None };
        let mut rest: &[u8] = bytes;
        while rest.len() > 0
            invariant
                parse_sync_error(bytes@, empty_sync_error()) == parse_sync_error(rest@, acc@),
            decreases rest@.len(),
        {
            let (tag, after) = match read_tag(rest) {
                Err(e) => {
                    return Err(e);
                },
                Ok(x) => x,
            };
            if tag == 10 {
                match read_string(after) {
                    Err(e) => {
                        return Err(e);
                    },
                    Ok((id, n)) => {
                        acc.id = id;
                        rest = advance(after, n);
                    },
                }
            } else if tag == 18 {
                match read_delimited(after) {
                    Err(e) => {
                        return Err(e);
                    },
                    Ok((payload, n)) => match SyncErrorReason::from_reader(payload) {
                        Err(e) => {
                            return Err(e);
                        },
                        Ok(reason) => {
                            acc.reason = Some(reason);
                            rest = advance(after, n);
                        },
                    },
                }
            } else {
                match read_unknown(tag, after) {
                    Err(e) => {
                        return Err(e);
                    },
                    Ok(n) => {
                        rest = advance(after, n);
                    },
                }
            }
        }
        Ok(acc)
    }
}

impl AvailableDocuments {
    /// Reads the list that the bytes hold.
    pub fn from_reader(bytes: &[u8]) -> (r: Result<AvailableDocuments, DecodeError>)
        ensures
            reads_as(r, parse_available_documents(bytes@, empty_available_documents())),
    {
        let mut acc = AvailableDocuments { ids: Vec::new() };
        let mut rest: &[u8] = bytes;
        assert(acc@.ids =~= Seq::<Seq<char>>::empty());
        while rest.len() > 0
            invariant
                parse_available_documents(bytes@, empty_available_documents())
                    == parse_available_documents(rest@, acc@),
            decreases rest@.len(),
        {
            let (tag, after) = match read_tag(rest) {
                Err(e) => {
                    return Err(e);
                },
                Ok(x) => x,
            };
            if tag == 10 {
                match read_string(after) {
                    Err(e) => {
                        return Err(e);
                    },
                    Ok((id, n)) => {
                        let ghost before = acc@.ids;
                        let ghost text = id@;
                        acc.ids.push(id);
                        assert(acc@.ids =~= before.push(text));
                        rest = advance(after, n);
                    },
                }
            } else {
                match read_unknown(tag, after) {
                    Err(e) => {
                        return Err(e);
                    },
                    Ok(n) => {
                        rest = advance(after, n);
                    },
                }
            }
        }
        Ok(acc)
    }
}

impl RequestAvailableDocuments {
    /// Reads the question. It has no fields, so whatever the bytes are,
    /// they are passed over, and the result is the question.
    pub fn from_reader(bytes: &[u8]) -> (r: Result<RequestAvailableDocuments, DecodeError>)
        ensures
            r == Ok::<RequestAvailableDocuments, DecodeError>((RequestAvailableDocuments {  })),
    {
        Ok(RequestAvailableDocuments {  })
    }
}

impl RequestDocument {
    /// Reads the request that the bytes hold.
    pub fn from_reader(bytes: &[u8]) -> (r: Result<RequestDocument, DecodeError>)
        ensures
            reads_as(r, parse_request_document(bytes@, empty_request_document())),
    {
        let mut acc = RequestDocument { id: String::new() };
        let mut rest: &[u8] = bytes;
        while rest.len() > 0
            invariant
                parse_request_document(bytes@, empty_request_document())
                    == parse_request_document(rest@, acc@),
            decreases rest@.len(),
        {
            let (tag, after) = match read_tag(rest) {
                Err(e) => {
                    return Err(e);
                },
                Ok(x) => x,
            };
            if tag == 10 {
                match read_string(after) {
                    Err(e) => {
                        return Err(e);
                    },
                    Ok((id, n)) => {
                        acc.id = id;
                        rest = advance(after, n);
                    },
                }
            } else {
                match read_unknown(tag, after) {
                    Err(e) => {
                        return Err(e);
                    },
                    Ok(n) => {
                        rest = advance(after, n);
                    },
                }
            }
        }
        Ok(acc)
    }
}

impl Document {
    /// Reads the document that the bytes hold.
    pub fn from_reader(bytes: &[u8]) -> (r: Result<Document, DecodeError>)
        ensures
            reads_as(r, parse_document(bytes@, empty_document())),
    {
        let mut acc = Document { id: String::new(), document: Vec::new() };
        let mut rest: &[u8] = bytes;
        while rest.len() > 0
            invariant
                parse_document(bytes@, empty_document()) == parse_document(rest@, acc@),
            decreases rest@.len(),
        {
            let (tag, after) = match read_tag(rest) {
                Err(e) => {
                    return Err(e);
                },
                Ok(x) => x,
            };
            if tag == 10 {
                match read_string(after) {
                    Err(e) => {
                        return Err(e);
                    },
                    Ok((id, n)) => {
                        acc.id = id;
                        rest = advance(after, n);
                    },
                }
            } else if tag == 18 {
                match read_delimited(after) {
                    Err(e) => {
                        return Err(e);
                    },
                    Ok((payload, n)) => {
                        acc.document = slice_to_vec(payload);
                        rest = advance(after, n);
                    },
                }
            } else {
                match read_unknown(tag, after) {
                    Err(e) => {
                        return Err(e);
                    },
                    Ok(n) => {
                        rest = advance(after, n);
                    },
                }
            }
        }
        Ok(acc)
    }
}

/// Reads the message in the field with tag `tag` of an envelope from the
/// field's payload.
fn read_variant(tag: u32, inner: &[u8]) -> (r: Result<OneOfmsg, DecodeError>)
    requires
        is_variant_tag(tag),
    ensures
        reads_as(r, parse_variant(tag, inner@)),
{
    if tag == 10 {
        match DocumentSyncMessage::from_reader(inner) {
            Err(e) => Err(e),
            Ok(m) => Ok(OneOfmsg::sync_message(m)),
        }
    } else if tag == 18 {
        match DocumentSyncError::from_reader(inner) {
            Err(e) => Err(e),
            Ok(m) => Ok(OneOfmsg::sync_error(m)),
        }
    } else if tag == 26 {
        match AvailableDocuments::from_reader(inner) {
            Err(e) => Err(e),
            Ok(m) => Ok(OneOfmsg::available_documents(m)),
        }
    } else if tag == 34 {
        match RequestAvailableDocuments::from_reader(inner) {
            Err(e) => Err(e),
            Ok(m) => Ok(OneOfmsg::request_available_documents(m)),
        }
    } else if tag == 42 {
        match RequestDocument::from_reader(inner) {
            Err(e) => Err(e),
            Ok(m) => Ok(OneOfmsg::request_document(m)),
        }
    } else {
        match Document::from_reader(inner) {
            Err(e) => Err(e),
            Ok(m) => Ok(OneOfmsg::document(m)),
        }
    }
}

impl Message {
    /// Reads the envelope that the bytes hold: the message of the last of
    /// the six tags in them, `Empty` where there is none; fields with other
    /// tags are passed over.
    pub fn from_reader(bytes: &[u8]) -> (r: Result<Message, DecodeError>)
        ensures
            reads_as(r, decode_message(bytes@)),
    {
        let mut acc = OneOfmsg::Empty;
        let mut rest: &[u8] = bytes;
        while rest.len() > 0
            invariant
                decode_message(bytes@) == parse_message(rest@, acc@),
            decreases rest@.len(),
        {
            let (tag, after) = match read_tag(rest) {
                Err(e) => {
                    return Err(e);
                },
                Ok(x) => x,
            };
            if tag == 10 || tag == 18 || tag == 26 || tag == 34 || tag == 42 || tag == 50 {
                match read_delimited(after) {
                    Err(e) => {
                        return Err(e);
                    },
                    Ok((payload, n)) => match read_variant(tag, payload) {
                        Err(e) => {
                            return Err(e);
                        },
                        Ok(m) => {
                            acc = m;
                            rest = advance(after, n);
                        },
                    },
                }
            } else {
                match read_unknown(tag, after) {
                    Err(e) => {
                        return Err(e);
                    },
                    Ok(n) => {
                        rest = advance(after, n);
                    },
                }
            }
        }
        Ok(Message { msg: acc })
    }
}

/// Reads an envelope back from its bytes.
pub fn decode(bytes: &[u8]) -> (r: Result<Message, DecodeError>)
    ensures
        reads_as(r, decode_message(bytes@)),
{
    Message::from_reader(bytes)
}

} // verus!
