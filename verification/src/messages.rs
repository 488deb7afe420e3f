//! The messages of the sync protocol and their tag/length/value encoding.

use crate::identity::strings_equal;
use crate::wire::{delimited, optional_delimited, sizeof_varint, varint, write_varint};
use vstd::prelude::*;
use vstd::utf8::*;

verus! {

/// The kinds of failure that a peer can report.
#[allow(non_camel_case_types)]
#[derive(Debug, Clone, Copy, PartialEq, Eq, Structural)]
pub enum Reason {
    UNKNOWN,
    INVALID_MESSAGE,
    DOCUMENT_NOT_FOUND,
    INTERNAL_ERROR,
}

/// One round of the exchange about a document.
#[derive(Debug, Clone, PartialEq, Eq)]
pub struct DocumentSyncMessage {
    pub id: String,
    pub message: Vec<u8>,
}

/// Why a sync failed: the kind of failure, and free text.
#[derive(Debug, Clone, PartialEq, Eq)]
pub struct SyncErrorReason {
    pub reason: Reason,
    pub details: String,
}

/// The report that the sync of a document failed.
#[derive(Debug, Clone, PartialEq, Eq)]
pub struct DocumentSyncError {
    pub id: String,
    pub reason: Option<SyncErrorReason>,
}

/// The documents that a peer has, in the order it names them.
#[derive(Debug, Clone, PartialEq, Eq)]
pub struct AvailableDocuments {
    pub ids: Vec<String>,
}

/// The question which documents a peer has.
#[derive(Debug, Clone, PartialEq, Eq)]
pub struct RequestAvailableDocuments {}

/// The request for one document.
#[derive(Debug, Clone, PartialEq, Eq)]
pub struct RequestDocument {
    pub id: String,
}

/// One document in full.
#[derive(Debug, Clone, PartialEq, Eq)]
pub struct Document {
    pub id: String,
    pub document: Vec<u8>,
}

/// The one message that an envelope holds, or `Empty` for an envelope that
/// holds none.
#[allow(non_camel_case_types)]
#[derive(Debug, Clone, PartialEq, Eq)]
pub enum OneOfmsg {
    sync_message(DocumentSyncMessage),
    sync_error(DocumentSyncError),
    available_documents(AvailableDocuments),
    request_available_documents(RequestAvailableDocuments),
    request_document(RequestDocument),
    document(Document),
    Empty,
}

/// The envelope that goes over the wire.
#[derive(Debug, Clone, PartialEq, Eq)]
pub struct Message {
    pub msg: OneOfmsg,
}

pub struct DocumentSyncMessageView {
    pub id: Seq<char>,
    pub message: Seq<u8>,
}

pub struct SyncErrorReasonView {
    pub reason: Reason,
    pub details: Seq<char>,
}

pub struct DocumentSyncErrorView {
    pub id: Seq<char>,
    pub reason: Option<SyncErrorReasonView>,
}

pub struct AvailableDocumentsView {
    pub ids: Seq<Seq<char>>,
}

pub struct RequestDocumentView {
    pub id: Seq<char>,
}

pub struct DocumentView {
    pub id: Seq<char>,
    pub document: Seq<u8>,
}

/// An envelope as a mathematical value.
#[allow(non_camel_case_types)]
pub enum MessageView {
    sync_message(DocumentSyncMessageView),
    sync_error(DocumentSyncErrorView),
    available_documents(AvailableDocumentsView),
    request_available_documents,
    request_document(RequestDocumentView),
    document(DocumentView),
    Empty,
}

impl View for DocumentSyncMessage {
    type V = DocumentSyncMessageView;

    open spec fn view(&self) -> DocumentSyncMessageView {
        DocumentSyncMessageView { id: self.id@, message: self.message@ }
    }
}

impl View for SyncErrorReason {
    type V = SyncErrorReasonView;

    open spec fn view(&self) -> SyncErrorReasonView {
        SyncErrorReasonView { reason: self.reason, details: self.details@ }
    }
}

impl View for DocumentSyncError {
    type V = DocumentSyncErrorView;

    open spec fn view(&self) -> DocumentSyncErrorView {
        DocumentSyncErrorView {
            id: self.id@,
            reason: match self.reason {
                Some(r) => Some(r@),
                None => None,
            },
        }
    }
}

impl View for AvailableDocuments {
    type V = AvailableDocumentsView;

    open spec fn view(&self) -> AvailableDocumentsView {
        AvailableDocumentsView { ids: self.ids.deep_view() }
    }
}

impl View for RequestDocument {
    type V = RequestDocumentView;

    open spec fn view(&self) -> RequestDocumentView {
        RequestDocumentView { id: self.id@ }
    }
}

impl View for Document {
    type V = DocumentView;

    open spec fn view(&self) -> DocumentView {
        DocumentView { id: self.id@, document: self.document@ }
    }
}

impl View for OneOfmsg {
    type V = MessageView;

    open spec fn view(&self) -> MessageView {
        match *self {
            OneOfmsg::sync_message(m) => MessageView::sync_message(m@),
            OneOfmsg::sync_error(m) => MessageView::sync_error(m@),
            OneOfmsg::available_documents(m) => MessageView::available_documents(m@),
            OneOfmsg::request_available_documents(_) => MessageView::request_available_documents,
            OneOfmsg::request_document(m) => MessageView::request_document(m@),
            OneOfmsg::document(m) => MessageView::document(m@),
            OneOfmsg::Empty => MessageView::Empty,
        }
    }
}

impl View for Message {
    type V = MessageView;

    open spec fn view(&self) -> MessageView {
        self.msg@
    }
}

/// The number that stands for a kind of failure on the wire.
pub open spec fn reason_number(reason: Reason) -> u8 {
    match reason {
        Reason::UNKNOWN => 0,
        Reason::INVALID_MESSAGE => 1,
        Reason::DOCUMENT_NOT_FOUND => 2,
        Reason::INTERNAL_ERROR => 3,
    }
}

/// The kind of failure that a number stands for; a number that stands for
/// none is read as `UNKNOWN`.
pub open spec fn reason_of_number(number: int) -> Reason {
    if number == 1 {
        Reason::INVALID_MESSAGE
    } else if number == 2 {
        Reason::DOCUMENT_NOT_FOUND
    } else if number == 3 {
        Reason::INTERNAL_ERROR
    } else {
        Reason::UNKNOWN
    }
}

/// The kind of failure with the given name; a name of none is read as
/// `UNKNOWN`.
pub open spec fn reason_of_name(name: Seq<char>) -> Reason {
    if name == "INVALID_MESSAGE"@ {
        Reason::INVALID_MESSAGE
    } else if name == "DOCUMENT_NOT_FOUND"@ {
        Reason::DOCUMENT_NOT_FOUND
    } else if name == "INTERNAL_ERROR"@ {
        Reason::INTERNAL_ERROR
    } else {
        Reason::UNKNOWN
    }
}

impl From<i32> for Reason {
    fn from(i: i32) -> (r: Reason) {
        Reason::from_number(i)
    }
}

impl vstd::std_specs::convert::FromSpecImpl<i32> for Reason {
    open spec fn obeys_from_spec() -> bool {
        true
    }

    open spec fn from_spec(i: i32) -> Reason {
        reason_of_number(i as int)
    }
}

impl Default for Reason {
    fn default() -> (r: Reason)
        ensures
            r == Reason::UNKNOWN,
    {
        Reason::UNKNOWN
    }
}

pub open spec fn encode_sync_message(m: DocumentSyncMessageView) -> Seq<u8> {
    optional_delimited(10, encode_utf8(m.id)) + optional_delimited(18, m.message)
}

pub open spec fn encode_reason(r: SyncErrorReasonView) -> Seq<u8> {
    (if r.reason == Reason::UNKNOWN {
        Seq::<u8>::empty()
    } else {
        seq![8u8, reason_number(r.reason)]
    }) + optional_delimited(18, encode_utf8(r.details))
}

pub open spec fn encode_sync_error(m: DocumentSyncErrorView) -> Seq<u8> {
    optional_delimited(10, encode_utf8(m.id)) + (match m.reason {
        Some(r) => delimited(18, encode_reason(r)),
        None => Seq::<u8>::empty(),
    })
}

/// One field for each identifier, in their order; an empty identifier has
/// its field too.
pub open spec fn encode_ids(ids: Seq<Seq<char>>) -> Seq<u8>
    decreases ids.len(),
{
    if ids.len() == 0 {
        Seq::<u8>::empty()
    } else {
        delimited(10, encode_utf8(ids[0])) + encode_ids(ids.drop_first())
    }
}

pub open spec fn encode_available_documents(m: AvailableDocumentsView) -> Seq<u8> {
    encode_ids(m.ids)
}

pub open spec fn encode_request_document(m: RequestDocumentView) -> Seq<u8> {
    optional_delimited(10, encode_utf8(m.id))
}

pub open spec fn encode_document(m: DocumentView) -> Seq<u8> {
    optional_delimited(10, encode_utf8(m.id)) + optional_delimited(18, m.document)
}

/// The bytes of an envelope: the one field of the message it holds, under
/// the tag of that message's kind; nothing for an envelope that holds none.
pub open spec fn encode_message(m: MessageView) -> Seq<u8> {
    match m {
        MessageView::sync_message(x) => delimited(10, encode_sync_message(x)),
        MessageView::sync_error(x) => delimited(18, encode_sync_error(x)),
        MessageView::available_documents(x) => delimited(26, encode_available_documents(x)),
        MessageView::request_available_documents => delimited(34, Seq::<u8>::empty()),
        MessageView::request_document(x) => delimited(42, encode_request_document(x)),
        MessageView::document(x) => delimited(50, encode_document(x)),
        MessageView::Empty => Seq::<u8>::empty(),
    }
}

/// Appends a field of wire type 2.
fn write_delimited(out: &mut Vec<u8>, tag: u8, payload: &[u8])
    ensures
        final(out)@ == old(out)@ + delimited(tag, payload@),
{
    let ghost start = out@;
    out.push(tag);
    write_varint(out, payload.len() as u64);
    let ghost middle = out@;
    out.extend_from_slice(payload);
    assert(out@ =~= middle + payload@);
    assert(out@ =~= start + delimited(tag, payload@));
}

/// Appends a field of wire type 2 unless its payload is empty.
fn write_optional_delimited(out: &mut Vec<u8>, tag: u8, payload: &[u8])
    ensures
        final(out)@ == old(out)@ + optional_delimited(tag, payload@),
{
    if payload.len() != 0 {
        write_delimited(out, tag, payload);
    } else {
        assert(out@ =~= out@ + Seq::<u8>::empty());
    }
}

impl Reason {
    /// The number that stands for the kind on the wire.
    pub fn number(&self) -> (r: u8)
        ensures
            r == reason_number(*self),
    {
        match self {
            Reason::UNKNOWN => 0,
            Reason::INVALID_MESSAGE => 1,
            Reason::DOCUMENT_NOT_FOUND => 2,
            Reason::INTERNAL_ERROR => 3,
        }
    }

    /// The kind that a number read from the wire stands for.
    pub fn from_wire(number: u32) -> (r: Reason)
        ensures
            r == reason_of_number(number as int),
    {
        if number == 1 {
            Reason::INVALID_MESSAGE
        } else if number == 2 {
            Reason::DOCUMENT_NOT_FOUND
        } else if number == 3 {
            Reason::INTERNAL_ERROR
        } else {
            Reason::UNKNOWN
        }
    }

    /// The kind with the given name, `UNKNOWN` where no kind has it.
    pub fn from_name(name: &str) -> (r: Reason)
        ensures
            r == reason_of_name(name@),
    {
        let text = name.to_owned();
        if strings_equal(&text, &"INVALID_MESSAGE".to_owned()) {
            Reason::INVALID_MESSAGE
        } else if strings_equal(&text, &"DOCUMENT_NOT_FOUND".to_owned()) {
            Reason::DOCUMENT_NOT_FOUND
        } else if strings_equal(&text, &"INTERNAL_ERROR".to_owned()) {
            Reason::INTERNAL_ERROR
        } else {
            Reason::UNKNOWN
        }
    }

    /// The kind that a number stands for, `UNKNOWN` where it stands for none.
    pub fn from_number(i: i32) -> (r: Reason)
        ensures
            r == reason_of_number(i as int),
    {
        if i == 1 {
            Reason::INVALID_MESSAGE
        } else if i == 2 {
            Reason::DOCUMENT_NOT_FOUND
        } else if i == 3 {
            Reason::INTERNAL_ERROR
        } else {
            Reason::UNKNOWN
        }
    }
}

impl DocumentSyncMessage {
    /// Appends the fields of the message.
    pub fn write_message(&self, out: &mut Vec<u8>)
        ensures
            final(out)@ == old(out)@ + encode_sync_message(self@),
    {
        let ghost start = out@;
        write_optional_delimited(out, 10, self.id.as_str().as_bytes());
        write_optional_delimited(out, 18, self.message.as_slice());
        assert(out@ =~= start + encode_sync_message(self@));
    }
}

impl SyncErrorReason {
    /// Appends the fields of the reason.
    pub fn write_message(&self, out: &mut Vec<u8>)
        ensures
            final(out)@ == old(out)@ + encode_reason(self@),
    {
        let ghost start = out@;
        match self.reason {
            Reason::UNKNOWN => {},
            _ => {
                out.push(8);
                out.push(self.reason.number());
            },
        }
        write_optional_delimited(out, 18, self.details.as_str().as_bytes());
        assert(out@ =~= start + encode_reason(self@));
    }
}

impl DocumentSyncError {
    /// Appends the fields of the report.
    pub fn write_message(&self, out: &mut Vec<u8>)
        ensures
            final(out)@ == old(out)@ + encode_sync_error(self@),
    {
        let ghost start = out@;
        write_optional_delimited(out, 10, self.id.as_str().as_bytes());
        match &self.reason {
            Some(r) => {
                let mut inner: Vec<u8> = Vec::new();
                r.write_message(&mut inner);
                assert(inner@ =~= encode_reason(r@));
                write_delimited(out, 18, inner.as_slice());
            },
            None => {},
        }
        assert(out@ =~= start + encode_sync_error(self@));
    }
}

/// Appending one identifier appends its field.
pub proof fn lemma_encode_ids_push(ids: Seq<Seq<char>>, id: Seq<char>)
    ensures
        encode_ids(ids.push(id)) == encode_ids(ids) + delimited(10, encode_utf8(id)),
    decreases ids.len(),
{
    if ids.len() == 0 {
        assert(ids.push(id).drop_first() =~= Seq::<Seq<char>>::empty());
        assert(encode_ids(Seq::<Seq<char>>::empty()) =~= Seq::<u8>::empty());
        assert(encode_ids(ids) =~= Seq::<u8>::empty());
        assert(encode_ids(ids.push(id)) =~= delimited(10, encode_utf8(id)));
        assert(encode_ids(ids) + delimited(10, encode_utf8(id)) =~= delimited(10, encode_utf8(id)));
    } else {
        assert(ids.push(id).drop_first() =~= ids.drop_first().push(id));
        lemma_encode_ids_push(ids.drop_first(), id);
        assert(encode_ids(ids.push(id)) =~= encode_ids(ids) + delimited(10, encode_utf8(id)));
    }
}

impl AvailableDocuments {
    /// Appends one field for each identifier.
    pub fn write_message(&self, out: &mut Vec<u8>)
        ensures
            final(out)@ == old(out)@ + encode_available_documents(self@),
    {
        let ghost start = out@;
        let ghost all = self.ids.deep_view();
        let mut i: usize = 0;
        assert(all.take(0) =~= Seq::<Seq<char>>::empty());
        assert(out@ =~= start + encode_ids(all.take(0)));
        while i < self.ids.len()
            invariant
                i <= self.ids.len(),
                all == self.ids.deep_view(),
                out@ == start + encode_ids(all.take(i as int)),
            decreases self.ids.len() - i,
        {
            let ghost before = out@;
            write_delimited(out, 10, self.ids[i].as_str().as_bytes());
            proof {
                assert(all[i as int] == self.ids[i as int]@);
                assert(all.take(i + 1) =~= all.take(i as int).push(all[i as int]));
                lemma_encode_ids_push(all.take(i as int), all[i as int]);
                assert(out@ =~= start + encode_ids(all.take(i + 1)));
            }
            i += 1;
        }
        assert(all.take(i as int) =~= all);
    }
}

impl RequestDocument {
    /// Appends the fields of the request.
    pub fn write_message(&self, out: &mut Vec<u8>)
        ensures
            final(out)@ == old(out)@ + encode_request_document(self@),
    {
        write_optional_delimited(out, 10, self.id.as_str().as_bytes());
    }
}

impl Document {
    /// Appends the fields of the document.
    pub fn write_message(&self, out: &mut Vec<u8>)
        ensures
            final(out)@ == old(out)@ + encode_document(self@),
    {
        let ghost start = out@;
        write_optional_delimited(out, 10, self.id.as_str().as_bytes());
        write_optional_delimited(out, 18, self.document.as_slice());
        assert(out@ =~= start + encode_document(self@));
    }
}

impl Message {
    /// Appends the envelope.
    pub fn write_message(&self, out: &mut Vec<u8>)
        ensures
            final(out)@ == old(out)@ + encode_message(self@),
    {
        let ghost start = out@;
        let mut inner: Vec<u8> = Vec::new();
        match &self.msg {
            OneOfmsg::sync_message(m) => {
                m.write_message(&mut inner);
                assert(inner@ =~= encode_sync_message(m@));
                write_delimited(out, 10, inner.as_slice());
            },
            OneOfmsg::sync_error(m) => {
                m.write_message(&mut inner);
                assert(inner@ =~= encode_sync_error(m@));
                write_delimited(out, 18, inner.as_slice());
            },
            OneOfmsg::available_documents(m) => {
                m.write_message(&mut inner);
                assert(inner@ =~= encode_available_documents(m@));
                write_delimited(out, 26, inner.as_slice());
            },
            OneOfmsg::request_available_documents(_) => {
                write_delimited(out, 34, inner.as_slice());
            },
            OneOfmsg::request_document(m) => {
                m.write_message(&mut inner);
                assert(inner@ =~= encode_request_document(m@));
                write_delimited(out, 42, inner.as_slice());
            },
            OneOfmsg::document(m) => {
                m.write_message(&mut inner);
                assert(inner@ =~= encode_document(m@));
                write_delimited(out, 50, inner.as_slice());
            },
            OneOfmsg::Empty => {
                assert(out@ =~= start + Seq::<u8>::empty());
            },
        }
    }
}

/// The bytes of an envelope.
pub fn encode(message: &Message) -> (r: Vec<u8>)
    ensures
        r@ == encode_message(message@),
{
    let mut out: Vec<u8> = Vec::new();
    message.write_message(&mut out);
    assert(out@ =~= encode_message(message@));
    out
}

/// The count of bytes that a length and a payload of that length take.
pub fn sizeof_len(len: usize) -> (r: usize)
    requires
        varint(len as nat).len() + len <= usize::MAX,
    ensures
        r == varint(len as nat).len() + len,
{
    sizeof_varint(len as u64) + len
}

/// The count of bytes of a field of wire type 2 that is left out when its
/// payload, of `len` bytes, is empty.
fn sizeof_optional(len: usize) -> (r: usize)
    requires
        len > 0 ==> 1 + varint(len as nat).len() + len <= usize::MAX,
    ensures
        forall|tag: u8, payload: Seq<u8>|
            payload.len() == len ==> r == (#[trigger] optional_delimited(tag, payload)).len(),
{
    if len == 0 {
        0
    } else {
        1 + sizeof_len(len)
    }
}

/// The fields of the first identifiers take no more bytes than the fields
/// of all.
pub proof fn lemma_encode_ids_prefix(ids: Seq<Seq<char>>, i: int)
    requires
        0 <= i <= ids.len(),
    ensures
        encode_ids(ids.take(i)).len() <= encode_ids(ids).len(),
    decreases ids.len() - i,
{
    if i < ids.len() {
        lemma_encode_ids_prefix(ids, i + 1);
        assert(ids.take(i + 1) =~= ids.take(i).push(ids[i]));
        lemma_encode_ids_push(ids.take(i), ids[i]);
    } else {
        assert(ids.take(i) =~= ids);
    }
}

impl DocumentSyncMessage {
    /// The count of bytes that `write_message` appends.
    pub fn get_size(&self) -> (r: usize)
        requires
            encode_sync_message(self@).len() <= usize::MAX,
        ensures
            r == encode_sync_message(self@).len(),
    {
        sizeof_optional(self.id.as_str().as_bytes().len()) + sizeof_optional(self.message.len())
    }
}

impl SyncErrorReason {
    /// The count of bytes that `write_message` appends.
    pub fn get_size(&self) -> (r: usize)
        requires
            encode_reason(self@).len() <= usize::MAX,
        ensures
            r == encode_reason(self@).len(),
    {
        let kind: usize = match self.reason {
            Reason::UNKNOWN => 0,
            _ => 2,
        };
        kind + sizeof_optional(self.details.as_str().as_bytes().len())
    }
}

impl DocumentSyncError {
    /// The count of bytes that `write_message` appends.
    pub fn get_size(&self) -> (r: usize)
        requires
            encode_sync_error(self@).len() <= usize::MAX,
        ensures
            r == encode_sync_error(self@).len(),
    {
        let first = sizeof_optional(self.id.as_str().as_bytes().len());
        match &self.reason {
            Some(reason) => first + 1 + sizeof_len(reason.get_size()),
            None => first,
        }
    }
}

impl AvailableDocuments {
    /// The count of bytes that `write_message` appends.
    pub fn get_size(&self) -> (r: usize)
        requires
            encode_available_documents(self@).len() <= usize::MAX,
        ensures
            r == encode_available_documents(self@).len(),
    {
        let ghost all = self.ids.deep_view();
        let mut total: usize = 0;
        let mut i: usize = 0;
        assert(all.take(0) =~= Seq::<Seq<char>>::empty());
        while i < self.ids.len()
            invariant
                i <= self.ids.len(),
                all == self.ids.deep_view(),
                encode_ids(all).len() <= usize::MAX,
                total == encode_ids(all.take(i as int)).len(),
            decreases self.ids.len() - i,
        {
            proof {
                assert(all[i as int] == self.ids[i as int]@);
                assert(all.take(i + 1) =~= all.take(i as int).push(all[i as int]));
                lemma_encode_ids_push(all.take(i as int), all[i as int]);
                lemma_encode_ids_prefix(all, i + 1);
            }
            total = total + 1 + sizeof_len(self.ids[i].as_str().as_bytes().len());
            i += 1;
        }
        assert(all.take(i as int) =~= all);
        total
    }
}

impl RequestAvailableDocuments {
    /// The question has no fields.
    pub fn get_size(&self) -> (r: usize)
        ensures
            r == 0,
    {
        0
    }

    /// Appends nothing.
    pub fn write_message(&self, out: &mut Vec<u8>)
        ensures
            final(out)@ == old(out)@,
    {
    }
}

impl RequestDocument {
    /// The count of bytes that `write_message` appends.
    pub fn get_size(&self) -> (r: usize)
        requires
            encode_request_document(self@).len() <= usize::MAX,
        ensures
            r == encode_request_document(self@).len(),
    {
        sizeof_optional(self.id.as_str().as_bytes().len())
    }
}

impl Document {
    /// The count of bytes that `write_message` appends.
    pub fn get_size(&self) -> (r: usize)
        requires
            encode_document(self@).len() <= usize::MAX,
        ensures
            r == encode_document(self@).len(),
    {
        sizeof_optional(self.id.as_str().as_bytes().len()) + sizeof_optional(self.document.len())
    }
}

impl Message {
    /// The count of bytes that `write_message` appends.
    pub fn get_size(&self) -> (r: usize)
        requires
            encode_message(self@).len() <= usize::MAX,
        ensures
            r == encode_message(self@).len(),
    {
        match &self.msg {
            OneOfmsg::sync_message(m) => 1 + sizeof_len(m.get_size()),
            OneOfmsg::sync_error(m) => 1 + sizeof_len(m.get_size()),
            OneOfmsg::available_documents(m) => 1 + sizeof_len(m.get_size()),
            OneOfmsg::request_available_documents(m) => 1 + sizeof_len(m.get_size()),
            OneOfmsg::request_document(m) => 1 + sizeof_len(m.get_size()),
            OneOfmsg::document(m) => 1 + sizeof_len(m.get_size()),
            OneOfmsg::Empty => 0,
        }
    }
}

impl Default for DocumentSyncMessage {
    fn default() -> (r: DocumentSyncMessage)
        ensures
            r@ == (DocumentSyncMessageView { id: Seq::empty(), message: Seq::empty() }),
    {
        DocumentSyncMessage { id: String::new(), message: Vec::new() }
    }
}

impl Default for SyncErrorReason {
    fn default() -> (r: SyncErrorReason)
        ensures
            r@ == (SyncErrorReasonView { reason: Reason::UNKNOWN, details: Seq::empty() }),
    {
        SyncErrorReason { reason: Reason::UNKNOWN, details: String::new() }
    }
}

impl Default for DocumentSyncError {
    fn default() -> (r: DocumentSyncError)
        ensures
            r@ == (DocumentSyncErrorView { id: Seq::empty(), reason: None }),
    {
        DocumentSyncError { id: String::new(), reason: None }
    }
}

impl Default for AvailableDocuments {
    fn default() -> (r: AvailableDocuments)
        ensures
            r@ == (AvailableDocumentsView { ids: Seq::empty() }),
    {
        let r = AvailableDocuments { ids: Vec::new() };
        assert(r@.ids =~= Seq::<Seq<char>>::empty());
        r
    }
}

impl Default for RequestAvailableDocuments {
    fn default() -> (r: RequestAvailableDocuments)
        ensures
            r == (RequestAvailableDocuments {  }),
    {
        RequestAvailableDocuments {  }
    }
}

impl Default for RequestDocument {
    fn default() -> (r: RequestDocument)
        ensures
            r@ == (RequestDocumentView { id: Seq::empty() }),
    {
        RequestDocument { id: String::new() }
    }
}

impl Default for Document {
    fn default() -> (r: Document)
        ensures
            r@ == (DocumentView { id: Seq::empty(), document: Seq::empty() }),
    {
        Document { id: String::new(), document: Vec::new() }
    }
}

impl Default for OneOfmsg {
    fn default() -> (r: OneOfmsg)
        ensures
            r@ == MessageView::Empty,
    {
        OneOfmsg::Empty
    }
}

impl Default for Message {
    fn default() -> (r: Message)
        ensures
            r@ == MessageView::Empty,
    {
        Message { msg: OneOfmsg::Empty }
    }
}

} // verus!
