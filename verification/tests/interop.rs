use chippy::messages::{
    encode, AvailableDocuments, Document, DocumentSyncError, DocumentSyncMessage, Message,
    OneOfmsg, Reason, RequestAvailableDocuments, RequestDocument, SyncErrorReason,
};
use chippy::reader::decode;
use quick_protobuf::{BytesReader, MessageRead, Writer};

/// The same messages, read with the protobuf reader.
#[derive(Debug, Default, PartialEq, Clone)]
struct SyncRound {
    id: String,
    message: Vec<u8>,
}

#[derive(Debug, Default, PartialEq, Clone)]
struct Failure {
    reason: i32,
    details: String,
}

#[derive(Debug, Default, PartialEq, Clone)]
struct Report {
    id: String,
    reason: Option<Failure>,
}

#[derive(Debug, Default, PartialEq, Clone)]
struct Listing {
    ids: Vec<String>,
}

#[derive(Debug, Default, PartialEq, Clone)]
struct Question;

#[derive(Debug, Default, PartialEq, Clone)]
struct Request {
    id: String,
}

#[derive(Debug, Default, PartialEq, Clone)]
struct Whole {
    id: String,
    document: Vec<u8>,
}

#[derive(Debug, PartialEq, Clone)]
enum Envelope {
    Round(SyncRound),
    Report(Report),
    Listing(Listing),
    Question,
    Request(Request),
    Whole(Whole),
    Nothing,
}

impl<'a> MessageRead<'a> for SyncRound {
    fn from_reader(r: &mut BytesReader, bytes: &'a [u8]) -> quick_protobuf::Result<Self> {
        let mut m = Self::default();
        while !r.is_eof() {
            match r.next_tag(bytes)? {
                10 => m.id = r.read_string(bytes)?.to_string(),
                18 => m.message = r.read_bytes(bytes)?.to_vec(),
                t => r.read_unknown(bytes, t)?,
            }
        }
        Ok(m)
    }
}

impl<'a> MessageRead<'a> for Failure {
    fn from_reader(r: &mut BytesReader, bytes: &'a [u8]) -> quick_protobuf::Result<Self> {
        let mut m = Self::default();
        while !r.is_eof() {
            match r.next_tag(bytes)? {
                8 => m.reason = r.read_int32(bytes)?,
                18 => m.details = r.read_string(bytes)?.to_string(),
                t => r.read_unknown(bytes, t)?,
            }
        }
        Ok(m)
    }
}

impl<'a> MessageRead<'a> for Report {
    fn from_reader(r: &mut BytesReader, bytes: &'a [u8]) -> quick_protobuf::Result<Self> {
        let mut m = Self::default();
        while !r.is_eof() {
            match r.next_tag(bytes)? {
                10 => m.id = r.read_string(bytes)?.to_string(),
                18 => m.reason = Some(r.read_message::<Failure>(bytes)?),
                t => r.read_unknown(bytes, t)?,
            }
        }
        Ok(m)
    }
}

impl<'a> MessageRead<'a> for Listing {
    fn from_reader(r: &mut BytesReader, bytes: &'a [u8]) -> quick_protobuf::Result<Self> {
        let mut m = Self::default();
        while !r.is_eof() {
            match r.next_tag(bytes)? {
                10 => m.ids.push(r.read_string(bytes)?.to_string()),
                t => r.read_unknown(bytes, t)?,
            }
        }
        Ok(m)
    }
}

impl<'a> MessageRead<'a> for Question {
    fn from_reader(r: &mut BytesReader, _: &'a [u8]) -> quick_protobuf::Result<Self> {
        r.read_to_end();
        Ok(Question)
    }
}

impl<'a> MessageRead<'a> for Request {
    fn from_reader(r: &mut BytesReader, bytes: &'a [u8]) -> quick_protobuf::Result<Self> {
        let mut m = Self::default();
        while !r.is_eof() {
            match r.next_tag(bytes)? {
                10 => m.id = r.read_string(bytes)?.to_string(),
                t => r.read_unknown(bytes, t)?,
            }
        }
        Ok(m)
    }
}

impl<'a> MessageRead<'a> for Whole {
    fn from_reader(r: &mut BytesReader, bytes: &'a [u8]) -> quick_protobuf::Result<Self> {
        let mut m = Self::default();
        while !r.is_eof() {
            match r.next_tag(bytes)? {
                10 => m.id = r.read_string(bytes)?.to_string(),
                18 => m.document = r.read_bytes(bytes)?.to_vec(),
                t => r.read_unknown(bytes, t)?,
            }
        }
        Ok(m)
    }
}

impl<'a> MessageRead<'a> for Envelope {
    fn from_reader(r: &mut BytesReader, bytes: &'a [u8]) -> quick_protobuf::Result<Self> {
        let mut m = Envelope::Nothing;
        while !r.is_eof() {
            match r.next_tag(bytes)? {
                10 => m = Envelope::Round(r.read_message::<SyncRound>(bytes)?),
                18 => m = Envelope::Report(r.read_message::<Report>(bytes)?),
                26 => m = Envelope::Listing(r.read_message::<Listing>(bytes)?),
                34 => {
                    r.read_message::<Question>(bytes)?;
                    m = Envelope::Question
                }
                42 => m = Envelope::Request(r.read_message::<Request>(bytes)?),
                50 => m = Envelope::Whole(r.read_message::<Whole>(bytes)?),
                t => r.read_unknown(bytes, t)?,
            }
        }
        Ok(m)
    }
}

fn reference(bytes: &[u8]) -> Option<Envelope> {
    let mut r = BytesReader::from_bytes(bytes);
    Envelope::from_reader(&mut r, bytes).ok()
}

fn reason_number(r: Reason) -> i32 {
    r.number() as i32
}

fn as_reference(m: &Message) -> Envelope {
    match &m.msg {
        OneOfmsg::sync_message(x) => {
            Envelope::Round(SyncRound { id: x.id.clone(), message: x.message.clone() })
        }
        OneOfmsg::sync_error(x) => Envelope::Report(Report {
            id: x.id.clone(),
            reason: x.reason.as_ref().map(|r| Failure {
                reason: reason_number(r.reason),
                details: r.details.clone(),
            }),
        }),
        OneOfmsg::available_documents(x) => Envelope::Listing(Listing { ids: x.ids.clone() }),
        OneOfmsg::request_available_documents(_) => Envelope::Question,
        OneOfmsg::request_document(x) => Envelope::Request(Request { id: x.id.clone() }),
        OneOfmsg::document(x) => {
            Envelope::Whole(Whole { id: x.id.clone(), document: x.document.clone() })
        }
        OneOfmsg::Empty => Envelope::Nothing,
    }
}

/// The encoding of a message, written with the protobuf writer.
fn written(m: &Message) -> Vec<u8> {
    fn optional_string(w: &mut Writer<&mut Vec<u8>>, tag: u32, s: &str) {
        if !s.is_empty() {
            w.write_with_tag(tag, |w| w.write_string(s)).unwrap();
        }
    }
    fn optional_bytes(w: &mut Writer<&mut Vec<u8>>, tag: u32, b: &[u8]) {
        if !b.is_empty() {
            w.write_with_tag(tag, |w| w.write_bytes(b)).unwrap();
        }
    }
    let mut inner = Vec::new();
    let tag = {
        let mut w = Writer::new(&mut inner);
        match &m.msg {
            OneOfmsg::sync_message(x) => {
                optional_string(&mut w, 10, &x.id);
                optional_bytes(&mut w, 18, &x.message);
                10
            }
            OneOfmsg::sync_error(x) => {
                optional_string(&mut w, 10, &x.id);
                if let Some(r) = &x.reason {
                    let mut reason = Vec::new();
                    {
                        let mut rw = Writer::new(&mut reason);
                        if r.reason != Reason::UNKNOWN {
                            rw.write_with_tag(8, |w| w.write_enum(reason_number(r.reason))).unwrap();
                        }
                        optional_string(&mut rw, 18, &r.details);
                    }
                    w.write_with_tag(18, |w| w.write_bytes(&reason)).unwrap();
                }
                18
            }
            OneOfmsg::available_documents(x) => {
                for id in &x.ids {
                    w.write_with_tag(10, |w| w.write_string(id)).unwrap();
                }
                26
            }
            OneOfmsg::request_available_documents(_) => 34,
            OneOfmsg::request_document(x) => {
                optional_string(&mut w, 10, &x.id);
                42
            }
            OneOfmsg::document(x) => {
                optional_string(&mut w, 10, &x.id);
                optional_bytes(&mut w, 18, &x.document);
                50
            }
            OneOfmsg::Empty => return Vec::new(),
        }
    };
    let mut outer = Vec::new();
    {
        let mut w = Writer::new(&mut outer);
        w.write_with_tag(tag, |w| w.write_bytes(&inner)).unwrap();
    }
    outer
}

/// A small generator of numbers that gives the same run every time.
struct Numbers(u64);

impl Numbers {
    fn next(&mut self) -> u64 {
        self.0 = self.0.wrapping_mul(6364136223846793005).wrapping_add(1442695040888963407);
        self.0 >> 33
    }

    fn below(&mut self, n: u64) -> u64 {
        self.next() % n
    }

    fn text(&mut self) -> String {
        let alphabet = ['a', 'z', '0', ' ', '/', '\u{e9}', '\u{4e2d}', '\u{1f4d3}'];
        let len = self.below(5) * self.below(40);
        (0..len).map(|_| alphabet[self.below(8) as usize]).collect()
    }

    fn bytes(&mut self) -> Vec<u8> {
        let len = self.below(4) * self.below(90);
        (0..len).map(|_| self.below(256) as u8).collect()
    }

    fn message(&mut self) -> Message {
        let reasons =
            [Reason::UNKNOWN, Reason::INVALID_MESSAGE, Reason::DOCUMENT_NOT_FOUND, Reason::INTERNAL_ERROR];
        let msg = match self.below(7) {
            0 => OneOfmsg::sync_message(DocumentSyncMessage {
                id: self.text(),
                message: self.bytes(),
            }),
            1 => OneOfmsg::sync_error(DocumentSyncError {
                id: self.text(),
                reason: if self.below(3) == 0 {
                    None
                } else {
                    Some(SyncErrorReason {
                        reason: reasons[self.below(4) as usize],
                        details: self.text(),
                    })
                },
            }),
            2 => {
                let n = self.below(5);
                OneOfmsg::available_documents(AvailableDocuments {
                    ids: (0..n).map(|_| self.text()).collect(),
                })
            }
            3 => OneOfmsg::request_available_documents(RequestAvailableDocuments {}),
            4 => OneOfmsg::request_document(RequestDocument { id: self.text() }),
            5 => OneOfmsg::document(Document { id: self.text(), document: self.bytes() }),
            _ => OneOfmsg::Empty,
        };
        Message { msg }
    }
}

#[test]
fn encoding_is_what_the_protobuf_writer_writes() {
    let mut numbers = Numbers(1);
    for _ in 0..2000 {
        let m = numbers.message();
        assert_eq!(encode(&m), written(&m), "{:?}", m);
    }
}

#[test]
fn protobuf_reader_reads_what_was_encoded() {
    let mut numbers = Numbers(2);
    for _ in 0..2000 {
        let m = numbers.message();
        let bytes = encode(&m);
        assert_eq!(reference(&bytes), Some(as_reference(&m)), "{:?}", m);
        assert_eq!(decode(&bytes), Ok(m));
    }
}

#[test]
fn whatever_decodes_is_read_alike_by_the_protobuf_reader() {
    let mut numbers = Numbers(3);
    let mut decoded = 0;
    for round in 0..20000 {
        // a valid encoding with a few bytes changed, cut, or put in
        let mut bytes = encode(&numbers.message());
        let changes = numbers.below(4);
        for _ in 0..changes {
            if bytes.is_empty() || numbers.below(4) == 0 {
                let at = numbers.below(bytes.len() as u64 + 1) as usize;
                bytes.insert(at, numbers.below(256) as u8);
            } else if numbers.below(4) == 0 {
                let at = numbers.below(bytes.len() as u64) as usize;
                bytes.remove(at);
            } else {
                let at = numbers.below(bytes.len() as u64) as usize;
                bytes[at] = if numbers.below(2) == 0 {
                    numbers.below(256) as u8
                } else {
                    [0u8, 1, 2, 8, 10, 18, 26, 34, 42, 50, 0x80][numbers.below(11) as usize]
                };
            }
        }
        if let Ok(m) = decode(&bytes) {
            decoded += 1;
            assert_eq!(reference(&bytes), Some(as_reference(&m)), "round {round}: {:?}", bytes);
        }
    }
    assert!(decoded > 1000, "only {decoded} inputs decoded");
}
