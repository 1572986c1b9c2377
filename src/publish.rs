use vstd::prelude::*;

use std::collections::BTreeMap;
use vstd::utf8::encode_utf8;

use crate::log::PublishAck;

verus! {

/// Longest topic name, in characters.
pub const MAX_TOPIC_LEN: usize = 255;

/// Largest payload, in bytes (4 MiB).
pub const MAX_PAYLOAD_SIZE: usize = 4 * 1024 * 1024;

/// The status class under which an error reaches a client.
#[derive(Debug, Clone, Copy, PartialEq, Eq, Structural)]
pub enum StatusCode {
    InvalidArgument,
    ResourceExhausted,
    Unavailable,
    Internal,
    NotFound,
    Aborted,
}

/// Why a publish was refused or failed.
#[derive(Debug, Clone, PartialEq, Eq)]
pub enum PublishError {
    EmptyTopic,
    TopicTooLong,
    InvalidTopicChars,
    PayloadTooLarge { size: usize },
    InvalidAttributes,
    ShuttingDown,
    Storage(String),
    Database(String),
    Internal,
}

/// How the writer can fail a publish.
#[derive(Debug, Clone, PartialEq, Eq)]
pub enum WriterError {
    /// The writer's intake is closed.
    ChannelClosed,
    /// The commit failed with this message from the storage engine.
    Database(String),
    /// The writer worker died.
    ThreadPanic,
}

pub open spec fn status_of(e: PublishError) -> StatusCode {
    match e {
        PublishError::PayloadTooLarge { .. } => StatusCode::ResourceExhausted,
        PublishError::ShuttingDown => StatusCode::Unavailable,
        PublishError::Storage(_) => StatusCode::Unavailable,
        PublishError::Database(_) => StatusCode::Internal,
        PublishError::Internal => StatusCode::Internal,
        _ => StatusCode::InvalidArgument,
    }
}

impl PublishError {
    /// The status class of this error.
    pub fn code(&self) -> (r: StatusCode)
        ensures
            r == status_of(*self),
    {
        match self {
            PublishError::PayloadTooLarge { .. } => StatusCode::ResourceExhausted,
            PublishError::ShuttingDown => StatusCode::Unavailable,
            PublishError::Storage(_) => StatusCode::Unavailable,
            PublishError::Database(_) => StatusCode::Internal,
            PublishError::Internal => StatusCode::Internal,
            _ => StatusCode::InvalidArgument,
        }
    }
}

/// Characters allowed in a topic name: ASCII letters and digits, `-`, `_`
/// and `.`.
pub open spec fn is_topic_char(c: char) -> bool {
    ('a' <= c && c <= 'z') || ('A' <= c && c <= 'Z') || ('0' <= c && c <= '9') || c == '-' || c
        == '_' || c == '.'
}

/// A topic name of 1 to 255 allowed characters.
pub open spec fn is_valid_topic(t: Seq<char>) -> bool {
    &&& 0 < t.len() <= MAX_TOPIC_LEN
    &&& forall|i: int| 0 <= i < t.len() ==> #[trigger] is_topic_char(t[i])
}

/// The first check that a topic name fails, in the order empty, too long,
/// bad character.
pub open spec fn topic_error(t: Seq<char>) -> Option<PublishError> {
    if t.len() == 0 {
        Some(PublishError::EmptyTopic)
    } else if t.len() > MAX_TOPIC_LEN {
        Some(PublishError::TopicTooLong)
    } else if !is_valid_topic(t) {
        Some(PublishError::InvalidTopicChars)
    } else {
        None
    }
}

fn is_topic_char_exec(c: char) -> (r: bool)
    ensures
        r == is_topic_char(c),
{
    ('a' <= c && c <= 'z') || ('A' <= c && c <= 'Z') || ('0' <= c && c <= '9') || c == '-' || c
        == '_' || c == '.'
}

/// Checks a topic name: non-empty, at most 255 characters, each of them
/// allowed.
pub fn validate_topic(topic: &str) -> (r: Result<(), PublishError>)
    ensures
        r.is_ok() <==> is_valid_topic(topic@),
        r.is_err() ==> topic_error(topic@) == Some(r->Err_0),
        topic_error(topic@).is_none() <==> is_valid_topic(topic@),
{
    let n = topic.unicode_len();
    if n == 0 {
        return Err(PublishError::EmptyTopic);
    }
    if n > MAX_TOPIC_LEN {
        return Err(PublishError::TopicTooLong);
    }
    let mut i: usize = 0;
    while i < n
        invariant
            n == topic@.len(),
            0 < n <= MAX_TOPIC_LEN,
            i <= n,
            forall|j: int| 0 <= j < i ==> #[trigger] is_topic_char(topic@[j]),
        decreases n - i,
    {
        let c = topic.get_char(i);
        if !is_topic_char_exec(c) {
            assert(!is_topic_char(topic@[i as int]));
            return Err(PublishError::InvalidTopicChars);
        }
        i = i + 1;
    }
    Ok(())
}

/// A publish request as it arrives: the attribute map is ordered by key.
#[derive(Debug, Clone)]
pub struct PublishRequest {
    pub topic: String,
    pub payload: Vec<u8>,
    pub attributes: BTreeMap<String, String>,
}

/// A validated publish, ready for the writer: an empty payload is absent, and
/// attributes are absent or encoded as a JSON object.
#[derive(Debug, Clone)]
pub struct PreparedPublish {
    pub topic: String,
    pub payload: Option<Vec<u8>>,
    pub attributes: Option<String>,
}

/// A name for the JSON object that `serde_json` writes for an attribute map.
pub uninterp spec fn attributes_json_of(m: Map<Seq<char>, Seq<char>>) -> Seq<char>;

/// Encodes the attributes as a JSON object.
///
/// Relies on `serde_json::to_string`, which fails only for a value whose
/// `Serialize` fails or a map with non-string keys; a map from strings to
/// strings always encodes, and its text depends on the entries alone (a
/// `BTreeMap` is written in key order).
#[verifier::external_body]
fn attributes_json(attrs: &BTreeMap<String, String>) -> (r: Result<String, serde_json::Error>)
    ensures
        r is Ok,
        r matches Ok(s) ==> s@ == attributes_json_of(attrs.deep_view()),
{
    serde_json::to_string(attrs)
}

#[verifier::external_type_specification]
#[verifier::external_body]
pub struct ExJsonError(serde_json::Error);

/// Validates a publish request in order (topic, payload size, attributes)
/// and prepares it for the writer.
pub fn prepare_publish(req: PublishRequest) -> (r: Result<PreparedPublish, PublishError>)
    ensures
        topic_error(req.topic@) is Some ==> r == Err::<PreparedPublish, PublishError>(
            topic_error(req.topic@).unwrap(),
        ),
        topic_error(req.topic@) is None && req.payload@.len() > MAX_PAYLOAD_SIZE ==> r == Err::<
            PreparedPublish,
            PublishError,
        >(PublishError::PayloadTooLarge { size: req.payload@.len() as usize }),
        topic_error(req.topic@) is None && req.payload@.len() <= MAX_PAYLOAD_SIZE ==> r is Ok,
        r matches Ok(p) ==> {
            &&& p.topic@ == req.topic@
            &&& (req.payload@.len() == 0 ==> p.payload is None)
            &&& (req.payload@.len() > 0 ==> p.payload == Some(req.payload))
            &&& (req.attributes@.is_empty() ==> p.attributes is None)
            &&& (!req.attributes@.is_empty() ==> (p.attributes matches Some(j) && j@
                == attributes_json_of(req.attributes.deep_view())))
        },
{
    match validate_topic(req.topic.as_str()) {
        Err(e) => {
            return Err(e);
        },
        Ok(()) => {},
    }
    let size = req.payload.len();
    if size > MAX_PAYLOAD_SIZE {
        return Err(PublishError::PayloadTooLarge { size });
    }
    let attributes = if req.attributes.is_empty() {
        None
    } else {
        match attributes_json(&req.attributes) {
            Ok(json) => Some(json),
            Err(_) => {
                return Err(PublishError::InvalidAttributes);
            },
        }
    };
    let payload = if size == 0 {
        None
    } else {
        Some(req.payload)
    };
    Ok(PreparedPublish { topic: req.topic, payload, attributes })
}

/// `needle` occurs somewhere in `hay`.
pub open spec fn bytes_contain(hay: Seq<u8>, needle: Seq<u8>) -> bool {
    exists|i: int|
        0 <= i && i + needle.len() <= hay.len() && #[trigger] hay.subrange(i, i + needle.len())
            == needle
}

/// Whether `needle` occurs in `hay`.
pub fn contains_bytes(hay: &[u8], needle: &[u8]) -> (r: bool)
    ensures
        r == bytes_contain(hay@, needle@),
{
    let n = hay.len();
    let m = needle.len();
    if m > n {
        assert forall|i: int| 0 <= i && i + m <= n implies #[trigger] hay@.subrange(i, i + m)
            != needle@ by {}
        return false;
    }
    let mut i: usize = 0;
    while i <= n - m
        invariant
            n == hay@.len(),
            m == needle@.len(),
            m <= n,
            i <= n - m + 1,
            forall|j: int| 0 <= j < i ==> #[trigger] hay@.subrange(j, j + m) != needle@,
        decreases n - m + 1 - i,
    {
        let mut k: usize = 0;
        let mut same = true;
        while k < m
            invariant
                n == hay@.len(),
                m == needle@.len(),
                i + m <= n,
                k <= m,
                same ==> forall|q: int| 0 <= q < k ==> hay@[i + q] == needle@[q],
                !same ==> exists|q: int| 0 <= q < m && hay@[i + q] != needle@[q],
            decreases m - k,
        {
            if hay[i + k] != needle[k] {
                same = false;
            }
            k = k + 1;
        }
        if same {
            assert(hay@.subrange(i as int, i + m) =~= needle@);
            return true;
        }
        proof {
            let q = choose|q: int| 0 <= q < m && hay@[i + q] != needle@[q];
            assert(hay@.subrange(i as int, i + m)[q] != needle@[q]);
        }
        i = i + 1;
    }
    false
}

pub open spec fn disk_bytes() -> Seq<u8> {
    seq![100u8, 105u8, 115u8, 107u8]
}

pub open spec fn full_bytes() -> Seq<u8> {
    seq![102u8, 117u8, 108u8, 108u8]
}

/// A storage message that speaks of the disk or of it being full.
pub open spec fn is_storage_pressure(msg: Seq<char>) -> bool {
    bytes_contain(encode_utf8(msg), disk_bytes()) || bytes_contain(encode_utf8(msg), full_bytes())
}

/// The error a publisher sees for a writer failure: a closed intake means the
/// server is shutting down, a storage message about the disk or a full
/// device is a (retryable) storage error, any other database message is
/// internal, and a dead worker is an internal error.
pub fn map_writer_error(e: WriterError) -> (r: PublishError)
    ensures
        e is ChannelClosed ==> r == PublishError::ShuttingDown,
        e is ThreadPanic ==> r == PublishError::Internal,
        e matches WriterError::Database(msg) ==> (if is_storage_pressure(msg@) {
            r == PublishError::Storage(msg)
        } else {
            r == PublishError::Database(msg)
        }),
{
    match e {
        WriterError::ChannelClosed => PublishError::ShuttingDown,
        WriterError::ThreadPanic => PublishError::Internal,
        WriterError::Database(msg) => {
            let disk: Vec<u8> = vec![100u8, 105u8, 115u8, 107u8];
            let full: Vec<u8> = vec![102u8, 117u8, 108u8, 108u8];
            assert(disk@ == disk_bytes());
            assert(full@ == full_bytes());
            let bytes = msg.as_str().as_bytes();
            if contains_bytes(bytes, disk.as_slice()) || contains_bytes(bytes, full.as_slice()) {
                PublishError::Storage(msg)
            } else {
                PublishError::Database(msg)
            }
        },
    }
}

/// What a producer receives once its message is durable.
#[derive(Debug, Clone, PartialEq, Eq)]
pub struct PublishResponse {
    pub message_id: String,
    pub sequence: u64,
    pub timestamp: i64,
}

/// The response for a committed publish: its id, its sequence as an unsigned
/// number, and its commit time.
pub fn publish_response(ack: PublishAck) -> (r: PublishResponse)
    ensures
        r.message_id == ack.message_id,
        ack.sequence >= 0 ==> r.sequence == ack.sequence,
        r.timestamp == ack.timestamp,
{
    let sequence: u64 = if ack.sequence < 0 {
        0
    } else {
        ack.sequence as u64
    };
    PublishResponse { message_id: ack.message_id, sequence, timestamp: ack.timestamp }
}

} // verus!
