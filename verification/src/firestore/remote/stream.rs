//! Frames of the multiplexed stream transport and their JSON envelope.
use vstd::prelude::*;

use crate::firestore::error::{internal_error, FirestoreError, FirestoreErrorCode, FirestoreResult};
use crate::json::{
    json_find, json_member, json_models, member_index, lemma_json_container_views, lemma_json_models, lemma_member_models,
    member_models, JsonModel, JsonNumber, JsonValue,
};
use crate::text::{owned, str_equal};

verus! {

/// Identifies one logical stream on a multiplexed connection.
#[derive(Clone, Copy, Debug, PartialEq, Eq, Hash, Structural)]
pub struct StreamId(pub u32);

impl StreamId {
    pub fn new(value: u32) -> (s: Self)
        ensures
            s.0 == value,
    {
        StreamId(value)
    }

    pub fn value(&self) -> (r: u32)
        ensures
            r == self.0,
    {
        self.0
    }
}

/// What a frame carries.
#[derive(Clone, Debug)]
pub enum FrameKind {
    Open,
    Data(Vec<u8>),
    Close,
    Error(FirestoreError),
}

/// The shape of a frame that can travel in an envelope.
pub enum FrameShape {
    Open,
    Data(Seq<u8>),
    Close,
}

/// One frame of one stream.
#[derive(Clone, Debug)]
pub struct TransportFrame {
    stream_id: StreamId,
    kind: FrameKind,
}

/// The shape of a frame kind, when it is not an error.
pub open spec fn shape_of(kind: FrameKind) -> Option<FrameShape> {
    match kind {
        FrameKind::Open => Some(FrameShape::Open),
        FrameKind::Data(p) => Some(FrameShape::Data(p@)),
        FrameKind::Close => Some(FrameShape::Close),
        FrameKind::Error(_) => None,
    }
}

impl TransportFrame {
    /// The stream of this frame.
    pub closed spec fn spec_stream_id(&self) -> StreamId {
        self.stream_id
    }

    /// The payload kind of this frame.
    pub closed spec fn spec_kind(&self) -> FrameKind {
        self.kind
    }

    pub fn open(stream_id: StreamId) -> (f: Self)
        ensures
            f.spec_stream_id() == stream_id,
            f.spec_kind() is Open,
    {
        TransportFrame { stream_id, kind: FrameKind::Open }
    }

    pub fn data(stream_id: StreamId, payload: Vec<u8>) -> (f: Self)
        ensures
            f.spec_stream_id() == stream_id,
            f.spec_kind() == FrameKind::Data(payload),
    {
        TransportFrame { stream_id, kind: FrameKind::Data(payload) }
    }

    pub fn close(stream_id: StreamId) -> (f: Self)
        ensures
            f.spec_stream_id() == stream_id,
            f.spec_kind() is Close,
    {
        TransportFrame { stream_id, kind: FrameKind::Close }
    }

    pub fn error(stream_id: StreamId, error: FirestoreError) -> (f: Self)
        ensures
            f.spec_stream_id() == stream_id,
            f.spec_kind() == FrameKind::Error(error),
    {
        TransportFrame { stream_id, kind: FrameKind::Error(error) }
    }

    pub fn stream_id(&self) -> (r: StreamId)
        ensures
            r == self.spec_stream_id(),
    {
        self.stream_id
    }

    pub fn kind(&self) -> (r: &FrameKind)
        ensures
            *r == self.spec_kind(),
    {
        &self.kind
    }
}

/// A JSON number holding a non-negative integer.
pub open spec fn int_number(n: int) -> JsonModel {
    JsonModel::Number(JsonNumber { as_i64: Some(n as i64), as_f64: None })
}

/// The bytes of a payload as JSON numbers.
pub open spec fn byte_numbers(p: Seq<u8>) -> Seq<JsonModel> {
    p.map_values(|b: u8| int_number(b as int))
}

/// The envelope of a frame: `{"stream_id": id, "type": kind}`, and
/// `"payload"` with the bytes of a data frame.
pub open spec fn envelope(id: u32, shape: FrameShape) -> JsonModel {
    let head = seq![("stream_id"@, int_number(id as int))];
    match shape {
        FrameShape::Open => JsonModel::Object(head.push(("type"@, JsonModel::String("open"@, None)))),
        FrameShape::Data(p) => JsonModel::Object(
            head.push(("type"@, JsonModel::String("data"@, None))).push(
                ("payload"@, JsonModel::Array(byte_numbers(p))),
            ),
        ),
        FrameShape::Close => JsonModel::Object(head.push(("type"@, JsonModel::String("close"@, None)))),
    }
}

/// The integer of a JSON value, when it is a number in `i64` range.
pub open spec fn json_i64(v: Option<JsonModel>) -> Option<i64> {
    match v {
        Some(JsonModel::Number(n)) => n.as_i64,
        _ => None,
    }
}

/// Whether a JSON value is a number in `0..=255`.
pub open spec fn is_byte_number(v: JsonModel) -> bool {
    json_i64(Some(v)) is Some && 0 <= json_i64(Some(v)).unwrap() <= 255
}

/// The bytes of a JSON array whose elements are numbers in `0..=255`.
pub open spec fn json_bytes(v: Option<JsonModel>) -> Option<Seq<u8>> {
    match v {
        Some(JsonModel::Array(xs)) => if forall|i: int| 0 <= i < xs.len() ==> is_byte_number(#[trigger] xs[i]) {
            Some(Seq::new(xs.len(), |i: int| json_i64(Some(xs[i])).unwrap() as u8))
        } else {
            None
        },
        _ => None,
    }
}

/// The stream and shape that an envelope describes, when it is well formed:
/// an object with a `stream_id` in `u32` range and a `type` of `open`,
/// `data` (with a byte array `payload`) or `close`; other members are
/// ignored.
pub open spec fn frame_of_envelope(v: JsonModel) -> Option<(u32, FrameShape)> {
    match (json_i64(json_member(v, "stream_id"@)), json_member(v, "type"@)) {
        (Some(id), Some(JsonModel::String(t, _))) => if 0 <= id <= u32::MAX {
            if t == "open"@ {
                Some((id as u32, FrameShape::Open))
            } else if t == "close"@ {
                Some((id as u32, FrameShape::Close))
            } else if t == "data"@ {
                match json_bytes(json_member(v, "payload"@)) {
                    Some(p) => Some((id as u32, FrameShape::Data(p))),
                    None => None,
                }
            } else {
                None
            }
        } else {
            None
        },
        _ => None,
    }
}

impl TransportFrame {
    /// The JSON envelope of this frame; error frames have none.
    pub fn to_envelope(&self) -> (r: FirestoreResult<JsonValue>)
        ensures
            match r {
                Ok(v) => shape_of(self.spec_kind()) matches Some(s) && v@ == envelope(
                    self.spec_stream_id().0,
                    s,
                ),
                Err(e) => shape_of(self.spec_kind()) is None && e.code == FirestoreErrorCode::Internal,
            },
    {
        let mut members: Vec<(String, JsonValue)> = Vec::new();
        let id = JsonValue::integer(self.stream_id.0 as i64);
        let ghost idv = id@;
        members.push((owned("stream_id"), id));
        let kind_text = match &self.kind {
            FrameKind::Open => "open",
            FrameKind::Data(_) => "data",
            FrameKind::Close => "close",
            FrameKind::Error(_) => {
                return Err(internal_error("error frames cannot be serialized"));
            },
        };
        let t = JsonValue::string_from(kind_text);
        let ghost tv = t@;
        members.push((owned("type"), t));
        let ghost base = members@;
        if let FrameKind::Data(payload) = &self.kind {
            let mut bytes: Vec<JsonValue> = Vec::new();
            let mut k: usize = 0;
            proof {
                lemma_json_models(bytes@);
            }
            while k < payload.len()
                invariant
                    k <= payload@.len(),
                    json_models(bytes@) == byte_numbers(payload@).take(k as int),
                decreases payload@.len() - k,
            {
                let b = JsonValue::integer(payload[k] as i64);
                let ghost before = bytes@;
                bytes.push(b);
                proof {
                    lemma_json_models(bytes@);
                    lemma_json_models(before);
                    assert(json_models(bytes@) =~= byte_numbers(payload@).take(k + 1));
                }
                k = k + 1;
            }
            assert(byte_numbers(payload@).take(k as int) =~= byte_numbers(payload@));
            let arr = JsonValue::array(bytes);
            let ghost av = arr@;
            members.push((owned("payload"), arr));
            proof {
                lemma_member_models(members@);
                reveal_strlit("data");
                assert(member_models(members@) =~= seq![("stream_id"@, idv), ("type"@, tv), ("payload"@, av)]);
                assert(tv == JsonModel::String("data"@, None));
                assert(member_models(members@) =~= seq![("stream_id"@, int_number(self.stream_id.0 as int))].push(
                    ("type"@, JsonModel::String("data"@, None)),
                ).push(("payload"@, JsonModel::Array(byte_numbers(payload@)))));
                assert(JsonModel::Object(member_models(members@)) == envelope(self.stream_id.0, FrameShape::Data(payload@)));
            }
        } else {
            proof {
                lemma_member_models(members@);
                reveal_strlit("open");
                reveal_strlit("close");
                assert(member_models(members@) =~= seq![("stream_id"@, idv), ("type"@, tv)]);
                assert(member_models(members@) =~= seq![("stream_id"@, int_number(self.stream_id.0 as int))].push(
                    ("type"@, tv),
                ));
            }
        }
        proof {
            reveal_strlit("data");
            reveal_strlit("open");
            reveal_strlit("close");
        }
        Ok(JsonValue::object(members))
    }
}

/// The integer of an optional JSON number.
fn number_i64(v: Option<&JsonValue>) -> (r: Option<i64>)
    ensures
        r == json_i64(match v {
            Some(x) => Some(x@),
            None => None,
        }),
{
    match v {
        Some(x) => {
            proof {
                lemma_json_container_views(*x);
            }
            match x {
                JsonValue::Number(n) => n.as_i64,
                _ => None,
            }
        },
        None => None,
    }
}

/// The bytes of an optional JSON array of byte numbers.
fn byte_array(v: Option<&JsonValue>) -> (r: Option<Vec<u8>>)
    ensures
        match r {
            Some(b) => json_bytes(match v {
                Some(x) => Some(x@),
                None => None,
            }) == Some(b@),
            None => json_bytes(match v {
                Some(x) => Some(x@),
                None => None,
            }) is None,
        },
{
    match v {
        Some(x) => {
            proof {
                lemma_json_container_views(*x);
            }
            match x {
                JsonValue::Array(items) => {
                    let ghost xs = json_models(items@);
                    proof {
                        lemma_json_models(items@);
                    }
                    let mut out: Vec<u8> = Vec::new();
                    let mut k: usize = 0;
                    while k < items.len()
                        invariant
                            k <= items@.len(),
                            v == Some(x),
                            x@ == JsonModel::Array(xs),
                            xs == json_models(items@),
                            xs.len() == items@.len(),
                            forall|j: int| 0 <= j < items@.len() ==> #[trigger] xs[j] == items@[j]@,
                            out@.len() == k,
                            forall|j: int| 0 <= j < k ==> is_byte_number(#[trigger] xs[j]),
                            forall|j: int| 0 <= j < k ==> #[trigger] out@[j] == json_i64(Some(xs[j])).unwrap() as u8,
                        decreases items@.len() - k,
                    {
                        let n = number_i64(Some(&items[k]));
                        match n {
                            Some(b) => {
                                if b < 0 || b > 255 {
                                    assert(!is_byte_number(xs[k as int]));
                                    return None;
                                }
                                out.push(b as u8);
                            },
                            None => {
                                assert(!is_byte_number(xs[k as int]));
                                return None;
                            },
                        }
                        k = k + 1;
                    }
                    assert(out@ =~= Seq::new(xs.len(), |i: int| json_i64(Some(xs[i])).unwrap() as u8));
                    Some(out)
                },
                _ => None,
            }
        },
        None => None,
    }
}

impl TransportFrame {
    /// The frame an envelope describes.
    pub fn from_envelope(v: &JsonValue) -> (r: FirestoreResult<TransportFrame>)
        ensures
            match r {
                Ok(f) => frame_of_envelope(v@) matches Some(p) && f.spec_stream_id().0 == p.0 && shape_of(
                    f.spec_kind(),
                ) == Some(p.1),
                Err(e) => frame_of_envelope(v@) is None && e.code == FirestoreErrorCode::Internal,
            },
    {
        let id = match number_i64(v.get("stream_id")) {
            Some(id) => id,
            None => {
                return Err(internal_error("failed to decode transport frame: missing stream_id"));
            },
        };
        let t = v.get("type");
        let text = match t {
            Some(JsonValue::String(s)) => s.text.as_str(),
            _ => {
                proof {
                    if let Some(x) = t {
                        lemma_json_container_views(*x);
                    }
                }
                return Err(internal_error("failed to decode transport frame: missing type"));
            },
        };
        proof {
            lemma_json_container_views(*t.unwrap());
        }
        if id < 0 || id > 0xffff_ffffi64 {
            return Err(internal_error("failed to decode transport frame: invalid stream_id"));
        }
        let stream_id = StreamId(id as u32);
        if str_equal(text, "open") {
            Ok(TransportFrame::open(stream_id))
        } else if str_equal(text, "close") {
            Ok(TransportFrame::close(stream_id))
        } else if str_equal(text, "data") {
            match byte_array(v.get("payload")) {
                Some(payload) => Ok(TransportFrame::data(stream_id, payload)),
                None => Err(internal_error("failed to decode transport frame: invalid payload")),
            }
        } else {
            Err(internal_error("failed to decode transport frame: unknown type"))
        }
    }
}

proof fn lemma_envelope_members(id: u32, shape: FrameShape)
    ensures
        envelope(id, shape) matches JsonModel::Object(ms) && json_find(ms, "stream_id"@) == Some(
            int_number(id as int),
        ) && json_find(ms, "type"@) == Some(
            JsonModel::String(
                match shape {
                    FrameShape::Open => "open"@,
                    FrameShape::Data(_) => "data"@,
                    FrameShape::Close => "close"@,
                },
                None,
            ),
        ) && (shape matches FrameShape::Data(p) ==> json_find(ms, "payload"@) == Some(
            JsonModel::Array(byte_numbers(p)),
        )),
{
    reveal_strlit("stream_id");
    reveal_strlit("type");
    reveal_strlit("payload");
    assert("type"@[0] != "stream_id"@[0]);
    assert("payload"@[0] != "stream_id"@[0]);
    assert("payload"@[0] != "type"@[0]);
    match envelope(id, shape) {
        JsonModel::Object(ms) => {
            assert(member_index(ms, "stream_id"@) == 0);
            assert(ms.drop_first()[0].0 == "type"@);
            assert(member_index(ms.drop_first(), "type"@) == 0);
            assert(member_index(ms, "type"@) == 1);
            if let FrameShape::Data(p) = shape {
                assert(ms.drop_first().drop_first()[0].0 == "payload"@);
                assert(member_index(ms.drop_first().drop_first(), "payload"@) == 0);
                assert(member_index(ms.drop_first(), "payload"@) == 1);
                assert(member_index(ms, "payload"@) == 2);
            }
        },
        _ => {},
    }
}

/// Reading back the envelope of a frame gives its stream and shape.
pub proof fn lemma_envelope_round_trip(id: u32, shape: FrameShape)
    ensures
        frame_of_envelope(envelope(id, shape)) == Some((id, shape)),
{
    lemma_envelope_members(id, shape);
    reveal_strlit("open");
    reveal_strlit("close");
    reveal_strlit("data");
    assert("open"@[0] != "close"@[0]);
    assert("data"@[0] != "open"@[0]);
    assert("data"@[0] != "close"@[0]);
    assert(((id as int) as i64) as u32 == id);
    if let FrameShape::Data(p) = shape {
        let xs = byte_numbers(p);
        assert forall|i: int| 0 <= i < xs.len() implies is_byte_number(#[trigger] xs[i]) by {
        }
        assert(Seq::new(xs.len(), |i: int| json_i64(Some(xs[i])).unwrap() as u8) =~= p);
    }
}

/// The two kinds of persistent streams.
#[derive(Clone, Copy, Debug, PartialEq, Eq, Structural)]
pub enum StreamKind {
    Listen,
    Write,
}

/// The tokens sent when a stream opens.
#[derive(Clone, Debug, Default, PartialEq, Eq)]
pub struct StreamCredentials {
    pub auth_token: Option<String>,
    pub app_check_token: Option<String>,
    pub heartbeat_header: Option<String>,
}

/// A connection that carries transport frames both ways.
pub trait StreamTransport {
    /// Sends one frame.
    fn send(&self, frame: TransportFrame) -> FirestoreResult<()>;

    /// Waits for the next frame.
    fn next(&self) -> FirestoreResult<TransportFrame>;
}

} // verus!
