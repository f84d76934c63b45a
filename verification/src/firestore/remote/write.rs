//! Responses of the write stream, read from their JSON form.
use vstd::prelude::*;

use crate::firestore::error::{internal_error, FirestoreError, FirestoreErrorCode, FirestoreResult};
use crate::firestore::model::Timestamp;
use crate::firestore::remote::listen::{decoded_time, member_time, text_of};
use crate::firestore::remote::mutation::{WriteResponse, WriteResult};
use crate::firestore::remote::serializer::{
    base64_bytes, decode_base64, decode_list, decoded_list, JsonProtoSerializer,
};
use crate::firestore::value::value::{lemma_models_of, models_of, ValueModel};
use crate::firestore::value::FirestoreValue;
use crate::json::{json_member, json_models, lemma_json_models, JsonModel, JsonValue};

verus! {

/// A write result as plain values: its update time and the models of its
/// transform results.
pub open spec fn result_models(rs: Seq<WriteResult>) -> Seq<(Option<Timestamp>, Seq<ValueModel>)> {
    rs.map_values(|r: WriteResult| (r.update_time, models_of(r.transform_results@)))
}

/// One write result read from its JSON form: an optional `updateTime` and the
/// values of an optional `transformResults` array.
pub open spec fn decoded_write_result(v: JsonModel) -> Result<(Option<Timestamp>, Seq<ValueModel>), FirestoreErrorCode> {
    match decoded_time(json_member(v, "updateTime"@)) {
        Err(code) => Err(code),
        Ok(update_time) => match json_member(v, "transformResults"@) {
            Some(JsonModel::Array(ys)) => match decoded_list(ys) {
                None => Err(FirestoreErrorCode::InvalidArgument),
                Some(values) => Ok((update_time, values)),
            },
            _ => Ok((update_time, Seq::<ValueModel>::empty())),
        },
    }
}

/// The write results of a list, in order; the first failure wins.
pub open spec fn decoded_write_results(xs: Seq<JsonModel>) -> Result<Seq<(Option<Timestamp>, Seq<ValueModel>)>, FirestoreErrorCode>
    decreases xs.len(),
{
    if xs.len() == 0 {
        Ok(Seq::<(Option<Timestamp>, Seq<ValueModel>)>::empty())
    } else {
        match decoded_write_results(xs.drop_last()) {
            Err(code) => Err(code),
            Ok(prev) => match decoded_write_result(xs.last()) {
                Err(code) => Err(code),
                Ok(r) => Ok(prev.push(r)),
            },
        }
    }
}

/// A write response read from its JSON form: a base64 `streamToken`, which
/// must be there, an optional `commitTime` and the `writeResults`.
pub open spec fn decoded_write_response(v: JsonModel) -> Result<(Seq<u8>, Option<Timestamp>, Seq<(Option<Timestamp>, Seq<ValueModel>)>), FirestoreErrorCode> {
    match text_of(json_member(v, "streamToken"@)) {
        None => Err(FirestoreErrorCode::Internal),
        Some(t) => match base64_bytes(t) {
            None => Err(FirestoreErrorCode::Internal),
            Some(token) => match decoded_time(json_member(v, "commitTime"@)) {
                Err(code) => Err(code),
                Ok(commit_time) => match json_member(v, "writeResults"@) {
                    Some(JsonModel::Array(xs)) => match decoded_write_results(xs) {
                        Err(code) => Err(code),
                        Ok(results) => Ok((token, commit_time, results)),
                    },
                    _ => Ok((token, commit_time, Seq::<(Option<Timestamp>, Seq<ValueModel>)>::empty())),
                },
            },
        },
    }
}

/// Reads one write result.
pub fn decode_write_result(serializer: &JsonProtoSerializer, value: &JsonValue) -> (r: FirestoreResult<WriteResult>)
    ensures
        match r {
            Ok(x) => decoded_write_result(value@) == Ok::<(Option<Timestamp>, Seq<ValueModel>), FirestoreErrorCode>((x.update_time, models_of(x.transform_results@))),
            Err(e) => decoded_write_result(value@) == Err::<(Option<Timestamp>, Seq<ValueModel>), FirestoreErrorCode>(e.code),
        },
{
    let update_time = match member_time(value.get("updateTime")) {
        Ok(t) => t,
        Err(e) => {
            return Err(e);
        },
    };
    let transform_results = match value.get("transformResults") {
        Some(results) => match results.as_array() {
            Some(ys) => match decode_list(ys) {
                Ok(values) => values,
                Err(e) => {
                    return Err(e);
                },
            },
            None => Vec::new(),
        },
        None => Vec::new(),
    };
    proof {
        lemma_models_of(transform_results@);
    }
    assert(transform_results@.len() == 0 ==> models_of(transform_results@) =~= Seq::<ValueModel>::empty());
    Ok(WriteResult { update_time, transform_results })
}

/// Reads one message of the write stream. Errors come with the internal
/// code, except for times that are not RFC 3339 timestamps and values that do
/// not decode (invalid argument).
pub fn decode_write_response(serializer: &JsonProtoSerializer, value: &JsonValue) -> (r: FirestoreResult<WriteResponse>)
    ensures
        match r {
            Ok(x) => decoded_write_response(value@) == Ok::<(Seq<u8>, Option<Timestamp>, Seq<(Option<Timestamp>, Seq<ValueModel>)>), FirestoreErrorCode>(
                (x.stream_token@, x.commit_time, result_models(x.write_results@)),
            ),
            Err(e) => decoded_write_response(value@) == Err::<(Seq<u8>, Option<Timestamp>, Seq<(Option<Timestamp>, Seq<ValueModel>)>), FirestoreErrorCode>(e.code),
        },
{
    let token_text = match value.get("streamToken") {
        Some(t) => match t.as_str() {
            Some(s) => s,
            None => {
                return Err(internal_error("write response missing streamToken"));
            },
        },
        None => {
            return Err(internal_error("write response missing streamToken"));
        },
    };
    let stream_token = match decode_base64(token_text) {
        Ok(bytes) => bytes,
        Err(err) => {
            let mut message = crate::text::owned("Invalid streamToken: ");
            message.append(err.as_str());
            return Err(internal_error(message.as_str()));
        },
    };
    let commit_time = match member_time(value.get("commitTime")) {
        Ok(t) => t,
        Err(e) => {
            return Err(e);
        },
    };
    let mut write_results: Vec<WriteResult> = Vec::new();
    match value.get("writeResults") {
        Some(results) => match results.as_array() {
            Some(xs) => {
                proof {
                    lemma_json_models(xs@);
                }
                let ghost ms = json_models(xs@);
                assert(ms.take(0) =~= Seq::<JsonModel>::empty());
                assert(result_models(write_results@) =~= Seq::<(Option<Timestamp>, Seq<ValueModel>)>::empty());
                let ghost token = stream_token@;
                assert(decoded_write_response(value@) == match decoded_write_results(ms) {
                    Err(code) => Err(code),
                    Ok(rs) => Ok::<(Seq<u8>, Option<Timestamp>, Seq<(Option<Timestamp>, Seq<ValueModel>)>), FirestoreErrorCode>((token, commit_time, rs)),
                });
                let mut i: usize = 0;
                while i < xs.len()
                    invariant
                        i <= xs@.len(),
                        decoded_write_response(value@) == match decoded_write_results(ms) {
                            Err(code) => Err(code),
                            Ok(rs) => Ok::<(Seq<u8>, Option<Timestamp>, Seq<(Option<Timestamp>, Seq<ValueModel>)>), FirestoreErrorCode>((token, commit_time, rs)),
                        },
                        token == stream_token@,
                        ms == json_models(xs@),
                        ms.len() == xs@.len(),
                        forall|k: int| 0 <= k < xs@.len() ==> #[trigger] ms[k] == xs@[k]@,
                        decoded_write_results(ms.take(i as int)) == Ok::<Seq<(Option<Timestamp>, Seq<ValueModel>)>, FirestoreErrorCode>(result_models(write_results@)),
                    decreases xs@.len() - i,
                {
                    proof {
                        let t = ms.take(i + 1);
                        assert(t.drop_last() =~= ms.take(i as int));
                        assert(t.last() == xs@[i as int]@);
                    }
                    match decode_write_result(serializer, &xs[i]) {
                        Ok(r) => {
                            let ghost before = write_results@;
                            write_results.push(r);
                            assert(result_models(write_results@) =~= result_models(before).push(
                                (write_results@.last().update_time, models_of(write_results@.last().transform_results@)),
                            ));
                        },
                        Err(e) => {
                            proof {
                                lemma_results_err_extends(ms, i + 1);
                            }
                            return Err(e);
                        },
                    }
                    i = i + 1;
                }
                assert(ms.take(ms.len() as int) =~= ms);
            },
            None => {
                assert(result_models(write_results@) =~= Seq::<(Option<Timestamp>, Seq<ValueModel>)>::empty());
            },
        },
        None => {
            assert(result_models(write_results@) =~= Seq::<(Option<Timestamp>, Seq<ValueModel>)>::empty());
        },
    }
    Ok(WriteResponse { stream_token, commit_time, write_results })
}

/// A failure on a prefix of the results is the failure of all of them.
proof fn lemma_results_err_extends(xs: Seq<JsonModel>, k: int)
    requires
        0 <= k <= xs.len(),
        decoded_write_results(xs.take(k)) is Err,
    ensures
        decoded_write_results(xs) == decoded_write_results(xs.take(k)),
    decreases xs.len(),
{
    if k == xs.len() {
        assert(xs.take(k) =~= xs);
    } else {
        assert(xs.drop_last().take(k) =~= xs.take(k));
        lemma_results_err_extends(xs.drop_last(), k);
    }
}

/// Receives what the write stream reads.
pub trait WriteStreamDelegate {
    /// The first response of a stream: the handshake is done.
    fn on_handshake_complete(&self) -> FirestoreResult<()>;

    /// A response to written mutations.
    fn on_write_response(&self, response: WriteResponse) -> FirestoreResult<()>;

    /// The stream failed.
    fn on_stream_error(&self, error: FirestoreError);
}

} // verus!
