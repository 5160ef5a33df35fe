//! Fetching one message by address: the addressed line is decoded and
//! rendered in full, an optional character range cuts a chunk out of
//! it, and an oversized message is reported rather than returned.

use vstd::prelude::*;
use vstd::string::StringExecFns;

use crate::record::{decode_record, images_of, record_of, render_of, replace_images_with_placeholders};
use crate::refs::ParsedRef;
use crate::types::{ErrorKind, ErrorResponse, GetResponse};

verus! {

/// Above this rendered size (in characters) a message is not returned
/// inline.
pub const MAX_DIRECT_SIZE: usize = 100000;

/// The parameters of one fetch.
#[derive(Clone, Debug)]
pub struct GetParams {
    /// The address, `prefix:line`.
    pub ref_str: String,
    /// A character range `[start, end)` of the rendered content, for
    /// chunked reading.
    pub range: Option<(usize, usize)>,
    /// A directory to export content and images to; the caller's
    /// concern, ignored here.
    pub output: Option<String>,
    /// Project scope hint for resolving the session; the caller's
    /// concern.
    pub project: Option<String>,
}

/// A successful fetch of the given decoded line: the range cut when
/// one was asked for; otherwise the full content, unless it is over
/// the inline ceiling.
pub open spec fn spec_get_ok(resp: GetResponse, params: GetParams, line: Seq<char>) -> bool {
    let rec = record_of(line)->0;
    let content = render_of(rec.message);
    let n_images = images_of(rec.message).len();
    match params.range {
        Some((start, end)) => {
            let e = if end as int <= content.len() {
                end as int
            } else {
                content.len() as int
            };
            let s = if start as int <= e {
                start as int
            } else {
                e
            };
            (resp matches GetResponse::Success {
                ref_str,
                msg_type,
                content: got,
                content_size,
                image_count,
            } && ref_str@ == params.ref_str@ && msg_type@ == rec.msg_type@ && got@
                == content.subrange(s, e) && content_size == content.len() && image_count
                == n_images)
        },
        None => {
            if content.len() > MAX_DIRECT_SIZE {
                (resp matches GetResponse::TooLarge { error, ref_str, size, suggestion } && error@
                    == "content_too_large"@ && ref_str@ == params.ref_str@ && size
                    == content.len())
            } else {
                (resp matches GetResponse::Success {
                    ref_str,
                    msg_type,
                    content: got,
                    content_size,
                    image_count,
                } && ref_str@ == params.ref_str@ && msg_type@ == rec.msg_type@ && got@ == content
                    && content_size == content.len() && image_count == n_images)
            }
        },
    }
}

/// Fetches the addressed message from the session's raw lines.  Fails
/// with invalid-ref on a malformed address, ref-not-found when the
/// line does not exist, and parse-error when the one line the call
/// needs does not decode.  Exporting to a directory is the caller's
/// concern: this always answers inline.
pub fn get(lines: &Vec<String>, params: &GetParams) -> (r: Result<GetResponse, ErrorResponse>)
    ensures
        ParsedRef::spec_parse(params.ref_str@) is None <==> (r matches Err(e) && e.kind
            == ErrorKind::InvalidRef),
        ParsedRef::spec_parse(params.ref_str@) matches Some(pr) ==> {
            if pr.1 > lines@.len() {
                (r matches Err(e) && e.kind == ErrorKind::RefNotFound)
            } else if record_of(lines@[pr.1 - 1]@) is None {
                (r matches Err(e) && e.kind == ErrorKind::ParseError)
            } else {
                (r matches Ok(resp) && spec_get_ok(resp, *params, lines@[pr.1 - 1]@))
            }
        },
{
    let parsed = match ParsedRef::parse(params.ref_str.as_str()) {
        Some(p) => p,
        None => {
            let mut message = "invalid ref format: ".to_owned();
            message.append(params.ref_str.as_str());
            return Err(ErrorResponse { kind: ErrorKind::InvalidRef, message });
        },
    };
    if parsed.line > lines.len() {
        let mut message = "ref not found: ".to_owned();
        message.append(params.ref_str.as_str());
        return Err(ErrorResponse { kind: ErrorKind::RefNotFound, message });
    }
    let record = match decode_record(lines[parsed.line - 1].as_str()) {
        Some(rec) => rec,
        None => {
            let mut message = "failed to decode message: ".to_owned();
            message.append(params.ref_str.as_str());
            return Err(ErrorResponse { kind: ErrorKind::ParseError, message });
        },
    };
    let content = replace_images_with_placeholders(&record);
    let content_size = content.as_str().unicode_len();
    let image_count = crate::record::extract_images(&record).len();
    if let Some((start, end)) = params.range {
        let e = if end <= content_size {
            end
        } else {
            content_size
        };
        let s = if start <= e {
            start
        } else {
            e
        };
        let partial = content.as_str().substring_char(s, e).to_owned();
        return Ok(
            GetResponse::Success {
                ref_str: params.ref_str.clone(),
                msg_type: record.msg_type,
                content: partial,
                content_size,
                image_count,
            },
        );
    }
    if content_size > MAX_DIRECT_SIZE {
        return Ok(
            GetResponse::TooLarge {
                error: "content_too_large".to_owned(),
                ref_str: params.ref_str.clone(),
                size: content_size,
                suggestion: "export with an output directory, or fetch in chunks with a range".to_owned(),
            },
        );
    }
    Ok(
        GetResponse::Success {
            ref_str: params.ref_str.clone(),
            msg_type: record.msg_type,
            content,
            content_size,
            image_count,
        },
    )
}

} // verus!
