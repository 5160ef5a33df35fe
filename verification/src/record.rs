//! Transcript records: decoding one JSON line through `serde_json`
//! behind trusted wrappers, and the verified rendering of a message
//! body to display content, with image blocks replaced by placeholders.

use vstd::prelude::*;
use vstd::string::StringExecFns;

use crate::text::{dec_digits, push_char, push_digits};
use crate::types::ImageInfo;

verus! {

/// One content block of a message body.
#[derive(Clone, Debug)]
pub enum Block {
    /// A block carrying display text.
    Text(String),
    /// An image block with a source; the length of its encoded payload,
    /// when the payload is present.
    Image { data_len: Option<usize> },
    /// Any other block: contributes nothing to rendering.
    Other,
}

/// A message body: absent, a plain string, or an ordered block list.
#[derive(Clone, Debug)]
pub enum Body {
    Absent,
    PlainText(String),
    Blocks(Vec<Block>),
}

/// One decoded transcript line.
#[derive(Clone, Debug)]
pub struct MessageRecord {
    pub uuid: String,
    pub parent_uuid: Option<String>,
    pub msg_type: String,
    pub timestamp: String,
    pub session_id: Option<String>,
    pub message: Body,
}

/// The identifying fields of a record, without its body.
#[derive(Clone, Debug)]
pub struct RecordMeta {
    pub uuid: String,
    pub parent_uuid: Option<String>,
    pub msg_type: String,
    pub timestamp: String,
    pub session_id: Option<String>,
}

/// Declares `serde_json::Value`, the opaque parsed-JSON tree the
/// decoding wrappers walk.
#[verifier::external_type_specification]
#[verifier::external_body]
pub struct ExValue(serde_json::Value);

/// The identifying fields that decoding one transcript line yields:
/// `None` when the line is not a JSON object carrying string `uuid`,
/// `type` and `timestamp` fields.  A function of the line text alone.
pub uninterp spec fn meta_of(line: Seq<char>) -> Option<RecordMeta>;

/// The body that decoding one transcript line yields; a function of
/// the line text alone.
pub uninterp spec fn body_of(line: Seq<char>) -> Body;

/// Relies on `serde_json::from_str` and the `serde_json::Value`
/// accessors `get` and `as_str`: the record's identifying fields, a
/// function of the line text alone.
#[verifier::external_body]
fn decode_meta(line: &str) -> (r: Option<RecordMeta>)
    ensures
        r == meta_of(line@),
{
    let v: serde_json::Value = serde_json::from_str(line).ok()?;
    Some(RecordMeta {
        uuid: v.get("uuid")?.as_str()?.to_string(),
        parent_uuid: v.get("parentUuid").and_then(|x| x.as_str()).map(str::to_string),
        msg_type: v.get("type")?.as_str()?.to_string(),
        timestamp: v.get("timestamp")?.as_str()?.to_string(),
        session_id: v.get("sessionId").and_then(|x| x.as_str()).map(str::to_string),
    })
}

/// Relies on `serde_json::from_str` and the `serde_json::Value`
/// accessors `get`, `as_str` and `as_array`: the record's body under
/// `message.content`, each array element classified as a text block,
/// an image block (with its payload length), or another block.  A
/// function of the line text alone.
#[verifier::external_body]
fn decode_body(line: &str) -> (r: Body)
    ensures
        r == body_of(line@),
{
    let v: serde_json::Value = match serde_json::from_str(line) {
        Ok(v) => v,
        Err(_) => return Body::Absent,
    };
    let c = match v.get("message").and_then(|m| m.get("content")) {
        Some(c) => c,
        None => return Body::Absent,
    };
    if let Some(s) = c.as_str() {
        return Body::PlainText(s.to_string());
    }
    match c.as_array() {
        Some(arr) => Body::Blocks(arr.iter().map(block_of_value).collect()),
        None => Body::Absent,
    }
}

/// Relies on the `serde_json::Value` accessors `get` and `as_str`:
/// classifies one block of a `message.content` array, as the rendering
/// rules need it.  Converts for `decode_body` alone.
#[verifier::external_body]
fn block_of_value(item: &serde_json::Value) -> Block {
    let is_image = item.get("type").and_then(|t| t.as_str()) == Some("image");
    if is_image && item.get("source").is_some() {
        let data_len = item.get("source").and_then(|s| s.get("data")).and_then(|d| d.as_str()).map(
            str::len,
        );
        Block::Image { data_len }
    } else if !is_image && item.get("text").and_then(|t| t.as_str()).is_some() {
        Block::Text(item.get("text").and_then(|t| t.as_str()).unwrap_or("").to_string())
    } else {
        Block::Other
    }
}

/// The record one transcript line decodes to, or `None` when the line
/// is malformed.
pub open spec fn record_of(line: Seq<char>) -> Option<MessageRecord> {
    match meta_of(line) {
        Some(m) => Some(
            MessageRecord {
                uuid: m.uuid,
                parent_uuid: m.parent_uuid,
                msg_type: m.msg_type,
                timestamp: m.timestamp,
                session_id: m.session_id,
                message: body_of(line),
            },
        ),
        None => None,
    }
}

/// Decodes one transcript line; `None` on a malformed line, which a
/// scan skips rather than aborts on.
pub fn decode_record(line: &str) -> (r: Option<MessageRecord>)
    ensures
        r == record_of(line@),
{
    match decode_meta(line) {
        Some(m) => Some(
            MessageRecord {
                uuid: m.uuid,
                parent_uuid: m.parent_uuid,
                msg_type: m.msg_type,
                timestamp: m.timestamp,
                session_id: m.session_id,
                message: decode_body(line),
            },
        ),
        None => None,
    }
}

// ---------------------------------------------------------------------------
// Rendering
// ---------------------------------------------------------------------------

/// The payload size in tenths of a megabyte, rounded to nearest with
/// ties to even — the rounding that formatting the exact binary size
/// to one decimal place performs.
pub open spec fn size_tenths(data_len: int) -> int {
    let whole = (data_len * 10) / 1048576;
    let rem = (data_len * 10) % 1048576;
    if rem > 524288 {
        whole + 1
    } else if rem < 524288 {
        whole
    } else if whole % 2 == 0 {
        whole
    } else {
        whole + 1
    }
}

/// The placeholder text an image block renders to: its position and
/// its payload size in megabytes with one decimal place.
pub open spec fn spec_placeholder(idx: int, data_len: int) -> Seq<char> {
    "[IMAGE:"@ + dec_digits(idx) + " size="@ + dec_digits(size_tenths(data_len) / 10) + "."@
        + dec_digits(size_tenths(data_len) % 10) + "MB]"@
}

/// The length `block_piece` sees for an image block: the payload
/// length, or zero when the source carries none.
pub open spec fn image_len(data_len: Option<usize>) -> int {
    match data_len {
        Some(n) => n as int,
        None => 0,
    }
}

/// The piece one block at position `idx` contributes to rendering.
pub open spec fn block_piece(b: Block, idx: int) -> Option<Seq<char>> {
    match b {
        Block::Text(s) => Some(s@),
        Block::Image { data_len } => Some(spec_placeholder(idx, image_len(data_len))),
        Block::Other => None,
    }
}

/// The pieces the blocks contribute, in order.
pub open spec fn render_pieces(blocks: Seq<Block>) -> Seq<Seq<char>>
    decreases blocks.len(),
{
    if blocks.len() == 0 {
        Seq::empty()
    } else {
        render_pieces(blocks.drop_last()) + (match block_piece(
            blocks.last(),
            blocks.len() - 1,
        ) {
            Some(p) => seq![p],
            None => Seq::empty(),
        })
    }
}

/// The pieces joined with newlines.
pub open spec fn join_nl(pieces: Seq<Seq<char>>) -> Seq<char>
    decreases pieces.len(),
{
    if pieces.len() == 0 {
        Seq::empty()
    } else if pieces.len() == 1 {
        pieces[0]
    } else {
        join_nl(pieces.drop_last()) + seq!['\n'] + pieces.last()
    }
}

/// The display content of a message body: a plain string verbatim; a
/// block list rendered block by block and joined with newlines; empty
/// when absent.
pub open spec fn render_of(body: Body) -> Seq<char> {
    match body {
        Body::Absent => Seq::empty(),
        Body::PlainText(s) => s@,
        Body::Blocks(bs) => join_nl(render_pieces(bs@)),
    }
}

/// Builds the placeholder text for one image block.
fn placeholder_string(idx: usize, data_len: usize) -> (r: String)
    ensures
        r@ == spec_placeholder(idx as int, image_len(Some(data_len))),
{
    let mut s = "[IMAGE:".to_owned();
    push_digits(&mut s, idx as u64);
    s.append(" size=");
    let num: u128 = (data_len as u128) * 10;
    let whole: u128 = num / 1048576;
    let rem: u128 = num % 1048576;
    proof {
        vstd::arithmetic::div_mod::lemma_fundamental_div_mod(num as int, 1048576);
        if whole + 1 > 0xffff_ffff_ffff_ffff {
            vstd::arithmetic::mul::lemma_mul_inequality(
                0x1_0000_0000_0000_0000,
                whole as int,
                1048576,
            );
        }
    }
    let t128: u128 = if rem > 524288 {
        whole + 1
    } else if rem < 524288 {
        whole
    } else if whole % 2 == 0 {
        whole
    } else {
        whole + 1
    };
    let t: u64 = t128 as u64;
    push_digits(&mut s, t / 10);
    push_char(&mut s, '.');
    push_digits(&mut s, t % 10);
    s.append("MB]");
    proof {
        assert(t == size_tenths(data_len as int));
        reveal_strlit(".");
        assert("."@ =~= seq!['.']);
        assert(s@ =~= spec_placeholder(idx as int, data_len as int));
    }
    s
}

/// Renders a record's display content, replacing each image block by a
/// placeholder naming its position and payload size.
pub fn replace_images_with_placeholders(record: &MessageRecord) -> (r: String)
    ensures
        r@ == render_of(record.message),
{
    match &record.message {
        Body::Absent => String::new(),
        Body::PlainText(s) => s.clone(),
        Body::Blocks(bs) => {
            let mut out = String::new();
            let mut started: bool = false;
            let mut i: usize = 0;
            proof {
                assert(bs@.take(0) =~= Seq::<Block>::empty());
            }
            while i < bs.len()
                invariant
                    i <= bs@.len(),
                    out@ == join_nl(render_pieces(bs@.take(i as int))),
                    started == (render_pieces(bs@.take(i as int)).len() > 0),
                decreases bs@.len() - i,
            {
                let ghost prefix = bs@.take(i as int);
                proof {
                    assert(bs@.take(i + 1).drop_last() =~= prefix);
                    assert(bs@.take(i + 1).last() == bs@[i as int]);
                }
                let piece: Option<String> = match &bs[i] {
                    Block::Text(s) => Some(s.clone()),
                    Block::Image { data_len } => {
                        let n: usize = match data_len {
                            Some(n) => *n,
                            None => 0,
                        };
                        Some(placeholder_string(i, n))
                    },
                    Block::Other => None,
                };
                proof {
                    match &piece {
                        Some(p) => {
                            assert(block_piece(bs@[i as int], i as int) == Some(p@));
                        },
                        None => {
                            assert(block_piece(bs@[i as int], i as int) is None);
                        },
                    }
                }
                match piece {
                    Some(p) => {
                        if started {
                            push_char(&mut out, '\n');
                        }
                        out.append(p.as_str());
                        proof {
                            let pieces1 = render_pieces(bs@.take(i + 1));
                            assert(pieces1 =~= render_pieces(prefix).push(p@));
                            if render_pieces(prefix).len() == 0 {
                                assert(pieces1.len() == 1);
                                assert(out@ =~= join_nl(pieces1));
                            } else {
                                assert(pieces1.drop_last() =~= render_pieces(prefix));
                                assert(out@ =~= join_nl(pieces1));
                            }
                        }
                        started = true;
                    },
                    None => {
                        proof {
                            assert(render_pieces(bs@.take(i + 1)) =~= render_pieces(prefix));
                        }
                    },
                }
                i = i + 1;
            }
            proof {
                assert(bs@.take(bs@.len() as int) =~= bs@);
            }
            out
        },
    }
}

// ---------------------------------------------------------------------------
// Image metadata
// ---------------------------------------------------------------------------

/// The image entries the blocks contribute: position and payload
/// length of each image block whose payload is present.
pub open spec fn images_of_blocks(blocks: Seq<Block>) -> Seq<ImageInfo>
    decreases blocks.len(),
{
    if blocks.len() == 0 {
        Seq::empty()
    } else {
        images_of_blocks(blocks.drop_last()) + (match blocks.last() {
            Block::Image { data_len: Some(n) } => seq![
                ImageInfo { index: (blocks.len() - 1) as usize, size: n },
            ],
            _ => Seq::empty(),
        })
    }
}

/// The image metadata of a message body.
pub open spec fn images_of(body: Body) -> Seq<ImageInfo> {
    match body {
        Body::Blocks(bs) => images_of_blocks(bs@),
        _ => Seq::empty(),
    }
}

/// Collects position and payload size of every image block carrying a
/// payload.
pub fn extract_images(record: &MessageRecord) -> (r: Vec<ImageInfo>)
    ensures
        r@ == images_of(record.message),
{
    match &record.message {
        Body::Blocks(bs) => {
            let mut out: Vec<ImageInfo> = Vec::new();
            let mut i: usize = 0;
            proof {
                assert(bs@.take(0) =~= Seq::<Block>::empty());
                assert(out@ =~= images_of_blocks(bs@.take(0)));
            }
            while i < bs.len()
                invariant
                    i <= bs@.len(),
                    out@ == images_of_blocks(bs@.take(i as int)),
                decreases bs@.len() - i,
            {
                proof {
                    assert(bs@.take(i + 1).drop_last() =~= bs@.take(i as int));
                    assert(bs@.take(i + 1).last() == bs@[i as int]);
                }
                let ghost prev = out@;
                match &bs[i] {
                    Block::Image { data_len: Some(n) } => {
                        out.push(ImageInfo { index: i, size: *n });
                        proof {
                            assert(out@ =~= prev.push(ImageInfo { index: i, size: *n }));
                            assert(out@ =~= images_of_blocks(bs@.take(i + 1)));
                        }
                    },
                    _ => {
                        proof {
                            assert(images_of_blocks(bs@.take(i + 1)) =~= prev);
                        }
                    },
                }
                i = i + 1;
            }
            proof {
                assert(bs@.take(bs@.len() as int) =~= bs@);
            }
            out
        },
        _ => Vec::new(),
    }
}

} // verus!
