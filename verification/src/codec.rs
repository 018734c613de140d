//! The wire codec: change events out, write requests in.
//!
//! An outbound frame is a one-byte tag (`c`, `u` or `d`), the absolute path,
//! and for create and update a newline followed by the full file content. An
//! inbound frame is a relative path, a newline, and the content to write.
//! There are no length prefixes: the first newline is the one separator, so
//! a path must never contain one.

use vstd::prelude::*;
use vstd::utf8::valid_utf8;
use crate::NEWLINE;
use crate::bytescan::first_at;
use crate::bytescan::lemma_first_at;
use crate::bytescan::lemma_first_at_append;
use crate::bytescan::find_byte;
use crate::bytescan::append_bytes;
use crate::errors::Error;
use crate::event::ChangeEvent;

verus! {

/// Outbound tag announcing a created file: the letter `c`.
pub const TAG_CREATE: u8 = 99;

/// Outbound tag announcing updated content: the letter `u`.
pub const TAG_UPDATE: u8 = 117;

/// Outbound tag announcing a removed file: the letter `d`.
pub const TAG_DELETE: u8 = 100;

/// A peer request: write `content` to the file at `relative_path` under
/// the base directory.
#[derive(Debug)]
pub struct WriteRequest {
    pub relative_path: Vec<u8>,
    pub content: Vec<u8>,
}

/// The exact bytes of the outbound frame for one change event.
pub open spec fn spec_encode(ev: ChangeEvent) -> Seq<u8> {
    match ev {
        ChangeEvent::Create { path, content } => seq![TAG_CREATE] + path@ + seq![NEWLINE]
            + content@,
        ChangeEvent::Update { path, content } => seq![TAG_UPDATE] + path@ + seq![NEWLINE]
            + content@,
        ChangeEvent::Delete { path } => seq![TAG_DELETE] + path@,
    }
}

/// Encode one change event into its outbound frame.
pub fn encode_event(ev: &ChangeEvent) -> (frame: Vec<u8>)
    ensures
        frame@ == spec_encode(*ev),
{
    let mut frame: Vec<u8> = Vec::new();
    match ev {
        ChangeEvent::Create { path, content } => {
            frame.push(TAG_CREATE);
            append_bytes(&mut frame, path.as_slice());
            frame.push(NEWLINE);
            append_bytes(&mut frame, content.as_slice());
            proof {
                assert(frame@ =~= seq![TAG_CREATE] + path@ + seq![NEWLINE] + content@);
            }
        },
        ChangeEvent::Update { path, content } => {
            frame.push(TAG_UPDATE);
            append_bytes(&mut frame, path.as_slice());
            frame.push(NEWLINE);
            append_bytes(&mut frame, content.as_slice());
            proof {
                assert(frame@ =~= seq![TAG_UPDATE] + path@ + seq![NEWLINE] + content@);
            }
        },
        ChangeEvent::Delete { path } => {
            frame.push(TAG_DELETE);
            append_bytes(&mut frame, path.as_slice());
            proof {
                assert(frame@ =~= seq![TAG_DELETE] + path@);
            }
        },
    }
    frame
}

/// Build the inbound frame that requests writing `content` at
/// `relative_path`: the path, a newline, the content.
pub fn encode_request(relative_path: &[u8], content: &[u8]) -> (frame: Vec<u8>)
    ensures
        frame@ == relative_path@ + seq![NEWLINE] + content@,
{
    let mut frame: Vec<u8> = Vec::new();
    append_bytes(&mut frame, relative_path);
    frame.push(NEWLINE);
    append_bytes(&mut frame, content);
    proof {
        assert(frame@ =~= relative_path@ + seq![NEWLINE] + content@);
    }
    frame
}

/// `frame` splits into the newline-free path `rel` and the content
/// `content`. A given frame splits in at most one way.
pub open spec fn frame_splits_into(frame: Seq<u8>, rel: Seq<u8>, content: Seq<u8>) -> bool {
    &&& !rel.contains(NEWLINE)
    &&& frame == rel + seq![NEWLINE] + content
}

/// A frame determines its split: the path ends at the first newline.
pub proof fn lemma_split_unique(frame: Seq<u8>, r1: Seq<u8>, c1: Seq<u8>, r2: Seq<u8>, c2: Seq<u8>)
    requires
        frame_splits_into(frame, r1, c1),
        frame_splits_into(frame, r2, c2),
    ensures
        r1 == r2,
        c1 == c2,
{
    if r1.len() < r2.len() {
        assert(frame[r1.len() as int] == NEWLINE);
        assert(r2[r1.len() as int] == NEWLINE);
        assert(r2.contains(NEWLINE));
    }
    if r2.len() < r1.len() {
        assert(frame[r2.len() as int] == NEWLINE);
        assert(r1[r2.len() as int] == NEWLINE);
        assert(r1.contains(NEWLINE));
    }
    assert forall|i: int| 0 <= i < r1.len() implies r1[i] == r2[i] by {
        assert(r1[i] == (r1 + seq![NEWLINE] + c1)[i]);
        assert(r2[i] == (r2 + seq![NEWLINE] + c2)[i]);
    }
    assert(r1 =~= r2);
    assert(frame.len() == r1.len() + 1 + c1.len());
    assert(frame.len() == r2.len() + 1 + c2.len());
    assert(c1.len() == c2.len());
    assert forall|i: int| 0 <= i < c1.len() implies c1[i] == c2[i] by {
        assert(c1[i] == (r1 + seq![NEWLINE] + c1)[r1.len() + 1 + i]);
        assert(c2[i] == (r2 + seq![NEWLINE] + c2)[r2.len() + 1 + i]);
    }
    assert(c1 =~= c2);
}

/// Round trip of the inbound framing: a frame built as `rel`, newline,
/// `content` — with `rel` free of newlines — has its first newline exactly
/// after `rel`, so decoding recovers `rel` and `content` unchanged.
pub proof fn lemma_frame_round_trip(rel: Seq<u8>, content: Seq<u8>)
    ensures
        ({
            let frame = rel + seq![NEWLINE] + content;
            !rel.contains(NEWLINE) ==> {
                &&& frame.contains(NEWLINE)
                &&& first_at(frame, NEWLINE) == rel.len()
                &&& frame.subrange(0, rel.len() as int) == rel
                &&& frame.subrange(rel.len() as int + 1, frame.len() as int) == content
            }
        }),
{
    let frame = rel + seq![NEWLINE] + content;
    if !rel.contains(NEWLINE) {
        lemma_first_at_append(rel, NEWLINE, seq![NEWLINE] + content);
        assert(frame =~= rel + (seq![NEWLINE] + content));
        assert((seq![NEWLINE] + content)[0] == NEWLINE);
        assert(frame[rel.len() as int] == NEWLINE);
        assert(frame.subrange(0, rel.len() as int) =~= rel);
        assert(frame.subrange(rel.len() as int + 1, frame.len() as int) =~= content);
    }
}

/// Relies on std's `str::from_utf8`: it returns `Ok` exactly when the bytes
/// are valid UTF-8, the property vstd's `valid_utf8` states.
#[verifier::external_body]
pub(crate) fn bytes_are_valid_utf8(bytes: &[u8]) -> (r: bool)
    ensures
        r == valid_utf8(bytes@),
{
    core::str::from_utf8(bytes).is_ok()
}

/// Decode one inbound frame into a write request.
///
/// The relative path is everything before the first newline, the content
/// everything after it. A frame with no newline at all is rejected with
/// `NoNewlineToSeparatePath`; a path that is not valid UTF-8 is rejected
/// with `InvalidPath`. Every other frame is accepted.
pub fn decode_frame(frame: &[u8]) -> (r: Result<WriteRequest, Error>)
    ensures
        match r {
            Ok(req) => {
                &&& frame_splits_into(frame@, req.relative_path@, req.content@)
                &&& valid_utf8(req.relative_path@)
            },
            Err(e) => {
                ||| (e == Error::NoNewlineToSeparatePath && !frame@.contains(NEWLINE))
                ||| (e == Error::InvalidPath && frame@.contains(NEWLINE) && !valid_utf8(
                    frame@.subrange(0, first_at(frame@, NEWLINE)),
                ))
            },
        },
{
    let p = find_byte(frame, NEWLINE);
    proof {
        lemma_first_at(frame@, NEWLINE);
    }
    if p == frame.len() {
        return Err(Error::NoNewlineToSeparatePath);
    }
    let rel_slice = vstd::slice::slice_subrange(frame, 0, p);
    if !bytes_are_valid_utf8(rel_slice) {
        proof {
            assert(frame@.contains(NEWLINE)) by {
                assert(frame@[p as int] == NEWLINE);
            }
        }
        return Err(Error::InvalidPath);
    }
    let relative_path = vstd::slice::slice_to_vec(rel_slice);
    let content = vstd::slice::slice_to_vec(
        vstd::slice::slice_subrange(frame, p + 1, frame.len()),
    );
    proof {
        assert(frame@ =~= frame@.subrange(0, p as int) + seq![NEWLINE] + frame@.subrange(
            p as int + 1,
            frame@.len() as int,
        ));
        assert(!frame@.subrange(0, p as int).contains(NEWLINE)) by {
            if frame@.subrange(0, p as int).contains(NEWLINE) {
                let i = choose|i: int|
                    0 <= i < p && frame@.subrange(0, p as int)[i] == NEWLINE;
                assert(frame@[i] == NEWLINE);
            }
        }
    }
    Ok(WriteRequest { relative_path, content })
}

} // verus!
