//! Bounded capture of request and response bodies for the traffic log.

use vstd::prelude::*;
use crate::grpc::{grpc_preview, looks_like_text_bytes, opt_views, render_grpc_preview, text_like};
use crate::routes::opt_view;
use crate::text::{string_of, utf8_lossy, utf8_lossy_chars};

verus! {

/// What was recorded of a body.
#[derive(Debug, Clone, PartialEq, Eq)]
pub struct BodyPreviewResult {
    pub preview: Option<String>,
    pub truncated: bool,
    pub binary: bool,
}

impl Default for BodyPreviewResult {
    fn default() -> (r: Self)
        ensures
            r.preview is None,
            !r.truncated,
            !r.binary,
    {
        BodyPreviewResult { preview: None, truncated: false, binary: false }
    }
}

/// The first bytes of a body, up to a limit.
#[derive(Debug, Clone)]
pub struct PreviewCapture {
    pub max_bytes: usize,
    pub text_only: bool,
    pub bytes: Vec<u8>,
    pub truncated: bool,
}

/// The bytes kept when `chunk` arrives after `kept`.
pub open spec fn kept_after(kept: Seq<u8>, max: nat, chunk: Seq<u8>) -> Seq<u8> {
    if chunk.len() == 0 || max == 0 || kept.len() >= max {
        kept
    } else if chunk.len() > max - kept.len() {
        kept + chunk.take(max - kept.len())
    } else {
        kept + chunk
    }
}

/// Whether bytes were dropped when `chunk` arrived after `kept`.
pub open spec fn dropped_some(kept: Seq<u8>, max: nat, chunk: Seq<u8>) -> bool {
    chunk.len() > 0 && (max == 0 || kept.len() >= max || chunk.len() > max - kept.len())
}

/// All the chunks of a body, in order, as one.
pub open spec fn concat_chunks(chunks: Seq<Seq<u8>>) -> Seq<u8>
    decreases chunks.len(),
{
    if chunks.len() == 0 {
        seq![]
    } else {
        concat_chunks(chunks.drop_last()) + chunks.last()
    }
}

/// The bytes a fresh capture with limit `max` keeps after taking in `chunks`
/// one by one.
pub open spec fn kept_series(max: nat, chunks: Seq<Seq<u8>>) -> Seq<u8>
    decreases chunks.len(),
{
    if chunks.len() == 0 {
        seq![]
    } else {
        kept_after(kept_series(max, chunks.drop_last()), max, chunks.last())
    }
}

/// Whether a fresh capture with limit `max` dropped bytes while taking in
/// `chunks` one by one.
pub open spec fn dropped_series(max: nat, chunks: Seq<Seq<u8>>) -> bool
    decreases chunks.len(),
{
    if chunks.len() == 0 {
        false
    } else {
        dropped_series(max, chunks.drop_last()) || dropped_some(
            kept_series(max, chunks.drop_last()),
            max,
            chunks.last(),
        )
    }
}

/// However a body is cut into chunks, a capture with limit `max` keeps its
/// first `max` bytes (all of them when it is shorter), and marks itself
/// truncated exactly when the body is longer than `max`.
pub proof fn law_ingest_keeps_prefix(max: nat, chunks: Seq<Seq<u8>>)
    ensures
        kept_series(max, chunks) == if concat_chunks(chunks).len() <= max {
            concat_chunks(chunks)
        } else {
            concat_chunks(chunks).take(max as int)
        },
        dropped_series(max, chunks) == (concat_chunks(chunks).len() > max),
    decreases chunks.len(),
{
    if chunks.len() > 0 {
        let pre = chunks.drop_last();
        let c = chunks.last();
        law_ingest_keeps_prefix(max, pre);
        let a = concat_chunks(pre);
        let all = concat_chunks(chunks);
        assert(all == a + c);
        if a.len() >= max {
            assert(all.take(max as int) =~= a.take(max as int));
            if a.len() == max {
                assert(a.take(max as int) =~= a);
            }
        } else if c.len() > max - a.len() {
            assert(all.take(max as int) =~= a + c.take(max - a.len()));
        }
    }
}

/// Feeding a capture chunk by chunk: a capture made by `new(m, t)` holds
/// what [`kept_series`] and [`dropped_series`] give for no chunks, and each
/// `ingest` (whose contract relates `before` and `after` as required here)
/// carries that over to the series with one more chunk. So after `x1..xn`
/// the capture holds the first `min(m, total)` bytes of `x1 ++ .. ++ xn`, at
/// most `m`, and is truncated exactly when the total exceeds `m`; its limit
/// does not change.
pub proof fn law_ingest_series(
    before: PreviewCapture,
    after: PreviewCapture,
    chunks: Seq<Seq<u8>>,
    chunk: Seq<u8>,
)
    requires
        before.bytes@ == kept_series(before.max_bytes as nat, chunks),
        before.truncated == dropped_series(before.max_bytes as nat, chunks),
        after.max_bytes == before.max_bytes,
        after.bytes@ == kept_after(before.bytes@, before.max_bytes as nat, chunk),
        after.truncated == (before.truncated || dropped_some(
            before.bytes@,
            before.max_bytes as nat,
            chunk,
        )),
    ensures
        kept_series(before.max_bytes as nat, seq![]).len() == 0,
        !dropped_series(before.max_bytes as nat, seq![]),
        after.bytes@ == kept_series(after.max_bytes as nat, chunks.push(chunk)),
        after.truncated == dropped_series(after.max_bytes as nat, chunks.push(chunk)),
        after.bytes@ == if concat_chunks(chunks.push(chunk)).len() <= after.max_bytes {
            concat_chunks(chunks.push(chunk))
        } else {
            concat_chunks(chunks.push(chunk)).take(after.max_bytes as int)
        },
        after.bytes@.len() <= after.max_bytes,
        after.truncated == (concat_chunks(chunks.push(chunk)).len() > after.max_bytes),
{
    let all = chunks.push(chunk);
    assert(all.drop_last() =~= chunks);
    assert(all.last() == chunk);
    law_ingest_keeps_prefix(after.max_bytes as nat, all);
}

/// What `finish` returns for the kept bytes.
pub open spec fn finished(bytes: Seq<u8>, text_only: bool, truncated: bool) -> (Option<Seq<char>>, bool, bool) {
    if bytes.len() == 0 {
        (None, truncated, false)
    } else if text_only && !text_like(bytes) {
        (None, truncated, true)
    } else {
        (Some(utf8_lossy(bytes)), truncated, false)
    }
}

impl PreviewCapture {
    /// The capture keeps no more than its limit.
    pub open spec fn wf(&self) -> bool {
        self.bytes@.len() <= self.max_bytes
    }

    pub fn new(max_bytes: usize, text_only: bool) -> (r: Self)
        ensures
            r.max_bytes == max_bytes,
            r.text_only == text_only,
            r.bytes@.len() == 0,
            !r.truncated,
            r.wf(),
    {
        PreviewCapture { max_bytes, text_only, bytes: Vec::new(), truncated: false }
    }

    /// Takes in the next chunk of the body, keeping at most `max_bytes` in all.
    pub fn ingest(&mut self, chunk: &[u8])
        requires
            old(self).wf(),
        ensures
            final(self).wf(),
            final(self).max_bytes == old(self).max_bytes,
            final(self).text_only == old(self).text_only,
            final(self).bytes@ == kept_after(old(self).bytes@, old(self).max_bytes as nat, chunk@),
            final(self).truncated == (old(self).truncated || dropped_some(
                old(self).bytes@,
                old(self).max_bytes as nat,
                chunk@,
            )),
    {
        if chunk.len() == 0 {
            return;
        }
        if self.max_bytes == 0 {
            self.truncated = true;
            return;
        }
        if self.bytes.len() >= self.max_bytes {
            self.truncated = true;
            return;
        }
        let remaining = self.max_bytes - self.bytes.len();
        let take = if chunk.len() > remaining {
            remaining
        } else {
            chunk.len()
        };
        let ghost start = self.bytes@;
        let mut i: usize = 0;
        while i < take
            invariant
                i <= take <= chunk@.len(),
                take <= remaining,
                remaining == self.max_bytes - start.len(),
                start == old(self).bytes@,
                self.max_bytes == old(self).max_bytes,
                self.text_only == old(self).text_only,
                self.truncated == old(self).truncated,
                self.bytes@ == start + chunk@.take(i as int),
            decreases take - i,
        {
            self.bytes.push(chunk[i]);
            assert(chunk@.take(i + 1) == chunk@.take(i as int).push(chunk@[i as int]));
            i = i + 1;
        }
        if chunk.len() > remaining {
            self.truncated = true;
        } else {
            assert(chunk@.take(chunk@.len() as int) =~= chunk@);
        }
    }

    /// What was captured.
    pub fn finish(self) -> (r: BodyPreviewResult)
        ensures
            (opt_view(r.preview), r.truncated, r.binary) == finished(
                self.bytes@,
                self.text_only,
                self.truncated,
            ),
    {
        if self.bytes.len() == 0 {
            return BodyPreviewResult { preview: None, truncated: self.truncated, binary: false };
        }
        if self.text_only && !looks_like_text_bytes(self.bytes.as_slice()) {
            return BodyPreviewResult { preview: None, truncated: self.truncated, binary: true };
        }
        BodyPreviewResult {
            preview: Some(string_of(&utf8_lossy_chars(self.bytes.as_slice()))),
            truncated: self.truncated,
            binary: false,
        }
    }
}

/// The result of an optional capture; nothing captured without one.
pub fn finalize_optional_preview(preview: Option<PreviewCapture>) -> (r: BodyPreviewResult)
    ensures
        match preview {
            Some(p) => (opt_view(r.preview), r.truncated, r.binary) == finished(
                p.bytes@,
                p.text_only,
                p.truncated,
            ),
            None => r.preview is None && !r.truncated && !r.binary,
        },
{
    match preview {
        Some(p) => p.finish(),
        None => BodyPreviewResult::default(),
    }
}

/// What a gRPC capture gives: the rendered gRPC preview when the body holds
/// frames, otherwise as for any body.
pub open spec fn grpc_finished(
    bytes: Seq<u8>,
    text_only: bool,
    truncated: bool,
    decoded: Seq<Option<Seq<char>>>,
) -> (Option<Seq<char>>, bool, bool) {
    if bytes.len() == 0 {
        (None, truncated, false)
    } else if grpc_preview(bytes, decoded) is Some {
        (grpc_preview(bytes, decoded), truncated, false)
    } else {
        finished(bytes, text_only, truncated)
    }
}

/// The result of an optional gRPC body capture, given what decoding each of
/// its frames gave.
pub fn finalize_grpc_optional_preview(
    preview: Option<PreviewCapture>,
    decoded: &Vec<Option<String>>,
) -> (r: BodyPreviewResult)
    ensures
        match preview {
            Some(p) => (opt_view(r.preview), r.truncated, r.binary) == grpc_finished(
                p.bytes@,
                p.text_only,
                p.truncated,
                opt_views(decoded@),
            ),
            None => r.preview is None && !r.truncated && !r.binary,
        },
{
    let p = match preview {
        Some(p) => p,
        None => return BodyPreviewResult::default(),
    };
    if p.bytes.len() == 0 {
        return BodyPreviewResult { preview: None, truncated: p.truncated, binary: false };
    }
    match render_grpc_preview(p.bytes.as_slice(), decoded) {
        Some(rendered) => BodyPreviewResult {
            preview: Some(rendered),
            truncated: p.truncated,
            binary: false,
        },
        None => p.finish(),
    }
}

/// A capture never holds more than its limit, whatever arrives.
pub proof fn law_capture_bounded(kept: Seq<u8>, max: nat, chunk: Seq<u8>)
    requires
        kept.len() <= max,
    ensures
        kept_after(kept, max, chunk).len() <= max,
        kept_after(kept, max, chunk).len() < kept.len() + chunk.len() ==> dropped_some(
            kept,
            max,
            chunk,
        ),
{
}

} // verus!
