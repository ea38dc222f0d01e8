//! gRPC message framing and the text previews of gRPC payloads that the proxy
//! records. Decoding a payload with `protoc` is done by the caller; the
//! preview takes what it returned for each frame.

use vstd::prelude::*;
use crate::text::{
    append_chars, append_str, chars_of, dec_chars, join, join_chars, string_of, u64_chars,
    utf8_lossy, utf8_lossy_chars, views,
};

verus! {

/// At most this many frames are previewed.
pub const MAX_GRPC_PREVIEW_FRAMES: usize = 4;
/// At most this many bytes of a binary payload are shown in hex.
pub const MAX_GRPC_HEX_PREVIEW_BYTES: usize = 128;

/// The header of one length-prefixed gRPC message.
#[derive(Debug, Clone, Copy, PartialEq, Eq)]
pub struct GrpcFrameMeta {
    pub compressed: bool,
    pub declared_len: usize,
    pub complete: bool,
}

/// A frame as plain values.
pub struct FrameView {
    pub compressed: bool,
    pub declared_len: nat,
    pub complete: bool,
    pub payload: Seq<u8>,
}

/// The big-endian 32-bit number at `o`.
pub open spec fn be32(b: Seq<u8>, o: int) -> nat {
    (b[o] as nat) * 16777216 + (b[o + 1] as nat) * 65536 + (b[o + 2] as nat) * 256 + (b[o + 3] as nat)
}

/// The frames from `off` on, and the offset after the last one.
pub open spec fn frames_from(b: Seq<u8>, off: nat) -> (Seq<FrameView>, nat)
    decreases b.len() - off,
{
    if off + 5 > b.len() {
        (seq![], off)
    } else {
        let declared = be32(b, off + 1int);
        let remaining = (b.len() - (off + 5)) as nat;
        let plen: nat = if remaining < declared {
            remaining
        } else {
            declared
        };
        let f = FrameView {
            compressed: b[off as int] != 0,
            declared_len: declared,
            complete: plen == declared,
            payload: b.subrange(off + 5int, off + 5int + plen),
        };
        if plen != declared {
            (seq![f], off + 5 + plen)
        } else {
            let rest = frames_from(b, off + 5 + plen);
            (seq![f] + rest.0, rest.1)
        }
    }
}

/// `split_grpc_frames`: the frames, and whether bytes are left after them.
pub open spec fn grpc_frames(b: Seq<u8>) -> (Seq<FrameView>, bool) {
    let r = frames_from(b, 0);
    (r.0, r.1 < b.len())
}

pub open spec fn frame_views(v: Seq<(GrpcFrameMeta, Vec<u8>)>) -> Seq<FrameView> {
    v.map_values(
        |f: (GrpcFrameMeta, Vec<u8>)|
            FrameView {
                compressed: f.0.compressed,
                declared_len: f.0.declared_len as nat,
                complete: f.0.complete,
                payload: f.1@,
            },
    )
}

proof fn lemma_frames_end(b: Seq<u8>, off: nat)
    requires
        off <= b.len(),
    ensures
        off <= frames_from(b, off).1 <= b.len(),
    decreases b.len() - off,
{
    if off + 5 <= b.len() {
        let declared = be32(b, off + 1int);
        let remaining = (b.len() - (off + 5)) as nat;
        let plen: nat = if remaining < declared {
            remaining
        } else {
            declared
        };
        if plen == declared {
            lemma_frames_end(b, off + 5 + plen);
        }
    }
}

/// Splits a body into length-prefixed gRPC messages.
pub fn split_grpc_frames(bytes: &[u8]) -> (r: (Vec<(GrpcFrameMeta, Vec<u8>)>, bool))
    ensures
        frame_views(r.0@) == grpc_frames(bytes@).0,
        r.1 == grpc_frames(bytes@).1,
{
    let mut frames: Vec<(GrpcFrameMeta, Vec<u8>)> = Vec::new();
    let mut offset: usize = 0;
    let ghost b = bytes@;
    proof {
        lemma_frames_end(b, 0);
    }
    loop
        invariant
            offset <= b.len(),
            b == bytes@,
            frame_views(frames@) + frames_from(b, offset as nat).0 == frames_from(b, 0).0,
            frames_from(b, offset as nat).1 == frames_from(b, 0).1,
        decreases b.len() - offset,
    {
        if bytes.len() < 5 || offset > bytes.len() - 5 {
            assert(frames_from(b, offset as nat).0 =~= seq![]);
            assert(frame_views(frames@) + seq![] =~= frame_views(frames@));
            return (frames, offset < bytes.len());
        }
        let compressed = bytes[offset] != 0;
        let declared: u64 = (bytes[offset + 1] as u64) * 16777216 + (bytes[offset + 2] as u64)
            * 65536 + (bytes[offset + 3] as u64) * 256 + (bytes[offset + 4] as u64);
        assert(declared == be32(b, offset + 1));
        let declared_len = declared as usize;
        let start = offset + 5;
        let remaining = bytes.len() - start;
        let payload_len = if remaining < declared_len {
            remaining
        } else {
            declared_len
        };
        let complete = payload_len == declared_len;
        let mut payload: Vec<u8> = Vec::new();
        let mut k: usize = 0;
        while k < payload_len
            invariant
                k <= payload_len,
                start + payload_len <= bytes@.len(),
                bytes@.len() == bytes.len(),
                payload@ == bytes@.subrange(start as int, start + k),
            decreases payload_len - k,
        {
            payload.push(bytes[start + k]);
            assert(bytes@.subrange(start as int, start + k + 1) == bytes@.subrange(
                start as int,
                start + k,
            ).push(bytes@[start + k]));
            k = k + 1;
        }
        let ghost before = frame_views(frames@);
        let meta = GrpcFrameMeta { compressed, declared_len, complete };
        frames.push((meta, payload));
        let ghost fv = FrameView {
            compressed,
            declared_len: declared_len as nat,
            complete,
            payload: bytes@.subrange(start as int, start + payload_len),
        };
        assert(frame_views(frames@) =~= before.push(fv));
        offset = start + payload_len;
        if !complete {
            assert(frames_from(b, (offset - payload_len - 5) as nat).0 =~= seq![fv]);
            assert(frame_views(frames@) =~= before + seq![fv]);
            return (frames, offset < bytes.len());
        }
        proof {
            let rest = frames_from(b, offset as nat);
            assert(frames_from(b, (start - 5) as nat).0 == seq![fv] + rest.0);
            assert(before + (seq![fv] + rest.0) =~= before.push(fv) + rest.0);
        }
    }
}

/// One gRPC message on the wire: its flag byte, its length as four
/// big-endian bytes, then its payload.
pub open spec fn encode_frame(flag: u8, payload: Seq<u8>) -> Seq<u8> {
    let n = payload.len();
    seq![
        flag,
        ((n / 16777216) % 256) as u8,
        ((n / 65536) % 256) as u8,
        ((n / 256) % 256) as u8,
        (n % 256) as u8,
    ] + payload
}

/// Messages one after another on the wire.
pub open spec fn encode_frames(msgs: Seq<(u8, Seq<u8>)>) -> Seq<u8>
    decreases msgs.len(),
{
    if msgs.len() == 0 {
        seq![]
    } else {
        encode_frame(msgs[0].0, msgs[0].1) + encode_frames(msgs.drop_first())
    }
}

/// Each message read back as a complete frame.
pub open spec fn frames_of_messages(msgs: Seq<(u8, Seq<u8>)>) -> Seq<FrameView> {
    msgs.map_values(
        |m: (u8, Seq<u8>)|
            FrameView { compressed: m.0 != 0, declared_len: m.1.len(), complete: true, payload: m.1 },
    )
}

proof fn lemma_be32_bytes(n: nat)
    requires
        n < 4294967296,
    ensures
        ((n / 16777216) % 256) * 16777216 + ((n / 65536) % 256) * 65536 + ((n / 256) % 256) * 256
            + n % 256 == n,
{
    let x = n as u32;
    assert(((x / 16777216) % 256) * 16777216 + ((x / 65536) % 256) * 65536 + ((x / 256) % 256)
        * 256 + x % 256 == x) by (bit_vector);
}

proof fn lemma_frames_of_encoding(pre: Seq<u8>, msgs: Seq<(u8, Seq<u8>)>, suf: Seq<u8>)
    requires
        forall|i: int| 0 <= i < msgs.len() ==> (#[trigger] msgs[i]).1.len() < 4294967296,
    ensures
        frames_from(pre + encode_frames(msgs) + suf, pre.len()) == (
            frames_of_messages(msgs) + frames_from(
                pre + encode_frames(msgs) + suf,
                pre.len() + encode_frames(msgs).len(),
            ).0,
            frames_from(pre + encode_frames(msgs) + suf, pre.len() + encode_frames(msgs).len()).1,
        ),
    decreases msgs.len(),
{
    let b = pre + encode_frames(msgs) + suf;
    if msgs.len() == 0 {
        assert(frames_of_messages(msgs) =~= seq![]);
        assert(seq![] + frames_from(b, pre.len()).0 =~= frames_from(b, pre.len()).0);
    } else {
        let m = msgs[0];
        let rest = msgs.drop_first();
        let e = encode_frame(m.0, m.1);
        let n = m.1.len();
        let off = pre.len();
        assert(encode_frames(msgs) =~= e + encode_frames(rest));
        assert(b =~= (pre + e) + encode_frames(rest) + suf);
        assert forall|i: int| 0 <= i < rest.len() implies (#[trigger] rest[i]).1.len() < 4294967296 by {
            assert(rest[i] == msgs[i + 1]);
        }
        lemma_frames_of_encoding(pre + e, rest, suf);
        lemma_be32_bytes(n);
        assert(b[off as int] == m.0);
        assert(b[off + 1int] == ((n / 16777216) % 256) as u8);
        assert(b[off + 2int] == ((n / 65536) % 256) as u8);
        assert(b[off + 3int] == ((n / 256) % 256) as u8);
        assert(b[off + 4int] == (n % 256) as u8);
        assert(be32(b, off + 1int) == n);
        assert(b.len() >= off + 5 + n);
        assert(b.subrange(off + 5int, off + 5int + n) =~= m.1);
        let f = FrameView { compressed: m.0 != 0, declared_len: n, complete: true, payload: m.1 };
        assert(frames_of_messages(msgs) =~= seq![f] + frames_of_messages(rest));
        assert((pre + e).len() == off + 5 + n);
        assert((pre + e).len() + encode_frames(rest).len() == pre.len() + encode_frames(msgs).len());
        let tailf = frames_from(b, pre.len() + encode_frames(msgs).len()).0;
        assert(seq![f] + (frames_of_messages(rest) + tailf) =~= (seq![f] + frames_of_messages(rest))
            + tailf);
    }
}

/// A body made of complete messages splits back into exactly those
/// messages, in order (flag, declared length and payload of each), each
/// complete; fewer than five bytes after them form no frame and are
/// reported as left over.
pub proof fn law_split_grpc_frames_of_messages(msgs: Seq<(u8, Seq<u8>)>, tail: Seq<u8>)
    requires
        forall|i: int| 0 <= i < msgs.len() ==> (#[trigger] msgs[i]).1.len() < 4294967296,
        tail.len() < 5,
    ensures
        grpc_frames(encode_frames(msgs) + tail).0 == frames_of_messages(msgs),
        grpc_frames(encode_frames(msgs) + tail).0.len() == msgs.len(),
        grpc_frames(encode_frames(msgs) + tail).1 == (tail.len() > 0),
        grpc_frames(encode_frames(msgs)).0 == frames_of_messages(msgs),
        !grpc_frames(encode_frames(msgs)).1,
{
    let e = encode_frames(msgs);
    lemma_frames_of_encoding(seq![], msgs, tail);
    assert(Seq::<u8>::empty() + e + tail =~= e + tail);
    assert(frames_from(e + tail, e.len()).0 =~= seq![]);
    assert(frames_of_messages(msgs) + seq![] =~= frames_of_messages(msgs));
    lemma_frames_of_encoding(seq![], msgs, seq![]);
    assert(Seq::<u8>::empty() + e + Seq::<u8>::empty() =~= e);
}

/// A final message cut short is read as one incomplete frame holding what
/// arrived of its payload, after the complete messages before it.
pub proof fn law_split_grpc_frames_cut_short(msgs: Seq<(u8, Seq<u8>)>, flag: u8, payload: Seq<u8>, k: nat)
    requires
        forall|i: int| 0 <= i < msgs.len() ==> (#[trigger] msgs[i]).1.len() < 4294967296,
        payload.len() < 4294967296,
        k < payload.len(),
    ensures
        grpc_frames(encode_frames(msgs) + encode_frame(flag, payload).take(5 + k as int)).0
            == frames_of_messages(msgs).push(
            FrameView {
                compressed: flag != 0,
                declared_len: payload.len(),
                complete: false,
                payload: payload.take(k as int),
            },
        ),
        !grpc_frames(encode_frames(msgs) + encode_frame(flag, payload).take(5 + k as int)).1,
{
    let e = encode_frames(msgs);
    let cut = encode_frame(flag, payload).take(5 + k as int);
    let b = e + cut;
    lemma_frames_of_encoding(seq![], msgs, cut);
    assert(Seq::<u8>::empty() + e + cut =~= b);
    let n = payload.len();
    let off = e.len();
    lemma_be32_bytes(n);
    assert(b[off + 1int] == ((n / 16777216) % 256) as u8);
    assert(b[off + 2int] == ((n / 65536) % 256) as u8);
    assert(b[off + 3int] == ((n / 256) % 256) as u8);
    assert(b[off + 4int] == (n % 256) as u8);
    assert(be32(b, off + 1int) == n);
    assert(b.subrange(off + 5int, off + 5int + k) =~= payload.take(k as int));
}

// ---------------------------------------------------------------------------
// Byte classification and hex
// ---------------------------------------------------------------------------

/// A control byte other than tab, line feed and carriage return.
pub open spec fn is_control_byte(b: u8) -> bool {
    b <= 8 || b == 11 || b == 12 || (14 <= b <= 31) || b == 127
}

/// Bytes look like text when none is a control byte (NUL included).
pub open spec fn text_like(bytes: Seq<u8>) -> bool {
    forall|i: int| 0 <= i < bytes.len() ==> !is_control_byte(#[trigger] bytes[i])
}

/// Whether a payload looks like text.
pub fn looks_like_text_bytes(bytes: &[u8]) -> (r: bool)
    ensures
        r == text_like(bytes@),
{
    let mut i: usize = 0;
    while i < bytes.len()
        invariant
            i <= bytes@.len(),
            forall|j: int| 0 <= j < i ==> !is_control_byte(#[trigger] bytes@[j]),
        decreases bytes.len() - i,
    {
        let b = bytes[i];
        if b <= 8 || b == 11 || b == 12 || (14 <= b && b <= 31) || b == 127 {
            assert(is_control_byte(bytes@[i as int]));
            return false;
        }
        i = i + 1;
    }
    true
}

/// The lowercase hex digit of a value below 16.
pub open spec fn hex_digit(d: nat) -> char {
    if d < 10 {
        (('0' as u32) + d) as char
    } else {
        (('a' as u32) + d - 10) as char
    }
}

/// `{:02x}` of a byte.
pub open spec fn hex2(b: u8) -> Seq<char> {
    seq![hex_digit((b / 16) as nat), hex_digit((b % 16) as nat)]
}

/// The bytes in `{:02x}` form, separated by spaces.
pub open spec fn hex_list(bs: Seq<u8>) -> Seq<char>
    decreases bs.len(),
{
    if bs.len() == 0 {
        seq![]
    } else if bs.len() == 1 {
        hex2(bs[0])
    } else {
        hex_list(bs.drop_last()) + seq![' '] + hex2(bs.last())
    }
}

/// What `hex_preview` returns: at most `max` bytes in hex, then ` ...` when
/// more were left out.
pub open spec fn hex_preview_text(bytes: Seq<u8>, max: nat) -> Seq<char> {
    let shown: nat = if bytes.len() < max {
        bytes.len()
    } else {
        max
    };
    hex_list(bytes.take(shown as int)) + if bytes.len() > shown {
        " ..."@
    } else {
        seq![]
    }
}

pub fn hex_digit_char(d: u8) -> (c: char)
    requires
        d < 16,
    ensures
        c == hex_digit(d as nat),
{
    if d < 10 {
        ((48 + d) as u8) as char
    } else {
        ((97 + d - 10) as u8) as char
    }
}

/// The first bytes of a payload in hex.
pub fn hex_preview(bytes: &[u8], max_bytes: usize) -> (r: String)
    ensures
        r@ == hex_preview_text(bytes@, max_bytes as nat),
{
    let shown = if bytes.len() < max_bytes {
        bytes.len()
    } else {
        max_bytes
    };
    let mut out: Vec<char> = Vec::new();
    let mut i: usize = 0;
    while i < shown
        invariant
            i <= shown <= bytes@.len(),
            out@ == hex_list(bytes@.take(i as int)),
        decreases shown - i,
    {
        assert(bytes@.take(i + 1).drop_last() =~= bytes@.take(i as int));
        if i > 0 {
            out.push(' ');
        }
        let b = bytes[i];
        out.push(hex_digit_char(b / 16));
        out.push(hex_digit_char(b % 16));
        proof {
            if i == 0 {
                assert(out@ =~= hex2(b));
            } else {
                assert(out@ =~= hex_list(bytes@.take(i as int)) + seq![' '] + hex2(b));
            }
        }
        i = i + 1;
    }
    if bytes.len() > shown {
        append_str(&mut out, " ...");
    } else {
        assert(out@ + seq![] =~= out@);
    }
    string_of(&out)
}

// ---------------------------------------------------------------------------
// The preview
// ---------------------------------------------------------------------------

/// `frame <n>: <len> bytes`, with ` (compressed)` for a compressed frame.
pub open spec fn frame_header(index: nat, f: FrameView) -> Seq<char> {
    "frame "@ + dec_chars(index + 1) + ": "@ + dec_chars(f.declared_len) + " bytes"@ + if f.compressed {
        " (compressed)"@
    } else {
        seq![]
    }
}

/// The text shown for a frame's payload: what decoding gave, else the payload
/// as text when it looks like text, else its size and hex.
pub open spec fn payload_text(f: FrameView, decoded: Option<Seq<char>>) -> Seq<char> {
    match decoded {
        Some(t) => t,
        None => if text_like(f.payload) {
            utf8_lossy(f.payload)
        } else {
            "["@ + dec_chars(f.payload.len()) + " bytes protobuf payload]\n"@ + hex_preview_text(
                f.payload,
                MAX_GRPC_HEX_PREVIEW_BYTES as nat,
            )
        },
    }
}

/// The lines of the preview of frame `index`.
pub open spec fn frame_lines(
    index: nat,
    f: FrameView,
    trailing: bool,
    decoded: Option<Seq<char>>,
) -> Seq<Seq<char>> {
    let include_header = trailing || index > 0 || f.payload.len() != f.declared_len
        || f.compressed;
    let header: Seq<Seq<char>> = if include_header {
        seq![frame_header(index, f)]
    } else {
        seq![]
    };
    if f.compressed {
        header + seq!["[compressed gRPC payload omitted]"@]
    } else {
        header + seq![payload_text(f, decoded)] + if !f.complete {
            seq!["[incomplete gRPC frame preview]"@]
        } else {
            seq![]
        }
    }
}

/// What was decoded for frame `i`, if anything.
pub open spec fn decoded_at(decoded: Seq<Option<Seq<char>>>, i: int) -> Option<Seq<char>> {
    if 0 <= i < decoded.len() {
        decoded[i]
    } else {
        None
    }
}

/// The blocks of the first `n` frames.
pub open spec fn frame_blocks(
    fs: Seq<FrameView>,
    trailing: bool,
    decoded: Seq<Option<Seq<char>>>,
    n: nat,
) -> Seq<Seq<char>>
    decreases n,
{
    if n == 0 {
        seq![]
    } else {
        frame_blocks(fs, trailing, decoded, (n - 1) as nat).push(
            join(
                frame_lines((n - 1) as nat, fs[n - 1], trailing, decoded_at(decoded, n - 1)),
                "\n"@,
            ),
        )
    }
}

/// What `render_grpc_preview` returns for the frames of `bytes`, given the
/// decoded text of each frame (`decoded[i]` for frame `i`, `None` when
/// decoding gave nothing).
pub open spec fn grpc_preview(bytes: Seq<u8>, decoded: Seq<Option<Seq<char>>>) -> Option<Seq<char>> {
    let (fs, trailing) = grpc_frames(bytes);
    if fs.len() == 0 {
        None
    } else {
        let shown: nat = if fs.len() < MAX_GRPC_PREVIEW_FRAMES {
            fs.len()
        } else {
            MAX_GRPC_PREVIEW_FRAMES as nat
        };
        let blocks = frame_blocks(fs, trailing, decoded, shown) + if fs.len()
            > MAX_GRPC_PREVIEW_FRAMES {
            seq![
                "... "@ + dec_chars((fs.len() - MAX_GRPC_PREVIEW_FRAMES) as nat)
                    + " additional frame(s) omitted ..."@,
            ]
        } else {
            seq![]
        } + if trailing {
            seq!["[trailing bytes without complete gRPC frame header]"@]
        } else {
            seq![]
        };
        Some(join(blocks, "\n\n"@))
    }
}

pub open spec fn opt_views(v: Seq<Option<String>>) -> Seq<Option<Seq<char>>> {
    v.map_values(
        |o: Option<String>|
            match o {
                Some(s) => Some(s@),
                None => None,
            },
    )
}

fn frame_block(
    index: usize,
    meta: GrpcFrameMeta,
    payload: &Vec<u8>,
    trailing: bool,
    decoded: Option<&String>,
) -> (r: Vec<char>)
    requires
        index < 4,
    ensures
        r@ == join(
            frame_lines(
                index as nat,
                FrameView {
                    compressed: meta.compressed,
                    declared_len: meta.declared_len as nat,
                    complete: meta.complete,
                    payload: payload@,
                },
                trailing,
                match decoded {
                    Some(s) => Some(s@),
                    None => None,
                },
            ),
            "\n"@,
        ),
{
    let ghost f = FrameView {
        compressed: meta.compressed,
        declared_len: meta.declared_len as nat,
        complete: meta.complete,
        payload: payload@,
    };
    let ghost dv = match decoded {
        Some(s) => Some(s@),
        None => None,
    };
    let mut lines: Vec<Vec<char>> = Vec::new();
    let include_header = trailing || index > 0 || payload.len() != meta.declared_len
        || meta.compressed;
    if include_header {
        let mut h = chars_of("frame ");
        append_chars(&mut h, &u64_chars((index + 1) as u64));
        append_str(&mut h, ": ");
        append_chars(&mut h, &u64_chars(meta.declared_len as u64));
        append_str(&mut h, " bytes");
        if meta.compressed {
            append_str(&mut h, " (compressed)");
        }
        assert(h@ =~= frame_header(index as nat, f));
        lines.push(h);
    }
    let ghost header = views(lines@);
    if meta.compressed {
        lines.push(chars_of("[compressed gRPC payload omitted]"));
        assert(views(lines@) =~= frame_lines(index as nat, f, trailing, dv));
        return join_chars(&lines, &chars_of("\n"));
    }
    let body = match decoded {
        Some(t) => chars_of(t.as_str()),
        None => {
            if looks_like_text_bytes(payload.as_slice()) {
                utf8_lossy_chars(payload.as_slice())
            } else {
                let mut t = chars_of("[");
                append_chars(&mut t, &u64_chars(payload.len() as u64));
                append_str(&mut t, " bytes protobuf payload]\n");
                append_str(&mut t, hex_preview(payload.as_slice(), MAX_GRPC_HEX_PREVIEW_BYTES).as_str());
                t
            }
        },
    };
    assert(body@ == payload_text(f, dv));
    lines.push(body);
    if !meta.complete {
        lines.push(chars_of("[incomplete gRPC frame preview]"));
    }
    assert(views(lines@) =~= frame_lines(index as nat, f, trailing, dv));
    join_chars(&lines, &chars_of("\n"))
}

/// The text preview of a gRPC body: each of the first frames in a block
/// (header, decoded or raw payload, incomplete marker), then notes on omitted
/// frames and trailing bytes. `decoded[i]` is what decoding frame `i` gave;
/// `None` when the body holds no frame.
pub fn render_grpc_preview(bytes: &[u8], decoded: &Vec<Option<String>>) -> (r: Option<String>)
    ensures
        match r {
            Some(s) => grpc_preview(bytes@, opt_views(decoded@)) == Some(s@),
            None => grpc_preview(bytes@, opt_views(decoded@)) is None,
        },
{
    let (frames, trailing) = split_grpc_frames(bytes);
    let ghost fs = frame_views(frames@);
    let ghost dv = opt_views(decoded@);
    if frames.len() == 0 {
        return None;
    }
    let shown = if frames.len() < MAX_GRPC_PREVIEW_FRAMES {
        frames.len()
    } else {
        MAX_GRPC_PREVIEW_FRAMES
    };
    let mut blocks: Vec<Vec<char>> = Vec::new();
    let mut i: usize = 0;
    while i < shown
        invariant
            i <= shown <= frames@.len(),
            shown <= MAX_GRPC_PREVIEW_FRAMES,
            fs == frame_views(frames@),
            dv == opt_views(decoded@),
            views(blocks@) == frame_blocks(fs, trailing, dv, i as nat),
        decreases shown - i,
    {
        let d = if i < decoded.len() {
            match &decoded[i] {
                Some(s) => Some(s),
                None => None,
            }
        } else {
            None
        };
        assert(fs[i as int] == FrameView {
            compressed: frames@[i as int].0.compressed,
            declared_len: frames@[i as int].0.declared_len as nat,
            complete: frames@[i as int].0.complete,
            payload: frames@[i as int].1@,
        });
        assert(decoded_at(dv, i as int) == match d {
            Some(s) => Some(s@),
            None => None,
        });
        let block = frame_block(i, frames[i].0, &frames[i].1, trailing, d);
        let ghost before = views(blocks@);
        blocks.push(block);
        assert(views(blocks@) =~= before.push(block@));
        i = i + 1;
    }
    let ghost main = views(blocks@);
    if frames.len() > MAX_GRPC_PREVIEW_FRAMES {
        let mut note = chars_of("... ");
        append_chars(&mut note, &u64_chars((frames.len() - MAX_GRPC_PREVIEW_FRAMES) as u64));
        append_str(&mut note, " additional frame(s) omitted ...");
        blocks.push(note);
    }
    let ghost mid = views(blocks@);
    if trailing {
        blocks.push(chars_of("[trailing bytes without complete gRPC frame header]"));
    }
    proof {
        let extra1: Seq<Seq<char>> = if fs.len() > MAX_GRPC_PREVIEW_FRAMES {
            seq![
                "... "@ + dec_chars((fs.len() - MAX_GRPC_PREVIEW_FRAMES) as nat)
                    + " additional frame(s) omitted ..."@,
            ]
        } else {
            seq![]
        };
        assert(mid =~= main + extra1);
        let extra2: Seq<Seq<char>> = if trailing {
            seq!["[trailing bytes without complete gRPC frame header]"@]
        } else {
            seq![]
        };
        assert(views(blocks@) =~= main + extra1 + extra2);
    }
    Some(string_of(&join_chars(&blocks, &chars_of("\n\n"))))
}

} // verus!
