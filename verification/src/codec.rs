//! The frame codec: chunked binary-frame decoding, admin-text line
//! decoding, and frame encoding, over a `bytes::BytesMut` ingress buffer.

use vstd::prelude::*;

use crate::bufext::buf_bytes;
use crate::bufext::buf_extend;
use crate::bufext::buf_len;
use crate::bufext::buf_split_to;
use crate::bufext::buf_to_vec;
use crate::bufext::is_utf8;
use crate::bufext::utf8_ok;
use crate::constants::ADMIN_STATUS;
use crate::constants::ADMIN_UNKNOWN;
use crate::constants::ADMIN_VERSION;
use crate::constants::req_magic;
use crate::constants::res_magic;
use crate::packet::PacketMagic;
use crate::wire::be_bytes;
use crate::wire::be_val;
use crate::wire::get_u32_be;
use crate::wire::lemma_be_bytes_of_val;
use crate::wire::lemma_be_val_of_bytes;
use crate::wire::put_u32_be;

verus! {

#[derive(PartialEq, Eq, Structural, Clone, Copy)]
pub struct PacketHeader {
    pub magic: PacketMagic,
    pub ptype: u32,
    pub psize: u32,
}

/// What one decoder step yields: a message header (with a body to
/// follow when `body` is set), or a chunk of that body, closed by a
/// `chunk: None` end marker.
pub enum Frame {
    Message { header: PacketHeader, body: bool },
    Body { chunk: Option<Vec<u8>> },
}

/// A framing fault that costs the connection its life.
#[derive(Debug)]
pub struct DecodeError {}

pub struct PacketCodec {
    pub data_todo: Option<usize>,
    pub text_mode: bool,
}

/// The magic the first four bytes of an unframed buffer select.
pub open spec fn magic_of(b: Seq<u8>) -> PacketMagic {
    if b.take(4) == req_magic() {
        PacketMagic::REQ
    } else if b.take(4) == res_magic() {
        PacketMagic::RES
    } else {
        PacketMagic::TEXT
    }
}

/// The header the first twelve bytes of a binary frame carry.
pub open spec fn header_of(b: Seq<u8>) -> PacketHeader {
    PacketHeader {
        magic: magic_of(b),
        ptype: be_val(b.subrange(4, 8)),
        psize: be_val(b.subrange(8, 12)),
    }
}

/// The twelve wire bytes of a binary header.
pub open spec fn header_bytes(h: PacketHeader) -> Seq<u8> {
    let m = if h.magic == PacketMagic::REQ {
        req_magic()
    } else {
        res_magic()
    };
    m + be_bytes(h.ptype) + be_bytes(h.psize)
}

/// The position of the first LF at or after `i`, or the length when
/// none follows.
pub open spec fn lf_scan(b: Seq<u8>, i: int) -> int
    decreases b.len() - i,
{
    if i < 0 || i >= b.len() {
        b.len() as int
    } else if b[i] == 10 {
        i
    } else {
        lf_scan(b, i + 1)
    }
}

/// Ascii whitespace, as the admin protocol sees it.
pub open spec fn is_ws(b: u8) -> bool {
    b == 32 || b == 9 || b == 13 || b == 10
}

/// The first non-whitespace position at or after `i`.
pub open spec fn ws_scan(b: Seq<u8>, i: int) -> int
    decreases b.len() - i,
{
    if i < 0 || i >= b.len() {
        b.len() as int
    } else if is_ws(b[i]) {
        ws_scan(b, i + 1)
    } else {
        i
    }
}

/// One past the last non-whitespace position strictly below `i`, or 0.
pub open spec fn ws_rscan(b: Seq<u8>, i: int) -> int
    decreases i,
{
    if i <= 0 {
        0
    } else if is_ws(b[i - 1]) {
        ws_rscan(b, i - 1)
    } else {
        i
    }
}

/// The line with its leading and trailing ascii whitespace removed.
pub open spec fn ascii_trim(b: Seq<u8>) -> Seq<u8> {
    let lo = ws_scan(b, 0);
    let hi = ws_rscan(b, b.len() as int);
    if lo >= hi {
        Seq::<u8>::empty()
    } else {
        b.subrange(lo, hi)
    }
}

pub proof fn lemma_ws_rscan_all_ws(b: Seq<u8>, i: int)
    requires
        0 <= i <= b.len(),
        forall|k: int| 0 <= k < i ==> is_ws(#[trigger] b[k]),
    ensures
        ws_rscan(b, i) == 0,
    decreases i,
{
    if i > 0 {
        lemma_ws_rscan_all_ws(b, i - 1);
    }
}

pub fn trim_bytes(v: &Vec<u8>) -> (r: Vec<u8>)
    ensures
        r@ == ascii_trim(v@),
{
    let len = v.len();
    let mut lo: usize = 0;
    while lo < len && (v[lo] == 32 || v[lo] == 9 || v[lo] == 13 || v[lo] == 10)
        invariant
            0 <= lo <= len,
            len == v@.len(),
            ws_scan(v@, 0) == ws_scan(v@, lo as int),
            forall|k: int| 0 <= k < lo ==> is_ws(#[trigger] v@[k]),
        decreases len - lo,
    {
        lo = lo + 1;
    }
    proof {
        assert(ws_scan(v@, 0) == lo as int);
    }
    let mut hi: usize = len;
    while hi > lo && (v[hi - 1] == 32 || v[hi - 1] == 9 || v[hi - 1] == 13 || v[hi - 1] == 10)
        invariant
            lo <= hi <= len,
            len == v@.len(),
            ws_scan(v@, 0) == lo as int,
            forall|k: int| 0 <= k < lo ==> is_ws(#[trigger] v@[k]),
            ws_rscan(v@, len as int) == ws_rscan(v@, hi as int),
        decreases hi,
    {
        hi = hi - 1;
    }
    proof {
        if hi > lo {
            assert(ws_rscan(v@, len as int) == hi as int);
        } else {
            lemma_ws_rscan_all_ws(v@, lo as int);
            assert(ws_rscan(v@, len as int) == 0);
        }
    }
    let mut r: Vec<u8> = Vec::new();
    let mut i: usize = lo;
    while i < hi
        invariant
            lo <= i <= hi <= len,
            len == v@.len(),
            r@ == v@.subrange(lo as int, i as int),
        decreases hi - i,
    {
        r.push(v[i]);
        i = i + 1;
        proof {
            assert(r@ =~= v@.subrange(lo as int, i as int));
        }
    }
    proof {
        if lo < hi {
            assert(r@ =~= ascii_trim(v@));
        } else {
            assert(r@ =~= ascii_trim(v@));
        }
    }
    r
}

/// The bytes of the admin command `version`.
pub open spec fn version_lit() -> Seq<u8> {
    seq![118u8, 101u8, 114u8, 115u8, 105u8, 111u8, 110u8]
}

/// The bytes of the admin command `status`.
pub open spec fn status_lit() -> Seq<u8> {
    seq![115u8, 116u8, 97u8, 116u8, 117u8, 115u8]
}

pub fn version_bytes() -> (r: Vec<u8>)
    ensures
        r@ == version_lit(),
{
    let mut v: Vec<u8> = Vec::new();
    v.push(118u8);
    v.push(101u8);
    v.push(114u8);
    v.push(115u8);
    v.push(105u8);
    v.push(111u8);
    v.push(110u8);
    proof {
        assert(v@ =~= version_lit());
    }
    v
}

pub fn status_bytes() -> (r: Vec<u8>)
    ensures
        r@ == status_lit(),
{
    let mut v: Vec<u8> = Vec::new();
    v.push(115u8);
    v.push(116u8);
    v.push(97u8);
    v.push(116u8);
    v.push(117u8);
    v.push(115u8);
    proof {
        assert(v@ =~= status_lit());
    }
    v
}

pub fn vec_eq(a: &Vec<u8>, b: &Vec<u8>) -> (r: bool)
    ensures
        r == (a@ == b@),
{
    if a.len() != b.len() {
        proof {
            assert(a@.len() != b@.len());
        }
        return false;
    }
    let len = a.len();
    let mut i: usize = 0;
    while i < len
        invariant
            0 <= i <= len,
            len == a@.len(),
            len == b@.len(),
            forall|k: int| 0 <= k < i ==> a@[k] == b@[k],
        decreases len - i,
    {
        if a[i] != b[i] {
            return false;
        }
        i = i + 1;
    }
    proof {
        assert(a@ =~= b@);
    }
    true
}

/// The admin command code an already-trimmed line selects.
pub open spec fn admin_cmd_of(line: Seq<u8>) -> u32 {
    if ascii_trim(line) == version_lit() {
        ADMIN_VERSION
    } else if ascii_trim(line) == status_lit() {
        ADMIN_STATUS
    } else {
        ADMIN_UNKNOWN
    }
}

impl PacketHeader {
    /// Decodes one admin-text line: waits for a LF, insists the line is
    /// UTF-8, and maps the trimmed command word to an admin code.
    pub fn admin_decode(buf: &mut bytes::BytesMut) -> (r: Result<
        Option<Frame>,
        DecodeError,
    >)
        ensures
            ({
                let b = buf_bytes(*old(buf));
                let n = lf_scan(b, 0);
                if n >= b.len() {
                    // no LF yet: wait for more data
                    r is Ok && r->Ok_0 is None && buf_bytes(*final(buf)) == b
                } else {
                    let line = b.take(n);
                    &&& buf_bytes(*final(buf)) == b.skip(n + 1)
                    &&& if !is_utf8(line) {
                        r is Err
                    } else {
                        &&& r is Ok
                        &&& r->Ok_0 matches Some(Frame::Message { header, body })
                            && header.magic == PacketMagic::TEXT && header.ptype == admin_cmd_of(
                            line,
                        ) && header.psize == 0 && body == false
                    }
                }
            }),
    {
        let ghost b = buf_bytes(*buf);
        let v = buf_to_vec(buf);
        let len = v.len();
        let mut i: usize = 0;
        while i < len && v[i] != 10
            invariant
                0 <= i <= len,
                len == v@.len(),
                lf_scan(v@, 0) == lf_scan(v@, i as int),
            decreases len - i,
        {
            i = i + 1;
        }
        proof {
            assert(lf_scan(b, 0) == i as int);
        }
        if i == len {
            return Ok(None);
        }
        let line_buf = buf_split_to(buf, i);
        let _lf = buf_split_to(buf, 1);
        let line = buf_to_vec(&line_buf);
        proof {
            assert(buf_bytes(*buf) =~= b.skip(i + 1));
            assert(line@ == b.take(i as int));
        }
        if !utf8_ok(&line) {
            return Err(DecodeError {});
        }
        let trimmed = trim_bytes(&line);
        let vb = version_bytes();
        let sb = status_bytes();
        let command: u32 = if vec_eq(&trimmed, &vb) {
            ADMIN_VERSION
        } else if vec_eq(&trimmed, &sb) {
            ADMIN_STATUS
        } else {
            ADMIN_UNKNOWN
        };
        Ok(
            Some(
                Frame::Message {
                    header: PacketHeader { magic: PacketMagic::TEXT, ptype: command, psize: 0 },
                    body: false,
                },
            ),
        )
    }

    /// Decodes a frame header: classifies the magic, hands text lines to
    /// `admin_decode`, and reads the type and size words of a binary
    /// frame once all twelve header bytes are present.
    pub fn decode(buf: &mut bytes::BytesMut) -> (r: Result<Option<Frame>, DecodeError>)
        ensures
            ({
                let b = buf_bytes(*old(buf));
                if b.len() < 4 {
                    r is Ok && r->Ok_0 is None && buf_bytes(*final(buf)) == b
                } else if magic_of(b) == PacketMagic::TEXT {
                    let n = lf_scan(b, 0);
                    if n >= b.len() {
                        r is Ok && r->Ok_0 is None && buf_bytes(*final(buf)) == b
                    } else {
                        let line = b.take(n);
                        &&& buf_bytes(*final(buf)) == b.skip(n + 1)
                        &&& if !is_utf8(line) {
                            r is Err
                        } else {
                            &&& r is Ok
                            &&& r->Ok_0 matches Some(Frame::Message { header, body })
                                && header.magic == PacketMagic::TEXT && header.ptype
                                == admin_cmd_of(line) && header.psize == 0 && body == false
                        }
                    }
                } else if b.len() < 12 {
                    r is Ok && r->Ok_0 is None && buf_bytes(*final(buf)) == b
                } else {
                    &&& buf_bytes(*final(buf)) == b.skip(12)
                    &&& r is Ok
                    &&& r->Ok_0 matches Some(Frame::Message { header, body }) && header
                        == header_of(b) && body == true
                }
            }),
    {
        let ghost b = buf_bytes(*buf);
        let n = buf_len(buf);
        if n < 4 {
            return Ok(None);
        }
        let v = buf_to_vec(buf);
        let is_req = v[0] == 0 && v[1] == 82 && v[2] == 69 && v[3] == 81;
        let is_res = v[0] == 0 && v[1] == 82 && v[2] == 69 && v[3] == 83;
        proof {
            if is_req {
                assert(b.take(4) =~= req_magic());
            } else {
                assert(b.take(4) != req_magic());
            }
            if is_res {
                assert(b.take(4) =~= res_magic());
            } else {
                assert(b.take(4) != res_magic());
            }
        }
        if !is_req && !is_res {
            return PacketHeader::admin_decode(buf);
        }
        let magic = if is_req {
            PacketMagic::REQ
        } else {
            PacketMagic::RES
        };
        if n < 12 {
            return Ok(None);
        }
        let ptype = get_u32_be(&v, 4);
        let psize = get_u32_be(&v, 8);
        let _header = buf_split_to(buf, 12);
        proof {
            assert(buf_bytes(*buf) =~= b.skip(12));
        }
        Ok(Some(Frame::Message { header: PacketHeader { magic, ptype, psize }, body: true }))
    }

    /// The twelve header bytes for a binary magic; nothing for text.
    pub fn to_bytes(&self) -> (r: Vec<u8>)
        requires
            self.magic != PacketMagic::UNKNOWN,
        ensures
            self.magic == PacketMagic::TEXT ==> r@ == Seq::<u8>::empty(),
            self.magic != PacketMagic::TEXT ==> r@ == header_bytes(*self),
    {
        let mut out: Vec<u8> = Vec::new();
        match self.magic {
            PacketMagic::TEXT => {
                return out;
            },
            PacketMagic::REQ => {
                out = crate::constants::req_magic_bytes();
            },
            _ => {
                out = crate::constants::res_magic_bytes();
            },
        }
        put_u32_be(&mut out, self.ptype);
        put_u32_be(&mut out, self.psize);
        proof {
            assert(out@ =~= header_bytes(*self));
        }
        out
    }
}

impl PacketCodec {
    pub fn new() -> (r: PacketCodec)
        ensures
            r.data_todo is None,
            r.text_mode == false,
    {
        PacketCodec { data_todo: None, text_mode: false }
    }

    /// One decoder step: a header when none is pending, otherwise the
    /// next body chunk, closed by an end-of-body marker.
    pub fn decode(&mut self, buf: &mut bytes::BytesMut) -> (r: Result<Option<Frame>, DecodeError>)
        ensures
            ({
                let b = buf_bytes(*old(buf));
                if old(self).text_mode || (old(self).data_todo is None && b.len() >= 4 && magic_of(
                    b,
                ) == PacketMagic::TEXT) {
                    // text mode is entered once and kept
                    final(self).text_mode == true && final(self).data_todo == old(self).data_todo
                } else if old(self).data_todo is None {
                    &&& final(self).text_mode == false
                    &&& if b.len() < 4 || b.len() < 12 {
                        r is Ok && r->Ok_0 is None && buf_bytes(*final(buf)) == b
                            && final(self).data_todo is None
                    } else {
                        &&& buf_bytes(*final(buf)) == b.skip(12)
                        &&& r is Ok
                        &&& r->Ok_0 matches Some(Frame::Message { header, body }) && header
                            == header_of(b) && body == true
                        &&& final(self).data_todo == Some(header_of(b).psize as usize)
                    }
                } else if old(self).data_todo == Some(0usize) {
                    &&& r is Ok
                    &&& r->Ok_0 matches Some(Frame::Body { chunk }) && chunk is None
                    &&& final(self).data_todo is None
                    &&& buf_bytes(*final(buf)) == b
                } else {
                    let todo = old(self).data_todo->0 as int;
                    let c = if b.len() < todo {
                        b.len() as int
                    } else {
                        todo
                    };
                    &&& r is Ok
                    &&& r->Ok_0 matches Some(Frame::Body { chunk }) && chunk matches Some(ch)
                        && ch@ == b.take(c)
                    &&& final(self).data_todo == Some((todo - c) as usize)
                    &&& buf_bytes(*final(buf)) == b.skip(c)
                }
            }),
    {
        let ghost b = buf_bytes(*buf);
        if self.text_mode {
            return PacketHeader::admin_decode(buf);
        }
        match self.data_todo {
            None => {
                let blen = buf_len(buf);
                if blen >= 4 {
                    let v = buf_to_vec(buf);
                    let is_req = v[0] == 0 && v[1] == 82 && v[2] == 69 && v[3] == 81;
                    let is_res = v[0] == 0 && v[1] == 82 && v[2] == 69 && v[3] == 83;
                    proof {
                        if is_req {
                            assert(b.take(4) =~= req_magic());
                        } else {
                            assert(b.take(4) != req_magic());
                        }
                        if is_res {
                            assert(b.take(4) =~= res_magic());
                        } else {
                            assert(b.take(4) != res_magic());
                        }
                    }
                    if !is_req && !is_res {
                        self.text_mode = true;
                        return PacketHeader::admin_decode(buf);
                    }
                }
                match PacketHeader::decode(buf)? {
                    Some(Frame::Message { header, body }) => {
                        self.data_todo = Some(header.psize as usize);
                        Ok(Some(Frame::Message { header, body }))
                    },
                    Some(f) => Ok(Some(f)),
                    None => Ok(None),
                }
            },
            Some(todo) => {
                if todo == 0 {
                    self.data_todo = None;
                    Ok(Some(Frame::Body { chunk: None }))
                } else {
                    let blen = buf_len(buf);
                    let chunk_size = if blen < todo {
                        blen
                    } else {
                        todo
                    };
                    let chunk = buf_split_to(buf, chunk_size);
                    self.data_todo = Some(todo - chunk_size);
                    let cv = buf_to_vec(&chunk);
                    Ok(Some(Frame::Body { chunk: Some(cv) }))
                }
            },
        }
    }

    /// Encodes one frame onto the egress buffer: header bytes for a
    /// message, raw bytes for a body chunk, nothing for an end marker.
    pub fn encode(&mut self, msg: Frame, buf: &mut bytes::BytesMut)
        requires
            msg matches Frame::Message { header, .. } ==> header.magic != PacketMagic::UNKNOWN,
        ensures
            ({
                match msg {
                    Frame::Message { header, .. } => buf_bytes(*final(buf)) == buf_bytes(*old(buf))
                        + (if header.magic == PacketMagic::TEXT {
                        Seq::<u8>::empty()
                    } else {
                        header_bytes(header)
                    }),
                    Frame::Body { chunk } => match chunk {
                        Some(ch) => buf_bytes(*final(buf)) == buf_bytes(*old(buf)) + ch@,
                        None => buf_bytes(*final(buf)) == buf_bytes(*old(buf)),
                    },
                }
            }),
    {
        match msg {
            Frame::Message { header, body: _ } => {
                let hb = header.to_bytes();
                buf_extend(buf, &hb);
                proof {
                    if header.magic == PacketMagic::TEXT {
                        assert(buf_bytes(*buf) =~= buf_bytes(*old(buf)));
                    }
                }
            },
            Frame::Body { chunk } => {
                match chunk {
                    Some(ch) => {
                        buf_extend(buf, &ch);
                    },
                    None => {},
                }
            },
        }
    }
}

/// Reading a well-formed binary frame back out of its own wire bytes
/// gives the header it was made from: the codec loses nothing.
pub proof fn lemma_header_roundtrip(h: PacketHeader, tail: Seq<u8>)
    requires
        h.magic == PacketMagic::REQ || h.magic == PacketMagic::RES,
    ensures
        header_of(header_bytes(h) + tail) == h,
        (header_bytes(h) + tail).len() >= 12,
{
    let b = header_bytes(h) + tail;
    assert(b.len() >= 12);
    if h.magic == PacketMagic::REQ {
        assert(b.take(4) =~= req_magic());
    } else {
        assert(b.take(4) =~= res_magic());
        assert(res_magic() != req_magic()) by {
            assert(res_magic()[3] != req_magic()[3]);
        }
    }
    assert(b.subrange(4, 8) =~= be_bytes(h.ptype));
    assert(b.subrange(8, 12) =~= be_bytes(h.psize));
    lemma_be_val_of_bytes(h.ptype);
    lemma_be_val_of_bytes(h.psize);
}

/// Re-encoding a decoded binary frame reproduces the wire bytes: for a
/// buffer that starts with a binary magic and twelve header bytes, the
/// decoded header's bytes followed by the remainder are the buffer.
pub proof fn lemma_frame_roundtrip(b: Seq<u8>)
    requires
        b.len() >= 12,
        magic_of(b) != PacketMagic::TEXT,
    ensures
        header_bytes(header_of(b)) + b.skip(12) == b,
{
    let h = header_of(b);
    lemma_be_bytes_of_val(b.subrange(4, 8));
    lemma_be_bytes_of_val(b.subrange(8, 12));
    assert(header_bytes(h) + b.skip(12) =~= b);
}

} // verus!
