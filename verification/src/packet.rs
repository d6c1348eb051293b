//! The typed packet model: magic, packet type, payload, and the
//! NUL-separated field layout that request payloads carry.
//!
//! A payload for a packet type with `nargs >= 0` holds `nargs` leading
//! fields, each ended by a NUL, and one trailing field that takes the
//! rest of the bytes. `nextField` walks those fields one call at a time.

use vstd::prelude::*;

use crate::wire::be_bytes;
use crate::wire::put_u32_be;
use crate::constants::req_magic;
use crate::constants::req_magic_bytes;
use crate::constants::res_magic;
use crate::constants::res_magic_bytes;

verus! {

/// One row of the packet-type registry.
pub struct PacketType {
    pub name: &'static str,
    pub ptype: u32,
    pub nargs: i8,
}

#[derive(PartialEq, Eq, Structural, Clone, Copy, Debug)]
pub enum PacketMagic {
    UNKNOWN,
    REQ,
    RES,
    TEXT,
}

/// The number of leading NUL-ended fields the payload of `ptype`
/// carries; `-1` means the payload has no argument form at all.
pub open spec fn spec_nargs(ptype: u32) -> i8 {
    match ptype {
        1u32 => 0,  // CAN_DO
        2u32 => 0,  // CANT_DO
        7u32 => 2,  // SUBMIT_JOB
        8u32 => 0,  // JOB_CREATED
        11u32 => 2,  // JOB_ASSIGN
        12u32 => 2,  // WORK_STATUS
        13u32 => 1,  // WORK_COMPLETE
        14u32 => 0,  // WORK_FAIL
        15u32 => 0,  // GET_STATUS
        16u32 => 0,  // ECHO_REQ
        17u32 => 1,  // ECHO_RES
        18u32 => 2,  // SUBMIT_JOB_BG
        19u32 => 1,  // ERROR
        20u32 => 4,  // STATUS_RES
        21u32 => 2,  // SUBMIT_JOB_HIGH
        22u32 => 0,  // SET_CLIENT_ID
        23u32 => 1,  // CAN_DO_TIMEOUT
        25u32 => 1,  // WORK_EXCEPTION
        26u32 => 0,  // OPTION_REQ
        27u32 => 0,  // OPTION_RES
        28u32 => 1,  // WORK_DATA
        29u32 => 1,  // WORK_WARNING
        31u32 => 3,  // JOB_ASSIGN_UNIQ
        32u32 => 2,  // SUBMIT_JOB_HIGH_BG
        33u32 => 2,  // SUBMIT_JOB_LOW
        34u32 => 2,  // SUBMIT_JOB_LOW_BG
        35u32 => 7,  // SUBMIT_JOB_SCHED
        36u32 => 3,  // SUBMIT_JOB_EPOCH
        37u32 => 3,  // SUBMIT_REDUCE_JOB
        38u32 => 3,  // SUBMIT_REDUCE_JOB_BACKGROUND
        40u32 => 4,  // JOB_ASSIGN_ALL
        41u32 => 0,  // GET_STATUS_UNIQUE
        42u32 => 5,  // STATUS_RES_UNIQUE
        _ => -1i8,
    }
}

pub fn nargs_of(ptype: u32) -> (r: i8)
    ensures
        r == spec_nargs(ptype),
{
    match ptype {
        1u32 => 0,
        2u32 => 0,
        7u32 => 2,
        8u32 => 0,
        11u32 => 2,
        12u32 => 2,
        13u32 => 1,
        14u32 => 0,
        15u32 => 0,
        16u32 => 0,
        17u32 => 1,
        18u32 => 2,
        19u32 => 1,
        20u32 => 4,
        21u32 => 2,
        22u32 => 0,
        23u32 => 1,
        25u32 => 1,
        26u32 => 0,
        27u32 => 0,
        28u32 => 1,
        29u32 => 1,
        31u32 => 3,
        32u32 => 2,
        33u32 => 2,
        34u32 => 2,
        35u32 => 7,
        36u32 => 3,
        37u32 => 3,
        38u32 => 3,
        40u32 => 4,
        41u32 => 0,
        42u32 => 5,
        _ => -1,
    }
}

/// The position of the first NUL at or after `i`, or the length when
/// none follows.
pub open spec fn nul_scan(data: Seq<u8>, i: int) -> int
    decreases data.len() - i,
{
    if i < 0 || i >= data.len() {
        data.len() as int
    } else if data[i] == 0 {
        i
    } else {
        nul_scan(data, i + 1)
    }
}

pub proof fn lemma_nul_scan_bounds(data: Seq<u8>, i: int)
    requires
        0 <= i <= data.len(),
    ensures
        i <= nul_scan(data, i) <= data.len(),
        nul_scan(data, i) < data.len() ==> data[nul_scan(data, i)] == 0,
    decreases data.len() - i,
{
    if i < data.len() && data[i] != 0 {
        lemma_nul_scan_bounds(data, i + 1);
    }
}

/// Where field `k` starts: field 0 at the front, each later field just
/// past the NUL that ended the one before.
pub open spec fn field_start(data: Seq<u8>, k: int) -> int
    decreases k,
{
    if k <= 0 {
        0
    } else {
        nul_scan(data, field_start(data, k - 1)) + 1
    }
}

/// Whether each of the first `k` fields is ended by a NUL inside the
/// payload, so that all of them and a trailing field exist.
pub open spec fn fields_ok(data: Seq<u8>, k: int) -> bool {
    forall|j: int|
        0 <= j < k ==> nul_scan(data, #[trigger] field_start(data, j)) < data.len()
}

pub proof fn lemma_field_start_bounds(data: Seq<u8>, k: int)
    requires
        0 <= k,
        fields_ok(data, k),
    ensures
        0 <= field_start(data, k) <= data.len(),
    decreases k,
{
    if k > 0 {
        assert(fields_ok(data, k - 1));
        lemma_field_start_bounds(data, k - 1);
        lemma_nul_scan_bounds(data, field_start(data, k - 1));
    }
}

/// The bytes of field `k` of a payload with `nargs` leading fields: a
/// leading field without its ending NUL, the trailing field to the end.
pub open spec fn field_at(data: Seq<u8>, nargs: int, k: int) -> Seq<u8> {
    if k < nargs {
        data.subrange(field_start(data, k), nul_scan(data, field_start(data, k)))
    } else {
        data.subrange(field_start(data, k), data.len() as int)
    }
}

pub struct Packet {
    pub magic: PacketMagic,
    pub ptype: u32,
    pub psize: u32,
    pub data: Box<Vec<u8>>,
    pub _field_byte_count: usize,
    pub _field_count: i8,
}

#[derive(Debug)]
pub struct ParseError {}

impl Packet {
    /// The payload length always matches the advertised size, and the
    /// field cursor stands at the start of the next undelivered field.
    pub open spec fn wf(&self) -> bool {
        &&& self.psize == self.data@.len()
        &&& 0 <= self._field_count <= spec_nargs(self.ptype) + 1
        &&& fields_ok(
            self.data@,
            if self._field_count <= spec_nargs(self.ptype) {
                self._field_count as int
            } else {
                spec_nargs(self.ptype) as int
            },
        )
        &&& self._field_count <= spec_nargs(self.ptype) ==> self._field_byte_count
            == field_start(self.data@, self._field_count as int)
    }

    pub fn new() -> (r: Packet)
        ensures
            r.wf(),
            r.magic == PacketMagic::UNKNOWN,
            r.ptype == 0,
            r.psize == 0,
            r.data@ == Seq::<u8>::empty(),
            r._field_count == 0,
    {
        Packet {
            magic: PacketMagic::UNKNOWN,
            ptype: 0,
            psize: 0,
            data: Box::new(Vec::new()),
            _field_byte_count: 0,
            _field_count: 0,
        }
    }

    pub fn new_res(ptype: u32, data: Box<Vec<u8>>) -> (r: Packet)
        requires
            data@.len() <= u32::MAX,
        ensures
            r.wf(),
            r.magic == PacketMagic::RES,
            r.ptype == ptype,
            r.psize == data@.len(),
            r.data@ == data@,
            r._field_count == 0,
    {
        let psize = data.len() as u32;
        Packet {
            magic: PacketMagic::RES,
            ptype,
            psize,
            data,
            _field_byte_count: 0,
            _field_count: 0,
        }
    }

    /// Hands out the next declared field, or a parse error once every
    /// declared field has been delivered or a leading field is not ended
    /// by a NUL inside the payload.
    #[allow(non_snake_case)]
    pub fn nextField(&mut self) -> (r: Result<Vec<u8>, ParseError>)
        requires
            old(self).wf(),
        ensures
            final(self).wf(),
            final(self).magic == old(self).magic,
            final(self).ptype == old(self).ptype,
            final(self).psize == old(self).psize,
            final(self).data@ == old(self).data@,
            old(self)._field_count > spec_nargs(old(self).ptype) ==> r is Err && *final(self)
                == *old(self),
            old(self)._field_count <= spec_nargs(old(self).ptype) ==> {
                let k = old(self)._field_count as int;
                let n = spec_nargs(old(self).ptype) as int;
                let d = old(self).data@;
                if k < n && nul_scan(d, field_start(d, k)) >= d.len() {
                    r is Err && final(self)._field_count == old(self)._field_count
                } else {
                    &&& r is Ok
                    &&& r->Ok_0@ == field_at(d, n, k)
                    &&& final(self)._field_count == k + 1
                }
            },
    {
        let nargs = nargs_of(self.ptype);
        if self._field_count > nargs {
            return Err(ParseError {});
        }
        let ghost d = self.data@;
        let ghost k = self._field_count as int;
        if self._field_count == nargs {
            // Trailing field: the rest of the payload.
            proof {
                lemma_field_start_bounds(d, k);
            }
            let start = self._field_byte_count;
            let len = self.data.len();
            let mut r: Vec<u8> = Vec::new();
            let mut i: usize = start;
            while i < len
                invariant
                    start <= i <= len,
                    len == self.data@.len(),
                    r@ == self.data@.subrange(start as int, i as int),
                decreases len - i,
            {
                r.push(self.data[i]);
                i = i + 1;
                proof {
                    assert(r@ =~= self.data@.subrange(start as int, i as int));
                }
            }
            self._field_count = self._field_count + 1;
            proof {
                assert(r@ =~= field_at(d, nargs as int, k));
                assert(self.wf());
            }
            return Ok(r);
        }
        // Leading field: scan for its ending NUL.
        proof {
            lemma_field_start_bounds(d, k);
        }
        let start = self._field_byte_count;
        let len = self.data.len();
        let mut i: usize = start;
        while i < len && self.data[i] != 0
            invariant
                start <= i <= len,
                len == self.data@.len(),
                d == self.data@,
                nul_scan(d, start as int) == nul_scan(d, i as int),
            decreases len - i,
        {
            i = i + 1;
        }
        proof {
            assert(nul_scan(d, start as int) == i as int);
        }
        if i == len {
            // Truncated payload: the declared field has no NUL.
            return Err(ParseError {});
        }
        let mut r: Vec<u8> = Vec::new();
        let mut j: usize = start;
        while j < i
            invariant
                start <= j <= i <= len,
                len == self.data@.len(),
                d == self.data@,
                r@ == self.data@.subrange(start as int, j as int),
            decreases i - j,
        {
            r.push(self.data[j]);
            j = j + 1;
            proof {
                assert(r@ =~= self.data@.subrange(start as int, j as int));
            }
        }
        self._field_byte_count = i + 1;
        self._field_count = self._field_count + 1;
        proof {
            assert(r@ =~= field_at(d, nargs as int, k));
            assert(field_start(d, k + 1) == i + 1);
            assert(fields_ok(d, k + 1)) by {
                assert(forall|j2: int|
                    0 <= j2 < k + 1 ==> nul_scan(d, #[trigger] field_start(d, j2)) < d.len());
            }
            assert(self.wf());
        }
        Ok(r)
    }

    /// The full wire form of a packet: magic, type, size, payload for
    /// the binary magics, the bare payload for the text protocol.
    pub open spec fn spec_encoded(&self) -> Seq<u8> {
        if self.magic == PacketMagic::TEXT {
            self.data@
        } else {
            let m = if self.magic == PacketMagic::REQ {
                req_magic()
            } else {
                res_magic()
            };
            m + be_bytes(self.ptype) + be_bytes(self.psize) + self.data@
        }
    }

    pub fn to_byteslice(&self) -> (r: Vec<u8>)
        requires
            self.wf(),
            self.magic != PacketMagic::UNKNOWN,
        ensures
            r@ == self.spec_encoded(),
    {
        if self.magic == PacketMagic::TEXT {
            let mut out: Vec<u8> = Vec::new();
            let len = self.data.len();
            let mut i: usize = 0;
            while i < len
                invariant
                    i <= len,
                    len == self.data@.len(),
                    out@ == self.data@.subrange(0, i as int),
                decreases len - i,
            {
                out.push(self.data[i]);
                i = i + 1;
                proof {
                    assert(out@ =~= self.data@.subrange(0, i as int));
                }
            }
            proof {
                assert(out@ =~= self.data@);
            }
            return out;
        }
        let mut out: Vec<u8> = if self.magic == PacketMagic::REQ {
            req_magic_bytes()
        } else {
            res_magic_bytes()
        };
        put_u32_be(&mut out, self.ptype);
        put_u32_be(&mut out, self.psize);
        let len = self.data.len();
        let ghost head = out@;
        let mut i: usize = 0;
        while i < len
            invariant
                i <= len,
                len == self.data@.len(),
                out@ == head + self.data@.subrange(0, i as int),
            decreases len - i,
        {
            out.push(self.data[i]);
            i = i + 1;
            proof {
                assert(out@ =~= head + self.data@.subrange(0, i as int));
            }
        }
        proof {
            assert(out@ =~= self.spec_encoded());
        }
        out
    }
}

} // verus!
