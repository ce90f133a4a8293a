//! NVMe/TCP initiator for firmware.
//!
//! The bytes that go out and what the bytes that come in mean. Two things are
//! load-bearing:
//!
//!   * PSDT = 01b on every command. There are no PRPs over a fabric. Leaving the
//!     FLAGS byte zero says "PRPs are used", and a controller that validates it
//!     rejects the command before it looks at the SGL.
//!   * The controller must be enabled before admin commands. Fabrics Connect only
//!     establishes a queue. Identify before CC.EN is answered with Command
//!     Sequence Error on a conforming target.
//!
//! One command is in flight at a time: a boot path reads far more than it writes,
//! and this keeps it small.

use crate::bytes;
use crate::strings;
use crate::text;
use vstd::prelude::*;
use vstd::string::StringExecFns;

verus! {

// PDU types.
pub const PDU_ICREQ: u8 = 0x00;

pub const PDU_ICRESP: u8 = 0x01;

pub const PDU_H2C_TERM: u8 = 0x02;

pub const PDU_C2H_TERM: u8 = 0x03;

pub const PDU_CMD: u8 = 0x04;

pub const PDU_RESP: u8 = 0x05;

pub const PDU_H2C_DATA: u8 = 0x06;

pub const PDU_C2H_DATA: u8 = 0x07;

pub const PDU_R2T: u8 = 0x09;

// NVMe opcodes.
pub const OPC_WRITE: u8 = 0x01;

pub const OPC_READ: u8 = 0x02;

pub const OPC_IDENTIFY: u8 = 0x06;

pub const OPC_FABRICS: u8 = 0x7F;

pub const FCTYPE_CONNECT: u8 = 0x01;

pub const FCTYPE_PROPERTY_SET: u8 = 0x00;

pub const FCTYPE_PROPERTY_GET: u8 = 0x04;

// Controller registers, reached over a fabric as properties.
pub const REG_CAP: u32 = 0x00;

pub const REG_CC: u32 = 0x14;

pub const REG_CSTS: u32 = 0x1C;

/// CC with EN=1, NVM command set, 4 KiB pages, round-robin, and the queue entry
/// sizes every controller uses: 2^6 submission, 2^4 completion.
pub const CC_ENABLE: u64 = 0x46_0001;

/// SGL descriptor byte for data the transport moves (R2T/H2CData, C2HData).
pub const SGL_TRANSPORT: u8 = 0x5A;

/// SGL descriptor byte for data carried inside the capsule itself.
pub const SGL_IN_CAPSULE: u8 = 0x01;

/// FLAGS byte with PSDT = 01b: SGLs, the only choice over a fabric.
pub const FLAGS_SGL: u8 = 0x40;

/// Bytes moved per NVMe command, and so the size of the C2HData PDUs the
/// controller sends back: one read command is one frame on a jumbo network.
pub const CHUNK: usize = 8192;

// ---------------------------------------------------------------------------
// Submission queue entries

/// The entry every command starts from.
pub open spec fn entry(opcode: u8, cid: u16, nsid: u32) -> Seq<u8> {
    seq![opcode, FLAGS_SGL] + bytes::le16_bytes(cid) + bytes::le32_bytes(nsid) + bytes::zeros(56)
}

/// The data pointer, bytes 24..40, as an SGL: address(8), length(4), reserved(3),
/// type(1).
pub open spec fn with_sgl(s: Seq<u8>, addr: u64, len: u32, kind: u8) -> Seq<u8> {
    bytes::written(
        s,
        24,
        bytes::le64_bytes(addr) + bytes::le32_bytes(len) + bytes::zeros(3) + seq![kind],
    )
}

/// Command dword `n`.
pub open spec fn with_dw(s: Seq<u8>, n: int, v: u32) -> Seq<u8> {
    bytes::written(s, 40 + (n - 10) * 4, bytes::le32_bytes(v))
}

/// One NVMe submission queue entry, built field by field: the layout is what the
/// wire cares about.
#[derive(Debug)]
pub struct Sqe {
    raw: Vec<u8>,
}

impl View for Sqe {
    type V = Seq<u8>;

    closed spec fn view(&self) -> Seq<u8> {
        self.raw@
    }
}

impl Sqe {
    pub open spec fn wf(&self) -> bool {
        self@.len() == 64
    }

    pub fn new(opcode: u8, cid: u16, nsid: u32) -> (r: Self)
        ensures
            r.wf(),
            r@ == entry(opcode, cid, nsid),
    {
        let mut raw: Vec<u8> = Vec::new();
        raw.push(opcode);
        raw.push(FLAGS_SGL);
        assert(raw@ =~= seq![opcode, FLAGS_SGL]);
        raw.append(&mut bytes::of_u16(cid));
        raw.append(&mut bytes::of_u32(nsid));
        raw.append(&mut bytes::zeroed(56));
        Sqe { raw }
    }

    pub fn sgl(&mut self, addr: u64, len: u32, kind: u8)
        requires
            old(self).wf(),
        ensures
            final(self).wf(),
            final(self)@ == with_sgl(old(self)@, addr, len, kind),
    {
        let mut d = bytes::of_u64(addr);
        d.append(&mut bytes::of_u32(len));
        d.append(&mut bytes::zeroed(3));
        d.push(kind);
        assert(d@ =~= bytes::le64_bytes(addr) + bytes::le32_bytes(len) + bytes::zeros(3) + seq![kind]);
        bytes::write(&mut self.raw, 24, d.as_slice());
    }

    pub fn dw(&mut self, n: usize, v: u32)
        requires
            old(self).wf(),
            10 <= n <= 15,
        ensures
            final(self).wf(),
            final(self)@ == with_dw(old(self)@, n as int, v),
    {
        bytes::write(&mut self.raw, 40 + (n - 10) * 4, bytes::of_u32(v).as_slice());
    }

    pub fn byte(&mut self, at: usize, v: u8)
        requires
            old(self).wf(),
            at < 64,
        ensures
            final(self).wf(),
            final(self)@ == old(self)@.update(at as int, v),
    {
        self.raw.set(at, v);
    }

    pub fn as_slice(&self) -> (r: &[u8])
        ensures
            r@ == self@,
    {
        self.raw.as_slice()
    }
}

// ---------------------------------------------------------------------------
// Completions

#[derive(Debug, Clone, Copy, PartialEq, Eq, Structural)]
pub struct Cqe {
    pub dw0: u32,
    pub dw1: u32,
    pub status: u16,
}

/// The completion in sixteen bytes.
pub open spec fn completion(b: Seq<u8>) -> Cqe {
    Cqe {
        dw0: bytes::le32_at(b, 0) as u32,
        dw1: bytes::le32_at(b, 4) as u32,
        status: bytes::le16_at(b, 14) as u16,
    }
}

/// The status code: eight bits above the phase tag.
pub open spec fn status_code(status: u16) -> u16 {
    (status / 2) % 256
}

/// The status code type: three bits above the code.
pub open spec fn status_type(status: u16) -> u16 {
    (status / 512) % 8
}

pub open spec fn fault(status: u16) -> Option<Seq<char>> {
    if status_code(status) == 0 && status_type(status) == 0 {
        None
    } else {
        Some(
            "NVMe status sct=0x"@ + seq![text::hex_digit(status_type(status) as nat)] + " sc=0x"@
                + text::hex2(status_code(status) as u8),
        )
    }
}

impl Cqe {
    pub fn parse(b: &[u8]) -> (r: Self)
        requires
            b@.len() >= 16,
        ensures
            r == completion(b@),
    {
        Cqe { dw0: bytes::le32(b, 0), dw1: bytes::le32(b, 4), status: bytes::le16(b, 14) }
    }

    pub fn failed(&self) -> (r: Option<String>)
        ensures
            text::opt_text(r) == fault(self.status),
    {
        let sc: u16 = (self.status / 2) % 256;
        let sct: u16 = (self.status / 512) % 8;
        if sc == 0 && sct == 0 {
            return None;
        }
        let mut said = "NVMe status sct=0x".to_owned();
        said.push(strings::hex_digit(sct as u8));
        assert(said@ =~= "NVMe status sct=0x"@ + seq![text::hex_digit(sct as nat)]);
        said.append(" sc=0x");
        said.append(strings::hex2(sc as u8).as_str());
        Some(said)
    }
}

// ---------------------------------------------------------------------------
// PDUs that go out

/// The connection request. Digests are declined, which keeps every later PDU free
/// of trailing digest fields.
pub open spec fn ic_request() -> Seq<u8> {
    seq![PDU_ICREQ, 0, 128, 0] + bytes::le32_bytes(128) + bytes::zeros(120)
}

pub fn ic_request_pdu() -> (r: Vec<u8>)
    ensures
        r@ == ic_request(),
{
    let mut pdu: Vec<u8> = Vec::new();
    pdu.push(PDU_ICREQ);
    pdu.push(0);
    pdu.push(128);
    pdu.push(0);
    assert(pdu@ =~= seq![PDU_ICREQ, 0, 128, 0]);
    pdu.append(&mut bytes::of_u32(128));
    pdu.append(&mut bytes::zeroed(120));
    pdu
}

/// A command capsule: header, entry, and the data it carries.
pub open spec fn capsule(sqe: Seq<u8>, data: Seq<u8>) -> Seq<u8> {
    seq![
        PDU_CMD,
        0,
        72,
        if data.len() == 0 {
            0
        } else {
            72
        },
    ] + bytes::le32_bytes((72 + data.len()) as u32) + sqe + data
}

pub fn command_pdu(sqe: &Sqe, data: &[u8]) -> (r: Vec<u8>)
    requires
        72 + data@.len() <= u32::MAX,
    ensures
        r@ == capsule(sqe@, data@),
{
    let mut pdu: Vec<u8> = Vec::new();
    pdu.push(PDU_CMD);
    pdu.push(0);
    pdu.push(72);
    pdu.push(
        if data.len() == 0 {
            0
        } else {
            72
        },
    );
    assert(pdu@ =~= seq![
        PDU_CMD,
        0,
        72,
        if data@.len() == 0 {
            0
        } else {
            72
        },
    ]);
    pdu.append(&mut bytes::of_u32(72 + data.len() as u32));
    pdu.append(&mut bytes::copied(sqe.as_slice(), 0, sqe.as_slice().len()));
    pdu.append(&mut bytes::copied(data, 0, data.len()));
    assert(sqe@.subrange(0, sqe@.len() as int) =~= sqe@);
    assert(data@.subrange(0, data@.len() as int) =~= data@);
    pdu
}

/// Data for the controller. Bit 2 of the flags is LAST_PDU; bits 0 and 1 are the
/// digest flags.
pub open spec fn h2c_data(cid: u16, ttag: u16, offset: u32, data: Seq<u8>, last: bool) -> Seq<u8> {
    seq![
        PDU_H2C_DATA,
        if last {
            4
        } else {
            0
        },
        24,
        24,
    ] + bytes::le32_bytes((24 + data.len()) as u32) + bytes::le16_bytes(cid) + bytes::le16_bytes(
        ttag,
    ) + bytes::le32_bytes(offset) + bytes::le32_bytes(data.len() as u32) + bytes::zeros(4) + data
}

pub fn h2c_data_pdu(cid: u16, ttag: u16, offset: u32, data: &[u8], last: bool) -> (r: Vec<u8>)
    requires
        24 + data@.len() <= u32::MAX,
    ensures
        r@ == h2c_data(cid, ttag, offset, data@, last),
{
    let mut pdu: Vec<u8> = Vec::new();
    pdu.push(PDU_H2C_DATA);
    pdu.push(
        if last {
            4
        } else {
            0
        },
    );
    pdu.push(24);
    pdu.push(24);
    assert(pdu@ =~= seq![
        PDU_H2C_DATA,
        if last {
            4
        } else {
            0
        },
        24,
        24,
    ]);
    pdu.append(&mut bytes::of_u32(24 + data.len() as u32));
    pdu.append(&mut bytes::of_u16(cid));
    pdu.append(&mut bytes::of_u16(ttag));
    pdu.append(&mut bytes::of_u32(offset));
    pdu.append(&mut bytes::of_u32(data.len() as u32));
    pdu.append(&mut bytes::zeroed(4));
    pdu.append(&mut bytes::copied(data, 0, data.len()));
    assert(data@.subrange(0, data@.len() as int) =~= data@);
    pdu
}

// ---------------------------------------------------------------------------
// The queue

/// One NVMe/TCP queue: what is kept of a connection besides the connection.
#[derive(Debug)]
pub struct Queue {
    cid: u16,
    maxh2cdata: u32,
}

/// `0x` and two hex digits.
pub open spec fn hex_byte(b: u8) -> Seq<char> {
    "0x"@ + text::hex2(b)
}

fn hex_byte_text(b: u8) -> (r: String)
    ensures
        r@ == hex_byte(b),
{
    strings::concat("0x", strings::hex2(b).as_str())
}

/// What is wrong with the answer to a connection request.
pub open spec fn ic_fault(resp: Seq<u8>) -> Option<Seq<char>> {
    if resp[0] != PDU_ICRESP {
        Some(
            "expected ICResp, got PDU type "@ + hex_byte(resp[0])
                + " (is this an NVMe/TCP port?)"@,
        )
    } else if resp[11] % 4 != 0 {
        Some("controller insists on PDU digests, which this client declined"@)
    } else {
        None
    }
}

impl Queue {
    /// The id of the command last sent.
    pub closed spec fn last_cid(&self) -> u16 {
        self.cid
    }

    /// The most data one PDU to the controller may carry.
    pub closed spec fn limit(&self) -> u32 {
        self.maxh2cdata
    }

    pub open spec fn wf(&self) -> bool {
        self.limit() >= 4096
    }

    pub fn new() -> (r: Self)
        ensures
            r.wf(),
            r.last_cid() == 0,
            r.limit() == 8192,
    {
        Queue { cid: 0, maxh2cdata: 8192 }
    }

    /// The answer to the connection request. A controller that names a limit below
    /// 4096 is taken to have named none.
    pub fn on_ic_response(&mut self, resp: &[u8]) -> (r: Result<(), String>)
        requires
            old(self).wf(),
            resp@.len() == 128,
        ensures
            final(self).wf(),
            final(self).last_cid() == old(self).last_cid(),
            match r {
                Err(said) => ic_fault(resp@) == Some(said@) && final(self).limit() == old(
                    self,
                ).limit(),
                Ok(()) => ic_fault(resp@) is None && final(self).limit() == if bytes::le32_at(
                    resp@,
                    12,
                ) >= 4096 {
                    bytes::le32_at(resp@, 12) as u32
                } else {
                    old(self).limit()
                },
            },
    {
        if resp[0] != PDU_ICRESP {
            let mut said = strings::concat(
                "expected ICResp, got PDU type ",
                hex_byte_text(resp[0]).as_str(),
            );
            said.append(" (is this an NVMe/TCP port?)");
            return Err(said);
        }
        if resp[11] % 4 != 0 {
            return Err(
                "controller insists on PDU digests, which this client declined".to_owned(),
            );
        }
        let maxh2cdata: u32 = bytes::le32(resp, 12);
        if maxh2cdata >= 4096 {
            self.maxh2cdata = maxh2cdata;
        }
        Ok(())
    }

    pub fn next_cid(&mut self) -> (r: u16)
        ensures
            final(self).limit() == old(self).limit(),
            final(self).last_cid() == r,
            r == if old(self).last_cid() == u16::MAX {
                0
            } else {
                (old(self).last_cid() + 1) as u16
            },
    {
        self.cid = self.cid.wrapping_add(1);
        self.cid
    }
}

// ---------------------------------------------------------------------------
// Waiting for a command

/// PDUs that may arrive before a command is given up on: a controller that goes
/// silent cannot wedge the boot.
pub const PDU_BUDGET: u16 = 4096;

/// The part of a PDU's common header that the rest is read by.
#[derive(Debug, Clone, Copy, PartialEq, Eq, Structural)]
pub struct Header {
    pub ptype: u8,
    pub flags: u8,
    pub pdo: u8,
    /// Bytes that follow the common header.
    pub rest: usize,
}

pub open spec fn header_of(ch: Seq<u8>) -> Result<Header, Seq<char>> {
    let plen = bytes::le32_at(ch, 4);
    if plen < 8 || ch[2] < 8 {
        Err(
            "malformed PDU (type "@ + hex_byte(ch[0]) + ", hlen "@ + text::dec(ch[2] as nat)
                + ", plen "@ + text::dec(plen) + ")"@,
        )
    } else {
        Ok(Header { ptype: ch[0], flags: ch[1], pdo: ch[3], rest: (plen - 8) as usize })
    }
}

pub fn parse_header(ch: &[u8]) -> (r: Result<Header, String>)
    requires
        ch@.len() == 8,
    ensures
        match r {
            Ok(h) => header_of(ch@) == Ok::<Header, Seq<char>>(h),
            Err(said) => header_of(ch@) == Err::<Header, Seq<char>>(said@),
        },
{
    let plen: u32 = bytes::le32(ch, 4);
    if plen < 8 || ch[2] < 8 {
        let mut said = strings::concat("malformed PDU (type ", hex_byte_text(ch[0]).as_str());
        said.append(", hlen ");
        said.append(strings::dec(ch[2] as u64).as_str());
        said.append(", plen ");
        said.append(strings::dec(plen as u64).as_str());
        said.append(")");
        return Err(said);
    }
    Ok(Header { ptype: ch[0], flags: ch[1], pdo: ch[3], rest: (plen - 8) as usize })
}

/// What a PDU leads to.
#[derive(Debug)]
pub enum Progress {
    /// Wait for the next one.
    Wait,
    /// Send these, then wait for the next one.
    Send(Vec<Vec<u8>>),
    /// The command is complete.
    Done(Cqe),
    Failed(String),
}

pub enum ProgressView {
    Wait,
    Send(Seq<Seq<u8>>),
    Done(Cqe),
    Failed(Seq<char>),
}

pub open spec fn pdus(v: Seq<Vec<u8>>) -> Seq<Seq<u8>> {
    v.map_values(|p: Vec<u8>| p@)
}

impl View for Progress {
    type V = ProgressView;

    open spec fn view(&self) -> ProgressView {
        match *self {
            Progress::Wait => ProgressView::Wait,
            Progress::Send(list) => ProgressView::Send(pdus(list@)),
            Progress::Done(cqe) => ProgressView::Done(cqe),
            Progress::Failed(said) => ProgressView::Failed(said@),
        }
    }
}

/// The PDUs that carry the bytes of `data` from `from` up to `to`, each at most
/// `limit` of them, the last one marked.
pub open spec fn h2c_run(
    cid: u16,
    ttag: u16,
    data: Seq<u8>,
    from: int,
    to: int,
    limit: int,
) -> Seq<Seq<u8>>
    decreases to - from,
{
    if from >= to || limit <= 0 {
        Seq::empty()
    } else {
        let n = if to - from <= limit {
            to - from
        } else {
            limit
        };
        seq![h2c_data(cid, ttag, from as u32, data.subrange(from, from + n), from + n == to)]
            + h2c_run(cid, ttag, data, from + n, to, limit)
    }
}

/// A command in flight: its id, what it has to write, and where what it reads
/// goes.
#[derive(Debug)]
pub struct Exchange {
    pub cid: u16,
    /// PDUs that may still arrive.
    pub budget: u16,
    pub outgoing: Option<Vec<u8>>,
    pub incoming: Option<Vec<u8>>,
}

pub open spec fn opt_bytes(o: Option<Vec<u8>>) -> Option<Seq<u8>> {
    match o {
        Some(v) => Some(v@),
        None => None,
    }
}

/// How many bytes a PDU of that type has to carry behind its common header for it
/// to be read at all.
pub open spec fn least(ptype: u8) -> nat {
    if ptype == PDU_RESP {
        16
    } else if ptype == PDU_R2T || ptype == PDU_C2H_DATA {
        12
    } else {
        0
    }
}

impl Header {
    /// Whether enough follows for the PDU to be read.
    pub fn is_readable(&self) -> (r: bool)
        ensures
            r == (self.rest >= least(self.ptype)),
    {
        if self.ptype == PDU_RESP {
            self.rest >= 16
        } else if self.ptype == PDU_R2T || self.ptype == PDU_C2H_DATA {
            self.rest >= 12
        } else {
            true
        }
    }
}

/// A request for data: the bytes asked for, in PDUs, or why not.
pub open spec fn on_r2t(limit: u32, outgoing: Option<Seq<u8>>, rest: Seq<u8>) -> ProgressView {
    let offset = bytes::le32_at(rest, 4);
    let length = bytes::le32_at(rest, 8);
    match outgoing {
        None => ProgressView::Failed("controller asked for data on a command carrying none"@),
        Some(data) => if offset + length > data.len() {
            ProgressView::Failed(
                "controller asked for bytes "@ + text::dec(offset) + ".."@ + text::dec(
                    offset + length,
                ) + " of a "@ + text::dec(data.len()) + "-byte transfer"@,
            )
        } else {
            ProgressView::Send(
                h2c_run(
                    bytes::le16_at(rest, 0) as u16,
                    bytes::le16_at(rest, 2) as u16,
                    data,
                    offset as int,
                    (offset + length) as int,
                    limit as int,
                ),
            )
        },
    }
}

/// Data that arrived: why it cannot be taken, if it cannot.
pub open spec fn c2h_fault(pdo: u8, incoming: Option<Seq<u8>>, rest: Seq<u8>) -> Option<Seq<char>> {
    let offset = bytes::le32_at(rest, 4);
    let length = bytes::le32_at(rest, 8);
    if payload_at(pdo) + length > rest.len() {
        Some("C2HData payload runs past the PDU"@)
    } else {
        match incoming {
            None => Some("unexpected read data on a command that asked for none"@),
            Some(buf) => if offset + length > buf.len() {
                Some("controller returned more data than requested"@)
            } else {
                None
            },
        }
    }
}

/// Where a data PDU's payload starts behind the common header.
pub open spec fn payload_at(pdo: u8) -> nat {
    if pdo < 8 {
        0
    } else {
        (pdo - 8) as nat
    }
}

/// What is read so far, with the payload of a data PDU put where it belongs.
pub open spec fn taken(pdo: u8, buf: Seq<u8>, rest: Seq<u8>) -> Seq<u8> {
    bytes::written(
        buf,
        bytes::le32_at(rest, 4) as int,
        rest.subrange(
            payload_at(pdo) as int,
            (payload_at(pdo) + bytes::le32_at(rest, 8)) as int,
        ),
    )
}

/// Whether a data PDU's flags say that it is the last and that the command
/// succeeded: bits 2 and 3, above the digest flags.
pub open spec fn last_and_good(flags: u8) -> bool {
    (flags / 4) % 2 == 1 && (flags / 8) % 2 == 1
}

/// What a PDU leads to.
pub open spec fn progress(
    limit: u32,
    cid: u16,
    outgoing: Option<Seq<u8>>,
    incoming: Option<Seq<u8>>,
    h: Header,
    rest: Seq<u8>,
) -> ProgressView {
    if h.ptype == PDU_RESP {
        let cqe = completion(rest);
        if bytes::le16_at(rest, 12) != cid {
            ProgressView::Wait
        } else {
            match fault(cqe.status) {
                Some(said) => ProgressView::Failed(said),
                None => ProgressView::Done(cqe),
            }
        }
    } else if h.ptype == PDU_R2T {
        on_r2t(limit, outgoing, rest)
    } else if h.ptype == PDU_C2H_DATA {
        match c2h_fault(h.pdo, incoming, rest) {
            Some(said) => ProgressView::Failed(said),
            None => if last_and_good(h.flags) {
                ProgressView::Done(Cqe { dw0: 0, dw1: 0, status: 0 })
            } else {
                ProgressView::Wait
            },
        }
    } else if h.ptype == PDU_C2H_TERM || h.ptype == PDU_H2C_TERM {
        ProgressView::Failed(
            "controller terminated the connection (PDU "@ + hex_byte(h.ptype) + ")"@,
        )
    } else {
        ProgressView::Failed("unexpected PDU type "@ + hex_byte(h.ptype))
    }
}

/// What is read after a PDU.
pub open spec fn incoming_after(incoming: Option<Seq<u8>>, h: Header, rest: Seq<u8>) -> Option<
    Seq<u8>,
> {
    if h.ptype == PDU_C2H_DATA && c2h_fault(h.pdo, incoming, rest) is None {
        Some(taken(h.pdo, incoming->0, rest))
    } else {
        incoming
    }
}

fn r2t(limit: u32, outgoing: &Option<Vec<u8>>, rest: &[u8]) -> (r: Progress)
    requires
        limit > 0,
        rest@.len() >= 12,
        outgoing matches Some(data) ==> data@.len() + 24 <= u32::MAX,
    ensures
        r@ == on_r2t(limit, opt_bytes(*outgoing), rest@),
{
    let cid: u16 = bytes::le16(rest, 0);
    let ttag: u16 = bytes::le16(rest, 2);
    let offset: u64 = bytes::le32(rest, 4) as u64;
    let length: u64 = bytes::le32(rest, 8) as u64;
    match outgoing {
        None => Progress::Failed(
            "controller asked for data on a command carrying none".to_owned(),
        ),
        Some(data) => {
            if offset + length > data.len() as u64 {
                let mut said = strings::concat(
                    "controller asked for bytes ",
                    strings::dec(offset).as_str(),
                );
                said.append("..");
                said.append(strings::dec(offset + length).as_str());
                said.append(" of a ");
                said.append(strings::dec(data.len() as u64).as_str());
                said.append("-byte transfer");
                return Progress::Failed(said);
            }
            Progress::Send(
                h2c_pdus(cid, ttag, data, offset as usize, (offset + length) as usize, limit),
            )
        },
    }
}

fn h2c_pdus(
    cid: u16,
    ttag: u16,
    data: &Vec<u8>,
    from: usize,
    to: usize,
    limit: u32,
) -> (r: Vec<Vec<u8>>)
    requires
        from <= to <= data@.len(),
        data@.len() + 24 <= u32::MAX,
        limit > 0,
    ensures
        pdus(r@) == h2c_run(cid, ttag, data@, from as int, to as int, limit as int),
{
    let ghost whole = h2c_run(cid, ttag, data@, from as int, to as int, limit as int);
    let mut out: Vec<Vec<u8>> = Vec::new();
    let mut sent: usize = from;
    assert(pdus(out@) + whole =~= whole);
    while sent < to
        invariant
            from <= sent <= to <= data@.len(),
            data@.len() + 24 <= u32::MAX,
            limit > 0,
            whole == h2c_run(cid, ttag, data@, from as int, to as int, limit as int),
            pdus(out@) + h2c_run(cid, ttag, data@, sent as int, to as int, limit as int) == whole,
        decreases to - sent,
    {
        let n: usize = if to - sent <= limit as usize {
            to - sent
        } else {
            limit as usize
        };
        let piece = bytes::copied(data.as_slice(), sent, sent + n);
        let pdu = h2c_data_pdu(cid, ttag, sent as u32, piece.as_slice(), sent + n == to);
        let ghost was = out@;
        let ghost rest = h2c_run(cid, ttag, data@, sent + n, to as int, limit as int);
        out.push(pdu);
        sent = sent + n;
        assert(pdus(out@) + rest =~= pdus(was) + (seq![pdu@] + rest));
    }
    assert(pdus(out@) + Seq::<Seq<u8>>::empty() =~= pdus(out@));
    out
}

impl Exchange {
    /// What a command writes fits in the lengths that the PDUs carry.
    pub open spec fn wf(&self) -> bool {
        self.outgoing matches Some(data) ==> data@.len() + 24 <= u32::MAX
    }

    pub fn new(cid: u16, outgoing: Option<Vec<u8>>, incoming: Option<Vec<u8>>) -> (r: Self)
        requires
            outgoing matches Some(data) ==> data@.len() + 24 <= u32::MAX,
        ensures
            r.wf(),
            r.cid == cid,
            r.budget == PDU_BUDGET,
            r.outgoing == outgoing,
            r.incoming == incoming,
    {
        Exchange { cid, budget: PDU_BUDGET, outgoing, incoming }
    }

    /// Whether another PDU may be waited for.
    pub fn spend(&mut self) -> (r: Result<(), String>)
        ensures
            final(self).cid == old(self).cid,
            final(self).outgoing == old(self).outgoing,
            final(self).incoming == old(self).incoming,
            match r {
                Ok(()) => old(self).budget > 0 && final(self).budget == old(self).budget - 1,
                Err(said) => old(self).budget == 0 && final(self).budget == 0 && said@
                    == "controller never completed the command"@,
            },
    {
        if self.budget == 0 {
            return Err("controller never completed the command".to_owned());
        }
        self.budget = self.budget - 1;
        Ok(())
    }

    /// One PDU that arrived while the command was waited for.
    pub fn on_pdu(&mut self, queue: &Queue, h: &Header, rest: &[u8]) -> (r: Progress)
        requires
            old(self).wf(),
            queue.wf(),
            rest@.len() >= least(h.ptype),
        ensures
            final(self).wf(),
            final(self).cid == old(self).cid,
            final(self).budget == old(self).budget,
            final(self).outgoing == old(self).outgoing,
            r@ == progress(
                queue.limit(),
                old(self).cid,
                opt_bytes(old(self).outgoing),
                opt_bytes(old(self).incoming),
                *h,
                rest@,
            ),
            opt_bytes(final(self).incoming) == incoming_after(
                opt_bytes(old(self).incoming),
                *h,
                rest@,
            ),
    {
        if h.ptype == PDU_RESP {
            let cqe = Cqe::parse(rest);
            if bytes::le16(rest, 12) != self.cid {
                // Not ours; nothing else is in flight here.
                return Progress::Wait;
            }
            match cqe.failed() {
                Some(said) => Progress::Failed(said),
                None => Progress::Done(cqe),
            }
        } else if h.ptype == PDU_R2T {
            r2t(queue.maxh2cdata, &self.outgoing, rest)
        } else if h.ptype == PDU_C2H_DATA {
            self.on_data(h, rest)
        } else if h.ptype == PDU_C2H_TERM || h.ptype == PDU_H2C_TERM {
            let mut said = strings::concat(
                "controller terminated the connection (PDU ",
                hex_byte_text(h.ptype).as_str(),
            );
            said.append(")");
            Progress::Failed(said)
        } else {
            Progress::Failed(
                strings::concat("unexpected PDU type ", hex_byte_text(h.ptype).as_str()),
            )
        }
    }

    fn on_data(&mut self, h: &Header, rest: &[u8]) -> (r: Progress)
        requires
            old(self).wf(),
            h.ptype == PDU_C2H_DATA,
            rest@.len() >= 12,
        ensures
            final(self).wf(),
            final(self).cid == old(self).cid,
            final(self).budget == old(self).budget,
            final(self).outgoing == old(self).outgoing,
            r@ == match c2h_fault(h.pdo, opt_bytes(old(self).incoming), rest@) {
                Some(said) => ProgressView::Failed(said),
                None => if last_and_good(h.flags) {
                    ProgressView::Done(Cqe { dw0: 0, dw1: 0, status: 0 })
                } else {
                    ProgressView::Wait
                },
            },
            opt_bytes(final(self).incoming) == incoming_after(
                opt_bytes(old(self).incoming),
                *h,
                rest@,
            ),
    {
        let offset: u64 = bytes::le32(rest, 4) as u64;
        let length: u64 = bytes::le32(rest, 8) as u64;
        let at: u64 = if h.pdo < 8 {
            0
        } else {
            (h.pdo - 8) as u64
        };
        if at + length > rest.len() as u64 {
            return Progress::Failed("C2HData payload runs past the PDU".to_owned());
        }
        let payload = bytes::copied(rest, at as usize, (at + length) as usize);
        match &mut self.incoming {
            None => {
                return Progress::Failed(
                    "unexpected read data on a command that asked for none".to_owned(),
                );
            },
            Some(buf) => {
                if offset + length > buf.len() as u64 {
                    return Progress::Failed(
                        "controller returned more data than requested".to_owned(),
                    );
                }
                bytes::write(buf, offset as usize, payload.as_slice());
            },
        }
        if (h.flags / 4) % 2 == 1 && (h.flags / 8) % 2 == 1 {
            Progress::Done(Cqe { dw0: 0, dw1: 0, status: 0 })
        } else {
            Progress::Wait
        }
    }
}

// ---------------------------------------------------------------------------
// Commands

/// A fabrics command of that type.
pub open spec fn fabrics(cid: u16, fctype: u8) -> Seq<u8> {
    entry(OPC_FABRICS, cid, 0).update(4, fctype)
}

fn width(eight: bool) -> (r: u8)
    ensures
        r == if eight {
            1u8
        } else {
            0
        },
{
    if eight {
        1
    } else {
        0
    }
}

pub open spec fn property_get_entry(cid: u16, offset: u32, eight: bool) -> Seq<u8> {
    with_dw(
        fabrics(cid, FCTYPE_PROPERTY_GET).update(
            40,
            if eight {
                1
            } else {
                0
            },
        ),
        11,
        offset,
    )
}

pub fn property_get(cid: u16, offset: u32, eight: bool) -> (r: Sqe)
    ensures
        r.wf(),
        r@ == property_get_entry(cid, offset, eight),
{
    let mut sqe = Sqe::new(OPC_FABRICS, cid, 0);
    sqe.byte(4, FCTYPE_PROPERTY_GET);
    sqe.byte(40, width(eight));
    sqe.dw(11, offset);
    sqe
}

/// The property a completion carries.
pub fn property_value(cqe: &Cqe, eight: bool) -> (r: u64)
    ensures
        r == if eight {
            cqe.dw0 + 0x1_0000_0000 * cqe.dw1
        } else {
            cqe.dw0 as int
        },
{
    if eight {
        cqe.dw0 as u64 + 0x1_0000_0000 * cqe.dw1 as u64
    } else {
        cqe.dw0 as u64
    }
}

pub open spec fn property_set_entry(cid: u16, offset: u32, value: u64, eight: bool) -> Seq<u8> {
    with_dw(
        with_dw(
            with_dw(
                fabrics(cid, FCTYPE_PROPERTY_SET).update(
                    40,
                    if eight {
                        1
                    } else {
                        0
                    },
                ),
                11,
                offset,
            ),
            12,
            (value % 0x1_0000_0000) as u32,
        ),
        13,
        (value / 0x1_0000_0000) as u32,
    )
}

pub fn property_set(cid: u16, offset: u32, value: u64, eight: bool) -> (r: Sqe)
    ensures
        r.wf(),
        r@ == property_set_entry(cid, offset, value, eight),
{
    let mut sqe = Sqe::new(OPC_FABRICS, cid, 0);
    sqe.byte(4, FCTYPE_PROPERTY_SET);
    sqe.byte(40, width(eight));
    sqe.dw(11, offset);
    sqe.dw(12, (value % 0x1_0000_0000) as u32);
    sqe.dw(13, (value / 0x1_0000_0000) as u32);
    sqe
}

/// The first `n` bytes, or all of them.
pub open spec fn at_most(b: Seq<u8>, n: int) -> Seq<u8> {
    if b.len() <= n {
        b
    } else {
        b.take(n)
    }
}

fn first_bytes(b: &[u8], n: usize) -> (r: Vec<u8>)
    ensures
        r@ == at_most(b@, n as int),
{
    if b.len() <= n {
        assert(b@.subrange(0, b@.len() as int) =~= b@);
        bytes::copied(b, 0, b.len())
    } else {
        assert(b@.subrange(0, n as int) =~= b@.take(n as int));
        bytes::copied(b, 0, n)
    }
}

/// The data of a Connect: the host's id, the controller's, and the two names, each
/// in a field of 256 bytes that ends in a zero.
pub open spec fn connect_data(
    cntlid: u16,
    subnqn: Seq<u8>,
    hostnqn: Seq<u8>,
    hostid: Seq<u8>,
) -> Seq<u8> {
    bytes::written(
        bytes::written(
            bytes::written(
                bytes::written(bytes::zeros(1024), 0, hostid),
                16,
                bytes::le16_bytes(cntlid),
            ),
            256,
            at_most(subnqn, 255),
        ),
        512,
        at_most(hostnqn, 255),
    )
}

pub fn connect_payload(cntlid: u16, subnqn: &str, hostnqn: &str, hostid: &[u8; 16]) -> (r: Vec<u8>)
    ensures
        r@ == connect_data(
            cntlid,
            vstd::utf8::encode_utf8(subnqn@),
            vstd::utf8::encode_utf8(hostnqn@),
            hostid@,
        ),
        r@.len() == 1024,
{
    let mut data = bytes::zeroed(1024);
    bytes::write(&mut data, 0, hostid.as_slice());
    bytes::write(&mut data, 16, bytes::of_u16(cntlid).as_slice());
    bytes::write(&mut data, 256, first_bytes(subnqn.as_bytes(), 255).as_slice());
    bytes::write(&mut data, 512, first_bytes(hostnqn.as_bytes(), 255).as_slice());
    data
}

/// Fabrics Connect. CDW10 has RECFMT (0) in its low half and QID in its high half;
/// CDW11 has SQSIZE, 0-based.
pub open spec fn connect_entry(cid: u16, qid: u16, sqsize: u16) -> Seq<u8> {
    with_dw(
        with_dw(
            with_sgl(fabrics(cid, FCTYPE_CONNECT), 0, 1024, SGL_IN_CAPSULE),
            10,
            (qid * 0x1_0000) as u32,
        ),
        11,
        if sqsize == 0 {
            0
        } else {
            (sqsize - 1) as u32
        },
    )
}

pub fn fabrics_connect(cid: u16, qid: u16, sqsize: u16) -> (r: Sqe)
    ensures
        r.wf(),
        r@ == connect_entry(cid, qid, sqsize),
{
    let mut sqe = Sqe::new(OPC_FABRICS, cid, 0);
    sqe.byte(4, FCTYPE_CONNECT);
    sqe.sgl(0, 1024, SGL_IN_CAPSULE);
    sqe.dw(10, qid as u32 * 0x1_0000);
    sqe.dw(
        11,
        if sqsize == 0 {
            0
        } else {
            (sqsize - 1) as u32
        },
    );
    sqe
}

/// The controller id that a Connect hands back.
pub fn controller_id(cqe: &Cqe) -> (r: u16)
    ensures
        r == cqe.dw0 % 0x1_0000,
{
    (cqe.dw0 % 0x1_0000) as u16
}

/// A stable host id derived from the host NQN: the target uses it to recognise
/// this initiator across reconnects, and firmware has no process id or randomness
/// to fall back on.
pub open spec fn host_id_of(hostnqn: Seq<u8>) -> Seq<u8> {
    bytes::written(bytes::zeros(16), 0, at_most(hostnqn, 16))
}

pub fn host_id(hostnqn: &str) -> (r: [u8; 16])
    ensures
        r@ == host_id_of(vstd::utf8::encode_utf8(hostnqn@)),
{
    let b = hostnqn.as_bytes();
    let ghost all = vstd::utf8::encode_utf8(hostnqn@);
    let mut id = [0u8;16];
    let mut i: usize = 0;
    while i < 16 && i < b.len()
        invariant
            i <= 16,
            i <= b@.len(),
            b@ == all,
            forall|j: int| 0 <= j < i ==> #[trigger] id@[j] == all[j],
            forall|j: int| i <= j < 16 ==> #[trigger] id@[j] == 0,
        decreases 16 - i,
    {
        id[i] = b[i];
        i = i + 1;
    }
    assert(id@ =~= host_id_of(all));
    id
}

// ---------------------------------------------------------------------------
// Enabling the controller

/// Entries of the admin queue.
pub const ADMIN_ENTRIES: u16 = 32;

/// Entries of the I/O queue, where the controller supports as many.
pub const IO_ENTRIES: u16 = 128;

/// The controller id of an admin Connect: the controller picks one.
pub const DYNAMIC_CONTROLLER: u16 = 0xFFFF;

/// Queue entries the controller supports: CAP.MQES is 0-based.
pub open spec fn queue_entries(cap: u64) -> u16 {
    if cap % 0x1_0000 == 0xFFFF {
        0xFFFF
    } else {
        (cap % 0x1_0000 + 1) as u16
    }
}

/// How long the controller may take to become ready: CAP.TO, in 500ms units.
pub open spec fn ready_within(cap: u64) -> u64 {
    (500 * (if (cap / 0x100_0000) % 256 == 0 {
        1
    } else {
        (cap / 0x100_0000) % 256
    })) as u64
}

/// What is known while the controller comes out of reset.
#[derive(Debug, Clone, Copy, PartialEq, Eq, Structural)]
pub struct Enabling {
    pub mqes: u16,
    pub timeout_ms: u64,
    pub waited: u64,
}

/// What a controller's status leads to.
#[derive(Debug)]
pub enum Enabled {
    Ready,
    /// Ask again in 10ms.
    Wait,
    Failed(String),
}

impl Enabling {
    pub fn new(cap: u64) -> (r: Self)
        ensures
            r.mqes == queue_entries(cap),
            r.timeout_ms == ready_within(cap),
            r.waited == 0,
    {
        let units: u64 = (cap / 0x100_0000) % 256;
        let mqes: u16 = if cap % 0x1_0000 == 0xFFFF {
            0xFFFF
        } else {
            (cap % 0x1_0000 + 1) as u16
        };
        Enabling {
            mqes,
            timeout_ms: 500 * if units == 0 {
                1
            } else {
                units
            },
            waited: 0,
        }
    }

    /// How many entries the I/O queue is asked to have.
    pub fn io_entries(&self) -> (r: u16)
        ensures
            r == if self.mqes < IO_ENTRIES {
                self.mqes
            } else {
                IO_ENTRIES
            },
    {
        if self.mqes < IO_ENTRIES {
            self.mqes
        } else {
            IO_ENTRIES
        }
    }

    /// Connect only establishes a queue; a conforming target answers every admin
    /// command with Command Sequence Error until it reports that it is ready.
    pub fn on_status(&mut self, csts: u64) -> (r: Enabled)
        requires
            old(self).waited <= old(self).timeout_ms + 10,
            old(self).timeout_ms <= 127500,
        ensures
            final(self).mqes == old(self).mqes,
            final(self).timeout_ms == old(self).timeout_ms,
            final(self).waited <= final(self).timeout_ms + 10,
            if (csts / 2) % 2 == 1 {
                &&& r matches Enabled::Failed(said)
                &&& said@ == "controller reports fatal status (CSTS.CFS)"@
                &&& final(self).waited == old(self).waited
            } else if csts % 2 == 1 {
                r is Ready && final(self).waited == old(self).waited
            } else if old(self).waited > old(self).timeout_ms {
                &&& r matches Enabled::Failed(said)
                &&& said@ == "controller not ready "@ + text::dec(old(self).timeout_ms as nat)
                    + "ms after CC.EN"@
                &&& final(self).waited == old(self).waited
            } else {
                r is Wait && final(self).waited == old(self).waited + 10
            },
    {
        if (csts / 2) % 2 == 1 {
            return Enabled::Failed("controller reports fatal status (CSTS.CFS)".to_owned());
        }
        if csts % 2 == 1 {
            return Enabled::Ready;
        }
        if self.waited > self.timeout_ms {
            let mut said = strings::concat(
                "controller not ready ",
                strings::dec(self.timeout_ms).as_str(),
            );
            said.append("ms after CC.EN");
            return Enabled::Failed(said);
        }
        self.waited = self.waited + 10;
        Enabled::Wait
    }
}

// ---------------------------------------------------------------------------
// The namespace

/// Geometry of the namespace being booted from.
#[derive(Debug, Clone, Copy, PartialEq, Eq, Structural)]
pub struct Geometry {
    pub blocks: u64,
    pub block_size: u32,
}

/// Identify the namespace: CNS 0x00, nsid in the command.
pub open spec fn identify_entry(cid: u16, nsid: u32) -> Seq<u8> {
    with_dw(with_sgl(entry(OPC_IDENTIFY, cid, nsid), 0, 4096, SGL_TRANSPORT), 10, 0)
}

pub fn identify(cid: u16, nsid: u32) -> (r: Sqe)
    ensures
        r.wf(),
        r@ == identify_entry(cid, nsid),
{
    let mut sqe = Sqe::new(OPC_IDENTIFY, cid, nsid);
    sqe.sgl(0, 4096, SGL_TRANSPORT);
    sqe.dw(10, 0);
    sqe
}

/// The LBA data size that the namespace is formatted with, as a power of two.
/// FLBAS at 26 picks one of the formats at 128, each four bytes, whose byte 2 it
/// is.
pub open spec fn lbads(idns: Seq<u8>) -> u8 {
    idns[128 + (idns[26] % 16) * 4 + 2]
}

pub open spec fn block_bytes(lbads: u8) -> nat {
    vstd::arithmetic::power2::pow2(lbads as nat)
}

pub open spec fn plausible(lbads: u8) -> bool {
    512 <= block_bytes(lbads) <= 65536
}

/// Whether a block of the size that an Identify names can be counted in 32 bits.
pub fn is_countable(idns: &[u8]) -> (r: bool)
    requires
        idns@.len() == 4096,
    ensures
        r == (lbads(idns@) < 32),
{
    let flbas: usize = (idns[26] % 16) as usize;
    idns[128 + flbas * 4 + 2] < 32
}

/// The namespace's geometry. Its size stands at 0.
pub fn geometry_of(idns: &[u8]) -> (r: Result<Geometry, String>)
    requires
        idns@.len() == 4096,
        lbads(idns@) < 32,
    ensures
        match r {
            Ok(g) => plausible(lbads(idns@)) && g.blocks == bytes::le64_at(idns@, 0) && g.block_size
                == block_bytes(lbads(idns@)),
            Err(said) => !plausible(lbads(idns@)) && said@ == "implausible block size "@
                + text::dec(block_bytes(lbads(idns@))) + " (LBADS "@ + text::dec(
                lbads(idns@) as nat,
            ) + ")"@,
        },
{
    let blocks: u64 = bytes::le64(idns, 0);
    let flbas: usize = (idns[26] % 16) as usize;
    let size: u8 = idns[128 + flbas * 4 + 2];
    proof {
        vstd::bits::lemma_u32_pow2_no_overflow(size as nat);
        vstd::bits::lemma_u32_shl_is_mul(1u32, size as u32);
    }
    let block_size: u32 = 1u32 << size as u32;
    if block_size < 512 || block_size > 65536 {
        let mut said = strings::concat(
            "implausible block size ",
            strings::dec(block_size as u64).as_str(),
        );
        said.append(" (LBADS ");
        said.append(strings::dec(size as u64).as_str());
        said.append(")");
        return Err(said);
    }
    Ok(Geometry { blocks, block_size })
}

/// One command's part of a transfer.
#[derive(Debug, Clone, Copy, PartialEq, Eq, Structural)]
pub struct Transfer {
    /// Where in the buffer.
    pub offset: usize,
    pub len: usize,
    /// Where on the namespace.
    pub lba: u64,
    pub blocks: u32,
}

/// The transfers that move the bytes of a buffer from `done` up to `total`.
pub open spec fn transfers(lba: int, done: int, total: int, bs: int, max: int) -> Seq<Transfer>
    decreases total - done,
{
    if done >= total || max <= 0 {
        Seq::empty()
    } else {
        let n = if total - done <= max {
            total - done
        } else {
            max
        };
        seq![
            Transfer {
                offset: done as usize,
                len: n as usize,
                lba: (lba + done / bs) as u64,
                blocks: (n / bs) as u32,
            },
        ] + transfers(lba, done + n, total, bs, max)
    }
}

/// An attached namespace: admin queue enabled, I/O queue connected.
#[derive(Debug)]
pub struct Namespace {
    pub nsid: u32,
    pub geometry: Geometry,
    /// Largest transfer the controller accepts, in bytes.
    pub max_transfer: usize,
}

impl Namespace {
    /// Whole blocks fit in a transfer, one at least.
    pub open spec fn wf(&self) -> bool {
        &&& 0 < self.geometry.block_size <= self.max_transfer <= u32::MAX
        &&& self.max_transfer as int % self.geometry.block_size as int == 0
    }

    /// The namespace that an Identify described.
    pub fn attached(nsid: u32, geometry: Geometry) -> (r: Self)
        ensures
            r.nsid == nsid,
            r.geometry == geometry,
            r.max_transfer == CHUNK,
    {
        Namespace { nsid, geometry, max_transfer: CHUNK }
    }

    /// Whether the namespace's blocks fit in its transfers.
    pub fn is_usable(&self) -> (r: bool)
        ensures
            r == self.wf(),
    {
        0 < self.geometry.block_size && self.geometry.block_size as usize <= self.max_transfer
            && self.max_transfer as u64 <= 0xFFFF_FFFF && self.max_transfer
            % self.geometry.block_size as usize == 0
    }

    /// The transfers that move a buffer of `total` bytes from or to `lba`, or `None`
    /// where it is not a whole number of blocks.
    pub fn plan(&self, lba: u64, total: usize) -> (r: Option<Vec<Transfer>>)
        requires
            self.wf(),
            lba + total as int / self.geometry.block_size as int <= u64::MAX,
        ensures
            r is Some <==> total as int % self.geometry.block_size as int == 0,
            match r {
                Some(list) => list@ == transfers(
                    lba as int,
                    0,
                    total as int,
                    self.geometry.block_size as int,
                    self.max_transfer as int,
                ),
                None => true,
            },
    {
        let bs: usize = self.geometry.block_size as usize;
        if total % bs != 0 {
            return None;
        }
        let ghost whole = transfers(
            lba as int,
            0,
            total as int,
            bs as int,
            self.max_transfer as int,
        );
        let mut out: Vec<Transfer> = Vec::new();
        let mut done: usize = 0;
        assert(out@ + whole =~= whole);
        while done < total
            invariant
                self.wf(),
                bs == self.geometry.block_size,
                done <= total,
                lba + total as int / bs as int <= u64::MAX,
                out@ + transfers(
                    lba as int,
                    done as int,
                    total as int,
                    bs as int,
                    self.max_transfer as int,
                ) == whole,
            decreases total - done,
        {
            let n: usize = if total - done <= self.max_transfer {
                total - done
            } else {
                self.max_transfer
            };
            proof {
                lemma_quotients(done as int, total as int, bs as int);
                lemma_quotients(n as int, self.max_transfer as int, bs as int);
            }
            let t = Transfer {
                offset: done,
                len: n,
                lba: lba + (done / bs) as u64,
                blocks: (n / bs) as u32,
            };
            let ghost rest = transfers(
                lba as int,
                done + n,
                total as int,
                bs as int,
                self.max_transfer as int,
            );
            let ghost was = out@;
            out.push(t);
            done = done + n;
            assert(out@ + rest =~= was + (seq![t] + rest));
        }
        assert(out@ + Seq::<Transfer>::empty() =~= out@);
        Some(out)
    }

    /// Why a buffer cannot be moved: `what` is "read" or "write".
    pub fn uneven(&self, what: &str, total: usize) -> (r: String)
        ensures
            r@ == what@ + " of "@ + text::dec(total as nat) + " bytes is not a multiple of "@
                + text::dec(self.geometry.block_size as nat),
    {
        let mut said = strings::concat(what, " of ");
        said.append(strings::dec(total as u64).as_str());
        said.append(" bytes is not a multiple of ");
        said.append(strings::dec(self.geometry.block_size as u64).as_str());
        said
    }

    /// The command for one transfer.
    pub fn command(&self, opcode: u8, cid: u16, t: &Transfer) -> (r: Sqe)
        requires
            t.len <= u32::MAX,
            t.blocks > 0,
        ensures
            r.wf(),
            r@ == io_entry(opcode, cid, self.nsid, *t),
    {
        let mut sqe = Sqe::new(opcode, cid, self.nsid);
        sqe.sgl(0, t.len as u32, SGL_TRANSPORT);
        sqe.dw(10, (t.lba % 0x1_0000_0000) as u32);
        sqe.dw(11, (t.lba / 0x1_0000_0000) as u32);
        sqe.dw(12, t.blocks - 1);
        sqe
    }

    /// The command that reads one transfer.
    pub fn read(&self, cid: u16, t: &Transfer) -> (r: Sqe)
        requires
            t.len <= u32::MAX,
            t.blocks > 0,
        ensures
            r.wf(),
            r@ == io_entry(OPC_READ, cid, self.nsid, *t),
    {
        self.command(OPC_READ, cid, t)
    }

    /// The command that writes one transfer.
    pub fn write(&self, cid: u16, t: &Transfer) -> (r: Sqe)
        requires
            t.len <= u32::MAX,
            t.blocks > 0,
        ensures
            r.wf(),
            r@ == io_entry(OPC_WRITE, cid, self.nsid, *t),
    {
        self.command(OPC_WRITE, cid, t)
    }
}

/// A read or a write: CDW10 and CDW11 hold the address, CDW12 the number of
/// blocks, 0-based.
pub open spec fn io_entry(opcode: u8, cid: u16, nsid: u32, t: Transfer) -> Seq<u8> {
    with_dw(
        with_dw(
            with_dw(
                with_sgl(entry(opcode, cid, nsid), 0, t.len as u32, SGL_TRANSPORT),
                10,
                (t.lba % 0x1_0000_0000) as u32,
            ),
            11,
            (t.lba / 0x1_0000_0000) as u32,
        ),
        12,
        (t.blocks - 1) as u32,
    )
}

proof fn lemma_quotients(a: int, b: int, d: int)
    requires
        0 <= a <= b,
        d > 0,
    ensures
        0 <= a / d <= b / d <= b,
{
    vstd::arithmetic::div_mod::lemma_div_is_ordered(a, b, d);
    vstd::arithmetic::div_mod::lemma_div_pos_is_pos(a, d);
    vstd::arithmetic::div_mod::lemma_div_is_ordered_by_denominator(b, 1, d);
    vstd::arithmetic::div_mod::lemma_div_basics(b);
}

// ---------------------------------------------------------------------------
// Laws

/// The payloads of data PDUs, one behind the other.
pub open spec fn payloads(run: Seq<Seq<u8>>) -> Seq<u8>
    decreases run.len(),
{
    if run.len() == 0 {
        Seq::empty()
    } else {
        run[0].skip(24) + payloads(run.skip(1))
    }
}

/// A request for data is answered with exactly the bytes it asked for, in order,
/// none of them twice; no PDU carries more than the controller takes.
pub proof fn law_the_controller_gets_what_it_asked_for(
    cid: u16,
    ttag: u16,
    data: Seq<u8>,
    from: int,
    to: int,
    limit: int,
)
    requires
        0 <= from <= to <= data.len(),
        limit > 0,
    ensures
        payloads(h2c_run(cid, ttag, data, from, to, limit)) == data.subrange(from, to),
        forall|i: int|
            0 <= i < h2c_run(cid, ttag, data, from, to, limit).len() ==> (#[trigger] h2c_run(
                cid,
                ttag,
                data,
                from,
                to,
                limit,
            )[i]).len() <= 24 + limit,
    decreases to - from,
{
    let run = h2c_run(cid, ttag, data, from, to, limit);
    if from < to {
        let n = if to - from <= limit {
            to - from
        } else {
            limit
        };
        let rest = h2c_run(cid, ttag, data, from + n, to, limit);
        law_the_controller_gets_what_it_asked_for(cid, ttag, data, from + n, to, limit);
        let piece = data.subrange(from, from + n);
        assert(run[0] == h2c_data(cid, ttag, from as u32, piece, from + n == to));
        assert(run[0].skip(24) =~= piece);
        assert(run.skip(1) =~= rest);
        assert(piece + data.subrange(from + n, to) =~= data.subrange(from, to));
        assert forall|i: int| 0 <= i < run.len() implies (#[trigger] run[i]).len() <= 24 + limit by {
            if i > 0 {
                assert(run[i] == rest[i - 1]);
            }
        }
    } else {
        assert(data.subrange(from, to) =~= Seq::<u8>::empty());
    }
}

/// The transfers of a read or a write follow one another through the buffer from
/// its start to its end, each of whole blocks, and each at the block that its
/// place in the buffer stands for.
pub proof fn law_transfers_cover_the_buffer(lba: int, done: int, total: int, bs: int, max: int)
    requires
        0 <= lba,
        0 <= done <= total <= usize::MAX,
        0 < bs <= max <= u32::MAX,
        done % bs == 0,
        total % bs == 0,
        max % bs == 0,
        lba + total / bs <= u64::MAX,
    ensures
        ({
            let list = transfers(lba, done, total, bs, max);
            &&& list.len() == 0 <==> done == total
            &&& list.len() > 0 ==> list[0].offset == done && list.last().offset + list.last().len
                == total
            &&& forall|i: int|
                0 <= i < list.len() - 1 ==> (#[trigger] list[i]).offset + list[i].len == list[i
                    + 1].offset
            &&& forall|i: int|
                0 <= i < list.len() ==> {
                    &&& 0 < (#[trigger] list[i]).len <= max
                    &&& 0 < list[i].blocks
                    &&& list[i].blocks * bs == list[i].len
                    &&& list[i].lba == lba + list[i].offset as int / bs
                }
        }),
    decreases total - done,
{
    let list = transfers(lba, done, total, bs, max);
    if done < total {
        let n = if total - done <= max {
            total - done
        } else {
            max
        };
        let rest = transfers(lba, done + n, total, bs, max);
        lemma_whole_blocks(done, total, bs, max);
        law_transfers_cover_the_buffer(lba, done + n, total, bs, max);
        lemma_quotients(done, total, bs);
        lemma_quotients(n, max, bs);
        assert(list[0].offset == done && list[0].len == n);
        assert forall|i: int| 0 <= i < list.len() implies {
            &&& 0 < (#[trigger] list[i]).len <= max
            &&& 0 < list[i].blocks
            &&& list[i].blocks * bs == list[i].len
            &&& list[i].lba == lba + list[i].offset as int / bs
        } by {
            if i > 0 {
                assert(list[i] == rest[i - 1]);
            }
        }
        assert forall|i: int| 0 <= i < list.len() - 1 implies (#[trigger] list[i]).offset
            + list[i].len == list[i + 1].offset by {
            assert(list[i + 1] == rest[i]);
            if i > 0 {
                assert(list[i] == rest[i - 1]);
                assert(rest[i - 1].offset + rest[i - 1].len == rest[i].offset);
            }
        }
        if rest.len() > 0 {
            assert(list.last() == rest.last());
        }
    }
}

/// The next transfer is of whole blocks, and so is what is done after it.
proof fn lemma_whole_blocks(done: int, total: int, bs: int, max: int)
    requires
        0 <= done < total,
        0 < bs <= max,
        done % bs == 0,
        total % bs == 0,
        max % bs == 0,
    ensures
        ({
            let n = if total - done <= max {
                total - done
            } else {
                max
            };
            &&& n % bs == 0
            &&& (done + n) % bs == 0
            &&& (n / bs) * bs == n
            &&& n / bs > 0
        }),
{
    let n = if total - done <= max {
        total - done
    } else {
        max
    };
    vstd::arithmetic::div_mod::lemma_sub_mod_noop(total, done, bs);
    assert(n % bs == 0) by {
        vstd::arithmetic::div_mod::lemma_small_mod(0, bs as nat);
    }
    vstd::arithmetic::div_mod::lemma_add_mod_noop(done, n, bs);
    vstd::arithmetic::div_mod::lemma_small_mod(0, bs as nat);
    vstd::arithmetic::div_mod::lemma_fundamental_div_mod(n, bs);
    assert((n / bs) * bs == n) by (nonlinear_arith)
        requires
            n == bs * (n / bs) + n % bs,
            n % bs == 0,
    ;
    assert(n / bs > 0) by (nonlinear_arith)
        requires
            (n / bs) * bs == n,
            n > 0,
            bs > 0,
    ;
}

/// A namespace whose blocks are no larger than a transfer can be read and written:
/// every plausible block size up to that divides it.
pub proof fn law_plausible_blocks_fit(lbads: u8)
    requires
        plausible(lbads),
        block_bytes(lbads) <= CHUNK,
    ensures
        CHUNK as int % block_bytes(lbads) as int == 0,
{
    vstd::arithmetic::power2::lemma2_to64();
    if lbads < 9 {
        vstd::arithmetic::power2::lemma_pow2_strictly_increases(lbads as nat, 9);
    } else if lbads > 13 {
        vstd::arithmetic::power2::lemma_pow2_strictly_increases(13, lbads as nat);
    }
    assert(lbads == 9 || lbads == 10 || lbads == 11 || lbads == 12 || lbads == 13);
}

/// The block sizes that are taken are the powers of two from 512 to 65536 bytes.
pub proof fn law_block_sizes_are_powers_of_two(lbads: u8)
    ensures
        plausible(lbads) <==> 9 <= lbads <= 16,
        block_bytes(9) == 512,
        block_bytes(12) == 4096,
        lbads < 255 ==> block_bytes((lbads + 1) as u8) == 2 * block_bytes(lbads),
{
    vstd::arithmetic::power2::lemma2_to64();
    if lbads < 9 {
        vstd::arithmetic::power2::lemma_pow2_strictly_increases(lbads as nat, 9);
    } else if lbads > 16 {
        vstd::arithmetic::power2::lemma_pow2_strictly_increases(16, lbads as nat);
    } else {
        assert(lbads == 9 || lbads == 10 || lbads == 11 || lbads == 12 || lbads == 13 || lbads == 14
            || lbads == 15 || lbads == 16);
    }
    vstd::arithmetic::power2::lemma_pow2_unfold((lbads + 1) as nat);
}

} // verus!
