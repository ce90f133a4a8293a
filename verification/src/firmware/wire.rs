//! What stands where on the wire.
//!
//! The entries, capsules and data PDUs that `nvme` composes, read back byte by byte,
//! as a controller reads them.

use crate::bytes;
use crate::firmware::nvme;
use crate::firmware::nvme::{Header, ProgressView, Transfer};
use vstd::prelude::*;

verus! {

/// Whether `b` stands in `s` from `at`.
pub open spec fn stands_at(s: Seq<u8>, at: int, b: Seq<u8>) -> bool {
    0 <= at && at + b.len() <= s.len() && forall|i: int|
        0 <= i < b.len() ==> #[trigger] b[i] == s[at + i]
}

/// Whether the bytes of `s` from `from` up to `to` are zero.
pub open spec fn blank(s: Seq<u8>, from: int, to: int) -> bool {
    forall|i: int| from <= i < to ==> #[trigger] s[i] == 0
}

/// A number reads back from where it was written.
proof fn lemma_u16(s: Seq<u8>, at: int, v: u16)
    requires
        stands_at(s, at, bytes::le16_bytes(v)),
    ensures
        bytes::le16_at(s, at) == v,
{
    bytes::law_numbers_read_back(v, 0, 0);
    let b = bytes::le16_bytes(v);
    assert(b[0] == s[at] && b[1] == s[at + 1]);
}

proof fn lemma_u32(s: Seq<u8>, at: int, v: u32)
    requires
        stands_at(s, at, bytes::le32_bytes(v)),
    ensures
        bytes::le32_at(s, at) == v,
{
    bytes::law_numbers_read_back(0, v, 0);
    let b = bytes::le32_bytes(v);
    assert(b[0] == s[at] && b[1] == s[at + 1] && b[2] == s[at + 2] && b[3] == s[at + 3]);
}

/// The two halves of a 64-bit number, one behind the other.
proof fn lemma_halves(s: Seq<u8>, at: int, v: u64)
    requires
        bytes::le32_at(s, at) == v % 0x1_0000_0000,
        bytes::le32_at(s, at + 4) == v / 0x1_0000_0000,
    ensures
        bytes::le64_at(s, at) == v,
{
}

// ---------------------------------------------------------------------------
// Commands

/// What every entry starts with: the operation, the flag that says SGLs, the
/// command's id and the namespace.
proof fn lemma_entry(opcode: u8, cid: u16, nsid: u32)
    ensures
        ({
            let e = nvme::entry(opcode, cid, nsid);
            &&& e.len() == 64
            &&& e[0] == opcode
            &&& e[1] == 0x40
            &&& stands_at(e, 2, bytes::le16_bytes(cid))
            &&& stands_at(e, 4, bytes::le32_bytes(nsid))
            &&& blank(e, 8, 64)
        }),
{
}

/// A read or a write names its own command, the namespace, how many bytes it moves,
/// where on the namespace, and how many blocks that is. The bytes announced for the
/// transport are those of the blocks: a controller that moved either would move the
/// same.
pub proof fn law_a_command_says_what_it_moves(
    opcode: u8,
    cid: u16,
    nsid: u32,
    t: Transfer,
    block_size: int,
)
    requires
        t.len <= u32::MAX,
        t.blocks > 0,
        t.blocks * block_size == t.len,
    ensures
        ({
            let e = nvme::io_entry(opcode, cid, nsid, t);
            &&& e.len() == 64
            &&& e[0] == opcode
            &&& e[1] == 0x40
            &&& bytes::le16_at(e, 2) == cid
            &&& bytes::le32_at(e, 4) == nsid
            &&& blank(e, 8, 32)
            &&& bytes::le32_at(e, 32) == t.len
            &&& blank(e, 36, 39)
            &&& e[39] == 0x5A
            &&& bytes::le64_at(e, 40) == t.lba
            &&& bytes::le32_at(e, 48) + 1 == t.blocks
            &&& (bytes::le32_at(e, 48) + 1) * block_size == bytes::le32_at(e, 32)
            &&& blank(e, 52, 64)
        }),
{
    let e0 = nvme::entry(opcode, cid, nsid);
    lemma_entry(opcode, cid, nsid);
    let e = nvme::io_entry(opcode, cid, nsid, t);
    let len = bytes::le32_bytes(t.len as u32);
    let low = bytes::le32_bytes((t.lba % 0x1_0000_0000) as u32);
    let high = bytes::le32_bytes((t.lba / 0x1_0000_0000) as u32);
    let count = bytes::le32_bytes((t.blocks - 1) as u32);
    assert(forall|i: int| 0 <= i < 24 ==> #[trigger] e[i] == e0[i]);
    assert forall|i: int| 24 <= i < 32 implies #[trigger] e[i] == 0 by {
        assert(e[i] == bytes::le64_bytes(0)[i - 24]);
    }
    assert(stands_at(e, 2, bytes::le16_bytes(cid))) by {
        assert forall|i: int| 0 <= i < 2 implies #[trigger] bytes::le16_bytes(cid)[i] == e[2 + i] by {
            assert(e[2 + i] == e0[2 + i]);
        }
    }
    assert(stands_at(e, 4, bytes::le32_bytes(nsid))) by {
        assert forall|i: int| 0 <= i < 4 implies #[trigger] bytes::le32_bytes(nsid)[i] == e[4
            + i] by {
            assert(e[4 + i] == e0[4 + i]);
        }
    }
    assert(stands_at(e, 32, len));
    assert(stands_at(e, 40, low));
    assert(stands_at(e, 44, high));
    assert(stands_at(e, 48, count));
    lemma_u16(e, 2, cid);
    lemma_u32(e, 4, nsid);
    lemma_u32(e, 32, t.len as u32);
    lemma_u32(e, 40, (t.lba % 0x1_0000_0000) as u32);
    lemma_u32(e, 44, (t.lba / 0x1_0000_0000) as u32);
    lemma_u32(e, 48, (t.blocks - 1) as u32);
    lemma_halves(e, 40, t.lba);
}

/// A whole read or write: each of its commands announces the bytes of its own part of
/// the buffer, at the block that part stands for, and together they announce all of
/// the buffer.
pub proof fn law_a_plan_moves_the_buffer(
    opcode: u8,
    cid: u16,
    nsid: u32,
    lba: int,
    total: int,
    bs: int,
    max: int,
    i: int,
)
    requires
        0 <= lba,
        0 <= total <= usize::MAX,
        0 < bs <= max <= u32::MAX,
        total % bs == 0,
        max % bs == 0,
        lba + total / bs <= u64::MAX,
        0 <= i < nvme::transfers(lba, 0, total, bs, max).len(),
    ensures
        ({
            let list = nvme::transfers(lba, 0, total, bs, max);
            let t = list[i];
            let e = nvme::io_entry(opcode, cid, nsid, t);
            &&& bytes::le32_at(e, 32) == t.len
            &&& (bytes::le32_at(e, 48) + 1) * bs == t.len
            &&& bytes::le64_at(e, 40) == lba + t.offset as int / bs
            &&& t.offset + t.len == if i + 1 < list.len() {
                list[i + 1].offset as int
            } else {
                total
            }
            &&& list[0].offset == 0
        }),
{
    vstd::arithmetic::div_mod::lemma_small_mod(0, bs as nat);
    nvme::law_transfers_cover_the_buffer(lba, 0, total, bs, max);
    let list = nvme::transfers(lba, 0, total, bs, max);
    let t = list[i];
    assert(t.blocks * bs == t.len);
    law_a_command_says_what_it_moves(opcode, cid, nsid, t, bs);
    if i + 1 == list.len() {
        assert(list.last() == t);
    }
}

/// The fields of a fabrics command that its maker does not touch.
proof fn lemma_fabrics(cid: u16, fctype: u8)
    ensures
        ({
            let e = nvme::fabrics(cid, fctype);
            &&& e.len() == 64
            &&& e[0] == 0x7F
            &&& e[1] == 0x40
            &&& stands_at(e, 2, bytes::le16_bytes(cid))
            &&& e[4] == fctype
            &&& blank(e, 5, 64)
        }),
{
    let e0 = nvme::entry(nvme::OPC_FABRICS, cid, 0);
    lemma_entry(nvme::OPC_FABRICS, cid, 0);
    let e = nvme::fabrics(cid, fctype);
    assert forall|i: int| 5 <= i < 64 implies #[trigger] e[i] == 0 by {
        assert(e[i] == e0[i]);
        if i < 8 {
            assert(bytes::le32_bytes(0)[i - 4] == e0[4 + (i - 4)]);
        }
    }
    assert forall|i: int| 0 <= i < 2 implies #[trigger] bytes::le16_bytes(cid)[i] == e[2 + i] by {
        assert(bytes::le16_bytes(cid)[i] == e0[2 + i]);
    }
}

/// Reading a property names it and its width, and carries no data.
pub proof fn law_a_property_read_names_its_property(cid: u16, offset: u32, eight: bool)
    ensures
        ({
            let e = nvme::property_get_entry(cid, offset, eight);
            &&& e.len() == 64
            &&& e[0] == 0x7F
            &&& e[1] == 0x40
            &&& bytes::le16_at(e, 2) == cid
            &&& e[4] == 0x04
            &&& blank(e, 5, 40)
            &&& e[40] == (if eight {
                1u8
            } else {
                0u8
            })
            &&& bytes::le32_at(e, 44) == offset
            &&& blank(e, 48, 64)
        }),
{
    lemma_fabrics(cid, nvme::FCTYPE_PROPERTY_GET);
    let f = nvme::fabrics(cid, nvme::FCTYPE_PROPERTY_GET);
    let e = nvme::property_get_entry(cid, offset, eight);
    assert forall|i: int| 0 <= i < 2 implies #[trigger] bytes::le16_bytes(cid)[i] == e[2 + i] by {
        assert(bytes::le16_bytes(cid)[i] == f[2 + i]);
    }
    assert(stands_at(e, 44, bytes::le32_bytes(offset)));
    lemma_u16(e, 2, cid);
    lemma_u32(e, 44, offset);
    assert(forall|i: int| 5 <= i < 64 ==> #[trigger] f[i] == 0);
}

/// Setting a property names it, its width and the value.
pub proof fn law_a_property_write_carries_its_value(
    cid: u16,
    offset: u32,
    value: u64,
    eight: bool,
)
    ensures
        ({
            let e = nvme::property_set_entry(cid, offset, value, eight);
            &&& e.len() == 64
            &&& e[0] == 0x7F
            &&& e[1] == 0x40
            &&& bytes::le16_at(e, 2) == cid
            &&& blank(e, 4, 40)
            &&& e[40] == (if eight {
                1u8
            } else {
                0u8
            })
            &&& bytes::le32_at(e, 44) == offset
            &&& bytes::le64_at(e, 48) == value
            &&& blank(e, 56, 64)
        }),
{
    lemma_fabrics(cid, nvme::FCTYPE_PROPERTY_SET);
    let f = nvme::fabrics(cid, nvme::FCTYPE_PROPERTY_SET);
    let e = nvme::property_set_entry(cid, offset, value, eight);
    assert forall|i: int| 0 <= i < 2 implies #[trigger] bytes::le16_bytes(cid)[i] == e[2 + i] by {
        assert(bytes::le16_bytes(cid)[i] == f[2 + i]);
    }
    assert(forall|i: int| 5 <= i < 64 ==> #[trigger] f[i] == 0);
    assert(stands_at(e, 44, bytes::le32_bytes(offset)));
    assert(stands_at(e, 48, bytes::le32_bytes((value % 0x1_0000_0000) as u32)));
    assert(stands_at(e, 52, bytes::le32_bytes((value / 0x1_0000_0000) as u32)));
    lemma_u16(e, 2, cid);
    lemma_u32(e, 44, offset);
    lemma_u32(e, 48, (value % 0x1_0000_0000) as u32);
    lemma_u32(e, 52, (value / 0x1_0000_0000) as u32);
    lemma_halves(e, 48, value);
}

/// A Connect names the queue and, 0-based, its entries; its data is in the capsule.
pub proof fn law_a_connect_names_its_queue(cid: u16, qid: u16, sqsize: u16)
    requires
        sqsize > 0,
    ensures
        ({
            let e = nvme::connect_entry(cid, qid, sqsize);
            &&& e.len() == 64
            &&& e[0] == 0x7F
            &&& e[1] == 0x40
            &&& bytes::le16_at(e, 2) == cid
            &&& e[4] == 0x01
            &&& blank(e, 5, 32)
            &&& bytes::le32_at(e, 32) == 1024
            &&& e[39] == 0x01
            &&& bytes::le32_at(e, 40) == qid * 0x1_0000
            &&& bytes::le32_at(e, 44) + 1 == sqsize
            &&& blank(e, 48, 64)
        }),
{
    lemma_fabrics(cid, nvme::FCTYPE_CONNECT);
    let f = nvme::fabrics(cid, nvme::FCTYPE_CONNECT);
    let e = nvme::connect_entry(cid, qid, sqsize);
    assert forall|i: int| 0 <= i < 2 implies #[trigger] bytes::le16_bytes(cid)[i] == e[2 + i] by {
        assert(bytes::le16_bytes(cid)[i] == f[2 + i]);
    }
    assert(forall|i: int| 5 <= i < 64 ==> #[trigger] f[i] == 0);
    assert forall|i: int| 24 <= i < 32 implies #[trigger] e[i] == 0 by {
        assert(e[i] == bytes::le64_bytes(0)[i - 24]);
    }
    let queue = (qid * 0x1_0000) as u32;
    assert(qid * 0x1_0000 <= 0xFFFF_0000);
    assert(stands_at(e, 32, bytes::le32_bytes(1024)));
    assert(stands_at(e, 40, bytes::le32_bytes(queue)));
    assert(stands_at(e, 44, bytes::le32_bytes((sqsize - 1) as u32)));
    lemma_u16(e, 2, cid);
    lemma_u32(e, 32, 1024);
    lemma_u32(e, 40, queue);
    lemma_u32(e, 44, (sqsize - 1) as u32);
}

/// Identify names the namespace and makes room for what it reads.
pub proof fn law_identify_names_its_namespace(cid: u16, nsid: u32)
    ensures
        ({
            let e = nvme::identify_entry(cid, nsid);
            &&& e.len() == 64
            &&& e[0] == 0x06
            &&& e[1] == 0x40
            &&& bytes::le16_at(e, 2) == cid
            &&& bytes::le32_at(e, 4) == nsid
            &&& blank(e, 8, 32)
            &&& bytes::le32_at(e, 32) == 4096
            &&& e[39] == 0x5A
            &&& blank(e, 40, 64)
        }),
{
    let e0 = nvme::entry(nvme::OPC_IDENTIFY, cid, nsid);
    lemma_entry(nvme::OPC_IDENTIFY, cid, nsid);
    let e = nvme::identify_entry(cid, nsid);
    assert(forall|i: int| 0 <= i < 24 ==> #[trigger] e[i] == e0[i]);
    assert forall|i: int| 24 <= i < 32 implies #[trigger] e[i] == 0 by {
        assert(e[i] == bytes::le64_bytes(0)[i - 24]);
    }
    assert forall|i: int| 40 <= i < 64 implies #[trigger] e[i] == 0 by {
        if i < 44 {
            assert(e[i] == bytes::le32_bytes(0)[i - 40]);
        }
    }
    assert forall|i: int| 0 <= i < 2 implies #[trigger] bytes::le16_bytes(cid)[i] == e[2 + i] by {
        assert(bytes::le16_bytes(cid)[i] == e0[2 + i]);
    }
    assert forall|i: int| 0 <= i < 4 implies #[trigger] bytes::le32_bytes(nsid)[i] == e[4 + i] by {
        assert(bytes::le32_bytes(nsid)[i] == e0[4 + i]);
    }
    assert(stands_at(e, 32, bytes::le32_bytes(4096)));
    lemma_u16(e, 2, cid);
    lemma_u32(e, 4, nsid);
    lemma_u32(e, 32, 4096);
}

/// The data of a Connect holds the host's id, the controller's, and the two names,
/// each where a controller looks for it and ended by a zero.
pub proof fn law_a_connect_says_who_and_what(
    cntlid: u16,
    subnqn: Seq<u8>,
    hostnqn: Seq<u8>,
    hostid: Seq<u8>,
)
    requires
        hostid.len() == 16,
        subnqn.len() <= 255,
        hostnqn.len() <= 255,
    ensures
        ({
            let d = nvme::connect_data(cntlid, subnqn, hostnqn, hostid);
            &&& d.len() == 1024
            &&& d.subrange(0, 16) == hostid
            &&& bytes::le16_at(d, 16) == cntlid
            &&& d.subrange(256, (256 + subnqn.len()) as int) == subnqn
            &&& blank(d, (256 + subnqn.len()) as int, 512)
            &&& d.subrange(512, (512 + hostnqn.len()) as int) == hostnqn
            &&& blank(d, (512 + hostnqn.len()) as int, 1024)
            &&& blank(d, 18, 256)
        }),
{
    let d = nvme::connect_data(cntlid, subnqn, hostnqn, hostid);
    assert(d.subrange(0, 16) =~= hostid);
    assert(stands_at(d, 16, bytes::le16_bytes(cntlid)));
    lemma_u16(d, 16, cntlid);
    assert(d.subrange(256, (256 + subnqn.len()) as int) =~= subnqn);
    assert(d.subrange(512, (512 + hostnqn.len()) as int) =~= hostnqn);
}

/// A host presents one id for one name, its first sixteen bytes: two hosts whose
/// names differ there have different ids.
pub proof fn law_hosts_differ_as_their_names_do(a: Seq<u8>, b: Seq<u8>)
    requires
        a.len() >= 16,
        b.len() >= 16,
    ensures
        nvme::host_id_of(a).len() == 16,
        nvme::host_id_of(a) == nvme::host_id_of(b) <==> a.take(16) == b.take(16),
{
    assert(nvme::host_id_of(a) =~= a.take(16));
    assert(nvme::host_id_of(b) =~= b.take(16));
}

// ---------------------------------------------------------------------------
// PDUs that go out

/// The connection request announces its own length and declines digests.
pub proof fn law_the_request_declines_digests()
    ensures
        ({
            let r = nvme::ic_request();
            &&& r.len() == 128
            &&& r[0] == 0
            &&& r[2] == 128
            &&& bytes::le32_at(r, 4) == r.len()
            &&& r[11] == 0
            &&& blank(r, 8, 128)
        }),
{
    let r = nvme::ic_request();
    assert(stands_at(r, 4, bytes::le32_bytes(128)));
    lemma_u32(r, 4, 128);
}

/// A capsule announces its own length, holds the entry as it is, and the data behind
/// it, which it points to only if there is any.
pub proof fn law_a_capsule_holds_its_command(sqe: Seq<u8>, data: Seq<u8>)
    requires
        sqe.len() == 64,
        72 + data.len() <= u32::MAX,
    ensures
        ({
            let c = nvme::capsule(sqe, data);
            &&& c[0] == 0x04
            &&& c[1] == 0
            &&& c[2] == 72
            &&& c[3] == (if data.len() == 0 {
                0u8
            } else {
                72u8
            })
            &&& bytes::le32_at(c, 4) == c.len()
            &&& c.subrange(8, 72) == sqe
            &&& c.skip(72) == data
        }),
{
    let c = nvme::capsule(sqe, data);
    let n = (72 + data.len()) as u32;
    assert(stands_at(c, 4, bytes::le32_bytes(n)));
    lemma_u32(c, 4, n);
    assert(c.subrange(8, 72) =~= sqe);
    assert(c.skip(72) =~= data);
}

/// A data PDU announces its own length, the command and the transfer it belongs to,
/// where its data goes and how much that is.
pub proof fn law_a_data_pdu_says_where_it_goes(
    cid: u16,
    ttag: u16,
    offset: u32,
    data: Seq<u8>,
    last: bool,
)
    requires
        24 + data.len() <= u32::MAX,
    ensures
        ({
            let d = nvme::h2c_data(cid, ttag, offset, data, last);
            &&& d[0] == 0x06
            &&& d[1] == (if last {
                4u8
            } else {
                0u8
            })
            &&& d[2] == 24
            &&& d[3] == 24
            &&& bytes::le32_at(d, 4) == d.len()
            &&& bytes::le16_at(d, 8) == cid
            &&& bytes::le16_at(d, 10) == ttag
            &&& bytes::le32_at(d, 12) == offset
            &&& bytes::le32_at(d, 16) == data.len()
            &&& d.skip(24) == data
        }),
{
    let d = nvme::h2c_data(cid, ttag, offset, data, last);
    let n = (24 + data.len()) as u32;
    assert(stands_at(d, 4, bytes::le32_bytes(n)));
    assert(stands_at(d, 8, bytes::le16_bytes(cid)));
    assert(stands_at(d, 10, bytes::le16_bytes(ttag)));
    assert(stands_at(d, 12, bytes::le32_bytes(offset)));
    assert(stands_at(d, 16, bytes::le32_bytes(data.len() as u32)));
    lemma_u32(d, 4, n);
    lemma_u16(d, 8, cid);
    lemma_u16(d, 10, ttag);
    lemma_u32(d, 12, offset);
    lemma_u32(d, 16, data.len() as u32);
    assert(d.skip(24) =~= data);
}

/// Each PDU that answers a request for data is marked with the command and the tag of
/// the request, starts where the one before it ended, the first where the request
/// said, and only the last is marked as such.
pub proof fn law_an_answer_follows_its_request(
    cid: u16,
    ttag: u16,
    data: Seq<u8>,
    from: int,
    to: int,
    limit: int,
    i: int,
)
    requires
        0 <= from <= to <= data.len(),
        data.len() + 24 <= u32::MAX,
        limit > 0,
        0 <= i < nvme::h2c_run(cid, ttag, data, from, to, limit).len(),
    ensures
        ({
            let run = nvme::h2c_run(cid, ttag, data, from, to, limit);
            let at = bytes::le32_at(run[i], 12);
            let n = bytes::le32_at(run[i], 16);
            &&& run[i][0] == 0x06
            &&& bytes::le16_at(run[i], 8) == cid
            &&& bytes::le16_at(run[i], 10) == ttag
            &&& at + n <= data.len()
            &&& 0 < n <= limit
            &&& run[i].skip(24) == data.subrange(at as int, (at + n) as int)
            &&& bytes::le32_at(run[0], 12) == from
            &&& if i + 1 < run.len() {
                bytes::le32_at(run[i + 1], 12) == at + n && run[i][1] == 0
            } else {
                at + n == to && run[i][1] == 4
            }
        }),
    decreases to - from,
{
    let run = nvme::h2c_run(cid, ttag, data, from, to, limit);
    let n = if to - from <= limit {
        to - from
    } else {
        limit
    };
    let rest = nvme::h2c_run(cid, ttag, data, from + n, to, limit);
    let piece = data.subrange(from, from + n);
    law_a_data_pdu_says_where_it_goes(cid, ttag, from as u32, piece, from + n == to);
    assert(run[0] == nvme::h2c_data(cid, ttag, from as u32, piece, from + n == to));
    if from + n < to {
        assert(rest.len() > 0);
        law_an_answer_follows_its_request(cid, ttag, data, from + n, to, limit, if i > 0 {
            i - 1
        } else {
            0
        });
        assert(run[1] == rest[0]);
        if i > 0 {
            assert(run[i] == rest[i - 1]);
            if i + 1 < run.len() {
                assert(run[i + 1] == rest[i]);
            }
        }
    } else {
        assert(rest.len() == 0);
    }
}

// ---------------------------------------------------------------------------
// PDUs that come in

/// A header is taken as it stands: the type, the flags, where the data starts, and
/// exactly as many further bytes as the PDU announces.
pub proof fn law_a_pdu_is_read_to_its_end(ch: Seq<u8>)
    requires
        ch.len() == 8,
        usize::MAX >= u32::MAX,
    ensures
        nvme::header_of(ch) is Ok <==> bytes::le32_at(ch, 4) >= 8 && ch[2] >= 8,
        nvme::header_of(ch) matches Ok(h) ==> h.ptype == ch[0] && h.flags == ch[1] && h.pdo == ch[3]
            && 8 + h.rest == bytes::le32_at(ch, 4),
{
}

/// A completion of this command that reports no fault completes it, one that does
/// fails it, and one of another command changes nothing.
pub proof fn law_a_completion_decides_its_own_command(
    limit: u32,
    cid: u16,
    outgoing: Option<Seq<u8>>,
    incoming: Option<Seq<u8>>,
    h: Header,
    rest: Seq<u8>,
)
    requires
        h.ptype == 0x05,
        rest.len() >= 16,
    ensures
        ({
            let p = nvme::progress(limit, cid, outgoing, incoming, h, rest);
            let status = bytes::le16_at(rest, 14);
            &&& p is Wait <==> bytes::le16_at(rest, 12) != cid
            &&& bytes::le16_at(rest, 12) == cid ==> (p is Done <==> (status / 2) % 0x800 == 0)
            &&& p matches ProgressView::Done(cqe) ==> cqe.dw0 == bytes::le32_at(rest, 0) && cqe.dw1
                == bytes::le32_at(rest, 4) && cqe.status == status
            &&& !(p is Send)
            &&& nvme::incoming_after(incoming, h, rest) == incoming
        }),
{
    let status = bytes::le16_at(rest, 14) as u16;
    assert(((status / 2) % 256 == 0 && (status / 512) % 8 == 0) <==> (status / 2) % 0x800 == 0)
        by (bit_vector);
}

/// Data that arrives goes where it says, byte for byte, and nowhere else: what was
/// read before and is not named stays.
pub proof fn law_data_goes_where_it_says(
    limit: u32,
    cid: u16,
    outgoing: Option<Seq<u8>>,
    buf: Seq<u8>,
    h: Header,
    rest: Seq<u8>,
    i: int,
)
    requires
        h.ptype == 0x07,
        h.pdo >= 8,
        rest.len() >= 12,
        (h.pdo - 8) + bytes::le32_at(rest, 8) <= rest.len(),
        bytes::le32_at(rest, 4) + bytes::le32_at(rest, 8) <= buf.len(),
        0 <= i < buf.len(),
    ensures
        ({
            let at = bytes::le32_at(rest, 4);
            let n = bytes::le32_at(rest, 8);
            let after = nvme::incoming_after(Some(buf), h, rest);
            let p = nvme::progress(limit, cid, outgoing, Some(buf), h, rest);
            &&& after is Some
            &&& after->0.len() == buf.len()
            &&& after->0[i] == if at <= i < at + n {
                rest[(h.pdo - 8) + (i - at)]
            } else {
                buf[i]
            }
            &&& p is Done || p is Wait
            &&& p is Done <==> h.flags % 16 >= 12
        }),
{
    let f = h.flags;
    assert(((f / 4) % 2 == 1 && (f / 8) % 2 == 1) <==> f % 16 >= 12) by (bit_vector);
}

/// Data that does not fit what was asked for, or that nobody asked for, fails the
/// command and is not taken.
pub proof fn law_unasked_data_is_not_taken(
    limit: u32,
    cid: u16,
    outgoing: Option<Seq<u8>>,
    incoming: Option<Seq<u8>>,
    h: Header,
    rest: Seq<u8>,
)
    requires
        h.ptype == 0x07,
        rest.len() >= 12,
        incoming is None || bytes::le32_at(rest, 4) + bytes::le32_at(rest, 8) > incoming->0.len()
            || (if h.pdo < 8 {
            0int
        } else {
            h.pdo - 8
        }) + bytes::le32_at(rest, 8) > rest.len(),
    ensures
        nvme::progress(limit, cid, outgoing, incoming, h, rest) is Failed,
        nvme::incoming_after(incoming, h, rest) == incoming,
{
}

/// A request for data is answered with the bytes it names if the command has them,
/// and fails it otherwise; it completes nothing and changes nothing that was read.
pub proof fn law_a_request_is_answered_or_refused(
    limit: u32,
    cid: u16,
    outgoing: Option<Seq<u8>>,
    incoming: Option<Seq<u8>>,
    h: Header,
    rest: Seq<u8>,
)
    requires
        h.ptype == 0x09,
        rest.len() >= 12,
        limit > 0,
        outgoing matches Some(data) ==> data.len() + 24 <= u32::MAX,
    ensures
        ({
            let at = bytes::le32_at(rest, 4) as int;
            let n = bytes::le32_at(rest, 8) as int;
            let p = nvme::progress(limit, cid, outgoing, incoming, h, rest);
            &&& p is Send <==> (outgoing is Some && at + n <= outgoing->0.len())
            &&& p is Send || p is Failed
            &&& p matches ProgressView::Send(run) ==> nvme::payloads(run)
                == outgoing->0.subrange(at, at + n)
            &&& p matches ProgressView::Send(run) ==> forall|i: int|
                0 <= i < run.len() ==> bytes::le16_at(#[trigger] run[i], 8) == bytes::le16_at(rest, 0)
                    && bytes::le16_at(run[i], 10) == bytes::le16_at(rest, 2)
            &&& nvme::incoming_after(incoming, h, rest) == incoming
        }),
{
    let at = bytes::le32_at(rest, 4) as int;
    let n = bytes::le32_at(rest, 8) as int;
    let c = bytes::le16_at(rest, 0) as u16;
    let t = bytes::le16_at(rest, 2) as u16;
    if outgoing is Some && at + n <= outgoing->0.len() {
        let data = outgoing->0;
        nvme::law_the_controller_gets_what_it_asked_for(c, t, data, at, at + n, limit as int);
        let run = nvme::h2c_run(c, t, data, at, at + n, limit as int);
        assert forall|i: int| 0 <= i < run.len() implies bytes::le16_at(#[trigger] run[i], 8)
            == bytes::le16_at(rest, 0) && bytes::le16_at(run[i], 10) == bytes::le16_at(rest, 2) by {
            law_an_answer_follows_its_request(c, t, data, at, at + n, limit as int, i);
        }
    }
}

/// No other PDU than a completion or the last of the data ends a command well, and
/// none but a request for data makes anything be sent.
pub proof fn law_nothing_else_completes_a_command(
    limit: u32,
    cid: u16,
    outgoing: Option<Seq<u8>>,
    incoming: Option<Seq<u8>>,
    h: Header,
    rest: Seq<u8>,
)
    requires
        h.ptype != 0x05 && h.ptype != 0x07 && h.ptype != 0x09,
    ensures
        nvme::progress(limit, cid, outgoing, incoming, h, rest) is Failed,
        nvme::incoming_after(incoming, h, rest) == incoming,
{
}

} // verus!
