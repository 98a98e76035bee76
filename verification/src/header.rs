//! The header in front of every message ([MS-SMB2] section 2.2.1.2).

use vstd::prelude::*;

use crate::bytes;
use crate::types::{Command, MessageId, NtStatus, SessionId, TreeId};

verus! {

/// The flag that marks a message as a response.
pub const FLAG_RESPONSE: u32 = 0x0000_0001;

/// The header of an unsigned, synchronous message.
#[derive(Debug, Clone, Copy, PartialEq, Eq, Structural)]
pub struct Header {
    pub credit_charge: u16,
    pub status: NtStatus,
    pub command: Command,
    pub credits: u16,
    pub flags: u32,
    pub next_command: u32,
    pub message_id: MessageId,
    pub tree_id: TreeId,
    pub session_id: SessionId,
}

/// The first four bytes of every message: `0xFE`, then "SMB".
pub open spec fn protocol_id() -> Seq<u8> {
    seq![0xFEu8, 0x53, 0x4D, 0x42]
}

/// A header on the wire. The process id and the signature are zero.
pub open spec fn header_bytes(h: Header) -> Seq<u8> {
    protocol_id() + bytes::le_bytes(64, 2) + bytes::le_bytes(h.credit_charge as nat, 2)
        + bytes::le_bytes(h.status.0 as nat, 4) + bytes::le_bytes(h.command.spec_code() as nat, 2)
        + bytes::le_bytes(h.credits as nat, 2) + bytes::le_bytes(h.flags as nat, 4)
        + bytes::le_bytes(h.next_command as nat, 4) + bytes::le_bytes(h.message_id.0 as nat, 8)
        + bytes::le_bytes(0, 4) + bytes::le_bytes(h.tree_id.0 as nat, 4) + bytes::le_bytes(
        h.session_id.0 as nat,
        8,
    ) + bytes::zeros(16)
}

/// The header that a message starts with, if it starts with one of a known command.
pub open spec fn header_of(data: Seq<u8>) -> Option<Header> {
    if data.len() < 64 || data.take(4) != protocol_id() || bytes::field(data, 4, 2) != 64 {
        None
    } else {
        match Command::spec_from_code(bytes::field(data, 12, 2) as int) {
            None => None,
            Some(command) => Some(
                Header {
                    credit_charge: bytes::field(data, 6, 2) as u16,
                    status: NtStatus(bytes::field(data, 8, 4) as u32),
                    command,
                    credits: bytes::field(data, 14, 2) as u16,
                    flags: bytes::field(data, 16, 4) as u32,
                    next_command: bytes::field(data, 20, 4) as u32,
                    message_id: MessageId(bytes::field(data, 24, 8) as u64),
                    tree_id: TreeId(bytes::field(data, 36, 4) as u32),
                    session_id: SessionId(bytes::field(data, 40, 8) as u64),
                },
            ),
        }
    }
}

impl Header {
    /// The header of a request that sets nothing but its command.
    pub open spec fn spec_new_request(command: Command) -> Header {
        Header {
            credit_charge: 0,
            status: NtStatus(0),
            command,
            credits: 0,
            flags: 0,
            next_command: 0,
            message_id: MessageId(0),
            tree_id: TreeId(0),
            session_id: SessionId(0),
        }
    }

    /// The header of a request that sets nothing but its command.
    pub fn new_request(command: Command) -> (h: Header)
        ensures
            h == Header::spec_new_request(command),
    {
        Header {
            credit_charge: 0,
            status: NtStatus(0),
            command,
            credits: 0,
            flags: 0,
            next_command: 0,
            message_id: MessageId(0),
            tree_id: TreeId(0),
            session_id: SessionId(0),
        }
    }

    /// The header of a request on a tree. The connection that sends it fills in the rest.
    pub open spec fn spec_on_tree(command: Command, tree_id: TreeId) -> Header {
        Header { tree_id, ..Header::spec_new_request(command) }
    }

    /// The header of a request on a tree. The connection that sends it fills in the rest.
    pub fn on_tree(command: Command, tree_id: TreeId) -> (h: Header)
        ensures
            h == Header::spec_on_tree(command, tree_id),
    {
        let mut h = Header::new_request(command);
        h.tree_id = tree_id;
        h
    }

    /// Reads the header that `data` starts with, if it starts with one.
    pub fn unpack(data: &[u8]) -> (header: Option<Header>)
        ensures
            header == header_of(data@),
    {
        if data.len() < 64 {
            return None;
        }
        let known = data[0] == 0xFE && data[1] == 0x53 && data[2] == 0x4D && data[3] == 0x42;
        proof {
            if known {
                assert(data@.take(4) =~= protocol_id());
            } else {
                let first = data@.take(4);
                assert(first[0] != 0xFE || first[1] != 0x53 || first[2] != 0x4D || first[3]
                    != 0x42);
            }
            bytes::lemma_pow256();
        }
        if !known || bytes::get_le(data, 4, 2) != 64 {
            return None;
        }
        let code: u64 = bytes::get_le(data, 12, 2);
        match Command::from_code(code as u16) {
            None => None,
            Some(command) => {
                let credit_charge: u64 = bytes::get_le(data, 6, 2);
                let status: u64 = bytes::get_le(data, 8, 4);
                let credits: u64 = bytes::get_le(data, 14, 2);
                let flags: u64 = bytes::get_le(data, 16, 4);
                let next_command: u64 = bytes::get_le(data, 20, 4);
                let tree_id: u64 = bytes::get_le(data, 36, 4);
                Some(
                    Header {
                        credit_charge: credit_charge as u16,
                        status: NtStatus(status as u32),
                        command,
                        credits: credits as u16,
                        flags: flags as u32,
                        next_command: next_command as u32,
                        message_id: MessageId(bytes::get_le(data, 24, 8)),
                        tree_id: TreeId(tree_id as u32),
                        session_id: SessionId(bytes::get_le(data, 40, 8)),
                    },
                )
            },
        }
    }
}

/// A message: its header, then its body.
pub fn pack_message(h: &Header, body: &[u8]) -> (message: Vec<u8>)
    ensures
        message@ == header_bytes(*h) + body@,
{
    let mut out: Vec<u8> = Vec::new();
    out.push(0xFE);
    out.push(0x53);
    out.push(0x4D);
    out.push(0x42);
    assert(out@ =~= protocol_id());
    bytes::put_le(&mut out, 64, 2);
    bytes::put_le(&mut out, h.credit_charge as u64, 2);
    bytes::put_le(&mut out, h.status.0 as u64, 4);
    bytes::put_le(&mut out, h.command.code() as u64, 2);
    bytes::put_le(&mut out, h.credits as u64, 2);
    bytes::put_le(&mut out, h.flags as u64, 4);
    bytes::put_le(&mut out, h.next_command as u64, 4);
    bytes::put_le(&mut out, h.message_id.0, 8);
    bytes::put_le(&mut out, 0, 4);
    bytes::put_le(&mut out, h.tree_id.0 as u64, 4);
    bytes::put_le(&mut out, h.session_id.0, 8);
    bytes::put_zeros(&mut out, 16);
    assert(out@ == header_bytes(*h));
    bytes::put_bytes(&mut out, body);
    out
}

/// A header reads back as it was written, whatever body follows it.
pub proof fn law_header_reads_back(h: Header, body: Seq<u8>)
    ensures
        header_of(header_bytes(h) + body) == Some(h),
{
    law_header_layout(h, body);
    assert((header_bytes(h) + body).take(4) =~= protocol_id());
    crate::types::law_command_codes(h.command);
}

/// Where each field of a header stands, in a message with any body.
#[verifier::spinoff_prover]
#[verifier::rlimit(60)]
pub proof fn law_header_layout(h: Header, body: Seq<u8>)
    ensures
        ({
            let m = header_bytes(h) + body;
            &&& m.len() == 64 + body.len()
            &&& m.skip(64) == body
            &&& m[0] == 0xFE && m[1] == 0x53 && m[2] == 0x4D && m[3] == 0x42
            &&& bytes::field(m, 4, 2) == 64
            &&& bytes::field(m, 6, 2) == h.credit_charge
            &&& bytes::field(m, 8, 4) == h.status.0
            &&& bytes::field(m, 12, 2) == h.command.spec_code()
            &&& bytes::field(m, 14, 2) == h.credits
            &&& bytes::field(m, 16, 4) == h.flags
            &&& bytes::field(m, 20, 4) == h.next_command
            &&& bytes::field(m, 24, 8) == h.message_id.0
            &&& bytes::field(m, 32, 4) == 0
            &&& bytes::field(m, 36, 4) == h.tree_id.0
            &&& bytes::field(m, 40, 8) == h.session_id.0
            &&& forall|i: int| 48 <= i < 64 ==> #[trigger] m[i] == 0
        }),
{
    let m = header_bytes(h) + body;
    let f0 = protocol_id();
    let f1 = bytes::le_bytes(64, 2);
    let f2 = bytes::le_bytes(h.credit_charge as nat, 2);
    let f3 = bytes::le_bytes(h.status.0 as nat, 4);
    let f4 = bytes::le_bytes(h.command.spec_code() as nat, 2);
    let f5 = bytes::le_bytes(h.credits as nat, 2);
    let f6 = bytes::le_bytes(h.flags as nat, 4);
    let f7 = bytes::le_bytes(h.next_command as nat, 4);
    let f8 = bytes::le_bytes(h.message_id.0 as nat, 8);
    let f9 = bytes::le_bytes(0, 4);
    let f10 = bytes::le_bytes(h.tree_id.0 as nat, 4);
    let f11 = bytes::le_bytes(h.session_id.0 as nat, 8);
    let f12 = bytes::zeros(16);
    bytes::lemma_pow256();
    bytes::lemma_le_bytes_len(64, 2);
    bytes::lemma_le_bytes_len(h.credit_charge as nat, 2);
    bytes::lemma_le_bytes_len(h.status.0 as nat, 4);
    bytes::lemma_le_bytes_len(h.command.spec_code() as nat, 2);
    bytes::lemma_le_bytes_len(h.credits as nat, 2);
    bytes::lemma_le_bytes_len(h.flags as nat, 4);
    bytes::lemma_le_bytes_len(h.next_command as nat, 4);
    bytes::lemma_le_bytes_len(h.message_id.0 as nat, 8);
    bytes::lemma_le_bytes_len(0, 4);
    bytes::lemma_le_bytes_len(h.tree_id.0 as nat, 4);
    bytes::lemma_le_bytes_len(h.session_id.0 as nat, 8);
    assert(m.take(4) =~= f0);
    let t11 = f12 + body;
    let t10 = f11 + t11;
    let t9 = f10 + t10;
    let t8 = f9 + t9;
    let t7 = f8 + t8;
    let t6 = f7 + t7;
    let t5 = f6 + t6;
    let t4 = f5 + t5;
    let t3 = f4 + t4;
    let t2 = f3 + t3;
    let t1 = f2 + t2;
    assert(bytes::field(m, 4, 2) == 64) by {
        bytes::lemma_field_written(f0, 64, 2, t1);
        assert(m =~= f0 + f1 + t1);
    }
    let b1 = f0 + f1;
    assert(bytes::field(m, 6, 2) == h.credit_charge) by {
        bytes::lemma_field_written(b1, h.credit_charge as nat, 2, t2);
        assert(m =~= b1 + f2 + t2);
    }
    let b2 = b1 + f2;
    assert(bytes::field(m, 8, 4) == h.status.0) by {
        bytes::lemma_field_written(b2, h.status.0 as nat, 4, t3);
        assert(m =~= b2 + f3 + t3);
    }
    let b3 = b2 + f3;
    assert(bytes::field(m, 12, 2) == h.command.spec_code()) by {
        bytes::lemma_field_written(b3, h.command.spec_code() as nat, 2, t4);
        assert(m =~= b3 + f4 + t4);
    }
    let b4 = b3 + f4;
    assert(bytes::field(m, 14, 2) == h.credits) by {
        bytes::lemma_field_written(b4, h.credits as nat, 2, t5);
        assert(m =~= b4 + f5 + t5);
    }
    let b5 = b4 + f5;
    assert(bytes::field(m, 16, 4) == h.flags) by {
        bytes::lemma_field_written(b5, h.flags as nat, 4, t6);
        assert(m =~= b5 + f6 + t6);
    }
    let b6 = b5 + f6;
    assert(bytes::field(m, 20, 4) == h.next_command) by {
        bytes::lemma_field_written(b6, h.next_command as nat, 4, t7);
        assert(m =~= b6 + f7 + t7);
    }
    let b7 = b6 + f7;
    assert(bytes::field(m, 24, 8) == h.message_id.0) by {
        bytes::lemma_field_written(b7, h.message_id.0 as nat, 8, t8);
        assert(m =~= b7 + f8 + t8);
    }
    let b9 = b7 + f8 + f9;
    assert(bytes::field(m, 36, 4) == h.tree_id.0) by {
        bytes::lemma_field_written(b9, h.tree_id.0 as nat, 4, t10);
        assert(m =~= b9 + f10 + t10);
    }
    let b10 = b9 + f10;
    assert(bytes::field(m, 40, 8) == h.session_id.0) by {
        bytes::lemma_field_written(b10, h.session_id.0 as nat, 8, t11);
        assert(m =~= b10 + f11 + t11);
    }
    let b8 = b7 + f8;
    assert(bytes::field(m, 32, 4) == 0) by {
        bytes::lemma_field_written(b8, 0, 4, t9);
        assert(m =~= b8 + f9 + t9);
    }
    assert(m.skip(64) =~= body);
    assert(f0[0] == 0xFE && f0[1] == 0x53 && f0[2] == 0x4D && f0[3] == 0x42);
    assert(forall|i: int| 0 <= i < 4 ==> #[trigger] m[i] == f0[i]);
    let b11 = b10 + f11;
    assert(m =~= b11 + f12 + body);
    assert forall|i: int| 48 <= i < 64 implies #[trigger] m[i] == 0 by {
        assert(m[i] == f12[i - 48]);
    }
}

/// A message has a header exactly when it is long enough, starts with the protocol's four bytes
/// and the header's own length, and names a command there is. The fields are then those at their
/// places in the message.
pub proof fn law_what_is_a_header(data: Seq<u8>)
    ensures
        header_of(data) is Some <==> ({
            &&& data.len() >= 64
            &&& data[0] == 0xFE && data[1] == 0x53 && data[2] == 0x4D && data[3] == 0x42
            &&& bytes::field(data, 4, 2) == 64
            &&& bytes::field(data, 12, 2) < 19
        }),
        header_of(data) matches Some(h) ==> ({
            &&& h.credit_charge == bytes::field(data, 6, 2)
            &&& h.status.0 == bytes::field(data, 8, 4)
            &&& h.command.spec_code() == bytes::field(data, 12, 2)
            &&& h.credits == bytes::field(data, 14, 2)
            &&& h.flags == bytes::field(data, 16, 4)
            &&& h.next_command == bytes::field(data, 20, 4)
            &&& h.message_id.0 == bytes::field(data, 24, 8)
            &&& h.tree_id.0 == bytes::field(data, 36, 4)
            &&& h.session_id.0 == bytes::field(data, 40, 8)
        }),
{
    bytes::lemma_pow256();
    if data.len() >= 64 {
        let first = data.take(4);
        assert(first == protocol_id() <==> (data[0] == 0xFE && data[1] == 0x53 && data[2] == 0x4D
            && data[3] == 0x42)) by {
            if data[0] == 0xFE && data[1] == 0x53 && data[2] == 0x4D && data[3] == 0x42 {
                assert(first =~= protocol_id());
            } else {
                assert(first[0] == data[0] && first[1] == data[1] && first[2] == data[2]
                    && first[3] == data[3]);
            }
        }
        bytes::lemma_le_value_bound(data.subrange(6, 8));
        bytes::lemma_le_value_bound(data.subrange(8, 12));
        bytes::lemma_le_value_bound(data.subrange(12, 14));
        bytes::lemma_le_value_bound(data.subrange(14, 16));
        bytes::lemma_le_value_bound(data.subrange(16, 20));
        bytes::lemma_le_value_bound(data.subrange(20, 24));
        bytes::lemma_le_value_bound(data.subrange(24, 32));
        bytes::lemma_le_value_bound(data.subrange(36, 40));
        bytes::lemma_le_value_bound(data.subrange(40, 48));
    }
}

/// A request sets its command and its tree, and leaves the rest to the connection that sends it.
pub proof fn law_requests_set_command_and_tree(command: Command, tree_id: TreeId)
    ensures
        ({
            let h = Header::spec_on_tree(command, tree_id);
            &&& h.command == command
            &&& h.tree_id == tree_id
            &&& h.credit_charge == 0
            &&& h.status.0 == 0
            &&& h.credits == 0
            &&& h.flags == 0
            &&& h.next_command == 0
            &&& h.message_id.0 == 0
            &&& h.session_id.0 == 0
        }),
        Header::spec_new_request(command) == (Header {
            tree_id: TreeId(0),
            ..Header::spec_on_tree(command, tree_id)
        }),
{
}

} // verus!
