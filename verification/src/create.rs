//! CREATE: opening a file ([MS-SMB2] sections 2.2.13 and 2.2.14).

use vstd::prelude::*;

use crate::bytes;
use crate::create_context;
use crate::create_context::{ContextView, CreateContext};
use crate::error::Error;
use crate::header::Header;
use crate::types::{FileId, NtStatus, OplockLevel};

verus! {

/// `FILE_NON_DIRECTORY_FILE`.
pub const FILE_NON_DIRECTORY_FILE: u32 = 0x0000_0040;

/// `FILE_ATTRIBUTE_NORMAL`.
pub const FILE_ATTRIBUTE_NORMAL: u32 = 0x80;

/// `FILE_READ_DATA`, `FILE_WRITE_DATA`, `FILE_READ_ATTRIBUTES`, `FILE_WRITE_ATTRIBUTES` and
/// `SYNCHRONIZE`.
pub const READ_WRITE_ACCESS: u32 = 0x0010_0183;

/// `FILE_SHARE_READ` and `FILE_SHARE_WRITE`.
pub const SHARE_READ_WRITE: u32 = 0x0000_0003;

/// How far the server may act in the client's name.
#[derive(Debug, Clone, Copy, PartialEq, Eq, Structural)]
pub enum ImpersonationLevel {
    Anonymous,
    Identification,
    Impersonation,
    Delegate,
}

/// What to do when the file exists, and when it does not.
#[derive(Debug, Clone, Copy, PartialEq, Eq, Structural)]
pub enum CreateDisposition {
    FileSupersede,
    FileOpen,
    FileCreate,
    FileOpenIf,
    FileOverwrite,
    FileOverwriteIf,
}

/// A CREATE request.
#[derive(Debug, PartialEq, Eq)]
pub struct CreateRequest {
    pub requested_oplock_level: OplockLevel,
    pub impersonation_level: ImpersonationLevel,
    pub desired_access: u32,
    pub file_attributes: u32,
    pub share_access: u32,
    pub create_disposition: CreateDisposition,
    pub create_options: u32,
    /// The path, as the tree connect spells it.
    pub name: String,
    /// The chain of create contexts.
    pub create_contexts: Vec<u8>,
}

/// A CREATE to send: the header says on which tree.
#[derive(Debug, PartialEq, Eq)]
pub struct CreateMessage {
    pub header: Header,
    pub request: CreateRequest,
}

/// A CLOSE to send: the header says on which tree.
#[derive(Debug, Clone, Copy, PartialEq, Eq, Structural)]
pub struct CloseMessage {
    pub header: Header,
    pub file_id: FileId,
}

/// A response as it came off the wire: its status, and the bytes behind the header.
#[derive(Debug, PartialEq, Eq)]
pub struct Frame {
    pub status: NtStatus,
    pub body: Vec<u8>,
}

/// The fixed part of a CREATE response, as far as an open needs it.
#[derive(Debug, Clone, Copy, PartialEq, Eq, Structural)]
pub struct CreateResponse {
    pub file_id: FileId,
    pub end_of_file: u64,
    /// Where the contexts start, counted from the start of the header.
    pub contexts_offset: u32,
    pub contexts_length: u32,
}

/// The length of the header that stands before every body.
pub const HEADER_LEN: u32 = 64;

/// Whether `body` holds the fixed part of a CREATE response.
pub open spec fn response_readable(body: Seq<u8>) -> bool {
    body.len() >= 88 && bytes::field(body, 0, 2) == 89
}

/// The fixed part of a CREATE response.
pub open spec fn response_of(body: Seq<u8>) -> CreateResponse {
    CreateResponse {
        file_id: FileId {
            persistent: bytes::field(body, 64, 8) as u64,
            volatile: bytes::field(body, 72, 8) as u64,
        },
        end_of_file: bytes::field(body, 48, 8) as u64,
        contexts_offset: bytes::field(body, 80, 4) as u32,
        contexts_length: bytes::field(body, 84, 4) as u32,
    }
}

/// The contexts a CREATE response carries, or nothing if they lie outside the body or are
/// malformed.
pub open spec fn contexts_of(body: Seq<u8>) -> Option<Seq<ContextView>> {
    let response = response_of(body);
    let from = response.contexts_offset - HEADER_LEN;
    let to = from + response.contexts_length;
    if response.contexts_length == 0 {
        Some(Seq::empty())
    } else if from < 0 || to > body.len() {
        None
    } else {
        create_context::parsed(body.subrange(from, to))
    }
}

impl CreateResponse {
    /// Reads the fixed part of a CREATE response.
    pub fn unpack(body: &[u8]) -> (response: Result<CreateResponse, Error>)
        ensures
            match response {
                Ok(r) => response_readable(body@) && r == response_of(body@),
                Err(e) => !response_readable(body@) && e == Error::InvalidData,
            },
    {
        if body.len() < 88 {
            return Err(Error::InvalidData);
        }
        if bytes::get_le(body, 0, 2) != 89 {
            return Err(Error::InvalidData);
        }
        let offset: u64 = bytes::get_le(body, 80, 4);
        let length: u64 = bytes::get_le(body, 84, 4);
        proof {
            bytes::lemma_pow256();
        }
        Ok(
            CreateResponse {
                file_id: FileId {
                    persistent: bytes::get_le(body, 64, 8),
                    volatile: bytes::get_le(body, 72, 8),
                },
                end_of_file: bytes::get_le(body, 48, 8),
                contexts_offset: offset as u32,
                contexts_length: length as u32,
            },
        )
    }

    /// Reads the contexts that `body` carries behind this fixed part.
    pub fn create_contexts(&self, body: &[u8]) -> (contexts: Result<Vec<CreateContext>, Error>)
        requires
            *self == response_of(body@),
        ensures
            match contexts {
                Ok(list) => contexts_of(body@) == Some(create_context::views(list@)),
                Err(e) => contexts_of(body@) is None && e == Error::InvalidData,
            },
    {
        if self.contexts_length == 0 {
            let none: Vec<CreateContext> = Vec::new();
            assert(create_context::views(none@) =~= Seq::empty());
            return Ok(none);
        }
        if self.contexts_offset < HEADER_LEN {
            return Err(Error::InvalidData);
        }
        let from: u64 = (self.contexts_offset - HEADER_LEN) as u64;
        let to: u64 = from + self.contexts_length as u64;
        if to > body.len() as u64 {
            return Err(Error::InvalidData);
        }
        let chain = bytes::copy_range(body, from as usize, to as usize);
        create_context::parse_contexts(chain.as_slice())
    }
}

// ── Laws ───────────────────────────────────────────────────────────────────

/// A CREATE response reads back as the server wrote it: the handle, the size and where the contexts
/// are, in their whole width, whatever the other bytes hold.
pub proof fn law_response_reads_back(
    body: Seq<u8>,
    file_id: FileId,
    size: u64,
    contexts_offset: u32,
    contexts_length: u32,
)
    requires
        body.len() >= 88,
        body.subrange(0, 2) == bytes::le_bytes(89, 2),
        body.subrange(48, 56) == bytes::le_bytes(size as nat, 8),
        body.subrange(64, 72) == bytes::le_bytes(file_id.persistent as nat, 8),
        body.subrange(72, 80) == bytes::le_bytes(file_id.volatile as nat, 8),
        body.subrange(80, 84) == bytes::le_bytes(contexts_offset as nat, 4),
        body.subrange(84, 88) == bytes::le_bytes(contexts_length as nat, 4),
    ensures
        response_readable(body),
        response_of(body).file_id == file_id,
        response_of(body).end_of_file == size,
        response_of(body).contexts_offset == contexts_offset,
        response_of(body).contexts_length == contexts_length,
{
    bytes::lemma_pow256();
    bytes::lemma_le_value_of_bytes(89, 2);
    bytes::lemma_le_value_of_bytes(size as nat, 8);
    bytes::lemma_le_value_of_bytes(file_id.persistent as nat, 8);
    bytes::lemma_le_value_of_bytes(file_id.volatile as nat, 8);
    bytes::lemma_le_value_of_bytes(contexts_offset as nat, 4);
    bytes::lemma_le_value_of_bytes(contexts_length as nat, 4);
}

/// A body that is too short, or whose first two bytes are not the response's own size, is no CREATE
/// response.
pub proof fn law_what_is_no_response(body: Seq<u8>)
    ensures
        body.len() < 88 ==> !response_readable(body),
        body.len() >= 88 && body.subrange(0, 2) != bytes::le_bytes(89, 2) ==> !response_readable(
            body,
        ),
{
    bytes::lemma_pow256();
    bytes::lemma_le_value_of_bytes(89, 2);
    bytes::lemma_le_bytes_len(89, 2);
    if response_readable(body) {
        bytes::law_reading_loses_nothing(body.subrange(0, 2), bytes::le_bytes(89, 2));
    }
}

/// Whatever contexts the server packs into its response, at whatever place behind the fixed part,
/// are the contexts that are read. A response without contexts has none, and one whose contexts
/// reach outside the body is malformed.
pub proof fn law_contexts_read_back(
    body: Seq<u8>,
    at: nat,
    contexts: Seq<ContextView>,
    contexts_offset: u32,
    contexts_length: u32,
)
    requires
        body.len() >= 88,
        create_context::all_fit(contexts),
        body.subrange(80, 84) == bytes::le_bytes(contexts_offset as nat, 4),
        body.subrange(84, 88) == bytes::le_bytes(contexts_length as nat, 4),
    ensures
        contexts_length == 0 ==> contexts_of(body) == Some(Seq::<ContextView>::empty()),
        contexts_length > 0 && contexts_offset < 64 ==> contexts_of(body) is None,
        contexts_length > 0 && contexts_offset + contexts_length > 64 + body.len()
            ==> contexts_of(body) is None,
        contexts_offset == 64 + at && at + contexts_length <= body.len() && body.subrange(
            at as int,
            at + contexts_length,
        ) == create_context::packed(contexts) ==> contexts_of(body) == Some(contexts),
{
    bytes::lemma_pow256();
    bytes::lemma_le_value_of_bytes(contexts_offset as nat, 4);
    bytes::lemma_le_value_of_bytes(contexts_length as nat, 4);
    assert(response_of(body).contexts_offset == contexts_offset);
    assert(response_of(body).contexts_length == contexts_length);
    create_context::law_parse_of_packed(contexts);
    create_context::law_chain_layout(contexts);
    if contexts.len() == 0 {
        assert(contexts =~= Seq::empty());
    } else {
        create_context::lemma_packed_not_empty(contexts);
    }
}

/// A body that a server writes for an open of this handle and size, with these contexts at `at`
/// behind the fixed part, whatever its other bytes hold.
pub open spec fn written_by_server(
    body: Seq<u8>,
    file_id: FileId,
    size: u64,
    at: nat,
    contexts: Seq<ContextView>,
) -> bool {
    let chain = create_context::packed(contexts);
    &&& create_context::all_fit(contexts)
    &&& chain.len() <= 0xFFFF_FFFF
    &&& 88 <= at <= 0xFFFF_FFFF - 64
    &&& at + chain.len() <= body.len()
    &&& body.subrange(0, 2) == bytes::le_bytes(89, 2)
    &&& body.subrange(48, 56) == bytes::le_bytes(size as nat, 8)
    &&& body.subrange(64, 72) == bytes::le_bytes(file_id.persistent as nat, 8)
    &&& body.subrange(72, 80) == bytes::le_bytes(file_id.volatile as nat, 8)
    &&& body.subrange(80, 84) == bytes::le_bytes(64 + at, 4)
    &&& body.subrange(84, 88) == bytes::le_bytes(chain.len(), 4)
    &&& body.subrange(at as int, (at + chain.len()) as int) == chain
}

/// What a server writes is what an open reads.
pub proof fn law_server_is_understood(
    body: Seq<u8>,
    file_id: FileId,
    size: u64,
    at: nat,
    contexts: Seq<ContextView>,
)
    requires
        written_by_server(body, file_id, size, at, contexts),
    ensures
        response_readable(body),
        response_of(body).file_id == file_id,
        response_of(body).end_of_file == size,
        contexts_of(body) == Some(contexts),
{
    let chain = create_context::packed(contexts);
    law_response_reads_back(body, file_id, size, (64 + at) as u32, chain.len() as u32);
    law_contexts_read_back(body, at, contexts, (64 + at) as u32, chain.len() as u32);
}

} // verus!
