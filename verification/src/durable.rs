//! Durable handles: an open that outlives the connection carrying it.
//!
//! The server keeps a durable open alive for a while after the connection dies, and the client
//! claims it back. That turns "write the file again from the start" into "carry on".
//!
//! ## The data-safety rule this module enforces
//!
//! Claiming back the wrong handle writes bytes into the wrong file, which is far worse than a
//! failed transfer. So a reclaim is not "the server said yes"; it is two independent proofs, and
//! anything less closes the handle and fails:
//!
//! 1. **The server matched our open.** The `DH2C` context repeats the guid that this client chose
//!    at open time, and the server compares it with the one it stored ([MS-SMB2] section
//!    3.3.5.9.12).
//! 2. **The open still points at the same bytes.** The `QFid` answer names the file on the
//!    server's disk. It is recorded at open and compared after the reclaim, so this proof does
//!    not depend on the server making the first comparison correctly.
//!
//! A server that will not answer `QFid` gets no resume.
//!
//! ## Getting one at all
//!
//! The server grants a durable handle only to a CREATE that also asks for a batch oplock
//! ([MS-SMB2] section 3.3.5.9.10). While we hold one, another client that opens the same file
//! makes the server break it and wait for our acknowledgment: see
//! [`Connection::acknowledge_break`].
//!
//! Everything degrades quietly. A server on SMB 2.1, a server with durable handles switched off,
//! a share that declines the oplock: all of them produce an ordinary working handle with no
//! durability, never an error.
//!
//! ## Steps
//!
//! Each operation is two functions: one says what to send, the other says what the answer means.
//! The exchange between them is the caller's.

use vstd::prelude::*;

use crate::bytes;
use crate::connection::{Connection, ConnectionView};
use crate::create;
use crate::create::{
    CloseMessage, CreateDisposition, CreateMessage, CreateRequest, CreateResponse, Frame,
    ImpersonationLevel, FILE_ATTRIBUTE_NORMAL, FILE_NON_DIRECTORY_FILE, READ_WRITE_ACCESS,
    SHARE_READ_WRITE,
};
use crate::create_context;
use crate::create_context::{
    ContextView, CreateContext, DurableGrant, DurableReconnectV2, DurableRequestV2, OnDiskId,
    NAME_DH2C, NAME_DH2Q, NAME_QFID,
};
use crate::error::{DurableLoss, Error};
use crate::header::Header;
use crate::types::{Command, Dialect, FileId, Guid, NtStatus, OplockLevel, TreeId, STATUS_SUCCESS};

verus! {

/// A write handle the server has promised to keep alive across a disconnect, plus everything
/// needed to prove a reclaimed one is the same file.
///
/// Cheap to copy and safe to hold across a reconnect. The guid in it is the token the server
/// matches on, so a handle comes only from an open or a reclaim.
#[derive(Debug, Clone, Copy, PartialEq, Eq)]
pub struct DurableHandle {
    /// The handle as the current session knows it. Replaced on every successful reclaim.
    pub file_id: FileId,
    /// What the server promised.
    pub grant: DurableGrant,
    identity: OnDiskId,
    create_guid: Guid,
    generation: u64,
}

/// A durable handle as contracts see it.
pub struct HandleView {
    pub file_id: FileId,
    pub grant: DurableGrant,
    /// The file's identity on the server's disk, captured at open.
    pub identity: OnDiskId,
    /// The proof of ownership that a reclaim repeats.
    pub create_guid: Guid,
    /// The connection generation the handle was last valid on.
    pub generation: u64,
}

impl View for DurableHandle {
    type V = HandleView;

    closed spec fn view(&self) -> HandleView {
        HandleView {
            file_id: self.file_id,
            grant: self.grant,
            identity: self.identity,
            create_guid: self.create_guid,
            generation: self.generation,
        }
    }
}

impl DurableHandle {
    /// The handle as the current session knows it, for callers to whom the fields are opaque.
    pub fn file_id(&self) -> (id: FileId)
        ensures
            id == self@.file_id,
    {
        self.file_id
    }

    /// What the server promised, for callers to whom the fields are opaque.
    pub fn grant(&self) -> (grant: DurableGrant)
        ensures
            grant == self@.grant,
    {
        self.grant
    }

    /// The file's on-disk identity: volume id plus inode, as the server sees it.
    pub fn identity(&self) -> (id: OnDiskId)
        ensures
            id == self@.identity,
    {
        self.identity
    }

    /// Whether this handle belongs to the session `conn` currently has.
    ///
    /// `false` means a reconnect has happened since the handle was obtained, so it must be
    /// reclaimed before use.
    pub fn is_current(&self, conn: &Connection) -> (current: bool)
        ensures
            current == (self@.generation == conn@.generation),
    {
        self.generation == conn.generation()
    }
}

/// What an open produced: the handle, its size, and durability if the server granted any.
#[derive(Debug, Clone, Copy, PartialEq, Eq)]
pub struct DurableOpen {
    /// The handle to write through.
    pub file_id: FileId,
    /// The file's size at open.
    pub size: u64,
    /// `Some` when the server promised to keep this open across a disconnect. `None` is normal
    /// and not an error: the handle works, it just cannot be resumed.
    pub durable: Option<DurableHandle>,
}

/// An open that has been asked for and not answered yet.
#[derive(Debug, PartialEq, Eq)]
pub struct PendingOpen {
    /// What to send.
    pub create: CreateMessage,
    /// Whether the request asks for durability.
    pub durable_possible: bool,
    /// The guid the request names the open with, if it asks for durability.
    pub create_guid: Guid,
}

/// What a reclaim came to.
#[derive(Debug, PartialEq, Eq)]
pub struct ReclaimOutcome {
    pub result: Result<DurableHandle, Error>,
    /// What to send before the failure is reported: the close of a handle that the server gave
    /// out and we refused.
    pub close: Option<CloseMessage>,
}

/// A connection to one share.
#[derive(Debug, Clone, Copy, PartialEq, Eq, Structural)]
pub struct Tree {
    pub tree_id: TreeId,
}

// ── What is asked ──────────────────────────────────────────────────────────

/// Whether durability is worth asking for on this connection.
///
/// A server below SMB 3.0 has only the first version of the durable contexts, whose reclaim
/// proves nothing. Asking anyway would take a batch oplock and its costs in exchange for nothing.
pub open spec fn durability_possible(conn: ConnectionView) -> bool {
    conn.dialect matches Some(d) && d.is_smb3()
}

/// The contexts of an open.
pub open spec fn open_contexts(durable: bool, create_guid: Guid) -> Seq<ContextView> {
    if durable {
        seq![
            (DurableRequestV2 { timeout_ms: 0, persistent: false, create_guid }).spec_context(),
            OnDiskId::spec_request(),
        ]
    } else {
        seq![OnDiskId::spec_request()]
    }
}

/// The contexts of a reclaim.
pub open spec fn reclaim_contexts(handle: HandleView) -> Seq<ContextView> {
    seq![
        (DurableReconnectV2 {
            file_id: handle.file_id,
            create_guid: handle.create_guid,
            persistent: handle.grant.persistent,
        }).spec_context(),
        OnDiskId::spec_request(),
    ]
}

/// What every open of a file for writing has in common: a CREATE on its tree, for the same access
/// and sharing.
pub open spec fn is_write_open(create: CreateMessage, tree_id: TreeId) -> bool {
    let request = create.request;
    &&& create.header == Header::spec_on_tree(Command::Create, tree_id)
    &&& request.impersonation_level is Impersonation
    &&& request.desired_access == READ_WRITE_ACCESS
    &&& request.file_attributes == FILE_ATTRIBUTE_NORMAL
    &&& request.share_access == SHARE_READ_WRITE
    &&& request.create_options == FILE_NON_DIRECTORY_FILE
}

// ── What is answered ───────────────────────────────────────────────────────

/// The grant among some contexts: absent, readable, or (`None`) malformed.
pub open spec fn answered_grant(contexts: Seq<ContextView>) -> Option<Option<DurableGrant>> {
    match create_context::found(contexts, NAME_DH2Q@) {
        None => Some(None),
        Some(data) => match DurableGrant::spec_from(data) {
            Some(grant) => Some(Some(grant)),
            None => None,
        },
    }
}

/// The identity among some contexts: absent, readable, or (`None`) malformed.
pub open spec fn answered_identity(contexts: Seq<ContextView>) -> Option<Option<OnDiskId>> {
    match create_context::found(contexts, NAME_QFID@) {
        None => Some(None),
        Some(data) => match OnDiskId::spec_from(data) {
            Some(identity) => Some(Some(identity)),
            None => None,
        },
    }
}

/// Whether everything an open reads from its response can be read.
pub open spec fn open_readable(body: Seq<u8>) -> bool {
    &&& create::response_readable(body)
    &&& create::contexts_of(body) matches Some(contexts)
    &&& answered_grant(contexts) is Some
    &&& answered_identity(contexts) is Some
}

/// The durable handle an open produces, if any: both proofs or nothing.
pub open spec fn opened_handle(
    durable_possible: bool,
    create_guid: Guid,
    generation: u64,
    body: Seq<u8>,
) -> Option<HandleView> {
    let contexts = create::contexts_of(body)->0;
    match (answered_grant(contexts)->0, answered_identity(contexts)->0) {
        (Some(grant), Some(identity)) => if durable_possible {
            Some(
                HandleView {
                    file_id: create::response_of(body).file_id,
                    grant,
                    identity,
                    create_guid,
                    generation,
                },
            )
        } else {
            None
        },
        _ => None,
    }
}

/// The identity that the answer to a reclaim names, if it names one that can be read.
pub open spec fn reclaimed_identity(body: Seq<u8>) -> Option<OnDiskId> {
    if !create::response_readable(body) {
        None
    } else {
        match create::contexts_of(body) {
            None => None,
            Some(contexts) => match answered_identity(contexts) {
                None => None,
                Some(identity) => identity,
            },
        }
    }
}

/// Which guarantee fails, if any, when the server answers a reclaim like this.
pub open spec fn reclaim_loss(
    handle: HandleView,
    status: NtStatus,
    body: Seq<u8>,
) -> Option<DurableLoss> {
    if status != NtStatus(STATUS_SUCCESS) {
        Some(DurableLoss::Expired)
    } else {
        match reclaimed_identity(body) {
            None => Some(DurableLoss::IdentityUnavailable),
            Some(identity) => if identity != handle.identity {
                Some(DurableLoss::IdentityMismatch)
            } else {
                None
            },
        }
    }
}

/// The handle the server gave out in this answer, if it gave one.
pub open spec fn handed_out(status: NtStatus, body: Seq<u8>) -> Option<FileId> {
    if status == NtStatus(STATUS_SUCCESS) && create::response_readable(body) {
        Some(create::response_of(body).file_id)
    } else {
        None
    }
}

/// The close of the handle the server gave out in this answer, if it gave one.
pub open spec fn closing(tree_id: TreeId, status: NtStatus, body: Seq<u8>) -> Option<CloseMessage> {
    match handed_out(status, body) {
        Some(file_id) => Some(
            CloseMessage { header: Header::spec_on_tree(Command::Close, tree_id), file_id },
        ),
        None => None,
    }
}

/// The handle a successful reclaim leaves: the same file, under a new id, on this session.
pub open spec fn reclaimed_handle(handle: HandleView, generation: u64, body: Seq<u8>) -> HandleView {
    HandleView { file_id: create::response_of(body).file_id, generation, ..handle }
}

impl Tree {
    /// Opens (or creates) a file for writing, asking for a handle that survives a disconnect.
    ///
    /// The file is opened without truncation, because the point of resuming is to keep the bytes
    /// already written. `create_guid` must be fresh: reusing one is how a reclaim finds the wrong
    /// open. `name` is the path as this tree connect spells it.
    pub fn open_file_durable(
        &self,
        conn: &Connection,
        name: String,
        create_guid: Guid,
    ) -> (pending: PendingOpen)
        ensures
            pending.durable_possible == durability_possible(conn@),
            pending.create_guid == create_guid,
            is_write_open(pending.create, self.tree_id),
            pending.create.request.create_disposition is FileOpenIf,
            pending.create.request.name == name,
            pending.create.request.requested_oplock_level == (if durability_possible(conn@) {
                OplockLevel::Batch
            } else {
                OplockLevel::NoOplock
            }),
            pending.create.request.create_contexts@ == create_context::packed(
                open_contexts(durability_possible(conn@), create_guid),
            ),
    {
        let durable_possible = match conn.dialect() {
            Some(dialect) => dialect.at_least_smb3(),
            None => false,
        };
        let mut contexts: Vec<CreateContext> = Vec::new();
        if durable_possible {
            // The server knows its own limits and clamps whatever is asked for, so asking for a
            // specific window only invites a smaller one.
            contexts.push(
                DurableRequestV2 { timeout_ms: 0, persistent: false, create_guid }.context(),
            );
        }
        contexts.push(OnDiskId::request());
        proof {
            assert(create_context::views(contexts@) =~= open_contexts(
                durable_possible,
                create_guid,
            ));
            lemma_open_contexts_fit(durable_possible, create_guid);
        }
        let request = CreateRequest {
            requested_oplock_level: if durable_possible {
                OplockLevel::Batch
            } else {
                OplockLevel::NoOplock
            },
            impersonation_level: ImpersonationLevel::Impersonation,
            desired_access: READ_WRITE_ACCESS,
            file_attributes: FILE_ATTRIBUTE_NORMAL,
            share_access: SHARE_READ_WRITE,
            create_disposition: CreateDisposition::FileOpenIf,
            create_options: FILE_NON_DIRECTORY_FILE,
            name,
            create_contexts: create_context::pack_contexts(contexts.as_slice()),
        };
        PendingOpen {
            create: CreateMessage {
                header: Header::on_tree(Command::Create, self.tree_id),
                request,
            },
            durable_possible,
            create_guid,
        }
    }

    /// Says what the outcome of an open's exchange means. An exchange that brought no answer fails
    /// the open with its own error.
    ///
    /// A handle that could not later be proven to be the same file is not presented as
    /// resumable: the caller would build a resume on it, and we would have to refuse at the worst
    /// possible moment. A grant that was not asked for counts for nothing.
    pub fn finish_open(
        &self,
        conn: &mut Connection,
        pending: &PendingOpen,
        answer: Result<Frame, Error>,
    ) -> (opened: Result<DurableOpen, Error>)
        ensures
            match answer {
                Err(e) => opened == Err::<DurableOpen, Error>(e),
                Ok(frame) => if frame.status != NtStatus(STATUS_SUCCESS) {
                    opened == Err::<DurableOpen, Error>(
                        Error::Protocol { status: frame.status, command: Command::Create },
                    )
                } else if !open_readable(frame.body@) {
                    opened == Err::<DurableOpen, Error>(Error::InvalidData)
                } else {
                    let handle = opened_handle(
                        pending.durable_possible,
                        pending.create_guid,
                        old(conn)@.generation,
                        frame.body@,
                    );
                    &&& opened matches Ok(open)
                    &&& open.file_id == create::response_of(frame.body@).file_id
                    &&& open.size == create::response_of(frame.body@).end_of_file
                    &&& (open.durable matches Some(h) ==> handle == Some(h@))
                    &&& (open.durable is None ==> handle is None)
                },
            },
            opened matches Ok(DurableOpen { file_id, durable: Some(h), .. }) ==> {
                &&& pending.durable_possible
                &&& h@.file_id == file_id
                &&& h@.create_guid == pending.create_guid
                &&& h@.generation == old(conn)@.generation
            },
            final(conn)@ == (match opened {
                Ok(DurableOpen { file_id, durable: Some(_), .. }) => ConnectionView {
                    oplocks: old(conn)@.oplocks.insert(file_id, self.tree_id),
                    ..old(conn)@
                },
                _ => old(conn)@,
            }),
    {
        let frame = match answer {
            Ok(frame) => frame,
            Err(e) => return Err(e),
        };
        if frame.status != NtStatus(STATUS_SUCCESS) {
            return Err(Error::Protocol { status: frame.status, command: Command::Create });
        }
        let body = frame.body.as_slice();
        let response = match CreateResponse::unpack(body) {
            Ok(response) => response,
            Err(e) => return Err(e),
        };
        let contexts = match response.create_contexts(body) {
            Ok(contexts) => contexts,
            Err(e) => return Err(e),
        };
        let grant = match create_context::find(contexts.as_slice(), NAME_DH2Q) {
            None => None,
            Some(c) => match DurableGrant::from_bytes(c.data.as_slice()) {
                Ok(grant) => Some(grant),
                Err(e) => return Err(e),
            },
        };
        let identity = match create_context::find(contexts.as_slice(), NAME_QFID) {
            None => None,
            Some(c) => match OnDiskId::from_bytes(c.data.as_slice()) {
                Ok(identity) => Some(identity),
                Err(e) => return Err(e),
            },
        };
        let durable = match (grant, identity) {
            (Some(grant), Some(identity)) => if pending.durable_possible {
                conn.register_oplock(response.file_id, self.tree_id);
                Some(
                    DurableHandle {
                        file_id: response.file_id,
                        grant,
                        identity,
                        create_guid: pending.create_guid,
                        generation: conn.generation(),
                    },
                )
            } else {
                None
            },
            _ => None,
        };
        Ok(DurableOpen { file_id: response.file_id, size: response.end_of_file, durable })
    }

    /// Claims a durable open back after a reconnect.
    ///
    /// To be sent on a live, authenticated connection to the same server, over a tree connect to
    /// the same share, under the same credentials. `name` must be the name the handle was opened
    /// with.
    pub fn reclaim_durable_handle(&self, handle: &DurableHandle, name: String) -> (create:
        CreateMessage)
        ensures
            is_write_open(create, self.tree_id),
            create.request.create_disposition is FileOpen,
            create.request.name == name,
            create.request.requested_oplock_level is Batch,
            create.request.create_contexts@ == create_context::packed(reclaim_contexts(handle@)),
    {
        let mut contexts: Vec<CreateContext> = Vec::new();
        contexts.push(
            DurableReconnectV2 {
                file_id: handle.file_id,
                create_guid: handle.create_guid,
                persistent: handle.grant.persistent,
            }.context(),
        );
        // Asked again so the answer can be compared: this is the half of the proof that does not
        // rely on the server comparing the guid correctly.
        contexts.push(OnDiskId::request());
        proof {
            assert(create_context::views(contexts@) =~= reclaim_contexts(handle@));
            lemma_reclaim_contexts_fit(handle@);
        }
        let request = CreateRequest {
            requested_oplock_level: OplockLevel::Batch,
            impersonation_level: ImpersonationLevel::Impersonation,
            desired_access: READ_WRITE_ACCESS,
            file_attributes: FILE_ATTRIBUTE_NORMAL,
            share_access: SHARE_READ_WRITE,
            create_disposition: CreateDisposition::FileOpen,
            create_options: FILE_NON_DIRECTORY_FILE,
            name,
            create_contexts: create_context::pack_contexts(contexts.as_slice()),
        };
        CreateMessage { header: Header::on_tree(Command::Create, self.tree_id), request }
    }

    /// Says what the outcome of a reclaim's exchange means: the open is ours and points at the
    /// same file, or it is lost. An open that nobody answered for is lost too.
    ///
    /// On success the returned handle carries the new `FileId`, and the caller can resume writing
    /// at whatever offset it had reached. On failure nothing may be left open on the server: a
    /// handle that came back unprovable is named in `close`, its oplock already forgotten.
    pub fn finish_reclaim(
        &self,
        conn: &mut Connection,
        handle: &DurableHandle,
        path: &str,
        answer: Result<Frame, Error>,
    ) -> (outcome: ReclaimOutcome)
        ensures
            outcome.result matches Err(e) ==> e matches Error::DurableHandleLost { path: p, .. }
                && p@ == path@,
            match answer {
                Err(_) => {
                    &&& outcome.result matches Err(Error::DurableHandleLost { path: p, reason })
                    &&& p@ == path@
                    &&& reason is Expired
                    &&& outcome.close is None
                    &&& final(conn)@ == old(conn)@
                },
                Ok(frame) => match reclaim_loss(handle@, frame.status, frame.body@) {
                    None => {
                        &&& outcome.result matches Ok(h)
                        &&& h@ == reclaimed_handle(handle@, old(conn)@.generation, frame.body@)
                        &&& outcome.close is None
                        &&& final(conn)@ == (ConnectionView {
                            oplocks: old(conn)@.oplocks.insert(h@.file_id, self.tree_id),
                            ..old(conn)@
                        })
                    },
                    Some(loss) => {
                        &&& outcome.result matches Err(
                            Error::DurableHandleLost { path: p, reason },
                        )
                        &&& p@ == path@
                        &&& reason == loss
                        &&& outcome.close == closing(self.tree_id, frame.status, frame.body@)
                        &&& final(conn)@ == (match handed_out(frame.status, frame.body@) {
                            Some(file_id) => ConnectionView {
                                oplocks: old(conn)@.oplocks.remove(file_id),
                                ..old(conn)@
                            },
                            None => old(conn)@,
                        })
                    },
                },
            },
    {
        let frame = match answer {
            Ok(frame) => frame,
            Err(_) => return lost(path, DurableLoss::Expired, None),
        };
        if frame.status != NtStatus(STATUS_SUCCESS) {
            return lost(path, DurableLoss::Expired, None);
        }
        let body = frame.body.as_slice();
        let response = match CreateResponse::unpack(body) {
            Ok(response) => response,
            Err(_) => return lost(path, DurableLoss::IdentityUnavailable, None),
        };
        let identity = match read_identity(&response, body) {
            Some(identity) => identity,
            None => {
                // It answered the reclaim but not the question. This is a handle we cannot vouch
                // for, so it goes back.
                let close = self.close_handle(conn, response.file_id);
                return lost(path, DurableLoss::IdentityUnavailable, Some(close));
            },
        };
        if identity != handle.identity {
            // The one outcome this module exists to make impossible.
            let close = self.close_handle(conn, response.file_id);
            return lost(path, DurableLoss::IdentityMismatch, Some(close));
        }
        conn.register_oplock(response.file_id, self.tree_id);
        ReclaimOutcome {
            result: Ok(
                DurableHandle {
                    file_id: response.file_id,
                    grant: handle.grant,
                    identity: handle.identity,
                    create_guid: handle.create_guid,
                    generation: conn.generation(),
                },
            ),
            close: None,
        }
    }

    /// Closes a handle: its oplock is forgotten, so that a break that arrives afterwards is not
    /// acknowledged.
    pub fn close_handle(&self, conn: &mut Connection, file_id: FileId) -> (close: CloseMessage)
        ensures
            close == (CloseMessage {
                header: Header::spec_on_tree(Command::Close, self.tree_id),
                file_id,
            }),
            final(conn)@ == (ConnectionView {
                oplocks: old(conn)@.oplocks.remove(file_id),
                ..old(conn)@
            }),
    {
        conn.retire_oplock(file_id);
        CloseMessage { header: Header::on_tree(Command::Close, self.tree_id), file_id }
    }
}

/// A reclaim that failed.
fn lost(path: &str, reason: DurableLoss, close: Option<CloseMessage>) -> (outcome: ReclaimOutcome)
    ensures
        outcome.result matches Err(Error::DurableHandleLost { path: p, reason: r }) && p@ == path@
            && r == reason,
        outcome.close == close,
{
    ReclaimOutcome {
        result: Err(Error::DurableHandleLost { path: path.to_string(), reason }),
        close,
    }
}

/// The identity that the answer to a reclaim names, if it names one that can be read.
fn read_identity(response: &CreateResponse, body: &[u8]) -> (identity: Option<OnDiskId>)
    requires
        create::response_readable(body@),
        *response == create::response_of(body@),
    ensures
        identity == reclaimed_identity(body@),
{
    match response.create_contexts(body) {
        Err(_) => None,
        Ok(contexts) => match create_context::find(contexts.as_slice(), NAME_QFID) {
            None => None,
            Some(c) => match OnDiskId::from_bytes(c.data.as_slice()) {
                Ok(identity) => Some(identity),
                Err(_) => None,
            },
        },
    }
}

proof fn lemma_open_contexts_fit(durable: bool, create_guid: Guid)
    ensures
        create_context::all_fit(open_contexts(durable, create_guid)),
{
    (DurableRequestV2 { timeout_ms: 0, persistent: false, create_guid }).lemma_layout();
}

proof fn lemma_reclaim_contexts_fit(handle: HandleView)
    ensures
        create_context::all_fit(reclaim_contexts(handle)),
{
    (DurableReconnectV2 {
        file_id: handle.file_id,
        create_guid: handle.create_guid,
        persistent: handle.grant.persistent,
    }).lemma_layout();
}

// ── Laws ───────────────────────────────────────────────────────────────────

/// The three context names differ.
proof fn lemma_names_differ()
    ensures
        NAME_DH2Q@ != NAME_QFID@,
        NAME_DH2C@ != NAME_QFID@,
        NAME_DH2Q@ != NAME_DH2C@,
{
    assert(NAME_DH2Q@[0] != NAME_QFID@[0]);
    assert(NAME_DH2C@[0] != NAME_QFID@[0]);
    assert(NAME_DH2Q@[3] != NAME_DH2C@[3]);
}

/// What a server reads from the contexts of an open.
///
/// From SMB 3.0 on, it finds a request for durability under the client's guid and a question for
/// the file's identity. Below SMB 3.0 it finds the question alone: such a server is never asked
/// for a durable handle.
pub proof fn law_open_on_the_wire(durable: bool, create_guid: Guid)
    ensures
        create_context::parsed(create_context::packed(open_contexts(durable, create_guid))) == Some(
            open_contexts(durable, create_guid),
        ),
        create_context::found(open_contexts(durable, create_guid), NAME_QFID@) == Some(
            Seq::<u8>::empty(),
        ),
        !durable ==> create_context::found(open_contexts(durable, create_guid), NAME_DH2Q@) is None,
        durable ==> {
            &&& create_context::found(open_contexts(durable, create_guid), NAME_DH2Q@) matches Some(
                data,
            )
            &&& data.len() == 32
            &&& data.subrange(16, 32) == create_guid.bytes@
        },
{
    lemma_open_contexts_fit(durable, create_guid);
    create_context::law_parse_of_packed(open_contexts(durable, create_guid));
    (DurableRequestV2 { timeout_ms: 0, persistent: false, create_guid }).lemma_layout();
    lemma_names_differ();
    reveal_with_fuel(create_context::found, 3);
    let contexts = open_contexts(durable, create_guid);
    if durable {
        assert(contexts.drop_first() =~= seq![OnDiskId::spec_request()]);
    } else {
        assert(contexts.drop_first() =~= Seq::empty());
    }
}

/// What a server reads from the contexts of a reclaim.
///
/// It finds the guid that the handle was opened with, the handle's old `FileId`, and the question
/// for the file's identity asked again.
pub proof fn law_reclaim_on_the_wire(handle: HandleView)
    ensures
        create_context::parsed(create_context::packed(reclaim_contexts(handle))) == Some(
            reclaim_contexts(handle),
        ),
        create_context::found(reclaim_contexts(handle), NAME_QFID@) == Some(Seq::<u8>::empty()),
        ({
            &&& create_context::found(reclaim_contexts(handle), NAME_DH2C@) matches Some(data)
            &&& data.len() == 36
            &&& data.subrange(16, 32) == handle.create_guid.bytes@
            &&& bytes::field(data, 0, 8) == handle.file_id.persistent
            &&& bytes::field(data, 8, 8) == handle.file_id.volatile
        }),
{
    lemma_reclaim_contexts_fit(handle);
    create_context::law_parse_of_packed(reclaim_contexts(handle));
    (DurableReconnectV2 {
        file_id: handle.file_id,
        create_guid: handle.create_guid,
        persistent: handle.grant.persistent,
    }).lemma_layout();
    lemma_names_differ();
    reveal_with_fuel(create_context::found, 3);
    assert(reclaim_contexts(handle).drop_first() =~= seq![OnDiskId::spec_request()]);
}

/// A reclaim repeats, byte for byte, the guid that its open put on the wire.
pub proof fn law_reclaim_replays_the_guid(create_guid: Guid, generation: u64, body: Seq<u8>)
    requires
        opened_handle(true, create_guid, generation, body) is Some,
    ensures
        ({
            let handle = opened_handle(true, create_guid, generation, body)->0;
            let asked = create_context::found(open_contexts(true, create_guid), NAME_DH2Q@);
            let claimed = create_context::found(reclaim_contexts(handle), NAME_DH2C@);
            &&& asked is Some
            &&& claimed is Some
            &&& asked->0.subrange(16, 32) == claimed->0.subrange(16, 32)
        }),
{
    let handle = opened_handle(true, create_guid, generation, body)->0;
    law_open_on_the_wire(true, create_guid);
    law_reclaim_on_the_wire(handle);
}

/// An open is resumable exactly when durability was asked for and the server answered both
/// proofs; the handle is then valid on the session it was opened on.
pub proof fn law_both_proofs_or_nothing(
    durable_possible: bool,
    create_guid: Guid,
    generation: u64,
    body: Seq<u8>,
)
    requires
        open_readable(body),
    ensures
        ({
            let contexts = create::contexts_of(body)->0;
            let handle = opened_handle(durable_possible, create_guid, generation, body);
            &&& handle is Some <==> durable_possible && create_context::found(
                contexts,
                NAME_DH2Q@,
            ) is Some && create_context::found(contexts, NAME_QFID@) is Some
            &&& handle matches Some(h) ==> h.generation == generation && h.create_guid == create_guid
        }),
{
}

/// A reclaim succeeds exactly when the server gave the open back and named the very file that was
/// recorded at open.
pub proof fn law_reclaim_is_the_same_file(handle: HandleView, status: NtStatus, body: Seq<u8>)
    ensures
        reclaim_loss(handle, status, body) is None <==> (status == NtStatus(STATUS_SUCCESS)
            && reclaimed_identity(body) == Some(handle.identity)),
{
}

/// A reclaim that the server rejects leaves nothing to close, and one that succeeds hands a
/// handle out: it is the one the caller resumes on.
pub proof fn law_nothing_is_left_open(handle: HandleView, status: NtStatus, body: Seq<u8>)
    ensures
        reclaim_loss(handle, status, body) == Some(DurableLoss::Expired) ==> handed_out(
            status,
            body,
        ) is None,
        reclaim_loss(handle, status, body) == Some(DurableLoss::IdentityMismatch) ==> handed_out(
            status,
            body,
        ) is Some,
        reclaim_loss(handle, status, body) is None ==> handed_out(status, body) == Some(
            create::response_of(body).file_id,
        ),
{
}

/// An answer to a reclaim, with the generation of the session it arrived on.
pub struct ReclaimAnswer {
    pub generation: u64,
    pub status: NtStatus,
    pub body: Seq<u8>,
}

/// The handle after a run of reclaims, or nothing once one of them fails.
pub open spec fn after_reclaims(handle: HandleView, answers: Seq<ReclaimAnswer>) -> Option<
    HandleView,
>
    decreases answers.len(),
{
    if answers.len() == 0 {
        Some(handle)
    } else {
        let answer = answers[0];
        if reclaim_loss(handle, answer.status, answer.body) is Some {
            None
        } else {
            after_reclaims(
                reclaimed_handle(handle, answer.generation, answer.body),
                answers.drop_first(),
            )
        }
    }
}

/// However often a handle is reclaimed, it stays a handle to the file it was opened on, under the
/// guid it was opened with, and every answer along the way named that file.
pub proof fn law_reclaims_keep_the_file(handle: HandleView, answers: Seq<ReclaimAnswer>)
    requires
        after_reclaims(handle, answers) is Some,
    ensures
        ({
            let h = after_reclaims(handle, answers)->0;
            &&& h.identity == handle.identity
            &&& h.create_guid == handle.create_guid
            &&& h.grant == handle.grant
            &&& answers.len() > 0 ==> h.generation == answers.last().generation
            &&& answers.len() > 0 ==> h.file_id == create::response_of(answers.last().body).file_id
        }),
        forall|i: int|
            0 <= i < answers.len() ==> reclaimed_identity(#[trigger] answers[i].body) == Some(
                handle.identity,
            ),
    decreases answers.len(),
{
    if answers.len() > 0 {
        let answer = answers[0];
        let next = reclaimed_handle(handle, answer.generation, answer.body);
        let rest = answers.drop_first();
        law_reclaims_keep_the_file(next, rest);
        assert forall|i: int| 0 <= i < answers.len() implies reclaimed_identity(
            #[trigger] answers[i].body,
        ) == Some(handle.identity) by {
            if i > 0 {
                assert(rest[i - 1] == answers[i]);
            }
        }
        if rest.len() > 0 {
            assert(rest.last() == answers.last());
        }
    }
}

/// Durability is asked for on SMB 3 and on nothing else: not below it, and not before a dialect is
/// negotiated.
pub proof fn law_when_durability_is_asked_for(conn: ConnectionView)
    ensures
        durability_possible(conn) <==> ({
            ||| conn.dialect == Some(Dialect::Smb3_0)
            ||| conn.dialect == Some(Dialect::Smb3_0_2)
            ||| conn.dialect == Some(Dialect::Smb3_1_1)
        }),
{
}

/// What an open for writing asks of the server, on its own tree: to read and write data and
/// attributes and to wait on the handle, to share reading and writing, to open no directory.
pub proof fn law_what_a_write_open_asks(create: CreateMessage, tree_id: TreeId)
    requires
        is_write_open(create, tree_id),
    ensures
        create.header.command is Create,
        create.header.tree_id == tree_id,
        create.request.impersonation_level is Impersonation,
        create.request.desired_access == 0x1 + 0x2 + 0x80 + 0x100 + 0x10_0000,
        create.request.share_access == 0x1 + 0x2,
        create.request.file_attributes == 0x80,
        create.request.create_options == 0x40,
{
}

/// The contexts of an open are the question for the identity and, if durability is asked for, the
/// request for it before: the server's own timeout, not persistent, under the client's guid.
pub proof fn law_contexts_of_an_open(create_guid: Guid)
    ensures
        open_contexts(false, create_guid).len() == 1,
        open_contexts(true, create_guid).len() == 2,
        open_contexts(true, create_guid)[1] == open_contexts(false, create_guid)[0],
        ({
            let asked = open_contexts(true, create_guid)[0];
            let question = open_contexts(false, create_guid)[0];
            &&& asked.name == seq![0x44u8, 0x48, 0x32, 0x51]
            &&& asked.data.len() == 32
            &&& bytes::field(asked.data, 0, 4) == 0
            &&& bytes::field(asked.data, 4, 4) == 0
            &&& bytes::field(asked.data, 8, 8) == 0
            &&& asked.data.subrange(16, 32) == create_guid.bytes@
            &&& question.name == seq![0x51u8, 0x46, 0x69, 0x64]
            &&& question.data.len() == 0
        }),
{
    create_context::law_durable_request_layout(
        DurableRequestV2 { timeout_ms: 0, persistent: false, create_guid },
    );
    create_context::law_identity_question();
}

/// The contexts of a reclaim are the claim, which repeats the handle, its guid and whether it is
/// persistent, and the question for the identity asked again.
pub proof fn law_contexts_of_a_reclaim(handle: HandleView)
    ensures
        reclaim_contexts(handle).len() == 2,
        ({
            let claim = reclaim_contexts(handle)[0];
            let question = reclaim_contexts(handle)[1];
            &&& claim.name == seq![0x44u8, 0x48, 0x32, 0x43]
            &&& claim.data.len() == 36
            &&& bytes::field(claim.data, 0, 8) == handle.file_id.persistent
            &&& bytes::field(claim.data, 8, 8) == handle.file_id.volatile
            &&& claim.data.subrange(16, 32) == handle.create_guid.bytes@
            &&& bytes::field(claim.data, 32, 4) == (if handle.grant.persistent {
                2int
            } else {
                0int
            })
            &&& question.name == seq![0x51u8, 0x46, 0x69, 0x64]
            &&& question.data.len() == 0
        }),
{
    create_context::law_durable_reconnect_layout(
        DurableReconnectV2 {
            file_id: handle.file_id,
            create_guid: handle.create_guid,
            persistent: handle.grant.persistent,
        },
    );
    create_context::law_identity_question();
}

/// Whether some contexts answer `name` first with data that starts with these bytes and goes on for
/// at least `more`.
pub open spec fn answer_starts(
    contexts: Seq<ContextView>,
    name: Seq<u8>,
    data: Seq<u8>,
    more: nat,
) -> bool {
    exists|i: int|
        #![trigger contexts[i]]
        0 <= i < contexts.len() && contexts[i].name == name && contexts[i].data.len() >= data.len()
            + more && contexts[i].data.take(data.len() as int) == data && (forall|j: int|
            0 <= j < i ==> (#[trigger] contexts[j]).name != name)
}

/// Whether no context has this name.
pub open spec fn not_answered(contexts: Seq<ContextView>, name: Seq<u8>) -> bool {
    forall|i: int| 0 <= i < contexts.len() ==> (#[trigger] contexts[i]).name != name
}

proof fn lemma_found_when_answered(
    contexts: Seq<ContextView>,
    name: Seq<u8>,
    data: Seq<u8>,
    more: nat,
)
    requires
        answer_starts(contexts, name, data, more),
    ensures
        ({
            &&& create_context::found(contexts, name) matches Some(found)
            &&& found == data + found.skip(data.len() as int)
            &&& found.skip(data.len() as int).len() >= more
        }),
{
    create_context::law_found_is_the_first(contexts, name);
    let i = choose|i: int|
        #![trigger contexts[i]]
        0 <= i < contexts.len() && contexts[i].name == name && contexts[i].data.len() >= data.len()
            + more && contexts[i].data.take(data.len() as int) == data && (forall|j: int|
            0 <= j < i ==> (#[trigger] contexts[j]).name != name);
    match create_context::found(contexts, name) {
        None => {
            assert(contexts[i].name != name);
        },
        Some(found) => {
            let k = choose|k: int|
                0 <= k < contexts.len() && #[trigger] contexts[k] == (ContextView {
                    name,
                    data: found,
                }) && (forall|j: int| 0 <= j < k ==> (#[trigger] contexts[j]).name != name);
            assert(i == k) by {
                if i < k {
                    assert(contexts[i].name != name);
                } else if k < i {
                    assert(contexts[k].name != name);
                }
            }
            assert(found =~= found.take(data.len() as int) + found.skip(data.len() as int));
        },
    }
}

proof fn lemma_not_found_when_not_answered(contexts: Seq<ContextView>, name: Seq<u8>)
    requires
        not_answered(contexts, name),
    ensures
        create_context::found(contexts, name) is None,
{
    create_context::law_found_is_the_first(contexts, name);
}

/// The bytes of a grant.
pub open spec fn grant_bytes(timeout_ms: u32, flags: u32) -> Seq<u8> {
    bytes::le_bytes(timeout_ms as nat, 4) + bytes::le_bytes(flags as nat, 4)
}

/// The bytes of an identity, without the reserved ones behind it.
pub open spec fn identity_bytes(id: OnDiskId) -> Seq<u8> {
    bytes::le_bytes(id.disk_file_id as nat, 8) + bytes::le_bytes(id.volume_id as nat, 8)
}

proof fn lemma_answered_grant(contexts: Seq<ContextView>, timeout_ms: u32, flags: u32)
    requires
        answer_starts(contexts, NAME_DH2Q@, grant_bytes(timeout_ms, flags), 0),
    ensures
        answered_grant(contexts) == Some(
            Some(DurableGrant { timeout_ms, persistent: flags & 2 == 2 }),
        ),
{
    let data = grant_bytes(timeout_ms, flags);
    lemma_found_when_answered(contexts, NAME_DH2Q@, data, 0);
    let found = create_context::found(contexts, NAME_DH2Q@)->0;
    create_context::law_grant_reads_back(
        timeout_ms,
        flags,
        found.skip(data.len() as int),
        Seq::empty(),
    );
}

proof fn lemma_answered_identity(contexts: Seq<ContextView>, id: OnDiskId)
    requires
        answer_starts(contexts, NAME_QFID@, identity_bytes(id), 16),
    ensures
        answered_identity(contexts) == Some(Some(id)),
{
    let data = identity_bytes(id);
    lemma_found_when_answered(contexts, NAME_QFID@, data, 16);
    let found = create_context::found(contexts, NAME_QFID@)->0;
    create_context::law_identity_reads_back(id, found.skip(data.len() as int), Seq::empty());
}

/// An open that the server answers with both proofs gives a resumable handle that holds all the
/// server said: the handle, the grant in its whole width, the identity in its whole width; under the
/// guid of the request, on the session of the answer. The size is the server's too.
pub proof fn law_an_answered_open_is_resumable(
    body: Seq<u8>,
    file_id: FileId,
    size: u64,
    at: nat,
    contexts: Seq<ContextView>,
    timeout_ms: u32,
    flags: u32,
    id: OnDiskId,
    create_guid: Guid,
    generation: u64,
)
    requires
        create::written_by_server(body, file_id, size, at, contexts),
        answer_starts(contexts, NAME_DH2Q@, grant_bytes(timeout_ms, flags), 0),
        answer_starts(contexts, NAME_QFID@, identity_bytes(id), 16),
    ensures
        open_readable(body),
        create::response_of(body).file_id == file_id,
        create::response_of(body).end_of_file == size,
        opened_handle(true, create_guid, generation, body) == Some(
            HandleView {
                file_id,
                grant: DurableGrant { timeout_ms, persistent: flags & 2 == 2 },
                identity: id,
                create_guid,
                generation,
            },
        ),
        opened_handle(false, create_guid, generation, body) is None,
{
    create::law_server_is_understood(body, file_id, size, at, contexts);
    lemma_answered_grant(contexts, timeout_ms, flags);
    lemma_answered_identity(contexts, id);
}

/// An open that the server answers with one proof only, or with none, is an open all the same: it
/// has its handle and its size, and is not resumable.
pub proof fn law_an_open_degrades_quietly(
    body: Seq<u8>,
    file_id: FileId,
    size: u64,
    at: nat,
    contexts: Seq<ContextView>,
    timeout_ms: u32,
    flags: u32,
    id: OnDiskId,
    durable_possible: bool,
    create_guid: Guid,
    generation: u64,
)
    requires
        create::written_by_server(body, file_id, size, at, contexts),
        not_answered(contexts, NAME_DH2Q@) || not_answered(contexts, NAME_QFID@),
        not_answered(contexts, NAME_DH2Q@) || answer_starts(
            contexts,
            NAME_DH2Q@,
            grant_bytes(timeout_ms, flags),
            0,
        ),
        not_answered(contexts, NAME_QFID@) || answer_starts(
            contexts,
            NAME_QFID@,
            identity_bytes(id),
            16,
        ),
    ensures
        open_readable(body),
        create::response_of(body).file_id == file_id,
        create::response_of(body).end_of_file == size,
        opened_handle(durable_possible, create_guid, generation, body) is None,
{
    create::law_server_is_understood(body, file_id, size, at, contexts);
    if not_answered(contexts, NAME_DH2Q@) {
        lemma_not_found_when_not_answered(contexts, NAME_DH2Q@);
    } else {
        lemma_answered_grant(contexts, timeout_ms, flags);
    }
    if not_answered(contexts, NAME_QFID@) {
        lemma_not_found_when_not_answered(contexts, NAME_QFID@);
    } else {
        lemma_answered_identity(contexts, id);
    }
}

/// An open whose answer cannot be read is told from one that can: too short for the fixed part, of
/// another structure, with contexts that are no chain, or with an answer too short for its fields.
pub proof fn law_what_is_no_open(body: Seq<u8>)
    ensures
        body.len() < 88 ==> !open_readable(body),
        body.len() >= 88 && body.subrange(0, 2) != bytes::le_bytes(89, 2) ==> !open_readable(body),
        create::contexts_of(body) is None ==> !open_readable(body),
        create::contexts_of(body) matches Some(contexts) ==> {
            let grant = create_context::found(contexts, NAME_DH2Q@);
            let identity = create_context::found(contexts, NAME_QFID@);
            &&& grant is Some && grant->0.len() < 8 ==> !open_readable(body)
            &&& identity is Some && identity->0.len() < 32 ==> !open_readable(body)
        },
{
    create::law_what_is_no_response(body);
}

/// A reclaim that the server answers with a file is resumed exactly if it is the file recorded at
/// open, in every bit of its id and its volume; any other file is refused as a mismatch and the
/// handle to it closed, on the tree of the reclaim. The resumed handle is the old one under the new
/// id, on the session of the answer.
pub proof fn law_a_reclaim_is_judged_by_its_file(
    handle: HandleView,
    body: Seq<u8>,
    file_id: FileId,
    size: u64,
    at: nat,
    contexts: Seq<ContextView>,
    id: OnDiskId,
    tree_id: TreeId,
    generation: u64,
)
    requires
        create::written_by_server(body, file_id, size, at, contexts),
        answer_starts(contexts, NAME_QFID@, identity_bytes(id), 16),
    ensures
        reclaim_loss(handle, NtStatus(0), body) == (if id.disk_file_id
            == handle.identity.disk_file_id && id.volume_id == handle.identity.volume_id {
            None
        } else {
            Some(DurableLoss::IdentityMismatch)
        }),
        handed_out(NtStatus(0), body) == Some(file_id),
        closing(tree_id, NtStatus(0), body) matches Some(close) && close.file_id == file_id
            && close.header.command is Close && close.header.tree_id == tree_id,
        reclaimed_handle(handle, generation, body) == (HandleView {
            file_id,
            grant: handle.grant,
            identity: handle.identity,
            create_guid: handle.create_guid,
            generation,
        }),
{
    create::law_server_is_understood(body, file_id, size, at, contexts);
    lemma_answered_identity(contexts, id);
}

/// A reclaim that the server answers without saying which file it is, or in less than thirty-two
/// bytes, is refused, and the handle closed on the tree of the reclaim.
pub proof fn law_an_unproven_reclaim_is_refused(
    handle: HandleView,
    body: Seq<u8>,
    file_id: FileId,
    size: u64,
    at: nat,
    contexts: Seq<ContextView>,
    tree_id: TreeId,
)
    requires
        create::written_by_server(body, file_id, size, at, contexts),
        not_answered(contexts, NAME_QFID@) || (create_context::found(
            contexts,
            NAME_QFID@,
        ) matches Some(data) && data.len() < 32),
    ensures
        reclaim_loss(handle, NtStatus(0), body) == Some(DurableLoss::IdentityUnavailable),
        handed_out(NtStatus(0), body) == Some(file_id),
        closing(tree_id, NtStatus(0), body) matches Some(close) && close.file_id == file_id
            && close.header.command is Close && close.header.tree_id == tree_id,
{
    create::law_server_is_understood(body, file_id, size, at, contexts);
    if not_answered(contexts, NAME_QFID@) {
        lemma_not_found_when_not_answered(contexts, NAME_QFID@);
    }
}

/// A reclaim that the server rejects, with whatever status and body, has expired and leaves nothing
/// to close. One that succeeds in a body that cannot be read proves nothing; a handle is handed out
/// only where the fixed part of the body can be read.
pub proof fn law_a_rejected_reclaim_has_expired(
    handle: HandleView,
    status: NtStatus,
    body: Seq<u8>,
    tree_id: TreeId,
)
    ensures
        status.0 != 0 ==> {
            &&& reclaim_loss(handle, status, body) == Some(DurableLoss::Expired)
            &&& handed_out(status, body) is None
            &&& closing(tree_id, status, body) is None
        },
        status.0 == 0 && (body.len() < 88 || body.subrange(0, 2) != bytes::le_bytes(89, 2)) ==> {
            &&& reclaim_loss(handle, status, body) == Some(DurableLoss::IdentityUnavailable)
            &&& handed_out(status, body) is None
            &&& closing(tree_id, status, body) is None
        },
        status.0 == 0 && create::contexts_of(body) is None ==> reclaim_loss(handle, status, body)
            == Some(DurableLoss::IdentityUnavailable),
{
    create::law_what_is_no_response(body);
}

} // verus!
