//! Durable handles: opening, reclaiming, and the batch oplock's bill.

use smb2::connection::{BreakAck, Connection};
use smb2::create::{
    CloseMessage, CreateDisposition, CreateResponse, Frame, ImpersonationLevel,
    FILE_ATTRIBUTE_NORMAL, FILE_NON_DIRECTORY_FILE,
};
use smb2::create_context::{
    find, pack_contexts, parse_contexts, CreateContext, DurableGrant, OnDiskId, NAME_DH2C,
    NAME_DH2Q, NAME_QFID,
};
use smb2::durable::{DurableHandle, DurableOpen, PendingOpen, ReclaimOutcome, Tree};
use smb2::error::{DurableLoss, Error};
use smb2::header::{pack_message, Header};
use smb2::types::{
    Command, Dialect, FileId, Guid, NtStatus, OplockLevel, TreeId, STATUS_OBJECT_NAME_NOT_FOUND,
    STATUS_SUCCESS,
};

const OURS: OnDiskId = OnDiskId { disk_file_id: 0x1234_5678, volume_id: 0xABCD };
/// Same volume, different inode: the shape a recycled `FileId` would take.
const SOMEONE_ELSES: OnDiskId = OnDiskId { disk_file_id: 0x9999_9999, volume_id: 0xABCD };

fn a_tree() -> Tree {
    Tree { tree_id: TreeId(20) }
}

fn a_guid() -> Guid {
    Guid { bytes: [1, 2, 3, 4, 5, 6, 7, 8, 9, 10, 11, 12, 13, 14, 15, 16] }
}

fn smb3() -> Connection {
    Connection::new(Some(Dialect::Smb3_1_1), 0)
}

fn on_disk(id: OnDiskId) -> CreateContext {
    let mut body = Vec::new();
    body.extend_from_slice(&id.disk_file_id.to_le_bytes());
    body.extend_from_slice(&id.volume_id.to_le_bytes());
    body.extend_from_slice(&[0u8; 16]);
    CreateContext::new(NAME_QFID, body)
}

fn granted(timeout_ms: u32) -> CreateContext {
    let mut body = Vec::new();
    body.extend_from_slice(&timeout_ms.to_le_bytes());
    body.extend_from_slice(&0u32.to_le_bytes());
    CreateContext::new(NAME_DH2Q, body)
}

fn a_file_id(n: u64) -> FileId {
    FileId { persistent: n, volatile: n }
}

/// The body of a CREATE response that carries these bytes as its contexts.
fn body_with_chain(file_id: FileId, size: u64, chain: &[u8]) -> Vec<u8> {
    let mut body = vec![0u8; 88];
    body[0] = 89;
    body[48..56].copy_from_slice(&size.to_le_bytes());
    body[64..72].copy_from_slice(&file_id.persistent.to_le_bytes());
    body[72..80].copy_from_slice(&file_id.volatile.to_le_bytes());
    if !chain.is_empty() {
        body[80..84].copy_from_slice(&152u32.to_le_bytes());
        body[84..88].copy_from_slice(&(chain.len() as u32).to_le_bytes());
        body.extend_from_slice(chain);
    }
    body
}

fn success(body: Vec<u8>) -> Result<Frame, Error> {
    Ok(Frame { status: NtStatus(STATUS_SUCCESS), body })
}

fn create_response(
    file_id: FileId,
    size: u64,
    contexts: &[CreateContext],
) -> Result<Frame, Error> {
    success(body_with_chain(file_id, size, &pack_contexts(contexts)))
}

fn create_error(status: u32) -> Result<Frame, Error> {
    Ok(Frame { status: NtStatus(status), body: vec![9, 0, 0, 0, 0, 0, 0, 0, 0] })
}

/// The close of a handle on the tree everything here happens on.
fn a_close(n: u64) -> CloseMessage {
    CloseMessage { header: Header::on_tree(Command::Close, TreeId(20)), file_id: a_file_id(n) }
}

fn ask(conn: &Connection) -> PendingOpen {
    a_tree().open_file_durable(conn, "big.iso".to_string(), a_guid())
}

fn open_with(
    conn: &mut Connection,
    answer: Result<Frame, Error>,
) -> Result<DurableOpen, Error> {
    let pending = ask(conn);
    a_tree().finish_open(conn, &pending, answer)
}

/// Opens a durable handle the way every reclaim here starts.
fn open_durably(conn: &mut Connection) -> DurableOpen {
    let frame = create_response(a_file_id(1), 0, &[granted(180_000), on_disk(OURS)]);
    open_with(conn, frame).expect("the open must succeed")
}

fn reclaim(
    conn: &mut Connection,
    handle: &DurableHandle,
    answer: Result<Frame, Error>,
) -> ReclaimOutcome {
    let _asked = a_tree().reclaim_durable_handle(handle, "big.iso".to_string());
    a_tree().finish_reclaim(conn, handle, "big.iso", answer)
}

fn contexts_of_request(chain: &[u8]) -> Vec<CreateContext> {
    parse_contexts(chain).unwrap()
}

/// How many messages an exchange of open and reclaim comes to, with the close it asks for.
fn sent_count(outcome: &ReclaimOutcome) -> usize {
    2 + if outcome.close.is_some() { 1 } else { 0 }
}

#[test]
fn an_open_the_server_backs_with_both_proofs_is_resumable() {
    let mut conn = smb3();
    let pending = ask(&conn);
    let open = open_durably(&mut conn);

    let durable = open.durable.expect("both proofs were answered");
    assert_eq!(durable.file_id, a_file_id(1));
    assert_eq!(durable.file_id(), a_file_id(1));
    assert_eq!(durable.grant.timeout_ms, 180_000);
    assert_eq!(durable.grant(), durable.grant);
    assert_eq!(durable.identity(), OURS);
    assert!(durable.is_current(&conn));

    assert_eq!(
        pending.create.request.requested_oplock_level,
        OplockLevel::Batch,
        "without a batch oplock the server ignores the durable request \
         entirely (MS-SMB2 3.3.5.9.10)"
    );
    let contexts = contexts_of_request(&pending.create.request.create_contexts);
    assert!(find(&contexts, NAME_DH2Q).is_some());
    assert!(find(&contexts, NAME_QFID).is_some());
}

/// A server that will not do durable handles is normal, not an error.
#[test]
fn an_open_the_server_declines_durability_on_still_returns_a_working_handle() {
    let mut conn = smb3();
    let frame = create_response(a_file_id(1), 4096, &[on_disk(OURS)]);
    let open = open_with(&mut conn, frame).unwrap();

    assert_eq!(open.file_id, a_file_id(1));
    assert_eq!(open.size, 4096);
    assert!(open.durable.is_none(), "no grant means no resume, and that must not be an error");
}

/// A grant with no way to prove identity is not offered as resumable.
#[test]
fn a_grant_the_server_will_not_back_with_an_on_disk_id_is_not_resumable() {
    let mut conn = smb3();
    let frame = create_response(a_file_id(1), 0, &[granted(180_000)]);
    let open = open_with(&mut conn, frame).unwrap();
    assert!(open.durable.is_none());
}

#[test]
fn a_pre_smb3_server_is_never_asked_for_a_durable_handle() {
    let mut conn = Connection::new(Some(Dialect::Smb2_0_2), 0);
    let pending = ask(&conn);
    let frame = create_response(a_file_id(1), 0, &[on_disk(OURS)]);
    let open = open_with(&mut conn, frame).unwrap();

    assert!(open.durable.is_none());
    assert_eq!(pending.create.request.requested_oplock_level, OplockLevel::NoOplock);
    let contexts = contexts_of_request(&pending.create.request.create_contexts);
    assert!(find(&contexts, NAME_DH2Q).is_none());
}

// ── Reclaiming ────────────────────────────────────────────────────────────

#[test]
fn a_reclaim_of_the_same_file_succeeds_and_carries_the_new_handle() {
    let mut conn = smb3();
    let durable = open_durably(&mut conn).durable.unwrap();

    // The server gives it back under a new FileId, same file.
    let frame = create_response(a_file_id(2), 0, &[on_disk(OURS)]);
    let reclaimed =
        reclaim(&mut conn, &durable, frame).result.expect("same file, both proofs held");

    assert_eq!(
        reclaimed.file_id,
        a_file_id(2),
        "the caller must write through the new handle, not the dead one"
    );
    assert_eq!(reclaimed.identity(), OURS);
}

#[test]
fn the_reconnect_context_replays_the_create_guid_from_the_open() {
    let mut conn = smb3();
    let pending = ask(&conn);
    let durable = open_durably(&mut conn).durable.unwrap();

    let opened = contexts_of_request(&pending.create.request.create_contexts);
    let dh2q = find(&opened, NAME_DH2Q).unwrap();
    let guid_at_open = &dh2q.data[16..32];

    let request = a_tree().reclaim_durable_handle(&durable, "big.iso".to_string()).request;
    let reclaimed = contexts_of_request(&request.create_contexts);
    let dh2c = find(&reclaimed, NAME_DH2C).expect("the reclaim must carry a DH2C context");
    assert_eq!(
        &dh2c.data[16..32],
        guid_at_open,
        "the guid the server stored with the open is what proves the handle is ours"
    );
    assert_eq!(
        &dh2c.data[0..8],
        &durable.file_id.persistent.to_le_bytes(),
        "and the old FileId is what it looks up"
    );
    assert!(
        find(&reclaimed, NAME_QFID).is_some(),
        "asking again is the half of the proof that does not depend on the server comparing \
         the guid correctly"
    );
}

/// The server matched the guid and still handed back a different file.
#[test]
fn a_reclaim_that_comes_back_as_a_different_file_is_refused_and_closed() {
    let mut conn = smb3();
    let durable = open_durably(&mut conn).durable.unwrap();

    let frame = create_response(a_file_id(2), 0, &[on_disk(SOMEONE_ELSES)]);
    let outcome = reclaim(&mut conn, &durable, frame);

    assert!(
        matches!(
            outcome.result,
            Err(Error::DurableHandleLost { reason: DurableLoss::IdentityMismatch, .. })
        ),
        "expected a refusal naming the mismatch, got {outcome:?}"
    );
    assert_eq!(
        sent_count(&outcome),
        3,
        "the handle we refused must be closed, not leaked on the server: open, reclaim, close"
    );
    let close = outcome.close.unwrap();
    assert_eq!(close, a_close(2));
    assert_eq!(close.header.command, Command::Close);
}

#[test]
fn a_reclaim_with_no_on_disk_id_is_refused_and_closed() {
    let mut conn = smb3();
    let durable = open_durably(&mut conn).durable.unwrap();

    let frame = create_response(a_file_id(2), 0, &[]);
    let outcome = reclaim(&mut conn, &durable, frame);

    assert!(
        matches!(
            outcome.result,
            Err(Error::DurableHandleLost { reason: DurableLoss::IdentityUnavailable, .. })
        ),
        "got {outcome:?}"
    );
    assert_eq!(sent_count(&outcome), 3, "the unprovable handle was closed");
    assert_eq!(outcome.close, Some(a_close(2)));
}

/// The routine failure: the open timed out, or the server restarted.
#[test]
fn a_reclaim_the_server_rejects_reports_the_open_as_expired() {
    let mut conn = smb3();
    let durable = open_durably(&mut conn).durable.unwrap();

    let frame = create_error(STATUS_OBJECT_NAME_NOT_FOUND);
    let outcome = reclaim(&mut conn, &durable, frame);

    assert!(
        matches!(
            outcome.result,
            Err(Error::DurableHandleLost { reason: DurableLoss::Expired, .. })
        ),
        "got {outcome:?}"
    );
    assert_eq!(sent_count(&outcome), 2, "nothing was opened, so there is nothing to close");
}

/// A handle knows which session it belongs to.
#[test]
fn a_handle_knows_it_has_outlived_its_session() {
    let mut conn = smb3();
    let durable = open_durably(&mut conn).durable.unwrap();
    assert!(durable.is_current(&conn), "generation 0 is what conn is on");

    let mut after_a_reconnect = Connection::new(Some(Dialect::Smb3_1_1), 1);
    assert!(!durable.is_current(&after_a_reconnect));
    let newer = open_durably(&mut after_a_reconnect).durable.unwrap();
    assert!(newer.is_current(&after_a_reconnect));
    assert!(!newer.is_current(&conn));
}

// ── The batch oplock's bill, and who pays it ──────────────────────────────

const ANOTHER: OnDiskId = OnDiskId { disk_file_id: 7, volume_id: 9 };
const THE_TREE: TreeId = TreeId(20);

/// Until a break is answered, whoever tried to open the file waits out the server's timeout.
#[test]
fn an_oplock_break_is_acknowledged_so_the_other_client_is_not_left_waiting() {
    let mut conn = smb3();
    let handle_id = a_file_id(5);
    let frame = create_response(handle_id, 0, &[granted(180_000), on_disk(ANOTHER)]);
    let open = open_with(&mut conn, frame).unwrap();
    assert!(open.durable.is_some());

    let ack = conn.acknowledge_break(handle_id).expect("the acknowledgment to be sent");
    assert_eq!(ack.header.command, Command::OplockBreak);
    assert_eq!(
        ack.header.tree_id, THE_TREE,
        "the acknowledgment has to name the tree the open belongs to (MS-SMB2 2.2.24.1); on \
         the wrong one the server rejects it and the other client waits anyway"
    );
    assert_eq!(ack.file_id, handle_id);
    assert_eq!(
        ack.oplock_level,
        OplockLevel::NoOplock,
        "we only ever took the oplock to get durability, and durability is already gone by \
         the time a break arrives"
    );
}

/// A break for a handle we hold no oplock on is not ours to answer.
#[test]
fn a_break_for_a_handle_we_never_oplocked_is_left_alone() {
    let mut conn = smb3();
    let ack = conn.acknowledge_break(FileId { persistent: 999, volatile: 999 });
    assert_eq!(ack, None, "nothing should have been sent");
    assert_eq!(conn.unsolicited_notifications_received(), 1);
}

/// A break arriving after the close is not acknowledged on a handle that is already gone.
#[test]
fn closing_a_handle_retires_its_oplock_bookkeeping() {
    let mut conn = smb3();
    let handle_id = a_file_id(5);
    let frame = create_response(handle_id, 0, &[granted(180_000), on_disk(ANOTHER)]);
    open_with(&mut conn, frame).unwrap();

    let close = a_tree().close_handle(&mut conn, handle_id);
    assert_eq!(close, a_close(5));
    assert_eq!(
        conn.acknowledge_break(handle_id),
        None,
        "a break for a closed handle must not produce an acknowledgment"
    );
}

// ── What else holds ───────────────────────────────────────────────────────

/// Everything a tree sends goes out under that tree's id.
#[test]
fn every_message_names_its_command_and_its_tree() {
    let tree = Tree { tree_id: TreeId(0xABCD) };
    let mut conn = smb3();
    let pending = tree.open_file_durable(&conn, "big.iso".to_string(), a_guid());
    let header = Header::unpack(&pack_message(&pending.create.header, &[])).unwrap();
    assert_eq!(header.command, Command::Create);
    assert_eq!(header.tree_id, TreeId(0xABCD));

    let frame = create_response(a_file_id(1), 0, &[granted(180_000), on_disk(OURS)]);
    let durable = tree.finish_open(&mut conn, &pending, frame).unwrap().durable.unwrap();
    let create = tree.reclaim_durable_handle(&durable, "big.iso".to_string());
    assert_eq!(create.header.command, Command::Create);
    assert_eq!(create.header.tree_id, TreeId(0xABCD));

    let refused = create_response(a_file_id(2), 0, &[on_disk(SOMEONE_ELSES)]);
    let close = tree.finish_reclaim(&mut conn, &durable, "big.iso", refused).close.unwrap();
    assert_eq!(close.header.command, Command::Close);
    assert_eq!(close.header.tree_id, TreeId(0xABCD));
    assert_eq!(close.file_id, a_file_id(2));

    let ack = conn.acknowledge_break(a_file_id(1)).unwrap();
    assert_eq!(ack.header.command, Command::OplockBreak);
    assert_eq!(ack.header.tree_id, TreeId(0xABCD));
}

/// An open that got no answer fails with the exchange's own error.
#[test]
fn an_unanswered_open_hands_the_error_on() {
    let mut conn = smb3();
    let error = open_with(&mut conn, Err(Error::Disconnected)).unwrap_err();
    assert_eq!(error, Error::Disconnected);
    assert_eq!(conn.acknowledge_break(a_file_id(1)), None);
}

/// A reclaim that got no answer is a lost handle like any other, with nothing to close.
#[test]
fn an_unanswered_reclaim_is_a_lost_handle() {
    let mut conn = smb3();
    let durable = open_durably(&mut conn).durable.unwrap();
    assert_eq!(
        reclaim(&mut conn, &durable, Err(Error::Disconnected)),
        ReclaimOutcome {
            result: Err(Error::DurableHandleLost {
                path: "big.iso".to_string(),
                reason: DurableLoss::Expired,
            }),
            close: None,
        }
    );
}

/// The request keeps the bytes already written, and shares the file with other readers and
/// writers.
#[test]
fn an_open_neither_truncates_nor_locks_others_out() {
    let pending = ask(&smb3());
    let request = &pending.create.request;
    assert_eq!(request.create_disposition, CreateDisposition::FileOpenIf);
    assert_eq!(request.impersonation_level, ImpersonationLevel::Impersonation);
    assert_eq!(request.desired_access, 0x0010_0183);
    assert_eq!(request.file_attributes, FILE_ATTRIBUTE_NORMAL);
    assert_eq!(request.share_access, 3);
    assert_eq!(request.create_options, FILE_NON_DIRECTORY_FILE);
    assert_eq!(request.name, "big.iso");
    assert!(pending.durable_possible);
    assert_eq!(pending.create_guid, a_guid());
}

#[test]
fn a_reclaim_opens_what_exists_and_asks_for_the_oplock_again() {
    let mut conn = smb3();
    let durable = open_durably(&mut conn).durable.unwrap();
    let request = a_tree().reclaim_durable_handle(&durable, "big.iso".to_string()).request;
    assert_eq!(request.create_disposition, CreateDisposition::FileOpen);
    assert_eq!(request.requested_oplock_level, OplockLevel::Batch);
    assert_eq!(request.desired_access, 0x0010_0183);
    assert_eq!(request.name, "big.iso");
    let contexts = contexts_of_request(&request.create_contexts);
    assert_eq!(contexts.len(), 2);
    assert_eq!(find(&contexts, NAME_DH2C).unwrap().data.len(), 36);
}

#[test]
fn durability_is_asked_for_from_smb_3_0_on() {
    for (dialect, asked) in [
        (None, false),
        (Some(Dialect::Smb2_0_2), false),
        (Some(Dialect::Smb2_1), false),
        (Some(Dialect::Smb3_0), true),
        (Some(Dialect::Smb3_0_2), true),
        (Some(Dialect::Smb3_1_1), true),
    ] {
        let pending = ask(&Connection::new(dialect, 0));
        assert_eq!(pending.durable_possible, asked, "{dialect:?}");
        let contexts = contexts_of_request(&pending.create.request.create_contexts);
        assert_eq!(find(&contexts, NAME_DH2Q).is_some(), asked, "{dialect:?}");
        assert!(find(&contexts, NAME_QFID).is_some());
    }
}

/// A grant nobody asked for is not durability, and takes no oplock bookkeeping.
#[test]
fn a_grant_from_a_pre_smb3_server_counts_for_nothing() {
    let mut conn = Connection::new(Some(Dialect::Smb2_1), 0);
    let frame = create_response(a_file_id(1), 0, &[granted(180_000), on_disk(OURS)]);
    let open = open_with(&mut conn, frame).unwrap();
    assert!(open.durable.is_none());
    assert_eq!(conn.acknowledge_break(a_file_id(1)), None);
}

#[test]
fn an_open_the_server_refuses_is_a_protocol_error() {
    let mut conn = smb3();
    let opened = open_with(&mut conn, create_error(0xC000_0022));
    assert_eq!(
        opened.unwrap_err(),
        Error::Protocol { status: NtStatus(0xC000_0022), command: Command::Create }
    );
}

#[test]
fn an_unreadable_open_is_invalid_data() {
    let mut conn = smb3();
    for body in [
        // Too short for the fixed part.
        vec![89, 0],
        // The wrong structure size.
        vec![0u8; 88],
        // A chain that is no chain.
        body_with_chain(a_file_id(1), 0, &[1, 2, 3]),
        // A grant with no room for its fields.
        body_with_chain(
            a_file_id(1),
            0,
            &pack_contexts(&[CreateContext::new(NAME_DH2Q, vec![0; 7]), on_disk(OURS)]),
        ),
        // An identity with no room for its fields.
        body_with_chain(
            a_file_id(1),
            0,
            &pack_contexts(&[granted(1), CreateContext::new(NAME_QFID, vec![0; 31])]),
        ),
    ] {
        assert_eq!(open_with(&mut conn, success(body)).unwrap_err(), Error::InvalidData);
    }
    assert_eq!(conn.acknowledge_break(a_file_id(1)), None);
}

/// A success that says nothing readable about the file proves nothing, so it goes back.
#[test]
fn an_unreadable_reclaim_is_refused_and_closed() {
    let mut conn = smb3();
    let durable = open_durably(&mut conn).durable.unwrap();
    for body in [
        body_with_chain(a_file_id(2), 0, &[1, 2, 3]),
        body_with_chain(
            a_file_id(2),
            0,
            &pack_contexts(&[CreateContext::new(NAME_QFID, vec![0; 31])]),
        ),
    ] {
        let outcome = reclaim(&mut conn, &durable, success(body));
        assert_eq!(
            outcome,
            ReclaimOutcome {
                result: Err(Error::DurableHandleLost {
                    path: "big.iso".to_string(),
                    reason: DurableLoss::IdentityUnavailable,
                }),
                close: Some(a_close(2)),
            }
        );
    }
    // Without the fixed part there is no handle to name.
    let outcome = reclaim(&mut conn, &durable, success(vec![89, 0]));
    assert_eq!(outcome.close, None);
    assert!(outcome.result.is_err());
}

/// Only a handle that was proven is answered for; one that was refused is forgotten.
#[test]
fn reclaims_keep_the_oplock_bookkeeping_straight() {
    let mut conn = smb3();
    let durable = open_durably(&mut conn).durable.unwrap();

    let refused = create_response(a_file_id(3), 0, &[on_disk(SOMEONE_ELSES)]);
    let outcome = reclaim(&mut conn, &durable, refused);
    assert!(outcome.result.is_err());
    assert_eq!(conn.acknowledge_break(a_file_id(3)), None);

    let good = create_response(a_file_id(2), 0, &[on_disk(OURS)]);
    let outcome = reclaim(&mut conn, &durable, good);
    assert!(outcome.result.is_ok());
    assert_eq!(outcome.close, None);
    assert_eq!(
        conn.acknowledge_break(a_file_id(2)),
        Some(BreakAck {
            header: Header::on_tree(Command::OplockBreak, THE_TREE),
            file_id: a_file_id(2),
            oplock_level: OplockLevel::NoOplock,
        })
    );
}

/// However often a handle is reclaimed, it is the same file under the same guid.
#[test]
fn reclaims_in_a_row_keep_the_file_and_the_guid() {
    let mut conn = smb3();
    let first = open_durably(&mut conn).durable.unwrap();
    let mut handle = first;
    for n in 2..6u64 {
        conn = Connection::new(Some(Dialect::Smb3_1_1), n);
        assert!(!handle.is_current(&conn));
        let frame = create_response(a_file_id(n), 0, &[on_disk(OURS)]);
        handle = reclaim(&mut conn, &handle, frame).result.unwrap();
        assert_eq!(handle.file_id, a_file_id(n));
        assert!(handle.is_current(&conn));
    }
    assert_eq!(handle.identity(), OURS);
    assert_eq!(handle.grant, first.grant);
    let request = a_tree().reclaim_durable_handle(&handle, "big.iso".to_string()).request;
    let contexts = contexts_of_request(&request.create_contexts);
    assert_eq!(&find(&contexts, NAME_DH2C).unwrap().data[16..32], &a_guid().bytes[..]);
}

#[test]
fn a_persistent_grant_is_read_and_repeated() {
    let mut conn = smb3();
    let grant = CreateContext::new(NAME_DH2Q, vec![0x60, 0xEA, 0, 0, 2, 0, 0, 0]);
    let frame = create_response(a_file_id(1), 0, &[grant, on_disk(OURS)]);
    let durable = open_with(&mut conn, frame).unwrap().durable.unwrap();
    assert_eq!(durable.grant, DurableGrant { timeout_ms: 60_000, persistent: true });
    let request = a_tree().reclaim_durable_handle(&durable, "big.iso".to_string()).request;
    let contexts = contexts_of_request(&request.create_contexts);
    assert_eq!(&find(&contexts, NAME_DH2C).unwrap().data[32..36], &[2, 0, 0, 0]);
}

#[test]
fn the_response_is_read_field_by_field() {
    let body = body_with_chain(FileId { persistent: 3, volatile: 4 }, 77, &[0xAA; 16]);
    let response = CreateResponse::unpack(&body).unwrap();
    assert_eq!(
        response,
        CreateResponse {
            file_id: FileId { persistent: 3, volatile: 4 },
            end_of_file: 77,
            contexts_offset: 152,
            contexts_length: 16,
        }
    );
}
