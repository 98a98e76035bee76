//! Headers, contexts and bytes as they look on the wire.

use smb2::bytes::{bytes_eq, copy_range, get_le, put_bytes, put_le, put_zeros};
use smb2::create_context::{
    find, pack_contexts, parse_contexts, CreateContext, DurableGrant, DurableReconnectV2,
    DurableRequestV2, OnDiskId, NAME_DH2C, NAME_DH2Q, NAME_QFID,
};
use smb2::error::Error;
use smb2::header::{pack_message, Header, FLAG_RESPONSE};
use smb2::types::{Command, FileId, Guid, MessageId, NtStatus, SessionId, TreeId};

#[test]
fn numbers_are_little_endian() {
    let mut out = vec![9];
    put_le(&mut out, 0x0403_0201, 4);
    put_zeros(&mut out, 2);
    put_bytes(&mut out, &[7, 8]);
    assert_eq!(out, [9, 1, 2, 3, 4, 0, 0, 7, 8]);
    assert_eq!(get_le(&out, 1, 4), 0x0403_0201);
    assert_eq!(get_le(&out, 1, 2), 0x0201);
    assert_eq!(get_le(&[0xFF; 8], 0, 8), u64::MAX);
    assert_eq!(copy_range(&out, 7, 9), [7, 8]);
    assert!(bytes_eq(&[1, 2], &[1, 2]));
    assert!(!bytes_eq(&[1, 2], &[1, 3]));
    assert!(!bytes_eq(&[1, 2], &[1]));
}

#[test]
fn every_command_has_its_own_number() {
    for n in 0..=0x12u16 {
        assert_eq!(Command::from_code(n).unwrap().code(), n);
    }
    assert_eq!(Command::from_code(0x0D), Some(Command::Echo));
    assert_eq!(Command::from_code(0x13), None);
    assert_eq!(Command::from_code(u16::MAX), None);
}

#[test]
fn a_header_reads_back_as_it_was_written() {
    let mut h = Header::new_request(Command::OplockBreak);
    h.credit_charge = 3;
    h.status = NtStatus(0xC000_0034);
    h.credits = 0x0102;
    h.flags = FLAG_RESPONSE;
    h.next_command = 8;
    h.message_id = MessageId(u64::MAX);
    h.tree_id = TreeId(20);
    h.session_id = SessionId(0xBEEF);
    let message = pack_message(&h, &[1, 2, 3]);
    assert_eq!(message.len(), 67);
    assert_eq!(&message[0..4], &[0xFE, b'S', b'M', b'B']);
    assert_eq!(&message[4..6], &[64, 0]);
    assert_eq!(&message[12..14], &[0x12, 0]);
    assert_eq!(&message[64..], &[1, 2, 3]);
    assert_eq!(Header::unpack(&message), Some(h));
}

#[test]
fn what_is_no_header_is_not_read_as_one() {
    let message = pack_message(&Header::new_request(Command::Echo), &[]);
    assert!(Header::unpack(&message).is_some());
    assert_eq!(Header::unpack(&message[..63]), None);
    let mut other = message.clone();
    other[0] = 0xFF;
    assert_eq!(Header::unpack(&other), None);
    let mut other = message.clone();
    other[4] = 65;
    assert_eq!(Header::unpack(&other), None);
    let mut other = message.clone();
    other[12] = 0x13;
    assert_eq!(Header::unpack(&other), None);
}

#[test]
fn contexts_read_back_as_they_were_packed() {
    let list = [
        CreateContext::new(NAME_DH2Q, vec![1, 2, 3]),
        CreateContext { name: vec![b'x'; 9], data: vec![] },
        CreateContext::new(NAME_QFID, vec![0xFF; 17]),
    ];
    let chain = pack_contexts(&list);
    // 16 + 8 + 3 bytes, padded; 16 + 16 bytes; 16 + 8 + 17 bytes, not padded.
    assert_eq!(chain.len(), 32 + 32 + 41);
    assert_eq!(&chain[0..4], &[32, 0, 0, 0]);
    assert_eq!(&chain[16..20], b"DH2Q");
    assert_eq!(parse_contexts(&chain).unwrap(), list);
    assert_eq!(pack_contexts(&[]), Vec::<u8>::new());
    assert_eq!(parse_contexts(&[]).unwrap(), []);
}

#[test]
fn the_first_context_of_a_name_is_the_one_found() {
    let list = [
        CreateContext::new(NAME_QFID, vec![1]),
        CreateContext::new(NAME_QFID, vec![2]),
    ];
    assert_eq!(find(&list, NAME_QFID).unwrap().data, [1]);
    assert!(find(&list, NAME_DH2C).is_none());
}

#[test]
fn a_malformed_chain_is_refused() {
    let good = pack_contexts(&[CreateContext::new(NAME_QFID, vec![1, 2, 3, 4])]);
    assert_eq!(parse_contexts(&good[..15]).unwrap_err(), Error::InvalidData);
    // Data past the end of the chain.
    assert_eq!(parse_contexts(&good[..good.len() - 1]).unwrap_err(), Error::InvalidData);
    // A name past the end of the chain.
    let mut bad = good.clone();
    bad[4] = 200;
    assert_eq!(parse_contexts(&bad).unwrap_err(), Error::InvalidData);
    // A next entry past the end of the chain, and one with no room for its fields.
    for next in [200u8, 20] {
        let mut bad = good.clone();
        bad[0] = next;
        assert_eq!(parse_contexts(&bad).unwrap_err(), Error::InvalidData);
    }
}

#[test]
fn the_durable_contexts_have_their_layout() {
    let guid = Guid { bytes: [7; 16] };
    let asked = DurableRequestV2 { timeout_ms: 0x0102, persistent: true, create_guid: guid };
    let c = asked.context();
    assert_eq!(c.name, b"DH2Q");
    assert_eq!(&c.data[..16], &[2, 1, 0, 0, 2, 0, 0, 0, 0, 0, 0, 0, 0, 0, 0, 0]);
    assert_eq!(&c.data[16..], &[7; 16]);

    let claimed = DurableReconnectV2 {
        file_id: FileId { persistent: 1, volatile: 2 },
        create_guid: guid,
        persistent: false,
    };
    let c = claimed.context();
    assert_eq!(c.name, b"DH2C");
    assert_eq!(&c.data[..16], &[1, 0, 0, 0, 0, 0, 0, 0, 2, 0, 0, 0, 0, 0, 0, 0]);
    assert_eq!(&c.data[16..32], &[7; 16]);
    assert_eq!(&c.data[32..], &[0; 4]);

    let c = OnDiskId::request();
    assert_eq!(c.name, b"QFid");
    assert!(c.data.is_empty());
}

#[test]
fn answers_need_room_for_their_fields() {
    assert_eq!(
        DurableGrant::from_bytes(&[0x20, 0xBF, 2, 0, 1, 0, 0, 0]).unwrap(),
        DurableGrant { timeout_ms: 180_000, persistent: false }
    );
    assert_eq!(DurableGrant::from_bytes(&[0; 7]).unwrap_err(), Error::InvalidData);
    let mut data = vec![0; 32];
    data[0] = 5;
    data[8] = 6;
    assert_eq!(
        OnDiskId::from_bytes(&data).unwrap(),
        OnDiskId { disk_file_id: 5, volume_id: 6 }
    );
    assert_eq!(OnDiskId::from_bytes(&data[..31]).unwrap_err(), Error::InvalidData);
}
