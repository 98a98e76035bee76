//! The hostile servers themselves.

use smb2::error::Error;
use smb2::fault_injection::{
    a_write, build_expired_response, build_response, test_policy, Answer, BouncingNas, Dial,
    Readmission, ScriptedServer,
};
use smb2::header::{pack_message, Header, FLAG_RESPONSE};
use smb2::types::{
    Command, FileId, MessageId, NtStatus, SessionId, STATUS_NETWORK_SESSION_EXPIRED,
    STATUS_PENDING,
};

fn request(command: Command, id: u64) -> Vec<u8> {
    let mut h = Header::new_request(command);
    h.message_id = MessageId(id);
    pack_message(&h, &[])
}

#[test]
fn canned_replies_name_the_request_they_answer() {
    let echo = build_response(Command::Echo, MessageId(7)).unwrap();
    let h = Header::unpack(&echo).unwrap();
    assert_eq!(h.command, Command::Echo);
    assert_eq!(h.message_id, MessageId(7));
    assert_eq!(h.flags, FLAG_RESPONSE);
    assert_eq!(h.credits, 8);
    assert_eq!(h.status, NtStatus(0));
    assert_eq!(&echo[64..], &[4, 0, 0, 0]);

    let write = build_response(Command::Write, MessageId(8)).unwrap();
    assert_eq!(Header::unpack(&write).unwrap().message_id, MessageId(8));
    assert_eq!(&write[64..], &[17, 0, 0, 0, 4, 0, 0, 0, 0, 0, 0, 0, 0, 0, 0, 0]);

    assert_eq!(build_response(Command::Read, MessageId(9)), None);

    let expired = build_expired_response(MessageId(10));
    let h = Header::unpack(&expired).unwrap();
    assert_eq!(h.command, Command::Echo);
    assert_eq!(h.status, NtStatus(STATUS_NETWORK_SESSION_EXPIRED));
    assert_eq!(h.message_id, MessageId(10));
    assert_eq!(&expired[64..], &[9, 0, 0, 0, 0, 0, 0, 0, 0]);
}

#[test]
fn a_healthy_server_answers_everything_it_can() {
    let mut server = ScriptedServer::new(Answer::Everything);
    server.send(&request(Command::Write, 1));
    server.send(&request(Command::Echo, 2));
    server.send(&request(Command::Read, 3));
    assert_eq!(server.seen_count(), 3);
    assert_eq!(server.echo_count(), 1);
    assert_eq!(server.receive(), build_response(Command::Write, MessageId(1)));
    assert_eq!(server.receive(), build_response(Command::Echo, MessageId(2)));
    assert_eq!(server.receive(), None);
}

#[test]
fn a_busy_server_answers_its_probes_and_then_everything_it_owes() {
    let mut server = ScriptedServer::new(Answer::EchoOnly);
    server.send(&request(Command::Write, 1));
    server.send(&request(Command::Echo, 2));
    server.send(&request(Command::Write, 3));
    assert_eq!(server.receive(), build_response(Command::Echo, MessageId(2)));
    assert_eq!(server.receive(), None);

    server.set_answer(Answer::Everything);
    server.answer_everything_outstanding();
    assert_eq!(server.receive(), build_response(Command::Write, MessageId(1)));
    assert_eq!(server.receive(), build_response(Command::Write, MessageId(3)));
    assert_eq!(server.receive(), None);

    server.answer_everything_outstanding();
    assert_eq!(server.receive(), None, "everything was answered already");
    assert_eq!(server.echo_count(), 1);
}

#[test]
fn a_bad_answer_is_still_an_answer() {
    let mut server = ScriptedServer::new(Answer::EchoExpired);
    server.send(&request(Command::Echo, 4));
    server.send(&request(Command::Write, 5));
    assert_eq!(server.receive(), Some(build_expired_response(MessageId(4))));
    assert_eq!(server.receive(), None);
}

#[test]
fn a_silent_server_accepts_every_write_and_answers_none() {
    let mut server = ScriptedServer::new(Answer::Nothing);
    server.send(&request(Command::Write, 1));
    server.send(&request(Command::Echo, 2));
    assert_eq!(server.receive(), None);
    assert_eq!(server.seen_count(), 2);
    assert_eq!(server.echo_count(), 1);
    assert_eq!(server.first_request(Command::Echo), Some(MessageId(2)));
    assert_eq!(server.first_request(Command::Read), None);
}

#[test]
fn what_is_no_message_is_ignored() {
    let mut server = ScriptedServer::new(Answer::Everything);
    server.send(b"not a message");
    assert_eq!(server.seen_count(), 0);
    assert_eq!(server.receive(), None);
}

#[test]
fn an_interim_reply_is_a_sign_of_life_and_no_answer() {
    let mut server = ScriptedServer::new(Answer::Nothing);
    server.send(&request(Command::Write, 6));
    server.push_pending(Command::Write, MessageId(6));
    let h = Header::unpack(&server.receive().unwrap()).unwrap();
    assert_eq!(h.status, NtStatus(STATUS_PENDING));
    assert_eq!(h.command, Command::Write);
    assert_eq!(h.message_id, MessageId(6));
    server.answer_everything_outstanding();
    assert_eq!(server.receive(), build_response(Command::Write, MessageId(6)));
}

#[test]
fn a_bounced_nas_comes_back_without_the_old_state() {
    let mut nas = BouncingNas::new(Answer::Everything);
    nas.send(0, &request(Command::Write, 1));
    nas.goes_away();
    nas.send(0, &request(Command::Write, 2));
    let sent_to_the_corpse = nas.generation(0).seen_count();
    assert_eq!(sent_to_the_corpse, 2);

    assert_eq!(nas.dial(), Dial::Connected(1));
    assert_eq!(nas.generations_handed_out(), 2);
    assert_eq!(nas.dial_count(), 1);
    assert_eq!(nas.current().seen_count(), 0);
    nas.send(1, &request(Command::Write, 1));
    assert_eq!(nas.generation(0).seen_count(), sent_to_the_corpse);
    assert_eq!(nas.generation(1).seen_count(), 1);
    assert_eq!(
        nas.generations[1].receive(),
        build_response(Command::Write, MessageId(1)),
        "the new generation answers as the first one did when it came up"
    );
}

#[test]
fn dials_fail_as_often_as_they_were_told_to() {
    let mut nas = BouncingNas::new(Answer::Nothing);
    nas.dials_that_fail = 3;
    for _ in 0..3 {
        assert_eq!(nas.dial(), Dial::Refused);
    }
    assert_eq!(nas.generations_handed_out(), 1);
    assert_eq!(nas.dial(), Dial::Connected(1));
    assert_eq!(nas.dial_count(), 4);
    nas.dial_hangs = true;
    nas.dials_that_fail = 1;
    assert_eq!(nas.dial(), Dial::Parked);
    assert_eq!(nas.dials_that_fail, 1);
    assert_eq!(nas.dial_count(), 5);
    nas.spin_up();
    assert_eq!(nas.generations_handed_out(), 3);
}

#[test]
fn a_changed_password_refuses_the_new_session() {
    let mut nas = BouncingNas::new(Answer::Everything);
    assert_eq!(
        nas.reauthenticate().unwrap(),
        Readmission { credits: 512, session_id: SessionId(0xBEEF) }
    );
    nas.auth_fails = true;
    assert_eq!(
        nas.reauthenticate().unwrap_err(),
        Error::Auth { message: "the password changed while we were away".to_string() }
    );
}

#[test]
fn the_harness_writes_four_bytes_under_bounded_patience() {
    let write = a_write();
    assert_eq!(write.data, [0xAB; 4]);
    assert_eq!(write.data_offset, 0x70);
    assert_eq!(write.file_id, FileId { persistent: 1, volatile: 2 });
    let policy = test_policy();
    assert_eq!(policy.max_attempts, 3);
    assert_eq!(policy.initial_backoff_ms, 20);
    assert_eq!(policy.max_backoff_ms, 80);
    assert_eq!(policy.total_budget_ms, 2_000);
    assert_eq!(policy.failure_cooldown_ms, 300);
}
