use pterm::bridge::{
    detach_frame, resize_frame, stdin_step, write_all_raw, Bridge, BridgeNext, TOKEN_SOCKET,
    TOKEN_STDIN, TOKEN_WAKE,
};
use pterm::event::{ReadOutcome, WriteOutcome, WriteStep};
use pterm::proto::{client, encode, server};
use pterm::request::ClientRequest;
use pterm::server::Server;
use pterm::session::{ChildStatus, Session};

#[test]
fn bridge_tokens_are_distinct() {
    assert_eq!((TOKEN_STDIN, TOKEN_SOCKET, TOKEN_WAKE), (0, 1, 2));
}

#[test]
fn resize_frame_carries_the_terminal_size() {
    assert_eq!(resize_frame(132, 50), vec![client::RESIZE, 4, 0, 0, 0, 132, 0, 50, 0]);
    assert_eq!(resize_frame(0x0102, 0x0304), vec![0x02, 4, 0, 0, 0, 0x02, 0x01, 0x04, 0x03]);
}

#[test]
fn detach_frame_has_no_payload() {
    assert_eq!(detach_frame(), vec![client::DETACH, 0, 0, 0, 0]);
}

#[test]
fn typed_bytes_become_one_input_frame() {
    let step = stdin_step(ReadOutcome::Data(b"ls -l\n"));
    assert_eq!(step.send, encode(client::INPUT, b"ls -l\n"));
    assert_eq!(step.next, BridgeNext::ReadAgain);
}

#[test]
fn stdin_eof_sends_detach_and_leaves() {
    let step = stdin_step(ReadOutcome::Data(b""));
    assert_eq!(step.send, detach_frame());
    assert_eq!(step.next, BridgeNext::Leave);
}

#[test]
fn stdin_would_block_waits() {
    let step = stdin_step(ReadOutcome::WouldBlock);
    assert!(step.send.is_empty());
    assert_eq!(step.next, BridgeNext::Wait);
}

#[test]
fn stdin_interrupted_reads_again() {
    let step = stdin_step(ReadOutcome::Interrupted);
    assert!(step.send.is_empty());
    assert_eq!(step.next, BridgeNext::ReadAgain);
}

#[test]
fn stdin_error_leaves() {
    let step = stdin_step(ReadOutcome::Failed);
    assert!(step.send.is_empty());
    assert_eq!(step.next, BridgeNext::Leave);
}

#[test]
fn new_bridge_leaves_with_zero() {
    assert_eq!(Bridge::new().exit_code(), 0);
}

#[test]
fn output_and_scrollback_reach_the_terminal_raw() {
    let mut bridge = Bridge::new();
    let mut wire = encode(server::SCROLLBACK, b"old\x1b[1m");
    wire.extend_from_slice(&encode(server::OUTPUT, b"new\r\n"));
    let step = bridge.socket_step(ReadOutcome::Data(&wire));
    assert!(step.output.is_empty());
    assert_eq!(step.next, BridgeNext::ReadAgain);
    let step = bridge.socket_step(ReadOutcome::WouldBlock);
    assert_eq!(step.output, b"old\x1b[1mnew\r\n");
    assert_eq!(step.next, BridgeNext::Wait);
    assert_eq!(bridge.exit_code(), 0);
}

#[test]
fn frames_are_taken_once() {
    let mut bridge = Bridge::new();
    bridge.socket_step(ReadOutcome::Data(&encode(server::OUTPUT, b"once")));
    assert_eq!(bridge.socket_step(ReadOutcome::WouldBlock).output, b"once");
    let step = bridge.socket_step(ReadOutcome::WouldBlock);
    assert!(step.output.is_empty());
    assert_eq!(step.next, BridgeNext::Wait);
}

#[test]
fn partial_frame_waits_for_the_rest() {
    let mut bridge = Bridge::new();
    let wire = encode(server::OUTPUT, b"split payload");
    bridge.socket_step(ReadOutcome::Data(&wire[..3]));
    let step = bridge.socket_step(ReadOutcome::WouldBlock);
    assert!(step.output.is_empty());
    assert_eq!(step.next, BridgeNext::Wait);
    bridge.socket_step(ReadOutcome::Data(&wire[3..9]));
    assert!(bridge.socket_step(ReadOutcome::WouldBlock).output.is_empty());
    bridge.socket_step(ReadOutcome::Data(&wire[9..]));
    assert_eq!(bridge.socket_step(ReadOutcome::WouldBlock).output, b"split payload");
}

#[test]
fn exit_frame_sets_the_code_and_leaves() {
    let mut bridge = Bridge::new();
    let mut wire = encode(server::OUTPUT, b"bye");
    wire.extend_from_slice(&encode(server::EXIT, &7i32.to_le_bytes()));
    bridge.socket_step(ReadOutcome::Data(&wire));
    let step = bridge.socket_step(ReadOutcome::WouldBlock);
    assert_eq!(step.output, b"bye");
    assert_eq!(step.next, BridgeNext::Leave);
    assert_eq!(bridge.exit_code(), 7);
}

#[test]
fn exit_codes_of_all_kinds() {
    for code in [0i32, 1, 127, 137, 255, -1, i32::MIN, i32::MAX] {
        let mut bridge = Bridge::new();
        bridge.socket_step(ReadOutcome::Data(&encode(server::EXIT, &code.to_le_bytes())));
        let step = bridge.socket_step(ReadOutcome::WouldBlock);
        assert_eq!(step.next, BridgeNext::Leave);
        assert_eq!(bridge.exit_code(), code);
    }
}

#[test]
fn short_exit_frame_leaves_with_the_default_code() {
    let mut bridge = Bridge::new();
    bridge.socket_step(ReadOutcome::Data(&encode(server::EXIT, &[9, 0, 0])));
    let step = bridge.socket_step(ReadOutcome::WouldBlock);
    assert_eq!(step.next, BridgeNext::Leave);
    assert_eq!(bridge.exit_code(), 0);
}

#[test]
fn long_exit_frame_uses_its_first_four_bytes() {
    let mut bridge = Bridge::new();
    bridge.socket_step(ReadOutcome::Data(&encode(server::EXIT, &[42, 0, 0, 0, 1, 2])));
    bridge.socket_step(ReadOutcome::WouldBlock);
    assert_eq!(bridge.exit_code(), 42);
}

#[test]
fn nothing_after_exit_is_delivered() {
    let mut bridge = Bridge::new();
    let mut wire = encode(server::OUTPUT, b"a");
    wire.extend_from_slice(&encode(server::EXIT, &3i32.to_le_bytes()));
    wire.extend_from_slice(&encode(server::OUTPUT, b"b"));
    wire.extend_from_slice(&encode(server::EXIT, &4i32.to_le_bytes()));
    bridge.socket_step(ReadOutcome::Data(&wire));
    let step = bridge.socket_step(ReadOutcome::WouldBlock);
    assert_eq!(step.output, b"a");
    assert_eq!(step.next, BridgeNext::Leave);
    assert_eq!(bridge.exit_code(), 3);
}

#[test]
fn unknown_frames_from_the_daemon_are_ignored() {
    let mut bridge = Bridge::new();
    let mut wire = encode(0x03, b"what");
    wire.extend_from_slice(&encode(server::OUTPUT, b"ok"));
    wire.extend_from_slice(&encode(0xff, b""));
    bridge.socket_step(ReadOutcome::Data(&wire));
    let step = bridge.socket_step(ReadOutcome::WouldBlock);
    assert_eq!(step.output, b"ok");
    assert_eq!(step.next, BridgeNext::Wait);
}

#[test]
fn socket_eof_leaves_at_once() {
    let mut bridge = Bridge::new();
    bridge.socket_step(ReadOutcome::Data(&encode(server::EXIT, &5i32.to_le_bytes())));
    // The stream ends before the loop got to take the frames: it leaves with
    // the code it had.
    let step = bridge.socket_step(ReadOutcome::Data(b""));
    assert!(step.output.is_empty());
    assert_eq!(step.next, BridgeNext::Leave);
    assert_eq!(bridge.exit_code(), 0);
}

#[test]
fn socket_error_leaves() {
    let mut bridge = Bridge::new();
    let step = bridge.socket_step(ReadOutcome::Failed);
    assert!(step.output.is_empty());
    assert_eq!(step.next, BridgeNext::Leave);
}

#[test]
fn socket_interrupted_reads_again() {
    let mut bridge = Bridge::new();
    let step = bridge.socket_step(ReadOutcome::Interrupted);
    assert!(step.output.is_empty());
    assert_eq!(step.next, BridgeNext::ReadAgain);
}

#[test]
fn raw_write_steps() {
    assert_eq!(write_all_raw(0, 0, None), WriteStep::Done);
    assert_eq!(write_all_raw(8, 0, None), WriteStep::Write { from: 0 });
    assert_eq!(write_all_raw(8, 0, Some(WriteOutcome::Wrote(3))), WriteStep::Write { from: 3 });
    assert_eq!(write_all_raw(8, 3, Some(WriteOutcome::Wrote(5))), WriteStep::Done);
    assert_eq!(write_all_raw(8, 3, Some(WriteOutcome::Wrote(0))), WriteStep::Write { from: 3 });
    assert_eq!(
        write_all_raw(8, 3, Some(WriteOutcome::WouldBlock)),
        WriteStep::Write { from: 3 }
    );
    assert_eq!(
        write_all_raw(8, 3, Some(WriteOutcome::Interrupted)),
        WriteStep::Write { from: 3 }
    );
    assert_eq!(write_all_raw(8, 3, Some(WriteOutcome::Failed)), WriteStep::Failed);
}

#[test]
fn bridge_and_server_understand_each_other() {
    let mut server = Server::new(Session::new("pair".to_string()));
    let mut bridge = Bridge::new();
    let id = server.accept_client();

    // The bridge announces its size and forwards a key stroke.
    let mut to_server = resize_frame(100, 40);
    to_server.extend_from_slice(&stdin_step(ReadOutcome::Data(b"q")).send);
    let step = server.handle_client_data(id, ReadOutcome::Data(&to_server));
    assert_eq!(
        step.requests,
        vec![ClientRequest::Resize { cols: 100, rows: 40 }, ClientRequest::Input(b"q".to_vec())]
    );

    // The terminal answers and the child ends.
    server.handle_pty_output(ReadOutcome::Data(b"quit\r\n"));
    server.check_exit(ChildStatus::Exited(2));
    let to_bridge = server.send_buf(id).unwrap().clone();
    bridge.socket_step(ReadOutcome::Data(&to_bridge));
    let step = bridge.socket_step(ReadOutcome::WouldBlock);
    assert_eq!(step.output, b"quit\r\n");
    assert_eq!(step.next, BridgeNext::Leave);
    assert_eq!(bridge.exit_code(), 2);
}
