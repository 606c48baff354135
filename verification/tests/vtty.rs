use safa_core::errors::ErrorStatus;
use safa_core::thread::Tid;
use safa_core::vtty::{StdinRead, TTYFlags, VirtualTTY};

/// What the mother side reads: at most `len` bytes of stdout.
fn mother_read(tty: &mut VirtualTTY, len: usize) -> Vec<u8> {
    tty.read_stdout(len).0
}

/// What the child side reads into a buffer of `len` bytes.
fn child_read(tty: &mut VirtualTTY, len: usize) -> Vec<u8> {
    match tty.read_stdin(len) {
        StdinRead::Read { data, .. } => data,
        StdinRead::Wait => panic!("Failed to read: would block"),
    }
}

#[test]
fn vtty_canonical_mode_test() {
    const MSG0: &[u8] = b"Hello, world!\n";
    const SPEC_MSG: &[u8] = b"hi\x7flol\n";
    const SPEC_MSG_REPLY: &[u8] = b"hlol\n";
    const SPEC_MSG_REPLY_STDOUT0: &[u8] = b"hi^Hlol\n";
    const SPEC_MSG_REPLY_STDOUT1: &[u8] = b"hi\x08 \x08lol\n";
    const MSG1: &[u8] = b":c\n";

    let mut tty = VirtualTTY::new();
    tty.set_flags(TTYFlags(TTYFlags::CANONICAL | TTYFlags::ECHO));
    tty.write_stdout(MSG0);
    tty.write_stdin(MSG0);
    tty.write_stdin(SPEC_MSG);
    tty.set_flags(TTYFlags(TTYFlags::CANONICAL | TTYFlags::ECHO | TTYFlags::ECHO_ERASE));
    tty.write_stdin(SPEC_MSG);
    tty.write_stdin(MSG1);
    // No echo
    tty.set_flags(TTYFlags(TTYFlags::CANONICAL));
    tty.write_stdin(MSG1);

    assert_eq!(mother_read(&mut tty, MSG0.len()), MSG0);
    // Echoed
    assert_eq!(mother_read(&mut tty, MSG0.len()), MSG0);
    assert_eq!(mother_read(&mut tty, SPEC_MSG_REPLY_STDOUT0.len()), SPEC_MSG_REPLY_STDOUT0);
    assert_eq!(mother_read(&mut tty, SPEC_MSG_REPLY_STDOUT1.len()), SPEC_MSG_REPLY_STDOUT1);
    assert_eq!(mother_read(&mut tty, MSG1.len()), MSG1);
    // we wrote MSG1 but without echoing
    assert_eq!(mother_read(&mut tty, 0), b"");
    assert_eq!(mother_read(&mut tty, 2048), b"");

    assert_eq!(child_read(&mut tty, 2048), MSG0);
    assert_eq!(child_read(&mut tty, 2048), SPEC_MSG_REPLY);
    assert_eq!(child_read(&mut tty, 2048), SPEC_MSG_REPLY);
    assert_eq!(child_read(&mut tty, 2048), MSG1);
    assert_eq!(child_read(&mut tty, 2048), MSG1);

    // a reader now has to wait; a line written wakes it and it reads the line
    assert!(matches!(tty.read_stdin(2048), StdinRead::Wait));
    let tid: Tid = 3;
    tty.wait_queue.threads.push((tid, 0));
    let w = tty.write_stdin(MSG0);
    assert_eq!(w.woken, vec![(tid, 0)]);
    assert!(w.stdin_available);
    assert_eq!(child_read(&mut tty, 2048), MSG0);
}

#[test]
fn vtty_non_canonical_mode_test() {
    const MSG0: &[u8] = b"Hello, world!\n";
    const SPEC_MSG: &[u8] = b"hi\x7flol\n";
    const SPEC_MSG_REPLY: &[u8] = b"hi\x7flol\n";
    const SPEC_MSG_REPLY_STDOUT0: &[u8] = b"hi\x7flol\n";
    const SPEC_MSG_REPLY_STDOUT1: &[u8] = b"hi\x7flol\n";
    const MSG1: &[u8] = b":cvvv\x08\x082222";

    let mut tty = VirtualTTY::new();
    tty.set_flags(TTYFlags(TTYFlags::ECHO));
    tty.write_stdout(MSG0);
    tty.write_stdin(MSG0);
    tty.write_stdin(SPEC_MSG);
    tty.set_flags(TTYFlags(TTYFlags::ECHO | TTYFlags::ECHO_ERASE));
    tty.write_stdin(SPEC_MSG);
    tty.write_stdin(MSG1);
    // No echo
    tty.set_flags(TTYFlags(0));
    tty.write_stdin(MSG1);

    assert_eq!(mother_read(&mut tty, MSG0.len()), MSG0);
    // Echoed
    assert_eq!(mother_read(&mut tty, MSG0.len()), MSG0);
    assert_eq!(mother_read(&mut tty, SPEC_MSG_REPLY_STDOUT0.len()), SPEC_MSG_REPLY_STDOUT0);
    assert_eq!(mother_read(&mut tty, SPEC_MSG_REPLY_STDOUT1.len()), SPEC_MSG_REPLY_STDOUT1);
    assert_eq!(mother_read(&mut tty, MSG1.len()), MSG1);
    // we wrote MSG1 but without echoing
    assert_eq!(mother_read(&mut tty, 0), b"");

    for expected in [MSG0, SPEC_MSG_REPLY, SPEC_MSG_REPLY, MSG1, MSG1] {
        let mut got = child_read(&mut tty, expected.len() / 2);
        got.extend(child_read(&mut tty, expected.len() - expected.len() / 2));
        assert_eq!(got, expected);
    }
}

#[test]
fn vtty_erase_takes_back_one_byte() {
    let mut tty = VirtualTTY::new();
    tty.write_stdin(b"ab\x7f");
    assert_eq!(tty.stdin, b"a".to_vec());
    assert_eq!(tty.stdout, b"ab^H".to_vec());
    // nothing to erase past a line already written
    tty.write_stdin(b"\n\x7f");
    assert_eq!(tty.stdin, b"a\n".to_vec());
    assert_eq!(tty.newlines_count, 1);
}

#[test]
fn vtty_erase_of_control_byte_erases_twice() {
    let mut tty = VirtualTTY::new();
    tty.set_flags(TTYFlags(TTYFlags::CANONICAL | TTYFlags::ECHO | TTYFlags::ECHO_ERASE));
    tty.write_stdin(b"\x01\x7f");
    assert_eq!(tty.stdin, Vec::<u8>::new());
    assert_eq!(tty.stdout, b"\x01\x08 \x08\x08 \x08".to_vec());
}

#[test]
fn vtty_commands() {
    let mut tty = VirtualTTY::new();
    assert_eq!(tty.process_command(0, 0), Ok(Some(TTYFlags(TTYFlags::CANONICAL | TTYFlags::ECHO))));
    assert_eq!(tty.process_command(1, 0x1_0004), Ok(None));
    assert_eq!(tty.read_flags(), TTYFlags(TTYFlags::ECHO_ERASE));
    assert_eq!(tty.process_command(2, 0), Err(ErrorStatus::InvalidCommand));
}

#[test]
fn vtty_partial_canonical_read() {
    let mut tty = VirtualTTY::new();
    tty.write_stdin(b"abc\ndef\n");
    match tty.read_stdin(2) {
        StdinRead::Read { data, drained } => {
            assert_eq!(data, b"ab".to_vec());
            // a line read in part no longer counts as available data
            assert!(drained);
        }
        StdinRead::Wait => panic!("should read"),
    }
    assert_eq!(tty.newlines_count, 2);
    assert_eq!(child_read(&mut tty, 10), b"c\n".to_vec());
    assert_eq!(tty.newlines_count, 1);
    match tty.read_stdin(10) {
        StdinRead::Read { data, drained } => {
            assert_eq!(data, b"def\n".to_vec());
            assert!(drained);
        }
        StdinRead::Wait => panic!("should read"),
    }
}
