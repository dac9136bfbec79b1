use pty_mux::{
    after_stage, begin_setup, event_channel, setup_failure_message, shell_program, unfinished_tail, Geometry, ReadOutcome,
    ReaderPump, Registry, SetupOutcome, SetupStage, TerminalError, Utf8Stream, WriterPump,
};

fn id(s: &str) -> String {
    s.to_string()
}

#[test]
fn channel_name_carries_the_id() {
    assert_eq!(event_channel("t1"), "term-data:t1");
    assert_eq!(event_channel(""), "term-data:");
}

#[test]
fn distinct_sessions_get_distinct_channels() {
    assert_ne!(event_channel("a"), event_channel("b"));
    assert_ne!(event_channel("t1"), event_channel("t10"));
}

#[test]
fn unfinished_tail_lengths() {
    assert_eq!(unfinished_tail(b""), 0);
    assert_eq!(unfinished_tail(b"abc"), 0);
    assert_eq!(unfinished_tail(&[0x68, 0xC3]), 1);
    assert_eq!(unfinished_tail(&[0xC3, 0xA9]), 0);
    assert_eq!(unfinished_tail(&[0xE2, 0x82]), 2);
    assert_eq!(unfinished_tail(&[0xE2, 0x82, 0xAC]), 0);
    assert_eq!(unfinished_tail(&[0x41, 0xF0, 0x9F, 0x98]), 3);
    assert_eq!(unfinished_tail(&[0xF0, 0x9F, 0x98, 0x80]), 0);
    assert_eq!(unfinished_tail(&[0x80]), 0);
}

#[test]
fn split_encoding_is_decoded_across_chunks() {
    let mut d = Utf8Stream::new();
    assert_eq!(d.feed(&[0x68, 0xC3]), "h");
    assert_eq!(d.pending_bytes(), vec![0xC3]);
    assert_eq!(d.feed(&[0xA9, 0x21]), "é!");
    assert!(d.pending_bytes().is_empty());
}

#[test]
fn euro_sign_split_in_three() {
    let mut d = Utf8Stream::new();
    assert_eq!(d.feed(&[0xE2]), "");
    assert_eq!(d.feed(&[0x82]), "");
    assert_eq!(d.feed(&[0xAC]), "€");
}

#[test]
fn invalid_bytes_are_replaced() {
    let mut d = Utf8Stream::new();
    assert_eq!(d.feed(&[0x61, 0xFF, 0x62]), "a\u{FFFD}b");
}

#[test]
fn finish_flushes_an_unfinished_encoding() {
    let mut d = Utf8Stream::new();
    assert_eq!(d.feed(&[0x61, 0xE2, 0x82]), "a");
    assert_eq!(d.finish(), "\u{FFFD}");
    assert!(d.pending_bytes().is_empty());
    assert_eq!(d.finish(), "");
}

#[test]
fn echoed_hello_reaches_the_session_channel() {
    let mut pump = ReaderPump::new("t1");
    assert_eq!(pump.channel(), "term-data:t1");
    let action = pump.on_read(ReadOutcome::Data(b"echo hello\r\nhello\r\n".to_vec()));
    assert!(!action.stop);
    let text = action.emit.expect("output is emitted");
    assert!(text.contains("hello"));
}

#[test]
fn reader_stops_at_end_of_stream_and_stays_quiet() {
    let mut pump = ReaderPump::new("t1");
    let a = pump.on_read(ReadOutcome::Data(vec![0x6F, 0x6B, 0xC3]));
    assert_eq!(a.emit.as_deref(), Some("ok"));
    let end = pump.on_read(ReadOutcome::Data(Vec::new()));
    assert!(end.stop);
    assert_eq!(end.emit.as_deref(), Some("\u{FFFD}"));
    assert!(pump.is_stopped());
    let after = pump.on_read(ReadOutcome::Data(b"late".to_vec()));
    assert!(after.stop);
    assert!(after.emit.is_none());
}

#[test]
fn reader_stops_on_failure_without_empty_emission() {
    let mut pump = ReaderPump::new("x");
    let a = pump.on_read(ReadOutcome::Failed);
    assert!(a.stop);
    assert!(a.emit.is_none());
}

#[test]
fn writer_passes_chunks_whole_and_in_order() {
    let mut pump = WriterPump::new();
    let chunks = vec![b"echo ".to_vec(), b"hello".to_vec(), b"\n".to_vec()];
    let mut written = Vec::new();
    for c in chunks {
        written.extend(pump.on_chunk(c).expect("running pump writes"));
    }
    assert_eq!(written, b"echo hello\n".to_vec());
    pump.on_write_failed();
    assert!(pump.is_stopped());
    assert!(pump.on_chunk(b"more".to_vec()).is_none());
}

#[test]
fn registered_session_starts_live_at_initial_size() {
    let mut r: Registry<u32> = Registry::new();
    assert_eq!(r.register(id("t1"), 7), Ok(()));
    assert!(r.is_live(&id("t1")));
    assert_eq!(r.geometry(&id("t1")), Some(Geometry { rows: 24, cols: 80 }));
    assert_eq!(r.writer_of(&id("t1")), Ok(&7));
    assert_eq!(r.len(), 1);
}

#[test]
fn duplicate_create_is_refused_before_launch() {
    let mut r: Registry<u32> = Registry::new();
    assert_eq!(r.check_create(&id("t1")), Ok(()));
    assert_eq!(r.register(id("t1"), 1), Ok(()));
    assert_eq!(r.check_create(&id("t1")), Err(TerminalError::AlreadyExists));
    assert_eq!(r.register(id("t1"), 2), Err(2));
    assert_eq!(r.get(&id("t1")), Some(&1));
    assert_eq!(r.len(), 1);
}

#[test]
fn resize_of_unknown_session_reports_not_found() {
    let mut r: Registry<u32> = Registry::new();
    assert_eq!(r.resize(&id("unknown-id"), 10, 10), Err(TerminalError::NotFound));
    assert_eq!(r.len(), 0);
}

#[test]
fn resize_records_the_new_size() {
    let mut r: Registry<u32> = Registry::new();
    r.register(id("t1"), 1).unwrap();
    r.register(id("t2"), 2).unwrap();
    assert_eq!(r.resize(&id("t1"), 40, 120), Ok(Geometry { rows: 40, cols: 120 }));
    assert_eq!(r.geometry(&id("t1")), Some(Geometry { rows: 40, cols: 120 }));
    assert_eq!(r.geometry(&id("t2")), Some(Geometry { rows: 24, cols: 80 }));
}

#[test]
fn ended_session_accepts_no_input() {
    let mut r: Registry<u32> = Registry::new();
    r.register(id("t1"), 1).unwrap();
    assert!(r.close(&id("t1")));
    assert!(!r.close(&id("t1")));
    assert_eq!(r.writer_of(&id("t1")), Err(TerminalError::Closed));
    assert_eq!(r.resize(&id("t1"), 5, 5), Err(TerminalError::Closed));
    assert_eq!(r.writer_of(&id("nope")), Err(TerminalError::NotFound));
    assert_eq!(r.len(), 1);
}

#[test]
fn ended_session_can_be_created_again() {
    let mut r: Registry<u32> = Registry::new();
    r.register(id("t1"), 1).unwrap();
    r.resize(&id("t1"), 50, 50).unwrap();
    r.close(&id("t1"));
    assert_eq!(r.check_create(&id("t1")), Ok(()));
    assert_eq!(r.register(id("t1"), 9), Ok(()));
    assert_eq!(r.writer_of(&id("t1")), Ok(&9));
    assert_eq!(r.geometry(&id("t1")), Some(Geometry { rows: 24, cols: 80 }));
    assert_eq!(r.len(), 1);
}

#[test]
fn distinct_ids_make_as_many_entries() {
    let mut r: Registry<usize> = Registry::new();
    for n in 0..16usize {
        assert_eq!(r.register(format!("s{}", n), n), Ok(()));
    }
    assert_eq!(r.len(), 16);
    for n in 0..16usize {
        assert_eq!(r.get(&format!("s{}", n)), Some(&n));
    }
}

#[test]
fn setup_runs_its_steps_in_order() {
    let mut stage = begin_setup();
    assert_eq!(stage, SetupStage::OpenPty);
    let mut seen = vec![stage];
    loop {
        match after_stage(stage, true) {
            SetupOutcome::Next(s) => {
                seen.push(s);
                stage = s;
            }
            SetupOutcome::Ready => break,
            SetupOutcome::Abort { .. } => panic!("no step failed"),
        }
    }
    assert_eq!(
        seen,
        vec![
            SetupStage::OpenPty,
            SetupStage::LaunchShell,
            SetupStage::TakeWriter,
            SetupStage::CloneReader,
            SetupStage::Register
        ]
    );
}

#[test]
fn setup_failures_name_their_step_and_stop_the_shell() {
    assert_eq!(
        after_stage(SetupStage::OpenPty, false),
        SetupOutcome::Abort { step: SetupStage::OpenPty, error: TerminalError::Allocation, kill_shell: false }
    );
    assert_eq!(
        after_stage(SetupStage::LaunchShell, false),
        SetupOutcome::Abort { step: SetupStage::LaunchShell, error: TerminalError::Spawn, kill_shell: false }
    );
    assert_eq!(
        after_stage(SetupStage::TakeWriter, false),
        SetupOutcome::Abort { step: SetupStage::TakeWriter, error: TerminalError::HandleAcquisition, kill_shell: true }
    );
    assert_eq!(
        after_stage(SetupStage::CloneReader, false),
        SetupOutcome::Abort { step: SetupStage::CloneReader, error: TerminalError::HandleAcquisition, kill_shell: true }
    );
    assert_eq!(
        after_stage(SetupStage::Register, false),
        SetupOutcome::Abort { step: SetupStage::Register, error: TerminalError::AlreadyExists, kill_shell: true }
    );
}

#[test]
fn setup_failures_are_worded_by_step() {
    assert_eq!(setup_failure_message(SetupStage::OpenPty), "Failed to open PTY");
    assert_eq!(setup_failure_message(SetupStage::LaunchShell), "Failed to spawn shell");
    assert_eq!(setup_failure_message(SetupStage::TakeWriter), "Failed to take writer");
    assert_eq!(setup_failure_message(SetupStage::CloneReader), "Failed to clone reader");
}

#[test]
fn shell_is_chosen_by_platform() {
    assert_eq!(shell_program(true), "powershell.exe");
    assert_eq!(shell_program(false), "bash");
}

#[test]
fn every_error_has_a_message() {
    for e in [
        TerminalError::Allocation,
        TerminalError::Spawn,
        TerminalError::HandleAcquisition,
        TerminalError::Lock,
        TerminalError::Io,
        TerminalError::NotFound,
        TerminalError::AlreadyExists,
        TerminalError::Closed,
    ] {
        assert!(!e.message().is_empty());
    }
    assert_eq!(TerminalError::NotFound.message(), "No such terminal session");
    assert_eq!(TerminalError::Lock.message(), "Failed to lock mutex");
    assert_eq!(TerminalError::Allocation.message(), "Failed to open PTY");
    assert_eq!(TerminalError::Spawn.message(), "Failed to spawn shell");
}

#[test]
fn valid_stream_cut_anywhere_decodes_whole() {
    let text = "héllo wörld € 😀 done";
    let bytes = text.as_bytes();
    for cut in 0..=bytes.len() {
        let mut d = Utf8Stream::new();
        let mut out = d.feed(&bytes[..cut]);
        out.push_str(&d.feed(&bytes[cut..]));
        assert!(d.pending_bytes().is_empty());
        out.push_str(&d.finish());
        assert_eq!(out, text);
    }
}

#[test]
fn valid_stream_fed_byte_by_byte_decodes_whole() {
    let text = "ü€😀a";
    let mut d = Utf8Stream::new();
    let mut out = String::new();
    for b in text.as_bytes() {
        out.push_str(&d.feed(&[*b]));
    }
    assert_eq!(out, text);
}

#[test]
fn end_of_session_is_announced_once() {
    let mut pump = ReaderPump::new("t1");
    let a = pump.on_read(ReadOutcome::Data(b"hi".to_vec()));
    assert!(a.closing.is_none());
    let end = pump.on_read(ReadOutcome::Failed);
    assert_eq!(end.closing.as_deref(), Some("term-exit:t1"));
    let after = pump.on_read(ReadOutcome::Data(Vec::new()));
    assert!(after.closing.is_none());
    assert_ne!(pty_mux::exit_channel("t1"), event_channel("t1"));
}
