use toaster::config::Settings;
use toaster::control::{auto_flush_due, classify_request, reply_for, resets_flush_timer, ControlAction};
use toaster::output::OutputBuffer;
use toaster::system_builder::{format_output, ExecutorState, SystemBuilder};
use toaster::system_stage::{SStage, Schedule};
use toaster::timefmt::{format_hms, format_log_line, log_file_name};
use toaster::toaster::Toaster;

#[test]
fn executor_first_evaluation_is_due() {
    let st = ExecutorState::new(2);
    // Never ran: due as soon as the clock reaches the interval.
    assert!(st.stage_due(0, 5, 100));
    assert!(st.stage_due(1, 5, 5));
    assert!(!st.stage_due(0, 5, 4));
}

#[test]
fn executor_respects_spacing_after_run() {
    let mut st = ExecutorState::new(1);
    st.mark_ran(0, 100);
    assert!(!st.stage_due(0, 5, 104));
    assert!(st.stage_due(0, 5, 105));
    assert!(st.stage_due(0, 5, 200));
}

#[test]
fn executor_siblings_are_independent() {
    let mut st = ExecutorState::new(2);
    st.mark_ran(0, 100);
    // The sibling stage still reports its own (first-run) due-ness.
    assert!(st.stage_due(1, 5, 100));
    assert!(!st.stage_due(0, 5, 100));
}

#[test]
fn output_line_format() {
    assert_eq!(format_output("backup", "done\n"), "backup: Output: done\n");
}

#[test]
fn buffer_drain_renders_each_record_once() {
    let mut b = OutputBuffer::new();
    b.push("x".to_string(), 10);
    b.request_flush();
    assert!(b.flush_pending());
    let lines = b.drain();
    assert_eq!(lines, vec!["00:00:10 :::: x\n".to_string()]);
    assert_eq!(b.len(), 0);
    assert!(!b.flush_pending());
    // The record is gone: a second drain finds nothing.
    let again = b.drain();
    assert!(again.is_empty());
}

#[test]
fn buffer_two_flushes_no_duplicates_no_loss() {
    let mut b = OutputBuffer::new();
    b.push("a".to_string(), 1);
    b.request_flush();
    let first = b.drain();
    assert_eq!(first, vec!["00:00:01 :::: a\n".to_string()]);
    // Pushed between the two flush requests.
    b.push("b".to_string(), 2);
    b.request_flush();
    b.request_flush();
    let second = b.drain();
    assert_eq!(second, vec!["00:00:02 :::: b\n".to_string()]);
    assert_eq!(b.len(), 0);
}

#[test]
fn buffer_concurrent_style_pushes_flushed_exactly_once() {
    // Three simulated executors interleaving pushes before one drain cycle.
    let mut b = OutputBuffer::new();
    for round in 0..2u64 {
        b.push(format!("one-{}", round), 100 + round);
        b.push(format!("two-{}", round), 200 + round);
        b.push(format!("three-{}", round), 300 + round);
    }
    let lines = b.drain();
    assert_eq!(lines.len(), 6);
    for text in ["one-0", "one-1", "two-0", "two-1", "three-0", "three-1"] {
        let hits = lines
            .iter()
            .filter(|l| l.contains(&format!(":::: {}", text)))
            .count();
        assert_eq!(hits, 1, "record {} flushed exactly once", text);
    }
    assert_eq!(b.len(), 0);
}

#[test]
fn buffer_records_last_flushed_line() {
    let mut b = OutputBuffer::new();
    assert!(b.last_flushed().is_none());
    b.record_flushed("00:00:01 :::: a\n".to_string());
    assert_eq!(b.last_flushed().unwrap(), "00:00:01 :::: a\n");
}

#[test]
fn classify_recognizes_tokens() {
    assert_eq!(classify_request(b"reload", 6), ControlAction::Reload);
    assert_eq!(classify_request(b"flush", 5), ControlAction::Flush);
    assert_eq!(classify_request(b"ping", 4), ControlAction::Ping);
    assert_eq!(classify_request(b"xyz", 3), ControlAction::Invalid);
}

#[test]
fn classify_compares_only_bytes_read() {
    // A fixed-size receive buffer with trailing zero padding.
    let mut buf = [0u8; 20];
    buf[..4].copy_from_slice(b"ping");
    assert_eq!(classify_request(&buf, 4), ControlAction::Ping);
    // Comparing the whole padded buffer would not match.
    assert_eq!(classify_request(&buf, 20), ControlAction::Invalid);
}

#[test]
fn replies_match_protocol() {
    assert_eq!(reply_for(b"reload", 6), "ok");
    assert_eq!(reply_for(b"flush", 5), "ok");
    assert_eq!(reply_for(b"ping", 4), "pong");
    assert_eq!(reply_for(b"xyz", 3), "Invalid command: xyz");
}

#[test]
fn auto_flush_policy() {
    assert!(auto_flush_due(0, 46, ControlAction::Ping));
    assert!(auto_flush_due(0, 46, ControlAction::Invalid));
    assert!(!auto_flush_due(0, 46, ControlAction::Flush));
    assert!(!auto_flush_due(0, 46, ControlAction::Reload));
    assert!(!auto_flush_due(0, 45, ControlAction::Ping));
    assert!(!auto_flush_due(100, 120, ControlAction::Ping));
}

#[test]
fn recognized_commands_reset_timer() {
    assert!(resets_flush_timer(ControlAction::Reload));
    assert!(resets_flush_timer(ControlAction::Flush));
    assert!(resets_flush_timer(ControlAction::Ping));
    assert!(!resets_flush_timer(ControlAction::Invalid));
}

#[test]
fn hms_rendering() {
    assert_eq!(format_hms(0), "00:00:00");
    assert_eq!(format_hms(3661), "01:01:01");
    assert_eq!(format_hms(86399), "23:59:59");
    assert_eq!(format_hms(86400), "00:00:00");
}

#[test]
fn log_file_name_uses_calendar_date() {
    assert_eq!(log_file_name(0), "output-1970-01-01.log");
    assert_eq!(log_file_name(86400), "output-1970-01-02.log");
    assert_eq!(log_file_name(1_700_000_000), "output-2023-11-14.log");
}

#[test]
fn log_line_uses_record_timestamp() {
    assert_eq!(format_log_line(86399, "hi"), "23:59:59 :::: hi\n");
}

fn job(name: &str, command: &str) -> SystemBuilder {
    let mut sb = SystemBuilder::new(
        name.to_string(),
        "a job".to_string(),
        "sh".to_string(),
    );
    sb.add_stage(SStage::new(
        command.to_string(),
        Schedule::from_str("0:0:0:0:30").unwrap(),
    ));
    sb
}

#[test]
fn toaster_resolves_jobs_and_commands() {
    let systems = vec![("backup".to_string(), job("Backup", "echo b"))];
    let t = Toaster::new(Some(systems), None, Settings::new(2, 4));
    assert_eq!(t.pool_threads, 2);
    let copy = t.start_system("backup").unwrap();
    assert_eq!(copy.name, "backup");
    assert_eq!(copy.stages.len(), 1);
    assert!(t.start_system("missing").is_none());
    assert!(t.run_command("anything").is_none());
    assert_eq!(t.systems_names(), vec!["backup".to_string()]);
}

#[test]
fn reload_swaps_config_and_keeps_old_copies() {
    let old_systems = vec![("job".to_string(), job("job", "echo old"))];
    let mut t = Toaster::new(Some(old_systems), None, Settings::new(1, 4));
    t.buffer.push("queued".to_string(), 5);
    let old_copy = t.start_system("job").unwrap();

    let new_systems = vec![("job".to_string(), job("job", "echo new"))];
    t.reload(Some(new_systems), None, Settings::new(3, 4));

    // Subsequently scheduled jobs reflect the new configuration.
    let new_copy = t.start_system("job").unwrap();
    assert_eq!(new_copy.stages[0].command, "echo new");
    assert_eq!(t.pool_threads, 3);
    // The copy handed out before the reload is unaffected.
    assert_eq!(old_copy.stages[0].command, "echo old");
    // The output buffer survived the reload.
    assert_eq!(t.buffer.len(), 1);
}

#[test]
fn start_systems_copies_every_job() {
    let systems = vec![
        ("a".to_string(), job("a", "echo 1")),
        ("b".to_string(), job("b", "echo 2")),
    ];
    let t = Toaster::new(Some(systems), None, Settings::new(1, 4));
    let copies = t.start_systems();
    assert_eq!(copies.len(), 2);
    assert_eq!(copies[0].name, "a");
    assert_eq!(copies[1].name, "b");

    let none = Toaster::new(None, None, Settings::new(1, 4));
    assert!(none.start_systems().is_empty());
}

#[test]
fn flush_output_sets_the_flag() {
    let mut t = Toaster::new(None, None, Settings::new(1, 4));
    assert!(!t.buffer.flush_pending());
    t.flush_output();
    assert!(t.buffer.flush_pending());
}

#[test]
fn buffer_pop_by_id_removes_one_record() {
    let mut b = OutputBuffer::new();
    b.push("a".to_string(), 1);
    b.push("b".to_string(), 2);
    assert!(b.pop_by_id(0));
    assert_eq!(b.len(), 1);
    assert!(!b.pop_by_id(0));
    assert!(b.pop_by_id(1));
    assert_eq!(b.len(), 0);
}
