use shell_tunnel::screen::{is_blank, non_empty_lines, row_text};
use shell_tunnel::{
    Command, CommandBuilder, CommandExecutor, ExecutionLoop, ExecutionResult, LoopAction,
    OutputChunk, OutputSanitizer, OutputSource, ReadEvent, ShellTunnelError, DEFAULT_TIMEOUT_MS,
};

#[test]
fn test_command_new() {
    let cmd = Command::new("ls -la");
    assert_eq!(cmd.command_line, "ls -la");
    assert!(cmd.working_dir.is_none());
    assert!(cmd.env.is_empty());
    assert!(cmd.timeout_ms.is_none());
    assert!(cmd.capture_output);
}

#[test]
fn test_command_builder_chain() {
    let cmd = Command::new("cargo build")
        .working_dir("/project")
        .env("RUST_LOG", "debug")
        .timeout(60_000)
        .capture_output(true);

    assert_eq!(cmd.command_line, "cargo build");
    assert_eq!(cmd.working_dir, Some("/project".to_string()));
    assert_eq!(cmd.env.get("RUST_LOG"), Some(&"debug".to_string()));
    assert_eq!(cmd.timeout_ms, Some(60_000));
}

#[test]
fn test_command_envs() {
    let vars = [("KEY1", "val1"), ("KEY2", "val2")];
    let cmd = Command::new("echo").envs(&vars);

    assert_eq!(cmd.env.len(), 2);
    assert_eq!(cmd.env.get("KEY1"), Some(&"val1".to_string()));
    assert_eq!(cmd.env.get("KEY2"), Some(&"val2".to_string()));
}

#[test]
fn test_command_builder_build() {
    let cmd = CommandBuilder::new().command_line("pwd").working_dir("/tmp").build();

    assert!(cmd.is_some());
    let cmd = cmd.unwrap();
    assert_eq!(cmd.command_line, "pwd");
    assert_eq!(cmd.working_dir, Some("/tmp".to_string()));
}

#[test]
fn test_command_builder_empty() {
    let cmd = CommandBuilder::new().build();
    assert!(cmd.is_none());
}

#[test]
fn command_timeout_defaults_to_thirty_seconds() {
    assert_eq!(Command::new("x").effective_timeout_ms(), 30_000);
    assert_eq!(Command::new("x").timeout(1_000).effective_timeout_ms(), 1_000);
}

#[test]
fn test_executor_new() {
    let executor = CommandExecutor::new();
    assert_eq!(executor.default_timeout_ms, DEFAULT_TIMEOUT_MS);
}

#[test]
fn test_command_builder() {
    let cmd = Command::new("echo hello").timeout(5_000).capture_output(true);

    assert_eq!(cmd.command_line, "echo hello");
    assert_eq!(cmd.timeout_ms, Some(5_000));
}

#[test]
fn test_default_timeout() {
    assert_eq!(DEFAULT_TIMEOUT_MS, 30_000);
}

#[test]
fn test_execution_result_new() {
    let result = ExecutionResult::new(b"hello\n".to_vec(), "hello\n".to_string(), 100);

    assert_eq!(result.raw_output, b"hello\n");
    assert_eq!(result.text_output, "hello\n");
    assert_eq!(result.duration_ms, 100);
    assert!(!result.timed_out);
    assert!(result.exit_code.is_none());
}

#[test]
fn test_execution_result_success() {
    let result = ExecutionResult::default().with_exit_code(0);
    assert!(result.success());
    assert!(!result.failed());
}

#[test]
fn test_execution_result_failed() {
    let result = ExecutionResult::default().with_exit_code(1);
    assert!(!result.success());
    assert!(result.failed());
}

#[test]
fn test_execution_result_timeout() {
    let result = ExecutionResult::timeout(vec![], String::new(), 30_000);
    assert!(result.timed_out);
    assert!(result.failed());
}

#[test]
fn test_output_trimmed() {
    let result = ExecutionResult::new(vec![], "  hello world  \n".to_string(), 0);
    assert_eq!(result.output_trimmed(), "hello world");
}

#[test]
fn test_output_lines() {
    let result = ExecutionResult::new(vec![], "line1\nline2\nline3".to_string(), 0);
    let lines: Vec<String> = result.output_lines();
    assert_eq!(lines, vec!["line1", "line2", "line3"]);
}

#[test]
fn output_lines_drop_final_empty_and_carriage_returns() {
    let result = ExecutionResult::new(vec![], "a\r\n\nb\n".to_string(), 0);
    assert_eq!(result.output_lines(), vec!["a", "", "b"]);
}

#[test]
fn test_output_chunk_stdout() {
    let chunk = OutputChunk::stdout(b"test output".to_vec());
    assert_eq!(chunk.source, OutputSource::Stdout);
    assert_eq!(chunk.text, "test output");
}

#[test]
fn test_output_chunk_combined() {
    let chunk = OutputChunk::combined(b"mixed output".to_vec());
    assert_eq!(chunk.source, OutputSource::Combined);
}

#[test]
fn output_chunk_replaces_invalid_utf8() {
    let chunk = OutputChunk::combined(vec![b'a', 0xff, b'b']);
    assert_eq!(chunk.text, "a\u{fffd}b");
}

#[test]
fn execution_loop_gathers_in_order() {
    let mut lp = ExecutionLoop::start(&Command::new("x").timeout(1_000));
    assert!(!lp.is_timed_out(1_000));
    assert!(lp.is_timed_out(1_001));
    match lp.on_read(ReadEvent::Data(b"A".to_vec())) {
        LoopAction::ProbeChild(c) => assert_eq!(c.raw, b"A"),
        _ => panic!("expected a chunk"),
    }
    assert!(matches!(lp.on_read(ReadEvent::WouldBlock), LoopAction::Sleep));
    match lp.on_read(ReadEvent::Data(b"\x1b[1mB\x1b[0m".to_vec())) {
        LoopAction::ProbeChild(c) => assert_eq!(c.source, OutputSource::Combined),
        _ => panic!("expected a chunk"),
    }
    assert!(matches!(lp.on_read(ReadEvent::Eof), LoopAction::Finish));
    let r = lp.finished_result(12, Some(0));
    assert_eq!(r.raw_output, b"A\x1b[1mB\x1b[0m");
    assert_eq!(r.text_output, "AB");
    assert_eq!(r.exit_code, Some(0));
    assert!(!r.timed_out);
}

#[test]
fn execution_loop_timeout_and_failure() {
    let mut lp = ExecutionLoop::start(&Command::new("sleep 10").timeout(1_000));
    let _ = lp.on_read(ReadEvent::Data(b"partial".to_vec()));
    match lp.on_read(ReadEvent::Failed("boom".to_string())) {
        LoopAction::Fail(ShellTunnelError::Io(m)) => assert_eq!(m, "boom"),
        _ => panic!("expected an I/O failure"),
    }
    let r = lp.timed_out_result(1_005);
    assert!(r.timed_out);
    assert_eq!(r.exit_code, None);
    assert!(r.duration_ms >= 1_000);
    assert_eq!(r.text_output, "partial");
}

#[test]
fn exit_code_mapping() {
    assert_eq!(shell_tunnel::execution::exit_code_of(true, 7), 0);
    assert_eq!(shell_tunnel::execution::exit_code_of(false, 7), 7);
}

#[test]
fn test_plain_text() {
    let output = OutputSanitizer::strip_ansi(b"hello world");
    assert_eq!(output, "hello world");
}

#[test]
fn test_strip_color_codes() {
    let output = OutputSanitizer::strip_ansi(b"\x1b[31mred\x1b[0m");
    assert_eq!(output, "red");
}

#[test]
fn test_strip_bold() {
    let output = OutputSanitizer::strip_ansi(b"\x1b[1mbold\x1b[0m");
    assert_eq!(output, "bold");
}

#[test]
fn test_preserve_newlines() {
    let output = OutputSanitizer::strip_ansi(b"line1\nline2\nline3");
    assert_eq!(output, "line1\nline2\nline3");
}

#[test]
fn test_strip_cursor_movement() {
    let output = OutputSanitizer::strip_ansi(b"\x1b[2J\x1b[Hcontent");
    assert_eq!(output, "content");
}

#[test]
fn test_complex_sequence() {
    let input = b"\x1b[32m\x1b[1mGreen Bold\x1b[0m Normal \x1b[34mBlue\x1b[0m";
    let output = OutputSanitizer::strip_ansi(input);
    assert_eq!(output, "Green Bold Normal Blue");
}

#[test]
fn test_osc_title() {
    let output = OutputSanitizer::strip_ansi(b"\x1b]0;Window Title\x07actual content");
    assert_eq!(output, "actual content");
}

#[test]
fn test_strip_ansi_str() {
    let output = OutputSanitizer::strip_ansi_str("\x1b[31mcolored\x1b[0m");
    assert_eq!(output, "colored");
}

#[test]
fn test_preserve_tabs() {
    let output = OutputSanitizer::strip_ansi(b"col1\tcol2\tcol3");
    assert_eq!(output, "col1\tcol2\tcol3");
}

#[test]
fn test_empty_input() {
    let output = OutputSanitizer::strip_ansi(b"");
    assert_eq!(output, "");
}

#[test]
fn test_only_escape_codes() {
    let output = OutputSanitizer::strip_ansi(b"\x1b[31m\x1b[0m\x1b[2J");
    assert_eq!(output, "");
}

#[test]
fn sanitizer_fixtures() {
    assert_eq!(OutputSanitizer::strip_ansi(b"\x1b]0;title\x07body"), "body");
    assert_eq!(OutputSanitizer::strip_ansi(b"\x1b[2J\x1b[Hx"), "x");
    assert_eq!(OutputSanitizer::strip_ansi(b"a\x1b]2;t\x1b\\b"), "ab");
    assert_eq!(OutputSanitizer::strip_ansi(b"a\x1bPq#0\x1b\\b"), "ab");
    assert_eq!(OutputSanitizer::strip_ansi(b"a\x00\x07\x08\x7fb\r\n"), "ab\r\n");
    assert_eq!(OutputSanitizer::strip_ansi("h\u{e9}".as_bytes()), "h\u{e9}");
}

#[test]
fn sanitizer_output_has_no_controls() {
    let mut input = Vec::new();
    for b in 0u8..=255 {
        input.push(b);
        input.push(b'x');
    }
    let out = OutputSanitizer::strip_ansi_bytes(&input);
    for b in out {
        assert!(b >= 0x20 && b != 0x7f || b == b'\t' || b == b'\n' || b == b'\r');
    }
}

#[test]
fn screen_row_text_and_filters() {
    assert_eq!(row_text(&vec!['a', ' ', 'b', ' ', ' ']), "a b");
    assert_eq!(row_text(&vec![' ', ' ']), "");
    let lines = vec!["x".to_string(), String::new(), "y".to_string()];
    assert_eq!(non_empty_lines(lines), vec!["x".to_string(), "y".to_string()]);
    assert!(is_blank(" \n\t"));
    assert!(!is_blank(" a "));
}

#[test]
fn execution_loop_drains_after_child_exit() {
    let mut lp = ExecutionLoop::start(&Command::new("x"));
    assert!(matches!(lp.on_read(ReadEvent::Data(b"A".to_vec())), LoopAction::ProbeChild(_)));
    lp.on_child_probe(false);
    assert!(!lp.draining);
    assert!(matches!(lp.on_read(ReadEvent::Data(b"B".to_vec())), LoopAction::ProbeChild(_)));
    lp.on_child_probe(true);
    assert!(lp.draining);
    assert!(matches!(lp.on_read(ReadEvent::Data(b"C".to_vec())), LoopAction::Forward(_)));
    assert!(matches!(lp.on_read(ReadEvent::WouldBlock), LoopAction::Finish));
    assert!(matches!(lp.on_read(ReadEvent::Failed("eio".to_string())), LoopAction::Finish));
    assert!(matches!(lp.on_read(ReadEvent::Data(Vec::new())), LoopAction::Finish));
    assert_eq!(lp.raw, b"ABC");
}

#[test]
fn sanitizer_drops_c1_controls() {
    assert_eq!(OutputSanitizer::strip_ansi("a\u{85}b\u{9b}c".as_bytes()), "abc");
    assert_eq!(OutputSanitizer::strip_ansi("x\u{a0}y\u{e9}".as_bytes()), "x\u{a0}y\u{e9}");
    assert_eq!(OutputSanitizer::strip_ansi(b"a\xc2"), "a\u{fffd}");
    assert_eq!(OutputSanitizer::strip_ansi(b"a\xc2\x1b[1mb"), "a\u{fffd}b");
    let bytes = OutputSanitizer::strip_ansi_bytes(b"\xc2\x1b[0m\x85");
    assert_eq!(bytes, b"\xef\xbf\xbd\x85");
    assert!(!OutputSanitizer::strip_ansi(b"\xc2\x1b[0m\x85").contains('\u{85}'));
}
