use vstd::prelude::*;

use crate::env::EnvVars;
use crate::error::ShellTunnelError;
use crate::sanitizer::{sanitized, OutputSanitizer};
use crate::text::{
    chars_of, lines_of, lines_vec, lossy_string, string_from_chars, trim, trim_str, utf8_lossy,
};

verus! {

/// The timeout of a command that names none, in milliseconds.
pub const DEFAULT_TIMEOUT_MS: u64 = 30_000;

/// Capacity of the channel that carries streamed output.
pub const CHUNK_CHANNEL_CAPACITY: usize = 64;

/// Size of one read from the terminal.
pub const READ_BUFFER_SIZE: usize = 4096;

/// What one command execution produced. The duration is in milliseconds.
#[derive(Debug, Clone)]
pub struct ExecutionResult {
    pub raw_output: Vec<u8>,
    pub text_output: String,
    pub exit_code: Option<i32>,
    pub duration_ms: u64,
    pub timed_out: bool,
}

impl ExecutionResult {
    /// A finished execution without an exit code yet.
    pub fn new(raw_output: Vec<u8>, text_output: String, duration_ms: u64) -> (r: ExecutionResult)
        ensures
            r.raw_output@ == raw_output@,
            r.text_output@ == text_output@,
            r.exit_code is None,
            r.duration_ms == duration_ms,
            !r.timed_out,
    {
        ExecutionResult { raw_output, text_output, exit_code: None, duration_ms, timed_out: false }
    }

    /// An execution cut off by its timeout.
    pub fn timeout(raw_output: Vec<u8>, text_output: String, duration_ms: u64) -> (r: ExecutionResult)
        ensures
            r.raw_output@ == raw_output@,
            r.text_output@ == text_output@,
            r.exit_code is None,
            r.duration_ms == duration_ms,
            r.timed_out,
    {
        ExecutionResult { raw_output, text_output, exit_code: None, duration_ms, timed_out: true }
    }

    pub fn with_exit_code(self, code: i32) -> (r: ExecutionResult)
        ensures
            r.exit_code == Some(code),
            r.raw_output@ == self.raw_output@,
            r.text_output@ == self.text_output@,
            r.duration_ms == self.duration_ms,
            r.timed_out == self.timed_out,
    {
        ExecutionResult { exit_code: Some(code), ..self }
    }

    /// The command exited with code 0.
    pub fn success(&self) -> (r: bool)
        ensures
            r == (self.exit_code == Some(0i32)),
    {
        match self.exit_code {
            Some(c) => c == 0,
            None => false,
        }
    }

    /// The command timed out or exited with a non-zero code.
    pub fn failed(&self) -> (r: bool)
        ensures
            r == (self.timed_out || (self.exit_code is Some && self.exit_code->0 != 0)),
    {
        self.timed_out || match self.exit_code {
            Some(c) => c != 0,
            None => false,
        }
    }

    /// The text output without leading and trailing whitespace.
    pub fn output_trimmed(&self) -> (r: String)
        ensures
            r@ == trim(self.text_output@),
    {
        trim_str(self.text_output.as_str())
    }

    /// The lines of the text output.
    pub fn output_lines(&self) -> (r: Vec<String>)
        ensures
            r@.len() == lines_of(self.text_output@).len(),
            forall|i: int| 0 <= i < r@.len() ==> (#[trigger] r@[i])@ == lines_of(self.text_output@)[i],
    {
        let c = chars_of(self.text_output.as_str());
        let ls = lines_vec(&c);
        let mut r: Vec<String> = Vec::new();
        let mut i: usize = 0;
        while i < ls.len()
            invariant
                i <= ls@.len(),
                ls@.len() == lines_of(self.text_output@).len(),
                forall|k: int| 0 <= k < ls@.len() ==> (#[trigger] ls@[k])@ == lines_of(self.text_output@)[k],
                r@.len() == i,
                forall|k: int| 0 <= k < i ==> (#[trigger] r@[k])@ == lines_of(self.text_output@)[k],
            decreases ls.len() - i,
        {
            r.push(string_from_chars(ls[i].clone()));
            i = i + 1;
        }
        r
    }
}

impl Default for ExecutionResult {
    fn default() -> (r: ExecutionResult)
        ensures
            r.raw_output@.len() == 0,
            r.text_output@.len() == 0,
            r.exit_code is None,
            r.duration_ms == 0,
            !r.timed_out,
    {
        ExecutionResult::new(Vec::new(), String::new(), 0)
    }
}

/// Which stream a chunk came from; a terminal merges both into `Combined`.
#[derive(Debug, Clone, Copy, PartialEq, Eq, Structural)]
pub enum OutputSource {
    Stdout,
    Stderr,
    Combined,
}

/// One read's worth of streamed output.
#[derive(Debug, Clone)]
pub struct OutputChunk {
    pub raw: Vec<u8>,
    pub text: String,
    pub source: OutputSource,
}

impl OutputChunk {
    /// A chunk with its text read from the bytes, invalid UTF-8 replaced.
    pub fn new(raw: Vec<u8>, source: OutputSource) -> (r: OutputChunk)
        ensures
            r.raw@ == raw@,
            r.text@ == utf8_lossy(raw@),
            r.source == source,
    {
        let text = lossy_string(raw.as_slice());
        OutputChunk { raw, text, source }
    }

    pub fn stdout(raw: Vec<u8>) -> (r: OutputChunk)
        ensures
            r.raw@ == raw@,
            r.text@ == utf8_lossy(raw@),
            r.source == OutputSource::Stdout,
    {
        OutputChunk::new(raw, OutputSource::Stdout)
    }

    pub fn combined(raw: Vec<u8>) -> (r: OutputChunk)
        ensures
            r.raw@ == raw@,
            r.text@ == utf8_lossy(raw@),
            r.source == OutputSource::Combined,
    {
        OutputChunk::new(raw, OutputSource::Combined)
    }
}

/// `m` with the first `n` pairs of `vars` set in order.
pub open spec fn with_pairs(m: Map<Seq<char>, Seq<char>>, vars: Seq<(&str, &str)>, n: int) -> Map<Seq<char>, Seq<char>>
    decreases n,
{
    if n <= 0 {
        m
    } else {
        with_pairs(m, vars, n - 1).insert(vars[n - 1].0@, vars[n - 1].1@)
    }
}

/// A command to run: its line, directory, extra variables, and timeout in milliseconds.
#[derive(Debug)]
pub struct Command {
    pub command_line: String,
    pub working_dir: Option<String>,
    pub env: EnvVars,
    pub timeout_ms: Option<u64>,
    pub capture_output: bool,
}

impl Command {
    pub fn new(command_line: &str) -> (r: Command)
        ensures
            r.command_line@ == command_line@,
            r.working_dir is None,
            r.env.wf(),
            r.env@ == Map::<Seq<char>, Seq<char>>::empty(),
            r.timeout_ms is None,
            r.capture_output,
    {
        Command {
            command_line: String::from_str(command_line),
            working_dir: None,
            env: EnvVars::new(),
            timeout_ms: None,
            capture_output: true,
        }
    }

    pub fn working_dir(self, dir: &str) -> (r: Command)
        ensures
            r.working_dir is Some && r.working_dir->0@ == dir@,
            r.command_line == self.command_line,
            r.env == self.env,
            r.timeout_ms == self.timeout_ms,
            r.capture_output == self.capture_output,
    {
        Command { working_dir: Some(String::from_str(dir)), ..self }
    }

    /// Adds or replaces one variable.
    pub fn env(self, key: &str, value: &str) -> (r: Command)
        requires
            self.env.wf(),
        ensures
            r.env.wf(),
            r.env@ == self.env@.insert(key@, value@),
            r.command_line == self.command_line,
            r.working_dir == self.working_dir,
            r.timeout_ms == self.timeout_ms,
    {
        let mut c = self;
        c.env.set(String::from_str(key), String::from_str(value));
        c
    }

    /// Adds or replaces several variables, later pairs winning.
    pub fn envs(self, vars: &[(&str, &str)]) -> (r: Command)
        requires
            self.env.wf(),
        ensures
            r.env.wf(),
            r.env@ == with_pairs(self.env@, vars@, vars@.len() as int),
            r.command_line == self.command_line,
            r.working_dir == self.working_dir,
            r.timeout_ms == self.timeout_ms,
    {
        let mut c = self;
        let mut i: usize = 0;
        while i < vars.len()
            invariant
                i <= vars@.len(),
                c.env.wf(),
                c.command_line == self.command_line,
                c.working_dir == self.working_dir,
                c.timeout_ms == self.timeout_ms,
                c.env@ == with_pairs(self.env@, vars@, i as int),
            decreases vars.len() - i,
        {
            let (k, v) = vars[i];
            c.env.set(String::from_str(k), String::from_str(v));
            i = i + 1;
        }
        c
    }

    pub fn timeout(self, millis: u64) -> (r: Command)
        ensures
            r.timeout_ms == Some(millis),
            r.command_line == self.command_line,
            r.working_dir == self.working_dir,
            r.env == self.env,
            r.capture_output == self.capture_output,
    {
        Command { timeout_ms: Some(millis), ..self }
    }

    pub fn capture_output(self, capture: bool) -> (r: Command)
        ensures
            r.capture_output == capture,
            r.command_line == self.command_line,
            r.working_dir == self.working_dir,
            r.env == self.env,
            r.timeout_ms == self.timeout_ms,
    {
        Command { capture_output: capture, ..self }
    }

    pub open spec fn timeout_or_default(&self) -> u64 {
        match self.timeout_ms {
            Some(t) => t,
            None => DEFAULT_TIMEOUT_MS,
        }
    }

    /// The timeout that applies: the command's own, else the default.
    pub fn effective_timeout_ms(&self) -> (r: u64)
        ensures
            r == self.timeout_or_default(),
    {
        match self.timeout_ms {
            Some(t) => t,
            None => DEFAULT_TIMEOUT_MS,
        }
    }
}

impl Default for Command {
    fn default() -> (r: Command)
        ensures
            r.command_line@.len() == 0,
            r.working_dir is None,
            r.timeout_ms is None,
            r.capture_output,
    {
        proof {
            reveal_strlit("");
        }
        Command::new("")
    }
}

/// Builds a `Command` step by step; only a builder with a command line builds.
#[derive(Debug)]
pub struct CommandBuilder {
    command_line: Option<String>,
    working_dir: Option<String>,
    env: EnvVars,
    timeout_ms: Option<u64>,
    capture_output: bool,
}

impl CommandBuilder {
    pub closed spec fn has_line(&self) -> bool {
        self.command_line is Some
    }

    pub closed spec fn line(&self) -> Seq<char> {
        self.command_line->0@
    }

    pub closed spec fn dir(&self) -> Option<Seq<char>> {
        match self.working_dir {
            Some(d) => Some(d@),
            None => None,
        }
    }

    pub closed spec fn timeout_view(&self) -> Option<u64> {
        self.timeout_ms
    }

    pub closed spec fn capture_view(&self) -> bool {
        self.capture_output
    }

    pub closed spec fn env_view(&self) -> Map<Seq<char>, Seq<char>> {
        self.env@
    }

    pub closed spec fn wf(&self) -> bool {
        self.env.wf()
    }

    pub fn new() -> (r: CommandBuilder)
        ensures
            r.wf(),
            !r.has_line(),
            r.dir() is None,
            r.timeout_view() is None,
            r.capture_view(),
            r.env_view() == Map::<Seq<char>, Seq<char>>::empty(),
    {
        CommandBuilder {
            command_line: None,
            working_dir: None,
            env: EnvVars::new(),
            timeout_ms: None,
            capture_output: true,
        }
    }

    pub fn command_line(self, cmd: &str) -> (r: CommandBuilder)
        ensures
            r.has_line() && r.line() == cmd@,
            r.dir() == self.dir(),
            r.timeout_view() == self.timeout_view(),
            r.capture_view() == self.capture_view(),
            r.env_view() == self.env_view(),
            r.wf() == self.wf(),
    {
        CommandBuilder { command_line: Some(String::from_str(cmd)), ..self }
    }

    pub fn working_dir(self, dir: &str) -> (r: CommandBuilder)
        ensures
            r.dir() == Some(dir@),
            r.has_line() == self.has_line() && r.line() == self.line(),
            r.timeout_view() == self.timeout_view(),
            r.capture_view() == self.capture_view(),
            r.env_view() == self.env_view(),
            r.wf() == self.wf(),
    {
        CommandBuilder { working_dir: Some(String::from_str(dir)), ..self }
    }

    pub fn env(self, key: &str, value: &str) -> (r: CommandBuilder)
        requires
            self.wf(),
        ensures
            r.wf(),
            r.env_view() == self.env_view().insert(key@, value@),
            r.has_line() == self.has_line() && r.line() == self.line(),
            r.dir() == self.dir(),
            r.timeout_view() == self.timeout_view(),
            r.capture_view() == self.capture_view(),
    {
        let mut b = self;
        b.env.set(String::from_str(key), String::from_str(value));
        b
    }

    pub fn timeout(self, millis: u64) -> (r: CommandBuilder)
        ensures
            r.timeout_view() == Some(millis),
            r.has_line() == self.has_line() && r.line() == self.line(),
            r.dir() == self.dir(),
            r.capture_view() == self.capture_view(),
            r.env_view() == self.env_view(),
            r.wf() == self.wf(),
    {
        CommandBuilder { timeout_ms: Some(millis), ..self }
    }

    pub fn capture_output(self, capture: bool) -> (r: CommandBuilder)
        ensures
            r.capture_view() == capture,
            r.has_line() == self.has_line() && r.line() == self.line(),
            r.dir() == self.dir(),
            r.timeout_view() == self.timeout_view(),
            r.env_view() == self.env_view(),
            r.wf() == self.wf(),
    {
        CommandBuilder { capture_output: capture, ..self }
    }

    /// The command, or `None` when no command line was given.
    pub fn build(self) -> (r: Option<Command>)
        ensures
            r is Some <==> self.has_line(),
            r is Some ==> r->0.command_line@ == self.line() && r->0.timeout_ms == self.timeout_view()
                && r->0.capture_output == self.capture_view() && r->0.env@ == self.env_view()
                && r->0.env.wf() == self.wf()
                && (match r->0.working_dir {
                    Some(d) => self.dir() == Some(d@),
                    None => self.dir() is None,
                }),
    {
        match self.command_line {
            Some(cmd) => Some(Command {
                command_line: cmd,
                working_dir: self.working_dir,
                env: self.env,
                timeout_ms: self.timeout_ms,
                capture_output: self.capture_output,
            }),
            None => None,
        }
    }
}

/// What one attempt to read from the terminal gave.
#[derive(Debug)]
pub enum ReadEvent {
    /// Some bytes.
    Data(Vec<u8>),
    /// The end of the stream.
    Eof,
    /// Nothing yet.
    WouldBlock,
    /// Any other failure, described.
    Failed(String),
}

/// What the driver of an execution does next.
#[derive(Debug)]
pub enum LoopAction {
    /// Forward the chunk (when streaming), then ask whether the child has exited and
    /// report it with `on_child_probe`.
    ProbeChild(OutputChunk),
    /// Forward the chunk (when streaming) and read again: the child has exited and the
    /// remaining output is being drained.
    Forward(OutputChunk),
    /// Sleep about ten milliseconds, then read again.
    Sleep,
    /// Stop reading; collect the exit status.
    Finish,
    /// Give up with this error.
    Fail(ShellTunnelError),
}

/// The decisions of one execution's read loop, and the output it has gathered.
#[derive(Debug)]
pub struct ExecutionLoop {
    pub raw: Vec<u8>,
    pub timeout_ms: u64,
    /// The child has exited; what the terminal still holds is being read out.
    pub draining: bool,
}

impl ExecutionLoop {
    /// A loop for `command`, with nothing read yet.
    pub fn start(command: &Command) -> (r: ExecutionLoop)
        ensures
            r.raw@.len() == 0,
            r.timeout_ms == command.timeout_or_default(),
            !r.draining,
    {
        ExecutionLoop { raw: Vec::new(), timeout_ms: command.effective_timeout_ms(), draining: false }
    }

    /// Takes in whether the child was found to have exited after a read; once it has,
    /// the loop drains.
    pub fn on_child_probe(&mut self, exited: bool)
        ensures
            final(self).draining == (old(self).draining || exited),
            final(self).raw@ == old(self).raw@,
            final(self).timeout_ms == old(self).timeout_ms,
    {
        if exited {
            self.draining = true;
        }
    }

    /// Whether `elapsed_ms` has passed the timeout.
    pub fn is_timed_out(&self, elapsed_ms: u64) -> (r: bool)
        ensures
            r == (elapsed_ms > self.timeout_ms),
    {
        elapsed_ms > self.timeout_ms
    }

    /// Takes in one read's outcome. Bytes are gathered and handed on as one chunk, with
    /// a probe of the child unless it has already exited; no bytes, or the end of the
    /// stream, finish. While the loop is not draining, nothing yet means sleep and a
    /// failure ends with `Io`; while draining, either finishes.
    pub fn on_read(&mut self, event: ReadEvent) -> (r: LoopAction)
        ensures
            final(self).timeout_ms == old(self).timeout_ms,
            final(self).draining == old(self).draining,
            match event {
                ReadEvent::Data(b) => if b@.len() == 0 {
                    final(self).raw@ == old(self).raw@ && r is Finish
                } else {
                    final(self).raw@ == old(self).raw@ + b@ && (if old(self).draining {
                        r matches LoopAction::Forward(c) && c.raw@ == b@ && c.source == OutputSource::Combined
                            && c.text@ == utf8_lossy(b@)
                    } else {
                        r matches LoopAction::ProbeChild(c) && c.raw@ == b@ && c.source == OutputSource::Combined
                            && c.text@ == utf8_lossy(b@)
                    })
                },
                ReadEvent::Eof => final(self).raw@ == old(self).raw@ && r is Finish,
                ReadEvent::WouldBlock => final(self).raw@ == old(self).raw@ && (if old(self).draining {
                    r is Finish
                } else {
                    r is Sleep
                }),
                ReadEvent::Failed(m) => final(self).raw@ == old(self).raw@ && (if old(self).draining {
                    r is Finish
                } else {
                    r matches LoopAction::Fail(ShellTunnelError::Io(x)) && x@ == m@
                }),
            },
    {
        match event {
            ReadEvent::Data(b) => {
                if b.len() == 0 {
                    return LoopAction::Finish;
                }
                let mut i: usize = 0;
                let ghost start = self.raw@;
                while i < b.len()
                    invariant
                        i <= b@.len(),
                        self.raw@ == start + b@.take(i as int),
                        self.timeout_ms == old(self).timeout_ms,
                        self.draining == old(self).draining,
                    decreases b.len() - i,
                {
                    self.raw.push(b[i]);
                    i = i + 1;
                    assert(self.raw@ =~= start + b@.take(i as int));
                }
                assert(b@.take(b@.len() as int) =~= b@);
                if self.draining {
                    LoopAction::Forward(OutputChunk::combined(b))
                } else {
                    LoopAction::ProbeChild(OutputChunk::combined(b))
                }
            },
            ReadEvent::Eof => LoopAction::Finish,
            ReadEvent::WouldBlock => if self.draining {
                LoopAction::Finish
            } else {
                LoopAction::Sleep
            },
            ReadEvent::Failed(m) => if self.draining {
                LoopAction::Finish
            } else {
                LoopAction::Fail(ShellTunnelError::Io(m))
            },
        }
    }

    /// The result of a loop cut off by its timeout.
    pub fn timed_out_result(self, elapsed_ms: u64) -> (r: ExecutionResult)
        ensures
            r.raw_output@ == self.raw@,
            r.text_output@ == utf8_lossy(sanitized(self.raw@)),
            r.exit_code is None,
            r.duration_ms == elapsed_ms,
            r.timed_out,
    {
        let text = OutputSanitizer::strip_ansi(self.raw.as_slice());
        ExecutionResult::timeout(self.raw, text, elapsed_ms)
    }

    /// The result of a loop that ran to the end, with the exit code if one was had.
    pub fn finished_result(self, elapsed_ms: u64, exit_code: Option<i32>) -> (r: ExecutionResult)
        ensures
            r.raw_output@ == self.raw@,
            r.text_output@ == utf8_lossy(sanitized(self.raw@)),
            r.exit_code == exit_code,
            r.duration_ms == elapsed_ms,
            !r.timed_out,
    {
        let text = OutputSanitizer::strip_ansi(self.raw.as_slice());
        let r = ExecutionResult::new(self.raw, text, elapsed_ms);
        match exit_code {
            Some(c) => r.with_exit_code(c),
            None => r,
        }
    }
}

/// The exit code reported for a child: 0 on success, else its own code.
pub fn exit_code_of(success: bool, code: u32) -> (r: i32)
    ensures
        success ==> r == 0,
        !success ==> r == code as i32,
{
    if success {
        0
    } else {
        code as i32
    }
}

/// Runs commands; the terminal work itself is done by the caller, which feeds the
/// read loop's events to an `ExecutionLoop`.
#[derive(Debug)]
pub struct CommandExecutor {
    pub default_timeout_ms: u64,
}

impl CommandExecutor {
    pub fn new() -> (r: CommandExecutor)
        ensures
            r.default_timeout_ms == DEFAULT_TIMEOUT_MS,
    {
        CommandExecutor { default_timeout_ms: DEFAULT_TIMEOUT_MS }
    }
}

} // verus!
