use vstd::prelude::*;

use crate::text::{
    chars_of, concat_str, contains_char, decimal, decimal_chars, lowercase, lowercase_of,
    seq_contains, str_contains, string_from_chars, trim, trim_str,
};

verus! {

/// Limits and patterns that commands are checked against.
#[derive(Debug, Clone)]
pub struct ValidationConfig {
    pub max_command_length: usize,
    pub max_output_size: usize,
    pub max_timeout_secs: u64,
    pub min_timeout_secs: u64,
    pub block_dangerous: bool,
    pub blocked_patterns: Vec<String>,
}

impl ValidationConfig {
    /// 4096-byte commands, 10 MiB output, 1 to 300 s, dangerous commands blocked.
    pub fn new() -> (r: ValidationConfig)
        ensures
            r.max_command_length == 4096,
            r.max_output_size == 10 * 1024 * 1024,
            r.max_timeout_secs == 300,
            r.min_timeout_secs == 1,
            r.block_dangerous,
            r.blocked_patterns@.len() == 0,
    {
        ValidationConfig {
            max_command_length: 4096,
            max_output_size: 10 * 1024 * 1024,
            max_timeout_secs: 300,
            min_timeout_secs: 1,
            block_dangerous: true,
            blocked_patterns: Vec::new(),
        }
    }

    /// 64 KiB commands, 100 MiB output, 1 s to 1 h, nothing blocked.
    pub fn permissive() -> (r: ValidationConfig)
        ensures
            r.max_command_length == 65536,
            r.max_output_size == 100 * 1024 * 1024,
            r.max_timeout_secs == 3600,
            r.min_timeout_secs == 1,
            !r.block_dangerous,
            r.blocked_patterns@.len() == 0,
    {
        ValidationConfig {
            max_command_length: 65536,
            max_output_size: 100 * 1024 * 1024,
            max_timeout_secs: 3600,
            min_timeout_secs: 1,
            block_dangerous: false,
            blocked_patterns: Vec::new(),
        }
    }

    /// 1 KiB commands, 1 MiB output, 1 to 60 s, dangerous commands and five more
    /// patterns blocked.
    pub fn strict() -> (r: ValidationConfig)
        ensures
            r.max_command_length == 1024,
            r.max_output_size == 1024 * 1024,
            r.max_timeout_secs == 60,
            r.min_timeout_secs == 1,
            r.block_dangerous,
            r.blocked_patterns@.len() == 5,
            r.blocked_patterns@[0]@ == "rm -rf"@,
            r.blocked_patterns@[1]@ == "mkfs"@,
            r.blocked_patterns@[2]@ == "dd if="@,
            r.blocked_patterns@[3]@ == ":(){"@,
            r.blocked_patterns@[4]@ == ">(w)"@,
    {
        let mut p: Vec<String> = Vec::new();
        p.push(String::from_str("rm -rf"));
        p.push(String::from_str("mkfs"));
        p.push(String::from_str("dd if="));
        p.push(String::from_str(":(){"));
        p.push(String::from_str(">(w)"));
        ValidationConfig {
            max_command_length: 1024,
            max_output_size: 1024 * 1024,
            max_timeout_secs: 60,
            min_timeout_secs: 1,
            block_dangerous: true,
            blocked_patterns: p,
        }
    }
}

impl Default for ValidationConfig {
    fn default() -> (r: ValidationConfig)
        ensures
            r.max_command_length == 4096,
            r.max_output_size == 10 * 1024 * 1024,
            r.max_timeout_secs == 300,
            r.min_timeout_secs == 1,
            r.block_dangerous,
            r.blocked_patterns@.len() == 0,
    {
        ValidationConfig::new()
    }
}

/// Why a command, timeout, or path was refused.
#[allow(inconsistent_fields)]
#[derive(Debug, Clone)]
pub enum ValidationError {
    CommandTooLong { length: usize, max: usize },
    EmptyCommand,
    DangerousCommand { pattern: String },
    BlockedPattern { pattern: String },
    InvalidCharacter(char),
    TimeoutTooShort { value: u64, min: u64 },
    TimeoutTooLong { value: u64, max: u64 },
    PathTraversal,
    PathTooLong { length: usize, max: usize },
}

/// How `format!("{:?}", c)` writes a character.
pub uninterp spec fn char_debug_of(c: char) -> Seq<char>;

/// Relies on `Debug for char`: the quoted, escaped form depends on the character alone.
#[verifier::external_body]
fn char_debug(c: char) -> (r: String)
    ensures
        r@ == char_debug_of(c),
{
    format!("{:?}", c)
}

/// The message of a validation error.
pub open spec fn validation_message(e: ValidationError) -> Seq<char> {
    match e {
        ValidationError::CommandTooLong { length, max } =>
            "Command too long: "@ + decimal(length as nat) + " chars (max: "@ + decimal(max as nat) + ")"@,
        ValidationError::EmptyCommand => "Command cannot be empty"@,
        ValidationError::DangerousCommand { pattern } => "Dangerous command pattern detected: "@ + pattern@,
        ValidationError::BlockedPattern { pattern } => "Command contains blocked pattern: "@ + pattern@,
        ValidationError::InvalidCharacter(c) => "Command contains invalid character: "@ + char_debug_of(c),
        ValidationError::TimeoutTooShort { value, min } =>
            "Timeout too short: "@ + decimal(value as nat) + "s (min: "@ + decimal(min as nat) + "s)"@,
        ValidationError::TimeoutTooLong { value, max } =>
            "Timeout too long: "@ + decimal(value as nat) + "s (max: "@ + decimal(max as nat) + "s)"@,
        ValidationError::PathTraversal => "Path traversal detected"@,
        ValidationError::PathTooLong { length, max } =>
            "Path too long: "@ + decimal(length as nat) + " chars (max: "@ + decimal(max as nat) + ")"@,
    }
}

fn number_text(v: u64) -> (r: String)
    ensures
        r@ == decimal(v as nat),
{
    string_from_chars(decimal_chars(v))
}

fn framed(a: &str, x: u64, b: &str, y: u64, c: &str) -> (r: String)
    ensures
        r@ == a@ + decimal(x as nat) + b@ + decimal(y as nat) + c@,
{
    let s1 = concat_str(a, number_text(x).as_str());
    let s2 = concat_str(s1.as_str(), b);
    let s3 = concat_str(s2.as_str(), number_text(y).as_str());
    concat_str(s3.as_str(), c)
}

impl ValidationError {
    /// The message of this error.
    pub fn to_string(&self) -> (r: String)
        ensures
            r@ == validation_message(*self),
    {
        match self {
            ValidationError::CommandTooLong { length, max } =>
                framed("Command too long: ", *length as u64, " chars (max: ", *max as u64, ")"),
            ValidationError::EmptyCommand => String::from_str("Command cannot be empty"),
            ValidationError::DangerousCommand { pattern } =>
                concat_str("Dangerous command pattern detected: ", pattern.as_str()),
            ValidationError::BlockedPattern { pattern } =>
                concat_str("Command contains blocked pattern: ", pattern.as_str()),
            ValidationError::InvalidCharacter(c) =>
                concat_str("Command contains invalid character: ", char_debug(*c).as_str()),
            ValidationError::TimeoutTooShort { value, min } =>
                framed("Timeout too short: ", *value, "s (min: ", *min, "s)"),
            ValidationError::TimeoutTooLong { value, max } =>
                framed("Timeout too long: ", *value, "s (max: ", *max, "s)"),
            ValidationError::PathTraversal => String::from_str("Path traversal detected"),
            ValidationError::PathTooLong { length, max } =>
                framed("Path too long: ", *length as u64, " chars (max: ", *max as u64, ")"),
        }
    }
}

/// The kind of destructive command that lowercase text `l` looks like, if any.
pub open spec fn dangerous_kind(l: Seq<char>) -> Option<Seq<char>> {
    if seq_contains(l, "rm -rf /"@) || seq_contains(l, "rm -fr /"@) {
        Some("rm -rf /"@)
    } else if seq_contains(l, "mkfs"@) || seq_contains(l, "fdisk"@) || seq_contains(l, "parted"@) {
        Some("disk formatting"@)
    } else if seq_contains(l, "dd if=/dev"@) && seq_contains(l, "of=/dev"@) {
        Some("raw disk write"@)
    } else if seq_contains(l, ":(){"@) || seq_contains(l, ":(){ :|:& };:"@) {
        Some("fork bomb"@)
    } else if seq_contains(l, "shutdown"@) || seq_contains(l, "reboot"@) || seq_contains(l, "init 0"@) {
        Some("system shutdown"@)
    } else if seq_contains(l, "> /dev/sd"@) || seq_contains(l, "> /dev/nvme"@) {
        Some("device overwrite"@)
    } else {
        None
    }
}

/// The index of the first pattern among `ps` that occurs in `c`, if any.
pub open spec fn first_blocked(c: Seq<char>, ps: Seq<Seq<char>>) -> Option<int> {
    if exists|i: int| 0 <= i < ps.len() && seq_contains(c, ps[i]) {
        Some(choose|i: int| 0 <= i < ps.len() && seq_contains(c, ps[i])
            && forall|j: int| 0 <= j < i ==> !seq_contains(c, ps[j]))
    } else {
        None
    }
}

/// Checks commands, timeouts, and working directories before they run.
#[derive(Debug)]
pub struct CommandValidator {
    config: ValidationConfig,
}

/// The outcome of `validate_command` on text `c` (as characters and as its byte
/// length `len`) under `cfg`, given the lowercase form `lower` of `c`.
pub open spec fn command_verdict(cfg: ValidationConfig, c: Seq<char>, len: usize, lower: Seq<char>) -> Result<(), ValidationErrorKind> {
    if len > cfg.max_command_length {
        Err(ValidationErrorKind::CommandTooLong)
    } else if trim(c).len() == 0 {
        Err(ValidationErrorKind::EmptyCommand)
    } else if cfg.block_dangerous && dangerous_kind(lower) is Some {
        Err(ValidationErrorKind::DangerousCommand(dangerous_kind(lower)->0))
    } else if first_blocked(c, cfg.blocked_patterns@.map_values(|p: String| p@)) is Some {
        Err(ValidationErrorKind::BlockedPattern(
            cfg.blocked_patterns@[first_blocked(c, cfg.blocked_patterns@.map_values(|p: String| p@))->0]@,
        ))
    } else if c.contains('\0') {
        Err(ValidationErrorKind::InvalidCharacter('\0'))
    } else {
        Ok(())
    }
}

/// A `ValidationError` with its texts as sequences.
pub ghost enum ValidationErrorKind {
    CommandTooLong,
    EmptyCommand,
    DangerousCommand(Seq<char>),
    BlockedPattern(Seq<char>),
    InvalidCharacter(char),
}

/// What kind of error `e` is, in the terms of `command_verdict`.
pub open spec fn kind_of(e: ValidationError) -> ValidationErrorKind {
    match e {
        ValidationError::CommandTooLong { .. } => ValidationErrorKind::CommandTooLong,
        ValidationError::EmptyCommand => ValidationErrorKind::EmptyCommand,
        ValidationError::DangerousCommand { pattern } => ValidationErrorKind::DangerousCommand(pattern@),
        ValidationError::BlockedPattern { pattern } => ValidationErrorKind::BlockedPattern(pattern@),
        ValidationError::InvalidCharacter(c) => ValidationErrorKind::InvalidCharacter(c),
        _ => ValidationErrorKind::EmptyCommand,
    }
}

fn dangerous_pattern(lower: &str) -> (r: Option<String>)
    ensures
        r is Some <==> dangerous_kind(lower@) is Some,
        r is Some ==> r->0@ == dangerous_kind(lower@)->0,
{
    if str_contains(lower, "rm -rf /") || str_contains(lower, "rm -fr /") {
        return Some(String::from_str("rm -rf /"));
    }
    if str_contains(lower, "mkfs") || str_contains(lower, "fdisk") || str_contains(lower, "parted") {
        return Some(String::from_str("disk formatting"));
    }
    if str_contains(lower, "dd if=/dev") && str_contains(lower, "of=/dev") {
        return Some(String::from_str("raw disk write"));
    }
    if str_contains(lower, ":(){") || str_contains(lower, ":(){ :|:& };:") {
        return Some(String::from_str("fork bomb"));
    }
    if str_contains(lower, "shutdown") || str_contains(lower, "reboot") || str_contains(lower, "init 0") {
        return Some(String::from_str("system shutdown"));
    }
    if str_contains(lower, "> /dev/sd") || str_contains(lower, "> /dev/nvme") {
        return Some(String::from_str("device overwrite"));
    }
    None
}

fn first_blocked_index(command: &str, patterns: &Vec<String>) -> (r: Option<usize>)
    ensures
        r is None ==> first_blocked(command@, patterns@.map_values(|p: String| p@)) is None,
        r is Some ==> first_blocked(command@, patterns@.map_values(|p: String| p@)) == Some(r->0 as int)
            && r->0 < patterns@.len(),
{
    let ghost ps = patterns@.map_values(|p: String| p@);
    let mut i: usize = 0;
    while i < patterns.len()
        invariant
            ps == patterns@.map_values(|p: String| p@),
            i <= ps.len(),
            forall|j: int| 0 <= j < i ==> !seq_contains(command@, ps[j]),
        decreases patterns.len() - i,
    {
        if str_contains(command, patterns[i].as_str()) {
            proof {
                assert(ps[i as int] == patterns@[i as int]@);
                let w = choose|w: int| 0 <= w < ps.len() && seq_contains(command@, ps[w])
                    && forall|j: int| 0 <= j < w ==> !seq_contains(command@, ps[j]);
                assert(0 <= i < ps.len() && seq_contains(command@, ps[i as int]));
                if w < i {
                } else if w > i {
                    assert(!seq_contains(command@, ps[i as int]));
                }
            }
            return Some(i);
        }
        proof {
            assert(ps[i as int] == patterns@[i as int]@);
        }
        i = i + 1;
    }
    None
}

impl CommandValidator {
    pub closed spec fn config_view(&self) -> ValidationConfig {
        self.config
    }

    pub fn new(config: ValidationConfig) -> (r: CommandValidator)
        ensures
            r.config_view() == config,
    {
        CommandValidator { config }
    }

    /// Refuses, in this order: a command longer than the limit (in bytes), a blank
    /// one, a destructive one (when blocking is on), one holding a blocked pattern
    /// (the first that occurs is named), and one holding a NUL character.
    pub fn validate_command(&self, command: &str) -> (r: Result<(), ValidationError>)
        ensures
            r is Ok <==> command_verdict(self.config_view(), command@, command.len(), lowercase_of(command@)) is Ok,
            r is Err ==> command_verdict(self.config_view(), command@, command.len(), lowercase_of(command@))
                == Err::<(), ValidationErrorKind>(kind_of(r->Err_0)),
            (r matches Err(ValidationError::CommandTooLong { length, max })) ==> (r matches Err(ValidationError::CommandTooLong { length, max }) && length == command.len()
                && max == self.config_view().max_command_length),
    {
        let len = command.len();
        if len > self.config.max_command_length {
            return Err(ValidationError::CommandTooLong { length: len, max: self.config.max_command_length });
        }
        let t = trim_str(command);
        if t.as_str().is_empty() {
            return Err(ValidationError::EmptyCommand);
        }
        let lower = lowercase(command);
        if self.config.block_dangerous {
            match dangerous_pattern(lower.as_str()) {
                Some(p) => {
                    return Err(ValidationError::DangerousCommand { pattern: p });
                },
                None => {},
            }
        }
        match first_blocked_index(command, &self.config.blocked_patterns) {
            Some(i) => {
                return Err(ValidationError::BlockedPattern { pattern: self.config.blocked_patterns[i].clone() });
            },
            None => {},
        }
        if contains_char(command, '\0') {
            return Err(ValidationError::InvalidCharacter('\0'));
        }
        Ok(())
    }

    /// Accepts a timeout within the configured bounds, in seconds.
    pub fn validate_timeout(&self, timeout_secs: u64) -> (r: Result<u64, ValidationError>)
        ensures
            timeout_secs < self.config_view().min_timeout_secs ==> (r matches Err(ValidationError::TimeoutTooShort { value, min })
                && value == timeout_secs && min == self.config_view().min_timeout_secs),
            self.config_view().min_timeout_secs <= timeout_secs && timeout_secs > self.config_view().max_timeout_secs ==> (r matches Err(ValidationError::TimeoutTooLong { value, max })
                && value == timeout_secs && max == self.config_view().max_timeout_secs),
            self.config_view().min_timeout_secs <= timeout_secs <= self.config_view().max_timeout_secs ==> r == Ok::<u64, ValidationError>(timeout_secs),
    {
        if timeout_secs < self.config.min_timeout_secs {
            return Err(ValidationError::TimeoutTooShort { value: timeout_secs, min: self.config.min_timeout_secs });
        }
        if timeout_secs > self.config.max_timeout_secs {
            return Err(ValidationError::TimeoutTooLong { value: timeout_secs, max: self.config.max_timeout_secs });
        }
        Ok(timeout_secs)
    }

    /// Refuses a path holding `..`, a NUL character, or more than 4096 bytes, in that order.
    pub fn validate_working_dir(&self, path: &str) -> (r: Result<(), ValidationError>)
        ensures
            seq_contains(path@, ".."@) ==> r matches Err(ValidationError::PathTraversal),
            !seq_contains(path@, ".."@) && path@.contains('\0') ==> (r matches Err(ValidationError::InvalidCharacter(c)) && c == '\0'),
            !seq_contains(path@, ".."@) && !path@.contains('\0') && path.len() > 4096
                ==> (r matches Err(ValidationError::PathTooLong { length, max }) && length == path.len() && max == 4096),
            !seq_contains(path@, ".."@) && !path@.contains('\0') && path.len() <= 4096 ==> r is Ok,
    {
        if str_contains(path, "..") {
            return Err(ValidationError::PathTraversal);
        }
        if contains_char(path, '\0') {
            return Err(ValidationError::InvalidCharacter('\0'));
        }
        let len = path.len();
        if len > 4096 {
            return Err(ValidationError::PathTooLong { length: len, max: 4096 });
        }
        Ok(())
    }

    pub fn max_output_size(&self) -> (r: usize)
        ensures
            r == self.config_view().max_output_size,
    {
        self.config.max_output_size
    }
}

impl Default for CommandValidator {
    fn default() -> (r: CommandValidator)
        ensures
            r.config_view().max_command_length == 4096,
            r.config_view().block_dangerous,
            r.config_view().blocked_patterns@.len() == 0,
    {
        CommandValidator::new(ValidationConfig::new())
    }
}

/// Characters of the Unicode general category Cc.
pub open spec fn is_control_char(c: char) -> bool {
    c <= '\u{1f}' || ('\u{7f}' <= c && c <= '\u{9f}')
}

/// The characters that display keeps: everything but controls, and newline and tab.
pub open spec fn shown(c: char) -> bool {
    !is_control_char(c) || c == '\n' || c == '\t'
}

/// The displayable characters of `s`, in order.
pub open spec fn displayable(s: Seq<char>) -> Seq<char> {
    s.filter(|c: char| shown(c))
}

/// At most the first 1000 displayable characters of a command.
pub fn sanitize_for_display(command: &str) -> (r: String)
    ensures
        r@ == (if displayable(command@).len() <= 1000 {
            displayable(command@)
        } else {
            displayable(command@).take(1000)
        }),
{
    let c = chars_of(command);
    let mut out: Vec<char> = Vec::new();
    let mut i: usize = 0;
    while i < c.len() && out.len() < 1000
        invariant
            i <= c@.len(),
            c@ == command@,
            out@.len() <= 1000,
            out@ == displayable(c@.take(i as int)),
        decreases c.len() - i,
    {
        proof {
            assert(c@.take(i + 1).drop_last() =~= c@.take(i as int));
            reveal(Seq::filter);
        }
        let ch = c[i];
        if !(ch <= '\u{1f}' || ('\u{7f}' <= ch && ch <= '\u{9f}')) || ch == '\n' || ch == '\t' {
            out.push(ch);
        }
        i = i + 1;
    }
    proof {
        lemma_displayable_prefix(c@, i as int);
        if out@.len() < 1000 {
            assert(c@.take(i as int) =~= c@);
        } else {
            let d = displayable(command@);
            assert(d.take(1000) == out@);
            if d.len() <= 1000 {
                assert(d.take(1000) =~= d);
            }
        }
    }
    string_from_chars(out)
}

proof fn lemma_displayable_prefix(s: Seq<char>, i: int)
    requires
        0 <= i <= s.len(),
    ensures
        displayable(s.take(i)).len() <= displayable(s).len(),
        displayable(s).take(displayable(s.take(i)).len() as int) == displayable(s.take(i)),
    decreases s.len() - i,
{
    reveal(Seq::filter);
    if i < s.len() {
        lemma_displayable_prefix(s, i + 1);
        assert(s.take(i + 1).drop_last() =~= s.take(i));
        let a = displayable(s.take(i));
        let b = displayable(s.take(i + 1));
        assert(b.take(a.len() as int) =~= a);
        assert(displayable(s).take(a.len() as int) =~= displayable(s).take(b.len() as int).take(a.len() as int));
    } else {
        assert(s.take(i) =~= s);
        assert(displayable(s).take(displayable(s).len() as int) =~= displayable(s));
    }
}

/// Whether `input` holds any shell metacharacter sequence that suggests injection.
pub open spec fn injection_like(s: Seq<char>) -> bool {
    ||| seq_contains(s, "$("@)
    ||| seq_contains(s, "`"@)
    ||| seq_contains(s, "${"@)
    ||| seq_contains(s, "&&"@)
    ||| seq_contains(s, "||"@)
    ||| seq_contains(s, ";"@)
    ||| seq_contains(s, "|"@)
    ||| seq_contains(s, ">"@)
    ||| seq_contains(s, "<"@)
    ||| seq_contains(s, "\\n"@)
    ||| seq_contains(s, "\\r"@)
}

pub fn looks_like_injection(input: &str) -> (r: bool)
    ensures
        r == injection_like(input@),
{
    str_contains(input, "$(") || str_contains(input, "`") || str_contains(input, "${")
        || str_contains(input, "&&") || str_contains(input, "||") || str_contains(input, ";")
        || str_contains(input, "|") || str_contains(input, ">") || str_contains(input, "<")
        || str_contains(input, "\\n") || str_contains(input, "\\r")
}

} // verus!
