use vstd::prelude::*;

use crate::env::EnvVars;
use crate::text::{
    chars_of, concat_str, decimal, decimal_chars, is_ws, lines_of, lines_vec, slice_chars,
    split_newlines, string_from_chars, trim, trim_end, trim_start, trim_vec, wall_clock_nanos,
};

verus! {

/// Per-session execution history.
#[derive(Debug, Clone)]
pub struct SessionContext {
    cwd: Option<String>,
    env: EnvVars,
    last_command: Option<String>,
    last_exit_code: Option<i32>,
    execution_count: u64,
}

/// The counter after one more recorded execution; it stays at its ceiling.
pub open spec fn bumped(n: u64) -> u64 {
    if n < u64::MAX {
        (n + 1) as u64
    } else {
        n
    }
}

impl SessionContext {
    pub closed spec fn cwd_view(&self) -> Option<Seq<char>> {
        match self.cwd {
            Some(c) => Some(c@),
            None => None,
        }
    }

    pub closed spec fn env_view(&self) -> Map<Seq<char>, Seq<char>> {
        self.env@
    }

    pub closed spec fn last_command_view(&self) -> Option<Seq<char>> {
        match self.last_command {
            Some(c) => Some(c@),
            None => None,
        }
    }

    pub closed spec fn exit_code_view(&self) -> Option<i32> {
        self.last_exit_code
    }

    pub closed spec fn count_view(&self) -> u64 {
        self.execution_count
    }

    pub closed spec fn wf(&self) -> bool {
        self.env.wf()
    }

    /// The two histories agree on everything observable.
    pub open spec fn same_as(&self, o: &SessionContext) -> bool {
        &&& self.cwd_view() == o.cwd_view()
        &&& self.env_view() == o.env_view()
        &&& self.last_command_view() == o.last_command_view()
        &&& self.exit_code_view() == o.exit_code_view()
        &&& self.count_view() == o.count_view()
        &&& self.wf() == o.wf()
    }

    /// An independent copy.
    pub fn snapshot(&self) -> (r: SessionContext)
        ensures
            r.same_as(self),
    {
        SessionContext {
            cwd: match &self.cwd {
                Some(c) => Some(c.clone()),
                None => None,
            },
            env: self.env.snapshot(),
            last_command: match &self.last_command {
                Some(c) => Some(c.clone()),
                None => None,
            },
            last_exit_code: self.last_exit_code,
            execution_count: self.execution_count,
        }
    }

    /// An empty history.
    pub fn new() -> (r: SessionContext)
        ensures
            r.wf(),
            r.cwd_view() is None,
            r.env_view() == Map::<Seq<char>, Seq<char>>::empty(),
            r.last_command_view() is None,
            r.exit_code_view() is None,
            r.count_view() == 0,
    {
        SessionContext {
            cwd: None,
            env: EnvVars::new(),
            last_command: None,
            last_exit_code: None,
            execution_count: 0,
        }
    }

    /// An empty history with a working-directory hint.
    pub fn with_cwd(cwd: &str) -> (r: SessionContext)
        ensures
            r.wf(),
            r.cwd_view() == Some(cwd@),
            r.env_view() == Map::<Seq<char>, Seq<char>>::empty(),
            r.last_command_view() is None,
            r.exit_code_view() is None,
            r.count_view() == 0,
    {
        let mut r = SessionContext::new();
        r.cwd = Some(String::from_str(cwd));
        r
    }

    pub fn cwd(&self) -> (r: Option<&String>)
        ensures
            r is Some <==> self.cwd_view() is Some,
            r is Some ==> r->0@ == self.cwd_view()->0,
    {
        self.cwd.as_ref()
    }

    pub fn set_cwd(&mut self, cwd: &str)
        ensures
            final(self).cwd_view() == Some(cwd@),
            final(self).wf() == old(self).wf(),
            final(self).env_view() == old(self).env_view(),
            final(self).last_command_view() == old(self).last_command_view(),
            final(self).exit_code_view() == old(self).exit_code_view(),
            final(self).count_view() == old(self).count_view(),
    {
        self.cwd = Some(String::from_str(cwd));
    }

    pub fn clear_cwd(&mut self)
        ensures
            final(self).cwd_view() is None,
            final(self).wf() == old(self).wf(),
            final(self).env_view() == old(self).env_view(),
            final(self).last_command_view() == old(self).last_command_view(),
            final(self).exit_code_view() == old(self).exit_code_view(),
            final(self).count_view() == old(self).count_view(),
    {
        self.cwd = None;
    }

    pub fn env(&self) -> (r: &EnvVars)
        ensures
            r@ == self.env_view(),
            self.wf() ==> r.wf(),
    {
        &self.env
    }

    pub fn get_env(&self, key: &str) -> (r: Option<&str>)
        requires
            self.wf(),
        ensures
            r is Some <==> self.env_view().contains_key(key@),
            r is Some ==> r->0@ == self.env_view()[key@],
    {
        match self.env.get(key) {
            Some(v) => Some(v.as_str()),
            None => None,
        }
    }

    pub fn set_env(&mut self, key: &str, value: &str)
        requires
            old(self).wf(),
        ensures
            final(self).wf(),
            final(self).env_view() == old(self).env_view().insert(key@, value@),
            final(self).cwd_view() == old(self).cwd_view(),
            final(self).last_command_view() == old(self).last_command_view(),
            final(self).exit_code_view() == old(self).exit_code_view(),
            final(self).count_view() == old(self).count_view(),
    {
        self.env.set(String::from_str(key), String::from_str(value));
    }

    pub fn remove_env(&mut self, key: &str) -> (r: Option<String>)
        requires
            old(self).wf(),
        ensures
            final(self).wf(),
            final(self).env_view() == old(self).env_view().remove(key@),
            r is Some <==> old(self).env_view().contains_key(key@),
            r is Some ==> r->0@ == old(self).env_view()[key@],
            final(self).cwd_view() == old(self).cwd_view(),
            final(self).last_command_view() == old(self).last_command_view(),
            final(self).exit_code_view() == old(self).exit_code_view(),
            final(self).count_view() == old(self).count_view(),
    {
        self.env.remove(key)
    }

    /// Union of the variables; on a shared name the incoming value wins.
    pub fn merge_env(&mut self, vars: EnvVars)
        requires
            old(self).wf(),
            vars.wf(),
        ensures
            final(self).wf(),
            final(self).env_view() == old(self).env_view().union_prefer_right(vars@),
            final(self).cwd_view() == old(self).cwd_view(),
            final(self).last_command_view() == old(self).last_command_view(),
            final(self).exit_code_view() == old(self).exit_code_view(),
            final(self).count_view() == old(self).count_view(),
    {
        self.env.merge(vars);
    }

    pub fn last_command(&self) -> (r: Option<&String>)
        ensures
            r is Some <==> self.last_command_view() is Some,
            r is Some ==> r->0@ == self.last_command_view()->0,
    {
        self.last_command.as_ref()
    }

    pub fn last_exit_code(&self) -> (r: Option<i32>)
        ensures
            r == self.exit_code_view(),
    {
        self.last_exit_code
    }

    pub fn execution_count(&self) -> (r: u64)
        ensures
            r == self.count_view(),
    {
        self.execution_count
    }

    /// Records one execution: the command, its exit code as given, and one more in the count.
    pub fn record_execution(&mut self, command: &str, exit_code: Option<i32>)
        ensures
            final(self).last_command_view() == Some(command@),
            final(self).exit_code_view() == exit_code,
            final(self).count_view() == bumped(old(self).count_view()),
            final(self).wf() == old(self).wf(),
            final(self).cwd_view() == old(self).cwd_view(),
            final(self).env_view() == old(self).env_view(),
    {
        self.last_command = Some(String::from_str(command));
        self.last_exit_code = exit_code;
        if self.execution_count < u64::MAX {
            self.execution_count = self.execution_count + 1;
        }
    }

    pub fn last_succeeded(&self) -> (r: bool)
        ensures
            r == (self.exit_code_view() == Some(0i32)),
    {
        match self.last_exit_code {
            Some(c) => c == 0,
            None => false,
        }
    }

    pub fn last_failed(&self) -> (r: bool)
        ensures
            r == (self.exit_code_view() is Some && self.exit_code_view()->0 != 0),
    {
        match self.last_exit_code {
            Some(c) => c != 0,
            None => false,
        }
    }
}

/// The first `=` in `l`, if any.
pub open spec fn first_eq(l: Seq<char>) -> Option<int> {
    if exists|i: int| 0 <= i < l.len() && l[i] == '=' {
        Some(choose|i: int| 0 <= i < l.len() && l[i] == '=' && forall|j: int| 0 <= j < i ==> l[j] != '=')
    } else {
        None
    }
}

/// What one line of `env` output contributes: a trimmed, non-empty name and the rest
/// after the first `=`.
pub open spec fn env_line(l: Seq<char>) -> Option<(Seq<char>, Seq<char>)> {
    match first_eq(l) {
        Some(i) => if trim(l.subrange(0, i)).len() > 0 {
            Some((trim(l.subrange(0, i)), l.subrange(i + 1, l.len() as int)))
        } else {
            None
        },
        None => None,
    }
}

/// The variables that the first `n` lines define; a later line wins.
pub open spec fn env_of_lines(ls: Seq<Seq<char>>, n: int) -> Map<Seq<char>, Seq<char>>
    decreases n,
{
    if n <= 0 {
        Map::empty()
    } else {
        let m = env_of_lines(ls, n - 1);
        match env_line(ls[n - 1]) {
            Some(kv) => m.insert(kv.0, kv.1),
            None => m,
        }
    }
}

/// Reading shell state back from command output.
pub struct StateProbe;

/// Index of the first `=` in `l`.
fn find_eq(l: &Vec<char>) -> (r: Option<usize>)
    ensures
        r is None ==> first_eq(l@) is None,
        r is Some ==> first_eq(l@) == Some(r->0 as int) && r->0 < l@.len(),
{
    let mut i: usize = 0;
    while i < l.len()
        invariant
            forall|j: int| 0 <= j < i ==> l@[j] != '=',
        decreases l.len() - i,
    {
        if l[i] == '=' {
            proof {
                let w = choose|k: int| 0 <= k < l@.len() && l@[k] == '=' && forall|j: int| 0 <= j < k ==> l@[j] != '=';
                assert(0 <= i < l@.len() && l@[i as int] == '=' && forall|j: int| 0 <= j < i ==> l@[j] != '=');
                if w < i {
                } else if w > i {
                    assert(l@[i as int] != '=');
                }
            }
            return Some(i);
        }
        i = i + 1;
    }
    None
}

impl StateProbe {
    /// The command that prints the working directory.
    pub fn cwd_command() -> (r: &'static str)
        ensures
            r@ == "pwd"@,
    {
        "pwd"
    }

    /// The command that prints the environment.
    pub fn env_command() -> (r: &'static str)
        ensures
            r@ == "env"@,
    {
        "env"
    }

    /// The first line of the trimmed output, or `None` when it is blank.
    pub fn parse_cwd(output: &str) -> (r: Option<String>)
        ensures
            trim(output@).len() == 0 ==> r is None,
            trim(output@).len() > 0 ==> r is Some && r->0@ == lines_of(trim(output@))[0],
    {
        let c = chars_of(output);
        let t = trim_vec(&c);
        if t.len() == 0 {
            return None;
        }
        let ls = lines_vec(&t);
        proof {
            lemma_trim_head(c@);
            lemma_lines_nonempty(t@);
        }
        Some(string_from_chars(ls[0].clone()))
    }

    /// The `NAME=value` lines of `env` output; lines without `=` or with a blank name are
    /// skipped, and a later line wins.
    pub fn parse_env(output: &str) -> (r: EnvVars)
        ensures
            r.wf(),
            r@ == env_of_lines(lines_of(output@), lines_of(output@).len() as int),
    {
        let c = chars_of(output);
        let ls = lines_vec(&c);
        let ghost lv = lines_of(output@);
        let mut env = EnvVars::new();
        let mut i: usize = 0;
        while i < ls.len()
            invariant
                env.wf(),
                ls@.len() == lv.len(),
                forall|k: int| 0 <= k < ls@.len() ==> (#[trigger] ls@[k])@ == lv[k],
                i <= ls.len(),
                env@ == env_of_lines(lv, i as int),
            decreases ls.len() - i,
        {
            let l = &ls[i];
            match find_eq(l) {
                Some(p) => {
                    let key = trim_vec(&slice_chars(l, 0, p));
                    if key.len() > 0 {
                        let value = slice_chars(l, p + 1, l.len());
                        env.set(string_from_chars(key), string_from_chars(value));
                    }
                },
                None => {},
            }
            i = i + 1;
        }
        env
    }

    /// The marker text `__<prefix>_<t>_MARKER__` for timestamp `t`.
    pub fn marker_at(prefix: &str, t: u64) -> (r: String)
        ensures
            r@ == "__"@ + prefix@ + "_"@ + decimal(t as nat) + "_MARKER__"@,
    {
        let a = concat_str("__", prefix);
        let b = concat_str(a.as_str(), "_");
        let d = string_from_chars(decimal_chars(t));
        let e = concat_str(b.as_str(), d.as_str());
        concat_str(e.as_str(), "_MARKER__")
    }

    /// A marker for framing command output: `marker_at` of the wall clock in nanoseconds.
    pub fn marker(prefix: &str) -> (r: String)
        ensures
            exists|t: u64| r@ == "__"@ + prefix@ + "_"@ + decimal(t as nat) + "_MARKER__"@,
    {
        StateProbe::marker_at(prefix, wall_clock_nanos())
    }

    /// The command that prints `marker`.
    pub fn echo_marker(marker: &str) -> (r: String)
        ensures
            r@ == "echo "@ + marker@,
    {
        concat_str("echo ", marker)
    }
}

proof fn lemma_split_first(s: Seq<char>)
    requires
        s.len() > 0,
        s[0] != '\n',
    ensures
        split_newlines(s)[0].len() > 0,
    decreases s.len(),
{
    let d = s.drop_last();
    crate::text::lemma_split_nonempty(d);
    if d.len() > 0 {
        lemma_split_first(d);
    }
}

proof fn lemma_trim_start_head(s: Seq<char>)
    ensures
        trim_start(s).len() > 0 ==> !is_ws(trim_start(s)[0]),
    decreases s.len(),
{
    if s.len() > 0 && is_ws(s[0]) {
        lemma_trim_start_head(s.subrange(1, s.len() as int));
    }
}

proof fn lemma_trim_end_prefix(s: Seq<char>)
    ensures
        trim_end(s).len() <= s.len(),
        trim_end(s) == s.subrange(0, trim_end(s).len() as int),
    decreases s.len(),
{
    if s.len() > 0 && is_ws(s.last()) {
        lemma_trim_end_prefix(s.drop_last());
    } else {
        assert(s.subrange(0, s.len() as int) =~= s);
    }
}

proof fn lemma_lines_nonempty(t: Seq<char>)
    requires
        t.len() > 0,
        t[0] != '\n',
    ensures
        lines_of(t).len() > 0,
{
    lemma_split_first(t);
    crate::text::lemma_split_nonempty(t);
}

proof fn lemma_trim_head(s: Seq<char>)
    requires
        trim(s).len() > 0,
    ensures
        trim(s)[0] != '\n',
{
    lemma_trim_start_head(s);
    lemma_trim_end_prefix(trim_start(s));
    let x = trim_start(s);
    assert(trim(s)[0] == x.subrange(0, trim(s).len() as int)[0]);
}

} // verus!
