//! Rules of the shell session that need no shell to state.
//!
//! Which variables of the environment a session takes over, how an argument
//! is quoted for a command line, which number stands for which outcome, and
//! when a session is used up.

pub mod output;

use vstd::prelude::*;
use vstd::string::*;
use crate::text::{
    chars_of, ends_with, has_prefix, has_suffix, skip_spaces, skip_spaces_back, starts_with, str_eq,
    trim_window,
};

verus! {

/// The variables that the shell sets itself or that steer its start-up:
/// they are never taken over from outside.
pub open spec fn is_shell_owned(key: Seq<char>) -> bool {
    ||| key == "BASH_ENV"@
    ||| key == "ENV"@
    ||| key == "HISTFILE"@
    ||| key == "HISTTIMEFORMAT"@
    ||| key == "HISTCMD"@
    ||| key == "PS0"@
    ||| key == "PS1"@
    ||| key == "PS2"@
    ||| key == "PS4"@
    ||| key == "BRUSH_PS_ALT"@
    ||| key == "READLINE_LINE"@
    ||| key == "READLINE_POINT"@
    ||| key == "BRUSH_VERSION"@
    ||| key == "BASH"@
    ||| key == "BASHOPTS"@
    ||| key == "BASH_ALIASES"@
    ||| key == "BASH_ARGV0"@
    ||| key == "BASH_CMDS"@
    ||| key == "BASH_SOURCE"@
    ||| key == "BASH_SUBSHELL"@
    ||| key == "BASH_VERSINFO"@
    ||| key == "BASH_VERSION"@
    ||| key == "SHELLOPTS"@
    ||| key == "SHLVL"@
    ||| key == "SHELL"@
    ||| key == "COMP_WORDBREAKS"@
    ||| key == "DIRSTACK"@
    ||| key == "EPOCHREALTIME"@
    ||| key == "EPOCHSECONDS"@
    ||| key == "FUNCNAME"@
    ||| key == "GROUPS"@
    ||| key == "IFS"@
    ||| key == "LINENO"@
    ||| key == "MACHTYPE"@
    ||| key == "OSTYPE"@
    ||| key == "OPTERR"@
    ||| key == "OPTIND"@
    ||| key == "PIPESTATUS"@
    ||| key == "PPID"@
    ||| key == "PWD"@
    ||| key == "OLDPWD"@
    ||| key == "RANDOM"@
    ||| key == "SRANDOM"@
    ||| key == "SECONDS"@
    ||| key == "UID"@
    ||| key == "EUID"@
    ||| key == "HOSTNAME"@
    ||| key == "HOSTTYPE"@
}

/// Whether the variable `key` is left out of a session: an exported shell
/// function, named `BASH_FUNC_...%%`, or a variable that the shell owns.
pub open spec fn spec_should_skip_env_var(key: Seq<char>) -> bool {
    (has_prefix(key, "BASH_FUNC_"@) && has_suffix(key, "%%"@)) || is_shell_owned(key)
}

fn shell_owned(key: &str) -> (r: bool)
    ensures
        r == is_shell_owned(key@),
{
    str_eq(key, "BASH_ENV") || str_eq(key, "ENV") || str_eq(key, "HISTFILE") || str_eq(
        key,
        "HISTTIMEFORMAT",
    ) || str_eq(key, "HISTCMD") || str_eq(key, "PS0") || str_eq(key, "PS1") || str_eq(key, "PS2")
        || str_eq(key, "PS4") || str_eq(key, "BRUSH_PS_ALT") || str_eq(key, "READLINE_LINE")
        || str_eq(key, "READLINE_POINT") || str_eq(key, "BRUSH_VERSION") || str_eq(key, "BASH")
        || str_eq(key, "BASHOPTS") || str_eq(key, "BASH_ALIASES") || str_eq(key, "BASH_ARGV0")
        || str_eq(key, "BASH_CMDS") || str_eq(key, "BASH_SOURCE") || str_eq(key, "BASH_SUBSHELL")
        || str_eq(key, "BASH_VERSINFO") || str_eq(key, "BASH_VERSION") || str_eq(key, "SHELLOPTS")
        || str_eq(key, "SHLVL") || str_eq(key, "SHELL") || str_eq(key, "COMP_WORDBREAKS")
        || str_eq(key, "DIRSTACK") || str_eq(key, "EPOCHREALTIME") || str_eq(key, "EPOCHSECONDS")
        || str_eq(key, "FUNCNAME") || str_eq(key, "GROUPS") || str_eq(key, "IFS") || str_eq(
        key,
        "LINENO",
    ) || str_eq(key, "MACHTYPE") || str_eq(key, "OSTYPE") || str_eq(key, "OPTERR") || str_eq(
        key,
        "OPTIND",
    ) || str_eq(key, "PIPESTATUS") || str_eq(key, "PPID") || str_eq(key, "PWD") || str_eq(
        key,
        "OLDPWD",
    ) || str_eq(key, "RANDOM") || str_eq(key, "SRANDOM") || str_eq(key, "SECONDS") || str_eq(
        key,
        "UID",
    ) || str_eq(key, "EUID") || str_eq(key, "HOSTNAME") || str_eq(key, "HOSTTYPE")
}

/// Whether the variable `key` is left out when an environment is handed to
/// a session.
pub fn should_skip_env_var(key: &str) -> (r: bool)
    ensures
        r == spec_should_skip_env_var(key@),
{
    let chars = chars_of(key);
    if starts_with(chars.as_slice(), "BASH_FUNC_") && ends_with(chars.as_slice(), "%%") {
        return true;
    }
    shell_owned(key)
}

/// Whether `c` may stand in a command line without quotes: an ASCII letter
/// or digit, or one of `- _ . / : +`.
pub open spec fn is_safe_char(c: char) -> bool {
    ||| 'a' <= c <= 'z'
    ||| 'A' <= c <= 'Z'
    ||| '0' <= c <= '9'
    ||| c == '-'
    ||| c == '_'
    ||| c == '.'
    ||| c == '/'
    ||| c == ':'
    ||| c == '+'
}

/// Whether every character of `s` is safe.
pub open spec fn all_safe(s: Seq<char>) -> bool {
    forall|i: int| 0 <= i < s.len() ==> is_safe_char(#[trigger] s[i])
}

/// `s` with each single quote replaced by `with`.
pub open spec fn replace_quotes(s: Seq<char>, with: Seq<char>) -> Seq<char>
    decreases s.len(),
{
    if s.len() == 0 {
        Seq::empty()
    } else if s.last() == '\'' {
        replace_quotes(s.drop_last(), with) + with
    } else {
        replace_quotes(s.drop_last(), with).push(s.last())
    }
}

/// `s` as it stands between single quotes: each single quote of its own is
/// replaced by `'"'"'`, the quote that closes the string, a quoted single
/// quote, and the quote that opens it again.
pub open spec fn escape_quotes(s: Seq<char>) -> Seq<char> {
    replace_quotes(s, "'\"'\"'"@)
}

/// An argument as it stands in a command line: an empty one as `''`, one of
/// safe characters as it is, any other between single quotes with its own
/// single quotes escaped.
pub open spec fn spec_quote_arg(s: Seq<char>) -> Seq<char> {
    if s.len() == 0 {
        "''"@
    } else if all_safe(s) {
        s
    } else {
        "'"@ + escape_quotes(s) + "'"@
    }
}

fn safe_char(c: char) -> (r: bool)
    ensures
        r == is_safe_char(c),
{
    ('a' <= c && c <= 'z') || ('A' <= c && c <= 'Z') || ('0' <= c && c <= '9') || c == '-' || c
        == '_' || c == '.' || c == '/' || c == ':' || c == '+'
}

fn safe_chars(chars: &[char]) -> (r: bool)
    ensures
        r == all_safe(chars@),
{
    let mut i: usize = 0;
    while i < chars.len()
        invariant
            i <= chars.len(),
            forall|k: int| 0 <= k < i ==> is_safe_char(#[trigger] chars@[k]),
        decreases chars.len() - i,
    {
        if !safe_char(chars[i]) {
            return false;
        }
        i += 1;
    }
    true
}

/// Appends `text` with each of its single quotes replaced by `with`.
pub fn append_replacing_quotes(out: &mut String, text: &str, with: &str)
    ensures
        final(out)@ == old(out)@ + replace_quotes(text@, with@),
{
    let owned = chars_of(text);
    let chars = owned.as_slice();
    let n = chars.len();
    let ghost s = text@;
    let ghost start = out@;
    let mut seg_start: usize = 0;
    let mut i: usize = 0;
    assert(s.subrange(0, 0) =~= Seq::<char>::empty());
    assert(out@ + s.subrange(0, 0) =~= start + replace_quotes(s.subrange(0, 0), with@));
    while i < n
        invariant
            s == text@,
            s == chars@,
            n == chars.len(),
            seg_start <= i <= n,
            out@ + s.subrange(seg_start as int, i as int) == start + replace_quotes(
                s.subrange(0, i as int),
                with@,
            ),
        decreases n - i,
    {
        let ghost prefix = s.subrange(0, i as int);
        let ghost next = s.subrange(0, i as int + 1);
        let ghost pending = s.subrange(seg_start as int, i as int);
        proof {
            assert(next.drop_last() =~= prefix);
            assert(next.last() == s[i as int]);
        }
        if chars[i] == '\'' {
            let ghost before = out@;
            out.append(text.substring_char(seg_start, i));
            out.append(with);
            seg_start = i + 1;
            proof {
                assert(s.subrange(seg_start as int, i as int + 1) =~= Seq::<char>::empty());
                assert(out@ + s.subrange(seg_start as int, i as int + 1) =~= (before + pending)
                    + with@);
                assert(start + replace_quotes(next, with@) =~= (start + replace_quotes(
                    prefix,
                    with@,
                )) + with@);
            }
        } else {
            proof {
                assert(s.subrange(seg_start as int, i as int + 1) =~= pending.push(s[i as int]));
                assert(out@ + pending.push(s[i as int]) =~= (out@ + pending).push(s[i as int]));
                assert(start + replace_quotes(next, with@) =~= (start + replace_quotes(
                    prefix,
                    with@,
                )).push(s[i as int]));
            }
        }
        i += 1;
    }
    let ghost before = out@;
    out.append(text.substring_char(seg_start, n));
    proof {
        assert(s.subrange(0, n as int) =~= s);
        assert(out@ =~= before + s.subrange(seg_start as int, n as int));
    }
}

/// Quotes one argument for a command line of the shell.
pub fn quote_arg(arg: &str) -> (r: String)
    ensures
        r@ == spec_quote_arg(arg@),
{
    let owned = chars_of(arg);
    let chars = owned.as_slice();
    if chars.len() == 0 {
        return "''".to_owned();
    }
    if safe_chars(chars) {
        return arg.to_owned();
    }
    let mut result = String::new();
    result.append("'");
    append_replacing_quotes(&mut result, arg, "'\"'\"'");
    result.append("'");
    assert(result@ =~= "'"@ + escape_quotes(arg@) + "'"@);
    result
}

/// The command that reads the file `path` into the shell: `source` and the
/// path between single quotes, each single quote of the path written as
/// `'\''`.
pub open spec fn spec_source_command(path: Seq<char>) -> Seq<char> {
    "source '"@ + replace_quotes(path, "'\\''"@) + "'"@
}

/// Builds the command that reads the file `path` into the shell.
pub fn source_command(path: &str) -> (r: String)
    ensures
        r@ == spec_source_command(path@),
{
    let mut command = String::new();
    command.append("source '");
    append_replacing_quotes(&mut command, path, "'\\''");
    command.append("'");
    assert(command@ =~= "source '"@ + replace_quotes(path@, "'\\''"@) + "'"@);
    command
}

/// The arguments of a command, each quoted, with single spaces between
/// them.
pub open spec fn spec_quote_command(args: Seq<Seq<char>>) -> Seq<char>
    decreases args.len(),
{
    if args.len() == 0 {
        Seq::empty()
    } else if args.len() == 1 {
        spec_quote_arg(args[0])
    } else {
        spec_quote_command(args.drop_last()) + " "@ + spec_quote_arg(args.last())
    }
}

/// The views of a list of strings.
pub open spec fn string_views(args: Seq<String>) -> Seq<Seq<char>> {
    args.map_values(|a: String| a@)
}

/// Builds the command line that runs `command` with its arguments.
pub fn quote_command(command: &[String]) -> (r: String)
    ensures
        r@ == spec_quote_command(string_views(command@)),
{
    let ghost args = string_views(command@);
    let mut line = String::new();
    let mut i: usize = 0;
    assert(args.subrange(0, 0) =~= Seq::<Seq<char>>::empty());
    while i < command.len()
        invariant
            i <= command.len(),
            args == string_views(command@),
            line@ == spec_quote_command(args.subrange(0, i as int)),
        decreases command.len() - i,
    {
        let ghost before = line@;
        let ghost next = args.subrange(0, i as int + 1);
        proof {
            assert(next.drop_last() =~= args.subrange(0, i as int));
            assert(next.last() == command@[i as int]@);
        }
        if i > 0 {
            line.append(" ");
        }
        let quoted = quote_arg(command[i].as_str());
        line.append(quoted.as_str());
        proof {
            if i == 0 {
                assert(before =~= Seq::<char>::empty());
                assert(next[0] == command@[0]@);
                assert(line@ =~= spec_quote_arg(next[0]));
            } else {
                assert(line@ =~= before + " "@ + spec_quote_arg(next.last()));
            }
        }
        i += 1;
    }
    assert(args.subrange(0, command.len() as int) =~= args);
    line
}

/// Whether `c` is an ASCII letter.
pub open spec fn is_ascii_letter(c: char) -> bool {
    'a' <= c <= 'z' || 'A' <= c <= 'Z'
}

/// The seconds that one unit of a duration's suffix stands for: `s`, `m`,
/// `h` or `d`.
pub open spec fn unit_seconds(c: char) -> Option<u32> {
    if c == 's' {
        Some(1u32)
    } else if c == 'm' {
        Some(60u32)
    } else if c == 'h' {
        Some(3600u32)
    } else if c == 'd' {
        Some(86400u32)
    } else {
        None
    }
}

/// A duration such as `1.5m`, split into its number and the seconds of its
/// unit. White space around it is dropped. Without a suffix the unit is
/// the second; a letter that is no unit makes the whole invalid, and so
/// does an empty text.
pub open spec fn spec_split_duration(s: Seq<char>) -> Option<(Seq<char>, u32)> {
    let a = skip_spaces(s, 0, s.len() as int);
    let b = skip_spaces_back(s, a, s.len() as int);
    if a >= b {
        None
    } else {
        match unit_seconds(s[b - 1]) {
            Some(seconds) => Some((s.subrange(a, b - 1), seconds)),
            None => if is_ascii_letter(s[b - 1]) {
                None
            } else {
                Some((s.subrange(a, b), 1u32))
            },
        }
    }
}

/// Splits a duration into the text of its number and the seconds of its
/// unit.
pub fn split_duration<'a>(input: &'a str) -> (r: Option<(&'a str, u32)>)
    ensures
        match r {
            Some((number, seconds)) => spec_split_duration(input@) == Some((number@, seconds)),
            None => spec_split_duration(input@) is None,
        },
{
    let chars = chars_of(input);
    let (a, b) = trim_window(chars.as_slice(), 0, chars.len());
    if a >= b {
        return None;
    }
    let last = chars[b - 1];
    if last == 's' {
        Some((input.substring_char(a, b - 1), 1))
    } else if last == 'm' {
        Some((input.substring_char(a, b - 1), 60))
    } else if last == 'h' {
        Some((input.substring_char(a, b - 1), 3600))
    } else if last == 'd' {
        Some((input.substring_char(a, b - 1), 86400))
    } else if ('a' <= last && last <= 'z') || ('A' <= last && last <= 'Z') {
        None
    } else {
        Some((input.substring_char(a, b), 1))
    }
}

/// How a command ended.
#[derive(Clone, Copy, Debug, PartialEq, Eq)]
pub enum ExitStatus {
    Success,
    GeneralError,
    InvalidUsage,
    Unimplemented,
    CannotExecute,
    NotFound,
    Interrupted,
    /// Any other code that the command chose.
    Custom(u8),
}

/// The number that stands for an outcome.
pub open spec fn spec_exit_code(status: ExitStatus) -> i32 {
    match status {
        ExitStatus::Success => 0,
        ExitStatus::GeneralError => 1,
        ExitStatus::InvalidUsage => 2,
        ExitStatus::Unimplemented => 99,
        ExitStatus::CannotExecute => 126,
        ExitStatus::NotFound => 127,
        ExitStatus::Interrupted => 130,
        ExitStatus::Custom(code) => code as i32,
    }
}

/// The exit code that is reported for an outcome.
pub fn exit_code(status: ExitStatus) -> (r: i32)
    ensures
        r == spec_exit_code(status),
        0 <= r <= 255,
{
    match status {
        ExitStatus::Success => 0,
        ExitStatus::GeneralError => 1,
        ExitStatus::InvalidUsage => 2,
        ExitStatus::Unimplemented => 99,
        ExitStatus::CannotExecute => 126,
        ExitStatus::NotFound => 127,
        ExitStatus::Interrupted => 130,
        ExitStatus::Custom(code) => code as i32,
    }
}

/// What the shell is to do after a command.
#[derive(Clone, Copy, Debug, PartialEq, Eq)]
pub enum ControlFlow {
    Normal,
    BreakLoop,
    ContinueLoop,
    ReturnFromFunctionOrScript,
    ExitShell,
}

/// Whether a session is used up after a command: it is whenever the
/// command left the shell in the middle of a loop, a function or an exit.
pub fn should_reset_session(flow: ControlFlow) -> (r: bool)
    ensures
        r == !(flow is Normal),
{
    match flow {
        ControlFlow::Normal => false,
        ControlFlow::BreakLoop => true,
        ControlFlow::ContinueLoop => true,
        ControlFlow::ReturnFromFunctionOrScript => true,
        ControlFlow::ExitShell => true,
    }
}

/// How the wait for a command ended.
#[derive(Clone, Copy, Debug, PartialEq, Eq)]
pub enum RunOutcome {
    /// The command ran to its end.
    Completed { status: ExitStatus, flow: ControlFlow },
    /// The caller cancelled the command before it ended.
    Cancelled { wind_down: WindDown },
    /// The command's time ran out before it ended.
    TimedOut { wind_down: WindDown },
}

/// What became of a command that was stopped, within the time it was given
/// to wind down.
#[derive(Clone, Copy, Debug, PartialEq, Eq)]
pub enum WindDown {
    /// Its task ended on its own.
    Finished,
    /// Its task broke off: it panicked or was taken down.
    Failed,
    /// It did not end and was aborted.
    Aborted,
}

/// What is reported of a command, and what becomes of its session.
#[derive(Clone, Copy, Debug, PartialEq, Eq)]
pub struct RunReport {
    /// The exit code, where the command ran to its end.
    pub exit_code: Option<i32>,
    pub cancelled: bool,
    pub timed_out: bool,
    /// Whether the session must not be used again.
    pub reset_session: bool,
}

/// The report of a command by the way its wait ended.
///
/// A command that ran to its end reports its exit code, and uses its
/// session up where it left the shell's normal flow. A command that was
/// stopped reports no exit code, and uses its session up unless its task
/// ended on its own.
pub open spec fn spec_conclude_run(outcome: RunOutcome) -> RunReport {
    match outcome {
        RunOutcome::Completed { status, flow } => RunReport {
            exit_code: Some(spec_exit_code(status)),
            cancelled: false,
            timed_out: false,
            reset_session: !(flow is Normal),
        },
        RunOutcome::Cancelled { wind_down } => RunReport {
            exit_code: None,
            cancelled: true,
            timed_out: false,
            reset_session: !(wind_down is Finished),
        },
        RunOutcome::TimedOut { wind_down } => RunReport {
            exit_code: None,
            cancelled: false,
            timed_out: true,
            reset_session: !(wind_down is Finished),
        },
    }
}

fn tainted(wind_down: WindDown) -> (r: bool)
    ensures
        r == !(wind_down is Finished),
{
    match wind_down {
        WindDown::Finished => false,
        WindDown::Failed => true,
        WindDown::Aborted => true,
    }
}

/// Decides what is reported of a command and whether its session is used
/// up.
pub fn conclude_run(outcome: RunOutcome) -> (r: RunReport)
    ensures
        r == spec_conclude_run(outcome),
{
    match outcome {
        RunOutcome::Completed { status, flow } => RunReport {
            exit_code: Some(exit_code(status)),
            cancelled: false,
            timed_out: false,
            reset_session: should_reset_session(flow),
        },
        RunOutcome::Cancelled { wind_down } => RunReport {
            exit_code: None,
            cancelled: true,
            timed_out: false,
            reset_session: tainted(wind_down),
        },
        RunOutcome::TimedOut { wind_down } => RunReport {
            exit_code: None,
            cancelled: false,
            timed_out: true,
            reset_session: tainted(wind_down),
        },
    }
}

} // verus!
