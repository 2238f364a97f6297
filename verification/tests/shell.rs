use pi_natives::shell::{
    conclude_run, exit_code, quote_arg, quote_command, should_reset_session,
    should_skip_env_var, split_duration, ControlFlow, ExitStatus, RunOutcome, RunReport,
    WindDown,
};
use pi_natives::text::{ends_with, starts_with, window_eq};

#[test]
fn shell_owned_variables_are_skipped() {
    let owned = [
        "BASH_ENV",
        "ENV",
        "HISTFILE",
        "HISTTIMEFORMAT",
        "HISTCMD",
        "PS0",
        "PS1",
        "PS2",
        "PS4",
        "BRUSH_PS_ALT",
        "READLINE_LINE",
        "READLINE_POINT",
        "BRUSH_VERSION",
        "BASH",
        "BASHOPTS",
        "BASH_ALIASES",
        "BASH_ARGV0",
        "BASH_CMDS",
        "BASH_SOURCE",
        "BASH_SUBSHELL",
        "BASH_VERSINFO",
        "BASH_VERSION",
        "SHELLOPTS",
        "SHLVL",
        "SHELL",
        "COMP_WORDBREAKS",
        "DIRSTACK",
        "EPOCHREALTIME",
        "EPOCHSECONDS",
        "FUNCNAME",
        "GROUPS",
        "IFS",
        "LINENO",
        "MACHTYPE",
        "OSTYPE",
        "OPTERR",
        "OPTIND",
        "PIPESTATUS",
        "PPID",
        "PWD",
        "OLDPWD",
        "RANDOM",
        "SRANDOM",
        "SECONDS",
        "UID",
        "EUID",
        "HOSTNAME",
        "HOSTTYPE",
    ];
    assert_eq!(owned.len(), 48);
    for key in owned {
        assert!(should_skip_env_var(key), "{}", key);
        assert!(!should_skip_env_var(&key.to_lowercase()), "{}", key);
        assert!(!should_skip_env_var(&format!("{}_", key)), "{}", key);
        assert!(!should_skip_env_var(&format!("X{}", key)), "{}", key);
    }
}

#[test]
fn exported_functions_are_skipped() {
    assert!(should_skip_env_var("BASH_FUNC_foo%%"));
    assert!(should_skip_env_var("BASH_FUNC_%%"));
    assert!(should_skip_env_var("BASH_FUNC_a b%%%"));
    assert!(should_skip_env_var("BASH_FUNC_\u{e9}%%"));
    assert!(!should_skip_env_var("BASH_FUNC_foo%"));
    assert!(!should_skip_env_var("BASH_FUNC_foo"));
    assert!(!should_skip_env_var("BASH_FUNC_%"));
    assert!(!should_skip_env_var("BASH_FUNCfoo%%"));
    assert!(!should_skip_env_var("bash_func_foo%%"));
    assert!(!should_skip_env_var("XBASH_FUNC_foo%%"));
    assert!(!should_skip_env_var("%%"));
}

#[test]
fn other_variables_are_kept() {
    for key in ["PATH", "HOME", "USER", "LANG", "TERM", "", "PS3", "BASH_FUNC", "\u{e9}"] {
        assert!(!should_skip_env_var(key), "{}", key);
    }
}

#[test]
fn quote_arg_leaves_safe_arguments_alone() {
    assert_eq!(quote_arg("ls"), "ls");
    assert_eq!(quote_arg("/usr/bin/env"), "/usr/bin/env");
    assert_eq!(quote_arg("a-b_c.d/e:f+g"), "a-b_c.d/e:f+g");
    assert_eq!(quote_arg("AZaz09"), "AZaz09");
}

#[test]
fn quote_arg_quotes_everything_else() {
    assert_eq!(quote_arg(""), "''");
    assert_eq!(quote_arg("a b"), "'a b'");
    assert_eq!(quote_arg("$HOME"), "'$HOME'");
    assert_eq!(quote_arg("a;b"), "'a;b'");
    assert_eq!(quote_arg("*"), "'*'");
    assert_eq!(quote_arg("a=b"), "'a=b'");
    assert_eq!(quote_arg("\""), "'\"'");
    assert_eq!(quote_arg("\u{e9}"), "'\u{e9}'");
    assert_eq!(quote_arg("a\nb"), "'a\nb'");
    assert_eq!(quote_arg("~"), "'~'");
    assert_eq!(quote_arg("a,b"), "'a,b'");
    assert_eq!(quote_arg("@"), "'@'");
    assert_eq!(quote_arg("["), "'['");
    assert_eq!(quote_arg("`"), "'`'");
    assert_eq!(quote_arg("{"), "'{'");
}

#[test]
fn quote_arg_escapes_single_quotes() {
    assert_eq!(quote_arg("'"), "''\"'\"''");
    assert_eq!(quote_arg("''"), "''\"'\"''\"'\"''");
    assert_eq!(quote_arg("it's"), "'it'\"'\"'s'");
    assert_eq!(quote_arg("'a"), "''\"'\"'a'");
    assert_eq!(quote_arg("a'"), "'a'\"'\"''");
    assert_eq!(quote_arg("a'b'c"), "'a'\"'\"'b'\"'\"'c'");
    assert_eq!(quote_arg("\u{e9}'\u{1f600}"), "'\u{e9}'\"'\"'\u{1f600}'");
}

#[test]
fn quote_arg_agrees_with_replace() {
    let samples = ["x y", "'", "a'b", "''''", " ' ", "don't stop", "\u{4e2d}'\u{6587}'"];
    for s in samples {
        let expected = format!("'{}'", s.replace('\'', "'\"'\"'"));
        assert_eq!(quote_arg(s), expected);
    }
}

#[test]
fn quote_command_joins_with_spaces() {
    assert_eq!(quote_command(&[]), "");
    assert_eq!(quote_command(&["ls".to_string()]), "ls");
    assert_eq!(quote_command(&["".to_string()]), "''");
    assert_eq!(
        quote_command(&["echo".to_string(), "a b".to_string(), "it's".to_string()]),
        "echo 'a b' 'it'\"'\"'s'"
    );
    assert_eq!(
        quote_command(&["a".to_string(), "".to_string(), "b".to_string()]),
        "a '' b"
    );
}

#[test]
fn exit_codes_of_outcomes() {
    assert_eq!(exit_code(ExitStatus::Success), 0);
    assert_eq!(exit_code(ExitStatus::GeneralError), 1);
    assert_eq!(exit_code(ExitStatus::InvalidUsage), 2);
    assert_eq!(exit_code(ExitStatus::Unimplemented), 99);
    assert_eq!(exit_code(ExitStatus::CannotExecute), 126);
    assert_eq!(exit_code(ExitStatus::NotFound), 127);
    assert_eq!(exit_code(ExitStatus::Interrupted), 130);
    for code in 0u8..=255 {
        assert_eq!(exit_code(ExitStatus::Custom(code)), code as i32);
    }
}

#[test]
fn a_session_is_reset_unless_the_flow_is_normal() {
    assert!(!should_reset_session(ControlFlow::Normal));
    assert!(should_reset_session(ControlFlow::BreakLoop));
    assert!(should_reset_session(ControlFlow::ContinueLoop));
    assert!(should_reset_session(ControlFlow::ReturnFromFunctionOrScript));
    assert!(should_reset_session(ControlFlow::ExitShell));
}

#[test]
fn prefixes_and_suffixes_of_characters() {
    let chars: Vec<char> = "h\u{e9}llo".chars().collect();
    assert!(starts_with(&chars, ""));
    assert!(starts_with(&chars, "h\u{e9}"));
    assert!(starts_with(&chars, "h\u{e9}llo"));
    assert!(!starts_with(&chars, "h\u{e9}llo!"));
    assert!(!starts_with(&chars, "he"));
    assert!(ends_with(&chars, ""));
    assert!(ends_with(&chars, "llo"));
    assert!(ends_with(&chars, "h\u{e9}llo"));
    assert!(!ends_with(&chars, "xh\u{e9}llo"));
    assert!(!ends_with(&chars, "lo!"));
    assert!(window_eq(&chars, 1, 3, "\u{e9}l"));
    assert!(!window_eq(&chars, 1, 3, "\u{c9}l"));
    assert!(!window_eq(&chars, 1, 3, "\u{e9}"));
    assert!(window_eq(&chars, 2, 2, ""));
}

#[test]
fn split_duration_reads_the_unit() {
    assert_eq!(split_duration("5"), Some(("5", 1)));
    assert_eq!(split_duration("5s"), Some(("5", 1)));
    assert_eq!(split_duration("5m"), Some(("5", 60)));
    assert_eq!(split_duration("5h"), Some(("5", 3600)));
    assert_eq!(split_duration("5d"), Some(("5", 86400)));
    assert_eq!(split_duration("1.5m"), Some(("1.5", 60)));
    assert_eq!(split_duration("  0.25h \n"), Some(("0.25", 3600)));
    assert_eq!(split_duration("\u{a0}7\u{2003}"), Some(("7", 1)));
    assert_eq!(split_duration("1e3"), Some(("1e3", 1)));
    assert_eq!(split_duration("-1s"), Some(("-1", 1)));
    assert_eq!(split_duration("."), Some((".", 1)));
    assert_eq!(split_duration("1 s"), Some(("1 ", 1)));
}

#[test]
fn split_duration_rejects_what_is_no_duration() {
    assert_eq!(split_duration(""), None);
    assert_eq!(split_duration("   "), None);
    assert_eq!(split_duration("5x"), None);
    assert_eq!(split_duration("5S"), None);
    assert_eq!(split_duration("5M"), None);
    assert_eq!(split_duration("inf"), None);
    assert_eq!(split_duration("nan"), None);
    assert_eq!(split_duration("5ms"), Some(("5m", 1)));
    // A unit alone leaves an empty number, which no parser of numbers takes.
    assert_eq!(split_duration("s"), Some(("", 1)));
    assert_eq!(split_duration("5\u{e9}"), Some(("5\u{e9}", 1)));
}

#[test]
fn a_completed_run_reports_its_exit_code() {
    assert_eq!(
        conclude_run(RunOutcome::Completed {
            status: ExitStatus::Success,
            flow: ControlFlow::Normal
        }),
        RunReport { exit_code: Some(0), cancelled: false, timed_out: false, reset_session: false }
    );
    assert_eq!(
        conclude_run(RunOutcome::Completed {
            status: ExitStatus::NotFound,
            flow: ControlFlow::Normal
        }),
        RunReport {
            exit_code: Some(127),
            cancelled: false,
            timed_out: false,
            reset_session: false
        }
    );
    assert_eq!(
        conclude_run(RunOutcome::Completed {
            status: ExitStatus::Custom(3),
            flow: ControlFlow::ExitShell
        }),
        RunReport { exit_code: Some(3), cancelled: false, timed_out: false, reset_session: true }
    );
    assert_eq!(
        conclude_run(RunOutcome::Completed {
            status: ExitStatus::Success,
            flow: ControlFlow::BreakLoop
        }),
        RunReport { exit_code: Some(0), cancelled: false, timed_out: false, reset_session: true }
    );
}

#[test]
fn a_stopped_run_reports_no_exit_code() {
    for (wind_down, reset_session) in
        [(WindDown::Finished, false), (WindDown::Failed, true), (WindDown::Aborted, true)]
    {
        assert_eq!(
            conclude_run(RunOutcome::Cancelled { wind_down }),
            RunReport { exit_code: None, cancelled: true, timed_out: false, reset_session }
        );
        assert_eq!(
            conclude_run(RunOutcome::TimedOut { wind_down }),
            RunReport { exit_code: None, cancelled: false, timed_out: true, reset_session }
        );
    }
}
