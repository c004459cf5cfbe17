use tukituki::shell::{build_shell_cmd, editor_command, shell_escape};

#[test]
fn build_shell_cmd_cases() {
    let cases: [(&str, &str, &[&str], &str); 6] = [
        ("simple", "echo", &["hello"], "echo hello"),
        ("empty arg", "cmd", &["--flag", ""], "cmd --flag ''"),
        ("spaces in arg", "cmd", &["hello world"], "cmd 'hello world'"),
        ("no args", "cmd", &[], "cmd"),
        ("multiple empty args", "cmd", &["", ""], "cmd '' ''"),
        (
            "flag with empty value",
            "reverse-proxy",
            &["-tls-certificate", "", "-tls-key", ""],
            "reverse-proxy -tls-certificate '' -tls-key ''",
        ),
    ];
    for (label, command, args, want) in cases {
        let args_owned: Vec<String> = args.iter().map(|s| (*s).to_string()).collect();
        let got = build_shell_cmd(command, &args_owned);
        assert_eq!(got, want, "{label}");
    }
}

#[test]
fn shell_escape_special_chars() {
    assert_eq!(shell_escape("hello world"), "'hello world'");
    assert_eq!(shell_escape("a'b"), "'a'\\''b'");
    assert_eq!(shell_escape(""), "''");
    assert_eq!(shell_escape("safe-path/foo.bar:1234@host"), "safe-path/foo.bar:1234@host");
}

#[test]
fn shell_escape_quotes_dollar_and_unicode() {
    assert_eq!(shell_escape("$HOME"), "'$HOME'");
    assert_eq!(shell_escape("é"), "'é'");
    assert_eq!(shell_escape("a,b=c"), "a,b=c");
}

#[test]
fn editor_command_splits_like_a_shell() {
    assert_eq!(editor_command(Some("code --wait")), vec!["code", "--wait"]);
    assert_eq!(editor_command(Some("'my editor' -n")), vec!["my editor", "-n"]);
    assert_eq!(editor_command(None), vec!["vim"]);
}

#[test]
fn editor_command_keeps_an_unsplittable_value_whole() {
    assert_eq!(editor_command(Some("emacs 'unclosed")), vec!["emacs 'unclosed"]);
}
