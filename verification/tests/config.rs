use tukituki::config::{assemble_targets, file_stem, is_hidden_dir, is_yaml_file, run_dir_error, LoadedFile, RunDirProblem};
use tukituki::dotenv::parse_dotenv_str;
use tukituki::expand::{expand, expand_env};
use tukituki::strmap::StrMap;
use tukituki::target::{has_otel_target, RunTarget};

fn assert_env(env: &StrMap<String>, key: &str, want: &str) {
    let got = env.get(key).unwrap_or_else(|| panic!("key {key:?} missing"));
    assert_eq!(got, want, "env[{key:?}]");
}

fn map(pairs: &[(&str, &str)]) -> StrMap<String> {
    let mut m = StrMap::new();
    for (k, v) in pairs {
        m.insert((*k).into(), (*v).into());
    }
    m
}

fn target_with_env(env: &[(&str, &str)]) -> RunTarget {
    RunTarget { name: "x".into(), command: "go".into(), env: map(env), ..Default::default() }
}

#[test]
fn has_otel_target_works() {
    let none = vec![
        RunTarget { name: "a".into(), ..Default::default() },
        RunTarget { name: "b".into(), ..Default::default() },
    ];
    assert!(!has_otel_target(&none));
    let some = vec![
        RunTarget { name: "a".into(), ..Default::default() },
        RunTarget { name: "b".into(), otel: true, ..Default::default() },
    ];
    assert!(has_otel_target(&some));
}

#[test]
fn parse_dotenv_basic_key_value() {
    let vars = parse_dotenv_str("\nAPP_DOMAIN=myhost\nPORT=8080\n");
    assert_env(&vars, "APP_DOMAIN", "myhost");
    assert_env(&vars, "PORT", "8080");
}

#[test]
fn parse_dotenv_quoted() {
    let vars = parse_dotenv_str("\nDOUBLE=\"hello world\"\nSINGLE='foo bar'\nESCAPED=\"she said \\\"hi\\\"\"\n");
    assert_env(&vars, "DOUBLE", "hello world");
    assert_env(&vars, "SINGLE", "foo bar");
    assert_env(&vars, "ESCAPED", "she said \"hi\"");
}

#[test]
fn parse_dotenv_comments() {
    let vars = parse_dotenv_str("\n# this is a comment\nKEY=value # inline comment\nOTHER=plain\n");
    assert_env(&vars, "KEY", "value");
    assert_env(&vars, "OTHER", "plain");
    assert!(!vars.contains_key("# this is a comment"));
}

#[test]
fn parse_dotenv_export_prefix() {
    let vars = parse_dotenv_str("export FOO=bar\nexport   BAZ = qux\n");
    assert_env(&vars, "FOO", "bar");
    assert_env(&vars, "BAZ", "qux");
}

#[test]
fn parse_dotenv_blank_lines() {
    let vars = parse_dotenv_str("\n\n\nA=1\n\n\nB=2\n\n");
    assert_eq!(vars.len(), 2);
    assert_env(&vars, "A", "1");
    assert_env(&vars, "B", "2");
}

#[test]
fn parse_dotenv_empty_file() {
    let vars = parse_dotenv_str("");
    assert_eq!(vars.len(), 0);
}

#[test]
fn parse_dotenv_later_line_wins() {
    let vars = parse_dotenv_str("A=1\nA=2\n=skip\nnoequals\n");
    assert_eq!(vars.len(), 1);
    assert_env(&vars, "A", "2");
}

#[test]
fn expand_env_substitutes_vars() {
    let targets = vec![RunTarget {
        name: "server".into(),
        command: "go".into(),
        env: map(&[
            ("S3_ENDPOINT", "http://${APP_DOMAIN}:9001"),
            ("S3_PUBLIC_URL", "http://${APP_DOMAIN}:9001/bucket"),
            ("STATIC_KEY", "no-substitution"),
        ]),
        ..Default::default()
    }];
    let vars = map(&[("APP_DOMAIN", "myhost")]);
    let result = expand_env(targets, Some(&vars), &StrMap::new());
    assert_env(&result[0].env, "S3_ENDPOINT", "http://myhost:9001");
    assert_env(&result[0].env, "S3_PUBLIC_URL", "http://myhost:9001/bucket");
    assert_env(&result[0].env, "STATIC_KEY", "no-substitution");
}

#[test]
fn expand_env_falls_back_to_os_env() {
    let os = map(&[("TEST_HOST_FALLBACK_RUST", "fromshell")]);
    let targets = vec![target_with_env(&[("URL", "http://${TEST_HOST_FALLBACK_RUST}:1234")])];
    let r1 = expand_env(targets.clone(), Some(&StrMap::new()), &os);
    assert_env(&r1[0].env, "URL", "http://${TEST_HOST_FALLBACK_RUST}:1234");
    let vars = map(&[("UNRELATED", "x")]);
    let r2 = expand_env(targets, Some(&vars), &os);
    assert_env(&r2[0].env, "URL", "http://fromshell:1234");
}

#[test]
fn expand_env_dotenv_takes_precedence_over_os_env() {
    let key = "DOMAIN_PRECEDENCE_TEST_RUST";
    let os = map(&[(key, "from-os")]);
    let targets = vec![target_with_env(&[("BASE", "http://${DOMAIN_PRECEDENCE_TEST_RUST}")])];
    let vars = map(&[(key, "from-dotenv")]);
    let result = expand_env(targets, Some(&vars), &os);
    assert_env(&result[0].env, "BASE", "http://from-dotenv");
}

#[test]
fn expand_env_no_vars_returns_original() {
    let targets = vec![target_with_env(&[("A", "${FOO}")])];
    let result = expand_env(targets, None, &StrMap::new());
    assert_env(&result[0].env, "A", "${FOO}");
}

#[test]
fn expand_env_does_not_mutate_original() {
    let original = map(&[("URL", "http://${HOST}")]);
    let snapshot = original.clone();
    let targets = vec![RunTarget { name: "s".into(), command: "go".into(), env: original, ..Default::default() }];
    let _ = expand_env(targets, Some(&map(&[("HOST", "new")])), &StrMap::new());
    assert_env(&snapshot, "URL", "http://${HOST}");
}

#[test]
fn expand_env_substitutes_args() {
    let targets = vec![RunTarget {
        name: "docs".into(),
        command: "hugo".into(),
        args: vec!["server".into(), "--baseURL".into(), "http://${APP_DOMAIN}:5313".into()],
        ..Default::default()
    }];
    let result = expand_env(targets, Some(&map(&[("APP_DOMAIN", "myhost")])), &StrMap::new());
    assert_eq!(result[0].args, vec!["server", "--baseURL", "http://myhost:5313"]);
}

#[test]
fn expand_env_substitutes_command() {
    let targets = vec![RunTarget { name: "x".into(), command: "${BIN}/run".into(), ..Default::default() }];
    let result = expand_env(targets, Some(&map(&[("BIN", "/opt")])), &StrMap::new());
    assert_eq!(result[0].command, "/opt/run");
}

#[test]
fn expand_env_substitutes_workdir() {
    let targets = vec![RunTarget { name: "x".into(), workdir: "$ROOT/app".into(), ..Default::default() }];
    let result = expand_env(targets, Some(&map(&[("ROOT", "/srv")])), &StrMap::new());
    assert_eq!(result[0].workdir, "/srv/app");
}

#[test]
fn expand_env_substitutes_cleanup() {
    let targets = vec![RunTarget { name: "x".into(), cleanup: vec!["rm -rf ${TMP}".into()], ..Default::default() }];
    let result = expand_env(targets, Some(&map(&[("TMP", "/tmp/x")])), &StrMap::new());
    assert_eq!(result[0].cleanup, vec!["rm -rf /tmp/x"]);
}

#[test]
fn yaml_file_names() {
    assert!(is_yaml_file("api.yaml"));
    assert!(is_yaml_file("api.yml"));
    assert!(!is_yaml_file(".yaml"));
    assert!(!is_yaml_file("api.yaml.bak"));
    assert!(!is_yaml_file("README"));
    assert_eq!(file_stem("api.yaml"), "api");
    assert_eq!(file_stem("a.b.yml"), "a.b");
    assert_eq!(file_stem(".hidden"), ".hidden");
    assert!(is_hidden_dir(".git"));
    assert!(!is_hidden_dir("kb"));
}

fn loaded(file: &str, group: &str, parsed: Result<RunTarget, String>) -> LoadedFile {
    LoadedFile { file_name: file.into(), group: group.into(), source_file: format!("/abs/{file}"), parsed }
}

#[test]
fn assemble_sorts_by_name_and_marks_broken_files() {
    let files = vec![
        loaded("web.yaml", "", Ok(RunTarget { name: "web".into(), command: "npm".into(), ..Default::default() })),
        loaded("broken.yml", "kb", Err("bad indentation".into())),
        loaded("api.yaml", "", Ok(RunTarget { name: "api".into(), ..Default::default() })),
    ];
    let ts = assemble_targets(files);
    let names: Vec<&str> = ts.iter().map(|t| t.name.as_str()).collect();
    assert_eq!(names, vec!["api", "broken", "web"]);
    assert_eq!(ts[1].group, "kb");
    assert_eq!(ts[1].parse_error, "broken.yml: bad indentation");
    assert_eq!(ts[1].source_file, "/abs/broken.yml");
    assert!(ts[1].autorun);
    assert_eq!(ts[2].command, "npm");
    assert_eq!(ts[2].source_file, "/abs/web.yaml");
}

#[test]
fn assemble_keeps_order_of_equal_names() {
    let files = vec![
        loaded("b.yaml", "g1", Ok(RunTarget { name: "x".into(), ..Default::default() })),
        loaded("a.yaml", "g0", Ok(RunTarget { name: "x".into(), ..Default::default() })),
    ];
    let ts = assemble_targets(files);
    assert_eq!(ts[0].group, "g1");
    assert_eq!(ts[1].group, "g0");
}

#[test]
fn run_dir_errors() {
    assert_eq!(run_dir_error(".run", &RunDirProblem::Missing), "run directory does not exist: .run");
    assert_eq!(run_dir_error(".run", &RunDirProblem::NotADirectory), "run directory path is not a directory: .run");
    assert_eq!(run_dir_error(".run", &RunDirProblem::Unreadable("denied".into())), "stat run directory: denied");
}

#[test]
fn expand_keeps_non_ascii_text_around_references() {
    let vars = map(&[("X", "1")]);
    let os = StrMap::new();
    assert_eq!(expand("héllo ${X}", &vars, &os), "héllo 1");
    assert_eq!(expand("日本 $X ü", &vars, &os), "日本 1 ü");
}

#[test]
fn parse_dotenv_double_quoted_non_ascii_is_kept() {
    let env = parse_dotenv_str("GREETING=\"héllo \\\"wörld\\\"\"\nNAME=\"日本\" # note\n");
    assert_env(&env, "GREETING", "héllo \"wörld\"");
    assert_env(&env, "NAME", "日本");
}
