use tinyrush::env_store::EnvStore;
use tinyrush::expand::{expand_variables, extract_var_name_braced, extract_var_name_simple};

fn env_with(pairs: &[(&str, &str)]) -> EnvStore {
    let mut env = EnvStore::new();
    for (k, v) in pairs {
        env.set(k.to_string(), v.to_string());
    }
    env
}

#[test]
fn expansion_is_identity_without_dollar() {
    let env = env_with(&[("HOME", "/home/u")]);
    assert_eq!(expand_variables("hello world", &env, 0), "hello world");
    assert_eq!(expand_variables("", &env, 0), "");
    assert_eq!(expand_variables("'quoted text' stays", &env, 0), "'quoted text' stays");
}

#[test]
fn braced_reference_yields_value() {
    let env = env_with(&[("NAME", "VALUE")]);
    assert_eq!(expand_variables("${NAME}", &env, 0), "VALUE");
    assert_eq!(expand_variables("a${NAME}b", &env, 0), "aVALUEb");
}

#[test]
fn simple_reference_yields_value() {
    let env = env_with(&[("NAME", "VALUE")]);
    assert_eq!(expand_variables("$NAME", &env, 0), "VALUE");
    assert_eq!(expand_variables("$NAME tail", &env, 0), "VALUE tail");
    assert_eq!(expand_variables("say $NAME!", &env, 0), "say VALUE!");
}

#[test]
fn unbound_reference_becomes_empty() {
    let env = EnvStore::new();
    assert_eq!(expand_variables("$NOPE", &env, 0), "");
    assert_eq!(expand_variables("a${NOPE}b", &env, 0), "ab");
}

#[test]
fn single_quotes_suppress_substitution() {
    let env = env_with(&[("HOME", "/home/u")]);
    assert_eq!(expand_variables("'$HOME'", &env, 0), "'$HOME'");
    assert_eq!(expand_variables("'$HOME' $HOME", &env, 0), "'$HOME' /home/u");
    assert_eq!(expand_variables("a'b$HOME c'd", &env, 0), "a'b$HOME c'd");
}

#[test]
fn exit_status_marker_expands_to_decimal() {
    let env = EnvStore::new();
    assert_eq!(expand_variables("$?", &env, 0), "0");
    assert_eq!(expand_variables("$?", &env, 7), "7");
    assert_eq!(expand_variables("code=$?.", &env, 42), "code=42.");
    assert_eq!(expand_variables("$?", &env, 123), "123");
}

#[test]
fn lone_or_literal_dollar_is_copied() {
    let env = env_with(&[("A", "x")]);
    assert_eq!(expand_variables("a$", &env, 0), "a$");
    assert_eq!(expand_variables("$ b", &env, 0), "$ b");
    assert_eq!(expand_variables("$1", &env, 0), "$1");
    assert_eq!(expand_variables("$$A", &env, 0), "$x");
}

#[test]
fn unterminated_brace_is_absorbed() {
    let env = env_with(&[("FOO", "1")]);
    assert_eq!(expand_variables("${FOO", &env, 0), "1");
    assert_eq!(expand_variables("${FOO!}", &env, 0), "1!}");
    assert_eq!(expand_variables("${}", &env, 0), "");
}

#[test]
fn extract_braced_consumes_closing_brace() {
    let chars: Vec<char> = "FOO}rest".chars().collect();
    let (name, next) = extract_var_name_braced(&chars, 0);
    assert_eq!(name, "FOO");
    assert_eq!(next, 4);
}

#[test]
fn extract_braced_stops_at_other_character() {
    let chars: Vec<char> = "FO O}".chars().collect();
    let (name, next) = extract_var_name_braced(&chars, 0);
    assert_eq!(name, "FO");
    assert_eq!(next, 2);
}

#[test]
fn extract_simple_takes_longest_name_run() {
    let chars: Vec<char> = "var_1 rest".chars().collect();
    let (name, next) = extract_var_name_simple(&chars, 0);
    assert_eq!(name, "var_1");
    assert_eq!(next, 5);
}
