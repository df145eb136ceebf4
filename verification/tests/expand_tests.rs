use sunset::envmap::EnvMap;
use sunset::expand::env_expand;

fn env_with(pairs: &[(&str, &str)]) -> EnvMap {
    let mut m = EnvMap::new();
    for (k, v) in pairs {
        m.set(&String::from(*k), &String::from(*v));
    }
    m
}

#[test]
fn tokens_escape_and_unset_variables() {
    let env = env_with(&[("FOO", "1")]);
    let out = env_expand(&String::from("%FOO%-%%-%BAR%"), &env);
    assert_eq!(out, "1-%-");
}

#[test]
fn expansion_is_single_pass() {
    let env = env_with(&[("A", "%B%"), ("B", "never")]);
    let out = env_expand(&String::from("%A%"), &env);
    assert_eq!(out, "%B%");
}

#[test]
fn marker_free_text_is_unchanged() {
    let env = env_with(&[("FOO", "1")]);
    let text = String::from("plain text, no tokens at all");
    assert_eq!(env_expand(&text, &env), text);
    let expanded = env_expand(&String::from("%FOO%!"), &env);
    assert_eq!(env_expand(&expanded, &env), expanded);
}

#[test]
fn unterminated_marker_stays_literal() {
    let env = env_with(&[("FOO", "1")]);
    assert_eq!(env_expand(&String::from("%FOO"), &env), "%FOO");
    assert_eq!(env_expand(&String::from("100%"), &env), "100%");
}

#[test]
fn a_non_word_character_breaks_a_token() {
    let env = env_with(&[("FOO", "1"), ("BAR", "2")]);
    assert_eq!(env_expand(&String::from("%FOO BAR%"), &env), "%FOO BAR%");
}

#[test]
fn tokens_inside_larger_text() {
    let env = env_with(&[("HOME", "/home/me")]);
    assert_eq!(
        env_expand(&String::from("cd %HOME%/src"), &env),
        "cd /home/me/src"
    );
}

#[test]
fn underscores_and_digits_are_word_characters() {
    let env = env_with(&[("MY_VAR_2", "ok")]);
    assert_eq!(env_expand(&String::from("%MY_VAR_2%"), &env), "ok");
}
