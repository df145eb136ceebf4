use sunset::codec::{decode, encode, DecodeError};
use sunset::descriptor::{ShimConfig, ShimConfigEnvAction, ShimConfigEnvActionItem};

fn sample_config() -> ShimConfig {
    ShimConfig {
        path: String::from("/opt/tools/real.exe"),
        args: vec![String::from("--flag"), String::from("value with spaces")],
        env: vec![
            ShimConfigEnvActionItem {
                var: String::from("PATH"),
                action: ShimConfigEnvAction::APPEND,
                value: String::from("/opt/tools"),
                separator: String::from(":"),
            },
            ShimConfigEnvActionItem {
                var: String::from("DEBUG"),
                action: ShimConfigEnvAction::SET,
                value: String::from("1"),
                separator: String::new(),
            },
        ],
        win: false,
        hidden: true,
        wait: true,
        env_expand_path: false,
        env_expand_args: true,
    }
}

#[test]
fn round_trip_full_descriptor() {
    let c = sample_config();
    let text = encode(&c);
    let back = decode(text.as_str()).expect("decoding an encoded descriptor");
    assert_eq!(back, c);
}

#[test]
fn round_trip_minimal_descriptor() {
    let c = ShimConfig {
        path: String::from("/bin/true"),
        args: Vec::new(),
        env: Vec::new(),
        win: true,
        hidden: false,
        wait: false,
        env_expand_path: true,
        env_expand_args: false,
    };
    let text = encode(&c);
    let back = decode(text.as_str()).expect("decoding an encoded descriptor");
    assert_eq!(back, c);
}

#[test]
fn round_trip_strings_with_quotes_and_backslashes() {
    let mut c = sample_config();
    c.path = String::from("C:\\tools\\a \"quoted\" name.exe");
    c.args = vec![String::from("back\\slash"), String::from("qu\"ote")];
    let text = encode(&c);
    let back = decode(text.as_str()).expect("decoding an encoded descriptor");
    assert_eq!(back, c);
}

#[test]
fn encoded_form_is_the_documented_layout() {
    let c = ShimConfig {
        path: String::from("/bin/echo"),
        args: vec![String::from("a"), String::from("b")],
        env: vec![ShimConfigEnvActionItem {
            var: String::from("X"),
            action: ShimConfigEnvAction::CLEAR,
            value: String::new(),
            separator: String::new(),
        }],
        win: false,
        hidden: false,
        wait: true,
        env_expand_path: false,
        env_expand_args: false,
    };
    let text = encode(&c);
    let expected = "path = \"/bin/echo\"\nargs = [\"a\", \"b\"]\nwin = false\nhidden = false\nwait = true\nenv_expand_path = false\nenv_expand_args = false\n[[env]]\nvar = \"X\"\naction = \"clear\"\nvalue = \"\"\nseparator = \"\"\n";
    assert_eq!(text, expected);
}

#[test]
fn decode_applies_the_field_defaults() {
    let c = decode("path = \"/bin/echo\"\n").expect("a lone path is enough");
    assert_eq!(c.path, "/bin/echo");
    assert!(c.args.is_empty());
    assert!(c.env.is_empty());
    assert!(!c.win);
    assert!(!c.hidden);
    assert!(c.wait);
    assert!(!c.env_expand_path);
    assert!(!c.env_expand_args);
}

#[test]
fn decode_env_defaults_action_to_set() {
    let text = "path = \"/bin/echo\"\n[[env]]\nvar = \"HOME\"\n";
    let c = decode(text).expect("an action with a variable alone");
    assert_eq!(c.env.len(), 1);
    assert_eq!(c.env[0].var, "HOME");
    assert_eq!(c.env[0].action, ShimConfigEnvAction::SET);
    assert_eq!(c.env[0].value, "");
    assert_eq!(c.env[0].separator, "");
}

#[test]
fn decode_missing_path_is_an_error() {
    assert_eq!(decode(""), Err(DecodeError::MissingPath));
    assert_eq!(decode("wait = true\n"), Err(DecodeError::MissingPath));
}

#[test]
fn decode_empty_path_is_an_error() {
    assert_eq!(decode("path = \"\"\n"), Err(DecodeError::EmptyPath));
}

#[test]
fn decode_malformed_line_is_an_error() {
    assert_eq!(decode("this is no pair\n"), Err(DecodeError::Syntax));
    assert_eq!(decode("path = \"unterminated\n"), Err(DecodeError::Syntax));
}

#[test]
fn decode_wrong_shapes_are_errors() {
    assert_eq!(decode("path = true\n"), Err(DecodeError::WrongType));
    assert_eq!(decode("args = \"x\"\n"), Err(DecodeError::WrongType));
    assert_eq!(decode("wait = \"yes\"\n"), Err(DecodeError::WrongType));
    assert_eq!(
        decode("path = \"/bin/echo\"\n[[env]]\nvar = true\n"),
        Err(DecodeError::WrongType)
    );
}

#[test]
fn decode_unnamed_action_is_an_error() {
    assert_eq!(
        decode("path = \"/bin/echo\"\n[[env]]\nvalue = \"1\"\n"),
        Err(DecodeError::MissingVar)
    );
    assert_eq!(
        decode("path = \"/bin/echo\"\n[[env]]\nvar = \"\"\n"),
        Err(DecodeError::EmptyVar)
    );
}

#[test]
fn decode_unknown_action_kind_is_an_error_not_a_default() {
    let text = "path = \"/bin/echo\"\n[[env]]\nvar = \"X\"\naction = \"frob\"\n";
    assert_eq!(decode(text), Err(DecodeError::BadAction));
}

#[test]
fn decode_ignores_unknown_keys_and_blank_lines() {
    let text = "path = \"/bin/echo\"\n\nsomething_else = \"ignored\"\n";
    let c = decode(text).expect("unknown keys are ignored");
    assert_eq!(c.path, "/bin/echo");
}

#[test]
fn decode_reads_all_action_kinds() {
    let text = "path = \"/bin/echo\"\n[[env]]\nvar = \"A\"\naction = \"set\"\n[[env]]\nvar = \"B\"\naction = \"clear\"\n[[env]]\nvar = \"C\"\naction = \"append\"\n[[env]]\nvar = \"D\"\naction = \"prepend\"\n";
    let c = decode(text).expect("all four kinds");
    let kinds: Vec<ShimConfigEnvAction> = c.env.iter().map(|a| a.action).collect();
    assert_eq!(
        kinds,
        vec![
            ShimConfigEnvAction::SET,
            ShimConfigEnvAction::CLEAR,
            ShimConfigEnvAction::APPEND,
            ShimConfigEnvAction::PREPEND,
        ]
    );
}
