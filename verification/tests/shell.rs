use vibe_kanban::shell::{
    check_dev_script_words, join_program_and_args_for_bash, validate_dev_server_script,
    DevScriptError, QuoteFailure,
};

#[test]
fn quoted_script_preserves_argv_semantics() {
    let program = "/tmp/weird path/bin";
    let args = vec![
        "--flag".to_string(),
        "with spaces".to_string(),
        "quote'quote".to_string(),
        "semi;colon".to_string(),
        "new\nline".to_string(),
        "\"double\"".to_string(),
        "$(echo injected)".to_string(),
    ];

    let script = join_program_and_args_for_bash(program, &args).expect("quoted script");
    let parts = shlex::split(&script).expect("quoted script should be parseable");

    assert_eq!(parts.first().map(String::as_str), Some("/tmp/weird path/bin"));
    assert_eq!(&parts[1..], args.as_slice());
}

#[test]
fn nul_bytes_cannot_be_quoted() {
    let args = vec!["a\0b".to_string()];
    assert_eq!(
        join_program_and_args_for_bash("/bin/echo", &args),
        Err(QuoteFailure::Nul)
    );
}

#[test]
fn validate_dev_server_script_rejects_shell_operator_script() {
    let result = validate_dev_server_script("npm run dev && rm -rf /");
    assert!(matches!(result, Err(DevScriptError::ShellOperator)));
}

#[test]
fn dev_script_checks() {
    assert_eq!(validate_dev_server_script("   "), Err(DevScriptError::Missing));
    assert_eq!(validate_dev_server_script("npm run 'dev"), Err(DevScriptError::Unparsable));
    assert_eq!(validate_dev_server_script("npm run dev"), Ok(()));
    assert_eq!(validate_dev_server_script("echo '&&'"), Err(DevScriptError::ShellOperator));
    assert_eq!(validate_dev_server_script("cat a > b"), Err(DevScriptError::ShellOperator));
    assert_eq!(
        check_dev_script_words("x", Some(Vec::new())),
        Err(DevScriptError::EmptyCommand)
    );
}

#[test]
fn joined_words_split_back_unchanged() {
    let args = vec![
        String::new(),
        "^caret".to_string(),
        "bang!".to_string(),
        "#hash".to_string(),
        "tab\there".to_string(),
        "cr\rhere".to_string(),
        "back\\slash".to_string(),
        "\u{5f52}\u{6863}".to_string(),
        "it's \"quoted\" $HOME `cmd`".to_string(),
    ];
    let script = join_program_and_args_for_bash("prog", &args).unwrap();
    let parts = shlex::split(&script).unwrap();
    assert_eq!(parts[0], "prog");
    assert_eq!(&parts[1..], args.as_slice());
}

#[test]
fn dev_script_errors_have_their_messages() {
    assert_eq!(DevScriptError::Missing.message(), "No dev server script configured for this project");
    assert_eq!(DevScriptError::Unparsable.message(), "Dev script is not valid command text");
    assert_eq!(DevScriptError::EmptyCommand.message(), "Dev script command is empty");
    assert_eq!(
        DevScriptError::ShellOperator.message(),
        "Dev script must be a single command without shell operators"
    );
}
