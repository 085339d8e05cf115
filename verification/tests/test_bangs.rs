use pluvia::bangs::{command_action, parse_bangs, tokenize_args, write_key_value_content, Bang, CommandAction};

#[test]
fn test_tokenize_args_with_quotes() {
    let args = tokenize_args(r#"!SetVariable MyVar "Hello World" ConfigName"#);
    assert_eq!(args, vec!["!SetVariable", "MyVar", "Hello World", "ConfigName"]);
}

#[test]
fn test_parse_single_unbracketed_bang() {
    let bangs = parse_bangs("!SetVariable Scale 1.5");
    assert_eq!(
        bangs,
        vec![Bang::SetVariable {
            name: "Scale".to_string(),
            value: "1.5".to_string(),
            config: None,
        }]
    );
}

#[test]
fn test_parse_multiple_bracketed_bangs() {
    let bangs = parse_bangs(r#"[!SetVariable Scale 1.2][!UpdateMeter *][!Redraw]"#);
    assert_eq!(
        bangs,
        vec![
            Bang::SetVariable {
                name: "Scale".to_string(),
                value: "1.2".to_string(),
                config: None,
            },
            Bang::UpdateMeter {
                name: "*".to_string(),
                config: None,
            },
            Bang::Redraw { config: None }
        ]
    );
}

#[test]
fn test_parse_write_key_value() {
    let bangs = parse_bangs(r##"[!WriteKeyValue Variables Scale "2.0" "#@#Settings.inc"]"##);
    assert_eq!(bangs.len(), 1);
    match &bangs[0] {
        Bang::WriteKeyValue { section, key, value, file } => {
            assert_eq!(section, "Variables");
            assert_eq!(key, "Scale");
            assert_eq!(value, "2.0");
            assert_eq!(file.as_deref(), Some("#@#Settings.inc"));
        }
        _ => panic!("Expected WriteKeyValue"),
    }
}

#[test]
fn test_parse_external_execute() {
    let bangs = parse_bangs(r#"["https://google.com"]"#);
    assert_eq!(bangs, vec![Bang::Execute("https://google.com".to_string())]);
}

#[test]
fn test_write_key_value_to_file_persistence() {
    let updated = write_key_value_content(
        "[Variables]\nScale=1.0\nColor=255,255,255\n",
        "Variables",
        "Scale",
        "1.5",
    );
    assert!(updated.contains("Scale=1.5"));
    assert!(updated.contains("Color=255,255,255"));
}

#[test]
fn write_key_value_replaces_existing_key_case_insensitively() {
    let updated = write_key_value_content("[variables]\nscale=1.0\nColor=1\n", "Variables", "Scale", "2");
    assert_eq!(updated, "[variables]\nScale=2\nColor=1\n");
}

#[test]
fn write_key_value_inserts_at_end_of_section() {
    let updated = write_key_value_content("[A]\nx=1\n[B]\ny=2\n", "A", "z", "3");
    assert_eq!(updated, "[A]\nx=1\nz=3\n[B]\ny=2\n");
}

#[test]
fn write_key_value_appends_new_section_after_blank_line() {
    let updated = write_key_value_content("[A]\nx=1", "Variables", "Scale", "1.5");
    assert_eq!(updated, "[A]\nx=1\n\n[Variables]\nScale=1.5\n");
}

#[test]
fn write_key_value_on_empty_file() {
    let updated = write_key_value_content("", "Variables", "Scale", "1.5");
    assert_eq!(updated, "[Variables]\nScale=1.5\n");
}

#[test]
fn command_action_classifies_urls_and_shell_commands() {
    assert_eq!(command_action("   "), CommandAction::Nothing);
    assert_eq!(
        command_action("  https://example.org  "),
        CommandAction::OpenUrl("https://example.org".to_string())
    );
    assert_eq!(command_action("notify-send hi"), CommandAction::Shell("notify-send hi".to_string()));
}

#[test]
fn unquoted_arguments_split_like_split_whitespace() {
    for line in ["!SetVariable  Name\tValue ", "", "   ", "one", "a\u{a0}b  c\n"] {
        let expected: Vec<String> = line.split_whitespace().map(String::from).collect();
        assert_eq!(pluvia::bangs::tokenize_args(line), expected);
    }
    assert!(pluvia::bangs::tokenize_args("\"\" '' x").iter().all(|t| !t.is_empty()));
}
