use pluvia::ini::{classify_line, flag_value, strip_quotes, IniLine, IniState, ParseError, SkinParts};

fn parse_text(content: &str) -> (IniState, SkinParts) {
    let mut state = IniState::new("/dummy", "/dummy/main.ini");
    let lines = pluvia::text::lines(content);
    let mut from = 0;
    let mut current = None;
    while from < lines.len() {
        let (stop, cur) = state.read_lines(&lines, from, current);
        current = cur;
        from = stop + 1;
    }
    let parts = state.finish();
    (state, parts)
}

#[test]
fn classify_line_reads_sections_entries_comments_and_includes() {
    assert_eq!(classify_line("  ; comment"), IniLine::Skip);
    assert_eq!(classify_line(""), IniLine::Skip);
    assert_eq!(classify_line("[ Meter One ]"), IniLine::Section("Meter One".to_string()));
    assert_eq!(
        classify_line(" FontFace = Segoe UI "),
        IniLine::Entry { key: "FontFace".to_string(), value: "Segoe UI".to_string() }
    );
    assert_eq!(
        classify_line("Text=a=b"),
        IniLine::Entry { key: "Text".to_string(), value: "a=b".to_string() }
    );
    assert_eq!(classify_line("@IncludeVars=#@#Vars.inc"), IniLine::Include("#@#Vars.inc".to_string()));
    assert_eq!(classify_line("no equals sign"), IniLine::Skip);
}

#[test]
fn strip_quotes_removes_one_pair() {
    assert_eq!(strip_quotes("  \"Hello\"  "), "Hello");
    assert_eq!(strip_quotes("\"\"x\"\""), "\"x\"");
    assert_eq!(strip_quotes("\""), "\"");
    assert_eq!(strip_quotes("plain"), "plain");
}

#[test]
fn flags_read_one_or_true() {
    assert!(flag_value("1"));
    assert!(flag_value("TRUE"));
    assert!(!flag_value("0"));
    assert!(!flag_value(" 1"));
}

#[test]
fn test_case_insensitive_key_and_section_retrieval() {
    let ini = r#"
[rAiNmEtEr]
uPdAtE=2000

[vArIaBlEs]
mYfOnT=Segoe UI

[mEaSuReCpU]
mEaSuRe=Cpu

[mEtErClOcK]
mEtEr=String
fOnTfAcE=#mYfOnT#
fOnTsIzE=24
tExT="Hello"
"#;
    let (state, parts) = parse_text(ini);
    assert_eq!(parts.update.as_deref().map(|u| u.parse::<u64>().unwrap()), Some(2000));
    assert_eq!(state.variables.get("myfont").unwrap(), "Segoe UI");
    assert_eq!(state.variables.get("MYFONT").unwrap(), "Segoe UI");

    assert_eq!(parts.measures.len(), 1);
    let measure = &parts.measures[0];
    assert_eq!(measure.name, "mEaSuReCpU");
    assert_eq!(measure.measure_type, "Cpu");
    assert_eq!(measure.get("measure").unwrap(), "Cpu");

    assert_eq!(parts.meters.len(), 1);
    let meter = &parts.meters[0];
    assert_eq!(meter.font_face.as_deref(), Some("Segoe UI"));
    assert_eq!(meter.font_size.as_deref().map(|f| f.parse::<f64>().unwrap()), Some(24.0));
    assert_eq!(meter.text.as_deref(), Some("Hello"));
    assert_eq!(meter.properties.get("fontface").unwrap(), "Segoe UI");
    assert_eq!(meter.properties.get("FONTFACE").unwrap(), "Segoe UI");
}

#[test]
fn test_comments_and_empty_lines() {
    let ini = r#"
; Top level comment
; Another comment line

[Rainmeter]
; Comment inside section
Update=1000

[Variables]
; Comment before var
Font=Arial

[MeterA]
Meter=String
Text=Hello; World
"#;
    let (state, parts) = parse_text(ini);
    assert_eq!(parts.update.as_deref().map(|u| u.parse::<u64>().unwrap()), Some(1000));
    assert_eq!(state.variables.get("font").unwrap(), "Arial");
    assert_eq!(parts.meters[0].name, "MeterA");
    assert_eq!(parts.meters[0].text.as_deref(), Some("Hello; World"));
}

#[test]
fn test_meter_style_override_precedence() {
    let ini = r#"
[Rainmeter]
Update=1000

[StyleBase]
FontFace=Arial
FontSize=12
FontColor=100,100,100

[StyleOverride]
FontSize=18
FontColor=200,200,200

[MeterStyled]
Meter=String
MeterStyle=StyleBase | StyleOverride
FontColor=255,255,255
"#;
    let (_, parts) = parse_text(ini);
    assert_eq!(parts.meters.len(), 1);
    let meter = &parts.meters[0];
    assert_eq!(meter.name, "MeterStyled");
    // FontFace comes from StyleBase
    assert_eq!(meter.font_face.as_deref(), Some("Arial"));
    // FontSize from StyleOverride supersedes StyleBase (rightmost style wins)
    assert_eq!(meter.font_size.as_deref().map(|f| f.parse::<f64>().unwrap()), Some(18.0));
    // Explicit FontColor on meter supersedes all styles
    assert_eq!(meter.font_color.as_deref(), Some("255,255,255"));
}

#[test]
fn test_meter_multi_measure_ordering() {
    let ini = r#"
[Rainmeter]
Update=1000

[MeasureOne]
Measure=Time

[MeasureTwo]
Measure=Time

[MeasureThree]
Measure=Time

[MeterMulti]
Meter=String
MeasureName3=MeasureThree
MeasureName=MeasureOne
MeasureName2=MeasureTwo
"#;
    let (_, parts) = parse_text(ini);
    assert_eq!(parts.measures.len(), 3);
    let meter = &parts.meters[0];
    assert_eq!(meter.measure_name.as_deref(), Some("MeasureOne"));
    assert_eq!(meter.measure_names, vec!["MeasureOne", "MeasureTwo", "MeasureThree"]);
}

#[test]
fn measures_inherit_from_parent_and_expand_variables() {
    let ini = "[Variables]\nFmt=%H:%M\n[Base]\nFormat=#Fmt#\nUpdateDivider=5\n[MeasureTime]\nMeasure=Time\nParent=base\nDisabled=1\n";
    let (_, parts) = parse_text(ini);
    assert_eq!(parts.measures.len(), 1);
    let m = &parts.measures[0];
    assert_eq!(m.format.as_deref(), Some("%H:%M"));
    assert_eq!(m.update_divider, 5);
    assert!(m.disabled);
    assert!(!m.dynamic_variables);
}

#[test]
fn chained_variables_resolve_and_rainmeter_flags() {
    let ini = "[Rainmeter]\nAccurateText=true\nDynamicWindowSize=0\n[Variables]\nA=#B#x\nB=#C#y\nC=z\n";
    let (state, parts) = parse_text(ini);
    assert_eq!(state.variables.get("a"), Some("zyx"));
    assert!(parts.accurate_text);
    assert!(!parts.dynamic_window_size);
}

#[test]
fn read_lines_stops_at_includes() {
    let mut state = IniState::new("/skin", "/skin/main.ini");
    let lines = pluvia::text::lines("[Variables]\nA=1\n@Include=x.inc\nB=2\n");
    let (stop, cur) = state.read_lines(&lines, 0, None);
    assert_eq!(stop, 2);
    assert_eq!(cur.as_deref(), Some("variables"));
    assert_eq!(state.variables.get("a"), Some("1"));
    assert_eq!(state.variables.get("b"), None);
    let (stop2, _) = state.read_lines(&lines, 3, cur);
    assert_eq!(stop2, 4);
    assert_eq!(state.variables.get("b"), Some("2"));
}

#[test]
fn circular_include_is_refused() {
    let mut state = IniState::new("/skin", "/skin/main.ini");
    assert!(state.enter_include("/skin/a.inc", "a.inc").is_ok());
    assert!(state.enter_include("/skin/b.inc", "b.inc").is_ok());
    assert_eq!(
        state.enter_include("/skin/a.inc", "a.inc"),
        Err(ParseError::CircularInclude("a.inc".to_string()))
    );
    state.leave_include();
    state.leave_include();
    assert_eq!(state.include_stack, vec!["/skin/main.ini".to_string()]);
    assert!(state.enter_include("/skin/a.inc", "a.inc").is_ok());
}

/// Reads `name` from `files` into `state`, following `@Include` lines into
/// the other files by the last component of the expanded path.
fn read_with_includes(state: &mut IniState, files: &[(&str, &str)], name: &str, current: Option<String>) {
    let content = files.iter().find(|(n, _)| *n == name).map(|(_, c)| *c).unwrap();
    let ls = pluvia::text::lines(content);
    let mut from = 0;
    let mut cur = current;
    while from < ls.len() {
        let (stop, section) = state.read_lines(&ls, from, cur);
        cur = section;
        if stop >= ls.len() {
            break;
        }
        if let IniLine::Include(raw) = classify_line(&ls[stop]) {
            let wanted = state.variables.expand(&raw);
            let file = wanted.rsplit('/').next().unwrap().to_string();
            state.enter_include(&wanted, &raw).unwrap();
            read_with_includes(state, files, &file, cur.clone());
            state.leave_include();
        }
        from = stop + 1;
    }
}

#[test]
fn test_diamond_dependency_includes() {
    let files = [
        ("SharedVars.inc", "[Variables]\nSharedConst=42\n"),
        ("BranchA.inc", "[Variables]\n@Include=#@#SharedVars.inc\nVarA=10\n"),
        ("BranchB.inc", "[Variables]\n@Include=#@#SharedVars.inc\nVarB=20\n"),
        (
            "main.ini",
            "\n[Rainmeter]\nUpdate=1000\n\n[Variables]\n@IncludeA=#@#BranchA.inc\n@IncludeB=#@#BranchB.inc\n\n[MeterTest]\nMeter=String\nText=\"A=#VarA#, B=#VarB#, Shared=#SharedConst#\"\n",
        ),
    ];
    let mut state = IniState::new("/skin", "/skin/main.ini");
    read_with_includes(&mut state, &files, "main.ini", None);
    let parts = state.finish();
    assert_eq!(state.variables.get("sharedconst"), Some("42"));
    assert_eq!(state.variables.get("vara"), Some("10"));
    assert_eq!(state.variables.get("varb"), Some("20"));
    let meter = parts.meters.iter().find(|m| m.name.to_lowercase() == "metertest").unwrap();
    assert_eq!(meter.text.as_deref(), Some("A=10, B=20, Shared=42"));
}
