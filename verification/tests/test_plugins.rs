use pluvia::plugins::web_parser::WebParserPlugin;
use pluvia::ini::MeasureConfig;
use pluvia::plugins::action_timer::{ActionTimer, action_bangs, parse_action_list, parse_timer_command, set_variable_plan, ActionItem, ActionSchedule, TimerCommand};
use pluvia::plugins::audio_level::{AudioChannel, AudioLevelType};
use pluvia::plugins::win7_audio::{parse_win7_command, Win7AudioQueryType, Win7Command};
use pluvia::variables::VariableMap;

fn config(props: &[(&str, &str)]) -> MeasureConfig {
    let mut properties = VariableMap::empty();
    for (k, v) in props {
        properties.set(k, v);
    }
    MeasureConfig {
        name: "M".to_string(),
        measure_type: "Plugin".to_string(),
        plugin: None,
        format: None,
        formula: None,
        update_divider: 1,
        disabled: false,
        dynamic_variables: false,
        properties,
    }
}

#[test]
fn action_lists_parse_waits_repeats_and_names() {
    assert_eq!(
        parse_action_list("Reset | Wait 10 | Repeat MoveDown, 10, 3 | | repeat bad, 1"),
        vec![
            ActionItem::Named("Reset".to_string()),
            ActionItem::Wait(10),
            ActionItem::Repeat { action_name: "MoveDown".to_string(), interval_ms: 10, count: 3 },
        ]
    );
    assert_eq!(parse_action_list("WAIT x"), vec![ActionItem::Wait(0)]);
    assert_eq!(
        parse_action_list("Repeat A, x, y"),
        vec![ActionItem::Repeat { action_name: "A".to_string(), interval_ms: 0, count: 1 }]
    );
}

#[test]
fn schedule_runs_actions_on_time() {
    let mut timer = ActionSchedule::new();
    timer.add_action_list(1, "Reset | Wait 10 | Repeat MoveDown, 10, 3");
    assert!(!timer.is_running());
    timer.execute(1);
    assert!(timer.is_running());
    assert_eq!(timer.step(0), vec!["Reset"]);
    assert_eq!(timer.step(10), vec!["MoveDown"]);
    assert_eq!(timer.step(10), vec!["MoveDown"]);
    assert!(timer.is_running());
    assert_eq!(timer.step(10), vec!["MoveDown"]);
    assert!(!timer.is_running());

    timer.command("Execute 1");
    assert!(timer.is_running());
    assert_eq!(timer.step(100), vec!["Reset", "MoveDown", "MoveDown", "MoveDown"]);
    assert!(!timer.is_running());

    timer.command("Execute 1");
    timer.command("Stop 1");
    assert!(!timer.is_running());
    timer.execute(7);
    assert!(!timer.is_running());
}

#[test]
fn schedule_steps_split_anywhere_give_the_same_actions() {
    let mut a = ActionSchedule::new();
    a.add_action_list(2, "One | Wait 5 | Two | Wait 5 | Three");
    a.execute(2);
    let mut seen = Vec::new();
    for _ in 0..10 {
        seen.extend(a.step(1));
    }
    assert_eq!(seen, vec!["One", "Two", "Three"]);
    assert!(!a.is_running());
}

#[test]
fn stop_all_and_commands() {
    assert_eq!(parse_timer_command(" execute 3 "), TimerCommand::Execute(3));
    assert_eq!(parse_timer_command("Stop"), TimerCommand::Stop(None));
    assert_eq!(parse_timer_command("stop 2"), TimerCommand::Stop(Some(2)));
    assert_eq!(parse_timer_command("stop x"), TimerCommand::Ignore);
    assert_eq!(parse_timer_command("Execute"), TimerCommand::Ignore);
    let mut s = ActionSchedule::new();
    s.add_action_list(1, "Wait 100");
    s.add_action_list(2, "Wait 100");
    s.execute(1);
    s.execute(2);
    s.stop(None);
    assert!(!s.is_running());
}

#[test]
fn action_definitions_split_into_bangs() {
    assert_eq!(action_bangs("[!SetVariable A 1][ !Redraw ]tail[unclosed"), vec!["!SetVariable A 1", "!Redraw"]);
    assert_eq!(action_bangs("no brackets"), Vec::<String>::new());
    let mut vars = VariableMap::empty();
    vars.set("MyY", "5");
    assert_eq!(
        set_variable_plan("!SetVariable MyY (#MyY#+5)", &vars),
        Some(("MyY".to_string(), "(5+5)".to_string(), "5+5".to_string()))
    );
    assert_eq!(
        set_variable_plan("!setvariable Name \"Hello World\"", &vars),
        Some(("Name".to_string(), "Hello World".to_string(), "Hello World".to_string()))
    );
    assert_eq!(set_variable_plan("!SetVariable Lonely", &vars), None);
    assert_eq!(set_variable_plan("!Redraw", &vars), None);
}

#[test]
fn audio_plugin_options() {
    assert_eq!(AudioLevelType::from_config(&config(&[])), AudioLevelType::RMS);
    assert_eq!(AudioLevelType::from_config(&config(&[("Type", "Band")])), AudioLevelType::FFT);
    assert_eq!(AudioChannel::from_config(&config(&[("Channel", "L")])), AudioChannel::Left);
    assert_eq!(AudioChannel::from_config(&config(&[])), AudioChannel::Avg);
    assert_eq!(Win7AudioQueryType::from_config(&config(&[("Target", "DeviceName")])), Win7AudioQueryType::Device);
    assert_eq!(Win7AudioQueryType::from_config(&config(&[])), Win7AudioQueryType::Volume);
}

#[test]
fn win7_commands() {
    assert_eq!(parse_win7_command(" SetVolume 75 "), Win7Command::SetVolume("75".to_string()));
    assert_eq!(parse_win7_command("ChangeVolume +40"), Win7Command::ChangeVolume("+40".to_string()));
    assert_eq!(parse_win7_command("togglemute"), Win7Command::ToggleMute);
    assert_eq!(parse_win7_command("ToggleMute now"), Win7Command::Unknown);
    assert_eq!(parse_win7_command("SetMute true"), Win7Command::SetMute(true));
    assert_eq!(parse_win7_command("SetMute 0"), Win7Command::SetMute(false));
    assert_eq!(parse_win7_command("SetMute maybe"), Win7Command::Unknown);
}

#[test]
fn test_web_parser_plugin_regex_extraction_and_mock_data() {
    let html_data = r#"
        <div id="weather">
            <span class="city">Stockholm</span>
            <span class="temp">18°C</span>
            <span class="humidity">65%</span>
        </div>
    "#;

    let pattern = r#"class="city">([^<]+)</span>\s*<span class="temp">([^<]+)</span>"#;

    // StringIndex 1 -> City
    let mut p_city = WebParserPlugin::new()
        .with_regex(pattern)
        .with_string_index(1)
        .with_mock_data(html_data);
    let val_city = p_city.update_with(None);
    assert_eq!(val_city, "Stockholm");

    // StringIndex 2 -> Temp
    let mut p_temp = WebParserPlugin::new()
        .with_regex(pattern)
        .with_string_index(2)
        .with_mock_data(html_data);
    let val_temp = p_temp.update_with(None);
    assert_eq!(val_temp, "18°C");

    // The fixed data wins over fetched text, and the whole match is group 0.
    assert_eq!(p_city.update_with(Some("other".to_string())), "Stockholm");
    assert!(p_city.get_match(0).unwrap().starts_with("class=\"city\">Stockholm"));
    assert_eq!(p_city.get_match(3), None);
}

#[test]
fn web_parser_takes_fetched_text_only_with_an_address() {
    let mut no_url = WebParserPlugin::new().with_regex("t=(\\d+)");
    assert_eq!(no_url.update_with(Some("t=42".to_string())), "");
    let mut with_url = WebParserPlugin::new().with_url("https://example.com").with_regex("t=(\\d+)").with_string_index(1);
    assert_eq!(with_url.update_with(Some("t=42".to_string())), "42");
    // A failed fetch keeps the last text.
    assert_eq!(with_url.update_with(None), "42");
    let mut whole = WebParserPlugin::new().with_url("u");
    assert_eq!(whole.update_with(Some("plain text".to_string())), "plain text");
}

/// Runs the bangs a step gave, computing `a+b` formulas as whole numbers.
fn run_bangs(timer: &mut ActionTimer, bangs: Vec<String>) {
    for bang in bangs {
        let computed = timer.set_variable_formula(&bang).and_then(|f| {
            f.split('+').map(|t| t.trim().parse::<i64>().ok()).sum::<Option<i64>>().map(|n| n.to_string())
        });
        timer.apply_set_variable(&bang, computed.as_deref());
    }
}

#[test]
fn test_action_timer_plugin_queuing_waits_repeats_and_variables() {
    let mut timer = ActionTimer::new();
    timer.set_variable("MyY", "0");
    timer.add_action("MoveDown", "[!SetVariable MyY (#MyY#+5)]");
    timer.add_action("Reset", "[!SetVariable MyY 0]");

    // ActionList: Reset -> Wait 10ms -> Repeat MoveDown 3 times (10ms interval)
    timer.schedule.add_action_list(1, "Reset | Wait 10 | Repeat MoveDown, 10, 3");

    assert!(!timer.schedule.is_running());
    timer.schedule.execute(1);
    assert!(timer.schedule.is_running());

    // Step 0: executes Reset immediately, starts Wait 10
    let b = timer.step(0);
    run_bangs(&mut timer, b);
    assert_eq!(timer.get_variable("MyY"), Some("0"));

    // Step 10ms: Wait finishes, first repeat executes MoveDown (+5)
    let b = timer.step(10);
    run_bangs(&mut timer, b);
    assert_eq!(timer.get_variable("MyY"), Some("5"));

    // Step 10ms: second repeat (+5)
    let b = timer.step(10);
    run_bangs(&mut timer, b);
    assert_eq!(timer.get_variable("MyY"), Some("10"));

    // Step 10ms: third repeat (+5) and completes
    let b = timer.step(10);
    run_bangs(&mut timer, b);
    assert_eq!(timer.get_variable("MyY"), Some("15"));
    assert!(!timer.schedule.is_running());

    // Test command interface: Execute and Stop
    timer.schedule.command("Execute 1");
    assert!(timer.schedule.is_running());
    timer.schedule.command("Stop 1");
    assert!(!timer.schedule.is_running());
}

#[test]
fn action_names_fall_back_to_their_own_text() {
    let mut timer = ActionTimer::new();
    timer.add_action("Go", "[!Log a][!Log b]");
    assert_eq!(timer.action_content("GO"), "[!Log a][!Log b]");
    assert_eq!(timer.action_content("[!Refresh]"), "[!Refresh]");
    assert!(!timer.apply_set_variable("!Log x", None));
    assert!(timer.apply_set_variable("!SetVariable V \"text\"", None));
    assert_eq!(timer.get_variable("v"), Some("text"));
}
