use pluvia::ini::{IniState, MeasureConfig, SkinParts};
use pluvia::measures::disk::{disk_settings, DiskStats};
use pluvia::measures::time::{time_zone_kind, TimeSettings, TimeZoneKind};
use pluvia::render::meters::{container_names, is_percent_measure, meter_range_texts, substitute_measures, MeterActions};
use pluvia::runtime::{auto_hide_change, click_action, match_action, measure_due, set_meter_option, set_meter_visibility, update_actions, MeterVisibility};
use pluvia::display::SurfaceBounds;
use pluvia::variables::{SectionValue, VariableMap};

fn config(measure_type: &str, plugin: Option<&str>, props: &[(&str, &str)]) -> MeasureConfig {
    let mut properties = VariableMap::empty();
    for (k, v) in props {
        properties.set(k, v);
    }
    MeasureConfig {
        name: "M".to_string(),
        measure_type: measure_type.to_string(),
        plugin: plugin.map(|p| p.to_string()),
        format: None,
        formula: None,
        update_divider: 1,
        disabled: false,
        dynamic_variables: false,
        properties,
    }
}

fn parse_text(content: &str) -> SkinParts {
    let mut state = IniState::new("/dummy", "/dummy/main.ini");
    let lines = pluvia::text::lines(content);
    let mut from = 0;
    let mut current = None;
    while from < lines.len() {
        let (stop, cur) = state.read_lines(&lines, from, current);
        current = cur;
        from = stop + 1;
    }
    state.finish()
}

#[test]
fn disk_settings_pick_mount_and_metric() {
    assert_eq!(disk_settings(&config("FreeDiskSpace", None, &[])), ("/".to_string(), "free"));
    assert_eq!(disk_settings(&config("FreeDiskSpace", None, &[("Drive", "C:")])), ("/".to_string(), "free"));
    assert_eq!(disk_settings(&config("FreeDiskSpace", None, &[("Drive", "c")])), ("/".to_string(), "free"));
    assert_eq!(disk_settings(&config("FreeDiskSpace", None, &[("Drive", "")])), ("/".to_string(), "free"));
    assert_eq!(
        disk_settings(&config("FreeDiskSpace", None, &[("Drive", "/home"), ("Total", "1")])),
        ("/home".to_string(), "total")
    );
    assert_eq!(disk_settings(&config("FreeDiskSpace", None, &[("Percentual", "1")])).1, "percent");
    assert_eq!(disk_settings(&config("FreeDiskSpace", None, &[("Percent", "0"), ("Percentual", "1")])).1, "free");
    assert_eq!(disk_settings(&config("FreeDiskSpace", None, &[("InvertMeasure", "1")])).1, "used");
    assert_eq!(
        disk_settings(&config("FreeDiskSpace", None, &[("Total", "1"), ("InvertMeasure", "1")])).1,
        "total"
    );
}

#[test]
fn disk_stats_from_statvfs_amounts() {
    assert_eq!(DiskStats::from_statvfs(4096, 1024, 1000, 250), DiskStats { total: 4_096_000, free: 1_024_000, used: 3_072_000 });
    // Without a fragment size the block size counts.
    assert_eq!(DiskStats::from_statvfs(0, 512, 10, 4), DiskStats { total: 5120, free: 2048, used: 3072 });
    // More free than total leaves nothing used.
    assert_eq!(DiskStats::from_statvfs(1, 1, 5, 9), DiskStats { total: 5, free: 9, used: 0 });
}

#[test]
fn time_settings_and_zones() {
    let plain = TimeSettings::from_config(&config("Time", None, &[]));
    assert_eq!(plain.format, "%H:%M:%S");
    assert_eq!(plain.time_zone, None);
    let opts = TimeSettings::from_config(&config("Time", None, &[("Format", "%d.%m"), ("TimeZone", "2")]));
    assert_eq!(opts.format, "%d.%m");
    assert_eq!(opts.time_zone.as_deref(), Some("2"));
    let mut sectioned = config("Time", None, &[("Format", "%d.%m")]);
    sectioned.format = Some("%H".to_string());
    assert_eq!(TimeSettings::from_config(&sectioned).format, "%H");

    assert_eq!(time_zone_kind(None), TimeZoneKind::Local);
    assert_eq!(time_zone_kind(Some(" UTC ")), TimeZoneKind::Utc);
    assert_eq!(time_zone_kind(Some("gmt")), TimeZoneKind::Utc);
    assert_eq!(time_zone_kind(Some("0")), TimeZoneKind::Utc);
    assert_eq!(time_zone_kind(Some(" -5.5 ")), TimeZoneKind::Offset("-5.5".to_string()));
}

#[test]
fn meter_actions_and_hit_boxes() {
    let mut props = VariableMap::empty();
    assert!(!MeterActions::of(&props).any());
    props.set("LeftMouseUpAction", "[!Refresh]");
    props.set("MouseScrollDownAction", "[!Hide]");
    let actions = MeterActions::of(&props);
    assert!(actions.any());
    assert_eq!(actions.left_mouse_up.as_deref(), Some("[!Refresh]"));
    assert_eq!(actions.mouse_scroll_down.as_deref(), Some("[!Hide]"));
    assert_eq!(actions.right_mouse_up, None);
}

#[test]
fn containers_are_named_in_meter_order() {
    let parts = parse_text(
        "[Mask]\nMeter=Shape\n[A]\nMeter=String\nContainer= Mask \n[B]\nMeter=Image\n[C]\nMeter=Bar\nContainer=Other\n",
    );
    assert_eq!(parts.meters.len(), 4);
    assert_eq!(container_names(&parts.meters), vec!["mask".to_string(), "other".to_string()]);
}

#[test]
fn meter_ranges_fall_back_to_the_measure() {
    let mut meter = VariableMap::empty();
    meter.set("MaxValue", "50");
    let measure = config("Calc", None, &[("MinValue", "-1"), ("MaxValue", "9")]);
    assert_eq!(meter_range_texts(&meter, Some(&measure)), (Some("-1".to_string()), Some("50".to_string())));
    assert_eq!(meter_range_texts(&meter, None), (None, Some("50".to_string())));
    assert_eq!(meter_range_texts(&VariableMap::empty(), None), (None, None));
}

#[test]
fn percent_measures_range_to_one_hundred() {
    assert!(is_percent_measure(&config("CPU", None, &[])));
    assert!(is_percent_measure(&config("PhysicalMemory", None, &[])));
    assert!(is_percent_measure(&config("NowPlaying", None, &[("PlayerType", "Progress")])));
    assert!(is_percent_measure(&config("Plugin", Some("NowPlaying.dll"), &[("PlayerType", "VOLUME")])));
    assert!(!is_percent_measure(&config("NowPlaying", None, &[("PlayerType", "Title")])));
    assert!(!is_percent_measure(&config("Calc", None, &[])));
}

#[test]
fn meter_text_takes_measure_values_in_order() {
    let values = vec!["25".to_string(), "50".to_string()];
    assert_eq!(substitute_measures("CPU: %1% / %2", &values), "CPU: 25% / 50");
    assert_eq!(substitute_measures("%0 and %1", &vec!["x".to_string()]), "x and x");
    assert_eq!(substitute_measures("now %0", &vec![]), "now ");
    assert_eq!(substitute_measures("plain", &values), "plain");
    // `%1` is replaced before `%10` is looked at.
    assert_eq!(substitute_measures("%10", &vec!["a".to_string()]), "a0");
}

#[test]
fn measures_update_on_their_divider() {
    assert!(measure_due(0, 0));
    assert!(measure_due(7, 1));
    assert!(!measure_due(7, 5));
    assert!(measure_due(10, 5));
    assert!(measure_due(3, 0));
}

#[test]
fn measure_value_actions() {
    let mut props = VariableMap::empty();
    assert!(update_actions(&props, None, "1").is_empty());
    props.set("OnUpdateAction", "[!Log up]");
    props.set("OnChangeAction", "[!Log changed]");
    assert_eq!(update_actions(&props, None, "1"), vec!["[!Log up]".to_string(), "[!Log changed]".to_string()]);
    assert_eq!(update_actions(&props, Some("1"), "1"), vec!["[!Log up]".to_string()]);
    assert_eq!(update_actions(&props, Some("1"), "2").len(), 2);

    let mut vars = VariableMap::empty();
    vars.set("Want", "Playing");
    let values = vec![SectionValue { name: "MeasureState".to_string(), text: "Playing".to_string(), number: "1".to_string() }];
    let mut m = VariableMap::empty();
    assert_eq!(match_action(&vars, "MeasureState", &m, &values, "Playing"), None);
    m.set("IfMatch", "#Want#");
    m.set("IfMatchAction", "[!ShowMeter Pause]");
    m.set("IfNotMatchAction", "[!HideMeter Pause]");
    assert_eq!(match_action(&vars, "MeasureState", &m, &values, "Playing").as_deref(), Some("[!ShowMeter Pause]"));
    assert_eq!(match_action(&vars, "MeasureState", &m, &values, "Stopped").as_deref(), Some("[!HideMeter Pause]"));
    // The pattern is a regular expression too.
    m.set("IfMatch", "^Pla.*");
    assert_eq!(match_action(&vars, "MeasureState", &m, &values, "Playing").as_deref(), Some("[!ShowMeter Pause]"));
    // An invalid expression only matches by equality.
    m.set("IfMatch", "(");
    assert_eq!(match_action(&vars, "MeasureState", &m, &values, "(").as_deref(), Some("[!ShowMeter Pause]"));
    assert_eq!(match_action(&vars, "MeasureState", &m, &values, "x").as_deref(), Some("[!HideMeter Pause]"));
    // The measure's own value expands in the pattern.
    m.set("IfMatch", "[MeasureState]");
    assert_eq!(match_action(&vars, "MeasureState", &m, &values, "Playing").as_deref(), Some("[!ShowMeter Pause]"));
}

#[test]
fn clicks_reach_the_topmost_box_with_an_action() {
    let mut below = VariableMap::empty();
    below.set("LeftMouseUpAction", "[!Log below]");
    below.set("RightMouseUpAction", "[!Log right]");
    let mut above = VariableMap::empty();
    above.set("LeftMouseDownAction", "[!Log above]");
    let actions = vec![MeterActions::of(&below), MeterActions::of(&above)];
    assert_eq!(click_action(&vec![true, true], &actions, 1), Some((1, "[!Log above]".to_string())));
    assert_eq!(click_action(&vec![true, true], &actions, 3), Some((0, "[!Log right]".to_string())));
    assert_eq!(click_action(&vec![true, false], &actions, 1), Some((0, "[!Log below]".to_string())));
    assert_eq!(click_action(&vec![false, false], &actions, 1), None);
    assert_eq!(click_action(&vec![true, true], &actions, 2), None);
    assert_eq!(click_action(&vec![true, true], &actions, 9), None);
}

#[test]
fn meter_bangs_change_visibility_and_options() {
    let mut parts = parse_text("[Clock]\nMeter=String\nText=12:00\n[Other]\nMeter=Image\n");
    set_meter_visibility(&mut parts.meters, "CLOCK", MeterVisibility::Hide);
    assert!(parts.meters[0].hidden);
    assert!(!parts.meters[1].hidden);
    set_meter_visibility(&mut parts.meters, "clock", MeterVisibility::Toggle);
    assert!(!parts.meters[0].hidden);
    set_meter_visibility(&mut parts.meters, "other", MeterVisibility::Toggle);
    assert!(parts.meters[1].hidden);
    set_meter_visibility(&mut parts.meters, "other", MeterVisibility::Show);
    assert!(!parts.meters[1].hidden);

    set_meter_option(&mut parts.meters, "Clock", "Text", "13:00");
    assert_eq!(parts.meters[0].text.as_deref(), Some("13:00"));
    assert_eq!(parts.meters[0].properties.get("text"), Some("13:00"));
    set_meter_option(&mut parts.meters, "clock", "FontColor", "255,0,0");
    assert_eq!(parts.meters[0].font_color.as_deref(), Some("255,0,0"));
    set_meter_option(&mut parts.meters, "clock", "W", "wide");
    assert_eq!(parts.meters[0].w.as_deref(), Some("wide"));
    set_meter_option(&mut parts.meters, "clock", "Padding", "2");
    assert_eq!(parts.meters[0].properties.get("padding"), Some("2"));
    assert_eq!(parts.meters[0].text.as_deref(), Some("13:00"));
    set_meter_option(&mut parts.meters, "missing", "Text", "x");
    assert_eq!(parts.meters[1].text, None);
}

#[test]
fn covered_skins_hide_and_come_back() {
    let skin = SurfaceBounds::new(100, 100, 200, 100);
    let big = SurfaceBounds::new(0, 0, 1920, 1080);
    let small = SurfaceBounds::new(150, 150, 10, 10);
    assert_eq!(auto_hide_change(skin, &vec![small, big], false), Some(false));
    assert_eq!(auto_hide_change(skin, &vec![small, big], true), None);
    assert_eq!(auto_hide_change(skin, &vec![small], true), Some(true));
    assert_eq!(auto_hide_change(skin, &vec![], false), None);
    // Exactly the same box counts as covering.
    assert_eq!(auto_hide_change(skin, &vec![skin], false), Some(false));
}
