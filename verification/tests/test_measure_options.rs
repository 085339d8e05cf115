use pluvia::ini::MeasureConfig;
use pluvia::measures::calc_measure::CalcMeasure;
use pluvia::measures::gpu::{is_drm_card, nvidia_smi_fields};
use pluvia::measures::mpris::{mpris_destination, parse_player_command, PlayerCommand};
use pluvia::measures::plugin_fallback::{FallbackPluginMeasure, FallbackValue};
use pluvia::measures::string_measure::StringMeasure;
use pluvia::plugins::audio_level::{fft_size_for, AudioLevelSettings};
use pluvia::variables::{SectionValue, VariableMap};

fn config(measure_type: &str, plugin: Option<&str>, props: &[(&str, &str)]) -> MeasureConfig {
    let mut properties = VariableMap::empty();
    for (k, v) in props {
        properties.set(k, v);
    }
    MeasureConfig {
        name: "MeasureX".to_string(),
        measure_type: measure_type.to_string(),
        plugin: plugin.map(|p| p.to_string()),
        format: None,
        formula: None,
        update_divider: 1,
        disabled: false,
        dynamic_variables: false,
        properties,
    }
}

#[test]
fn test_nvidia_smi_fields() {
    let out = "45, 60, 1024, 8192, 1500, NVIDIA GeForce RTX 3070\n10, 40, 1, 2, 3, Second GPU\n";
    let f = nvidia_smi_fields(out, 0).unwrap();
    assert_eq!(f, vec!["45", "60", "1024", "8192", "1500", "NVIDIA GeForce RTX 3070"]);
    assert_eq!(nvidia_smi_fields(out, 1).unwrap()[5], "Second GPU");
    assert_eq!(nvidia_smi_fields(out, 7).unwrap()[5], "NVIDIA GeForce RTX 3070");
    assert!(nvidia_smi_fields("1, 2, 3\n", 0).is_none());
    assert!(nvidia_smi_fields("", 0).is_none());
    assert!(is_drm_card("card0"));
    assert!(!is_drm_card("card0-DP-1"));
    assert!(!is_drm_card("renderD128"));
}

#[test]
fn test_string_measure_substitutes_and_expands() {
    let c = config("String", None, &[("String", "Hello #Who#"), ("Substitute", "\"Hello\":\"Bye\"")]);
    let mut m = StringMeasure::from_config(&c);
    assert_eq!(m.current_value, "Bye #Who#");
    let mut vars = VariableMap::empty();
    vars.set("Who", "World");
    let measures: Vec<SectionValue> = Vec::new();
    assert_eq!(m.update_with_context(&vars, &measures), "Bye World");
    assert_eq!(m.current_value, "Bye World");
    let plain = StringMeasure::from_config(&config("String", None, &[]));
    assert_eq!(plain.current_value, "");
    assert!(!plain.dynamic_variables);
}

#[test]
fn test_calc_measure_options() {
    let mut c = config("Calc", None, &[("Formula", "#A# + 1"), ("DynamicVariables", "1")]);
    let m = CalcMeasure::from_config(&c);
    assert_eq!(m.formula, "#A# + 1");
    assert!(m.dynamic_variables);
    let mut vars = VariableMap::empty();
    vars.set("A", "41");
    let measures: Vec<SectionValue> = Vec::new();
    assert_eq!(m.expanded_formula(&vars, &measures), "41 + 1");
    assert_eq!(m.expanded_substitute(&vars, &measures), None);
    c.formula = Some("2*2".to_string());
    assert_eq!(CalcMeasure::from_config(&c).formula, "2*2");
}

#[test]
fn test_fallback_plugin_values() {
    let m = FallbackPluginMeasure::from_config(&config("Plugin", Some("Chameleon"), &[]));
    assert_eq!(m.plugin, "chameleon");
    assert_eq!(m.value, FallbackValue::Text("333333".to_string()));
    let m = FallbackPluginMeasure::from_config(&config("Plugin", Some("Chameleon"), &[("Color", "Luminance")]));
    assert_eq!(m.value, FallbackValue::Zero);
    let m = FallbackPluginMeasure::from_config(&config("Plugin", Some("FrostedGlass"), &[]));
    assert_eq!(m.value, FallbackValue::One);
    let m = FallbackPluginMeasure::from_config(&config("Plugin", None, &[("Plugin", "Other")]));
    assert_eq!(m.plugin, "other");
    assert_eq!(m.value, FallbackValue::Zero);
}

#[test]
fn test_audio_level_settings() {
    let s = AudioLevelSettings::from_config(&config("Plugin", None, &[("Bands", "0"), ("Band", "3"), ("FFTSize", "1000")]));
    assert_eq!(s, AudioLevelSettings { bands_count: 1, band_idx: 3, fft_size: 1024 });
    let s = AudioLevelSettings::from_config(&config("Plugin", None, &[]));
    assert_eq!(s, AudioLevelSettings { bands_count: 16, band_idx: 0, fft_size: 1024 });
    assert_eq!(fft_size_for(0), 1);
    assert_eq!(fft_size_for(512), 512);
    assert_eq!(fft_size_for(513), 1024);
    assert_eq!(fft_size_for(usize::MAX), 0);
}

#[test]
fn test_player_commands_and_destination() {
    assert_eq!(parse_player_command(" TogglePlayPause "), PlayerCommand::PlayPause);
    assert_eq!(parse_player_command("prev"), PlayerCommand::Previous);
    assert_eq!(parse_player_command("SetPosition 30"), PlayerCommand::SetPosition("30".to_string()));
    assert_eq!(parse_player_command("setvolume  75 "), PlayerCommand::SetVolume("75".to_string()));
    assert_eq!(parse_player_command("Shuffle"), PlayerCommand::Unknown);
    let names = vec!["org.freedesktop.DBus".to_string(), "org.mpris.MediaPlayer2.spotify".to_string()];
    assert_eq!(mpris_destination(None, &names), Some("org.mpris.MediaPlayer2.spotify".to_string()));
    assert_eq!(mpris_destination(Some("vlc"), &names), Some("org.mpris.MediaPlayer2.vlc".to_string()));
    assert_eq!(
        mpris_destination(Some("org.mpris.MediaPlayer2.mpv"), &names),
        Some("org.mpris.MediaPlayer2.mpv".to_string())
    );
    assert_eq!(mpris_destination(None, &Vec::new()), None);
}
