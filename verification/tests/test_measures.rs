use pluvia::ini::MeasureConfig;
use pluvia::measures::gpu::GpuMetric;
use pluvia::measures::mpris::{hex_digit, normalize_cover_art_url, percent_decode_str, PlayerType};
use pluvia::measures::power::{ac_after, status_code, supply_role, PowerMetric, SupplyRole};
use pluvia::measures::substitute::{apply_substitute, parse_substitute_pairs};
use pluvia::measures::system::{parse_cpu_times, stat_cpu_times, CpuCounters, CpuTimes};
use pluvia::measures::thermal::{TemperatureScale, ThermalMetric, ThermalSettings};
use pluvia::measures::time::convert_rainmeter_time_format;
use pluvia::variables::VariableMap;

fn config(props: &[(&str, &str)]) -> MeasureConfig {
    let mut properties = VariableMap::empty();
    for (k, v) in props {
        properties.set(k, v);
    }
    MeasureConfig {
        name: "M".to_string(),
        measure_type: "Plugin".to_string(),
        plugin: None,
        format: None,
        formula: None,
        update_divider: 1,
        disabled: false,
        dynamic_variables: false,
        properties,
    }
}

#[test]
fn test_standard_substitute() {
    let sub = "\"0\":\"ffffff\",\"1\":\"333333\"";
    assert_eq!(apply_substitute("0", sub, false), "ffffff");
    assert_eq!(apply_substitute("1", sub, false), "333333");
    assert_eq!(apply_substitute("2", sub, false), "2");
}

#[test]
fn test_unquoted_outer_substitute() {
    let sub = "0\":\"ffffff\",\"1\":\"333333";
    assert_eq!(apply_substitute("0", sub, false), "ffffff");
    assert_eq!(apply_substitute("1", sub, false), "333333");
}

#[test]
fn test_regex_substitute() {
    let sub = "\"0.[4-9].*\":\"0\",\"0.[0-3].*\":\"1\"";
    assert_eq!(apply_substitute("0.75", sub, true), "0");
    assert_eq!(apply_substitute("0.2", sub, true), "1");
}

#[test]
fn substitute_falls_back_to_plain_pairs() {
    assert_eq!(
        parse_substitute_pairs(" a:b , \"c\" : \"d\" ,novalue"),
        vec![("a".to_string(), "b".to_string()), ("c".to_string(), "d".to_string())]
    );
    assert_eq!(parse_substitute_pairs("   "), Vec::<(String, String)>::new());
    assert_eq!(apply_substitute("aXbX", "X:-", false), "a-b-");
    assert_eq!(apply_substitute("abc", "", false), "abc");
    assert_eq!(apply_substitute("ab", "\"\":\"-\"", false), "-a-b-");
    assert_eq!(apply_substitute("abc", "\"(\":\"x\"", true), "abc");
}

#[test]
fn gpu_and_power_metrics_from_options() {
    assert_eq!(GpuMetric::from_config(&config(&[])), GpuMetric::Usage);
    assert_eq!(GpuMetric::from_config(&config(&[("Type", "VRAM")])), GpuMetric::MemoryUsed);
    assert_eq!(GpuMetric::from_config(&config(&[("GpuType", "gpu temperature"), ("Type", "clock")])), GpuMetric::Temperature);
    assert_eq!(GpuMetric::from_config(&config(&[("Entry", "Model")])), GpuMetric::Name);
    assert_eq!(PowerMetric::from_config(&config(&[("PowerState", "ACLine")])), PowerMetric::ACLine);
    assert_eq!(PowerMetric::from_config(&config(&[("Metric", "frequency")])), PowerMetric::Hz);
    assert_eq!(PowerMetric::from_config(&config(&[("Type", "bogus")])), PowerMetric::Percent);
}

#[test]
fn player_type_from_options() {
    assert_eq!(PlayerType::from_config(&config(&[("PlayerType", "ARTIST")])), PlayerType::Artist);
    assert_eq!(PlayerType::from_config(&config(&[("PlayerType", "Progress")])), PlayerType::Progress);
    assert_eq!(PlayerType::from_config(&config(&[])), PlayerType::Title);
}

#[test]
fn thermal_settings_from_options() {
    let s = ThermalSettings::from_config(&config(&[("Scale", "F"), ("CoreTempType", "Core"), ("CoreTempIndex", "2")]));
    assert_eq!(s.scale, TemperatureScale::Fahrenheit);
    assert_eq!(s.metric, ThermalMetric::CoreTemp(2));
    let t = ThermalSettings::from_config(&config(&[("TemperatureUnit", "kelvin"), ("SensorIndex", "3"), ("Sensor", "k10temp")]));
    assert_eq!(t.scale, TemperatureScale::Kelvin);
    assert_eq!(t.metric, ThermalMetric::CoreTemp(3));
    assert_eq!(t.sensor_index, 3);
    assert_eq!(t.custom_name.as_deref(), Some("k10temp"));
    let u = ThermalSettings::from_config(&config(&[("Type", "max")]));
    assert_eq!(u.metric, ThermalMetric::MaxTemperature);
    assert_eq!(u.scale, TemperatureScale::Celsius);
}

#[test]
fn cpu_line_parsing_and_deltas() {
    let t = parse_cpu_times("cpu  20 0 0 80 0 0 0 0 0 0");
    assert_eq!(t, CpuTimes { user: 20, idle: 80, ..CpuTimes::default() });
    let partial = parse_cpu_times("cpu3 1 x 3");
    assert_eq!(partial, CpuTimes { user: 1, nice: 0, system: 3, ..CpuTimes::default() });
    let mut c = CpuCounters::default();
    assert_eq!(c.record(t), None);
    let t2 = parse_cpu_times("cpu  70 0 0 130 0 0 0 0 0 0");
    assert_eq!(c.record(t2), Some((50, 100)));
}

#[test]
fn stat_lines_select_the_processor() {
    let stat = "cpu  100 0 0 100 0 0 0 0 0 0\ncpu0 50 0 0 50 0 0 0 0 0 0\ncpu1 10 0 0 90 0 0 0 0 0 0\nintr 5\n";
    assert_eq!(stat_cpu_times(stat, None).map(|t| t.user), Some(100));
    assert_eq!(stat_cpu_times(stat, Some(0)).map(|t| t.user), Some(100));
    assert_eq!(stat_cpu_times(stat, Some(2)).map(|t| t.idle), Some(90));
    assert_eq!(stat_cpu_times(stat, Some(5)), None);
}

#[test]
fn time_formats_translate_windows_flags() {
    assert_eq!(convert_rainmeter_time_format("%Y-%#m-%#d"), "%Y-%-m-%-d");
    assert_eq!(convert_rainmeter_time_format("  \"%H:%M\"  "), "%H:%M");
    assert_eq!(convert_rainmeter_time_format("''"), "%H:%M:%S");
    assert_eq!(convert_rainmeter_time_format("%#x"), "%A, %B %-d, %Y");
}

#[test]
fn cover_art_urls_are_decoded() {
    assert_eq!(normalize_cover_art_url(" file:///path/to/my%20cover.jpg "), "/path/to/my cover.jpg");
    assert_eq!(normalize_cover_art_url("https://x/y%20z"), "https://x/y%20z");
    assert_eq!(percent_decode_str("%e2%9c%93ok"), "✓ok");
    assert_eq!(percent_decode_str("%zz1"), "%1");
    assert_eq!(percent_decode_str("a%4"), "a%");
    assert_eq!(percent_decode_str("%ff"), "\u{fffd}");
    assert_eq!(hex_digit(b'b'), Some(11));
    assert_eq!(hex_digit(b'F'), Some(15));
    assert_eq!(hex_digit(b'g'), None);
}

#[test]
fn power_supply_entries_and_status_codes() {
    assert_eq!(supply_role("AC"), SupplyRole::Adapter);
    assert_eq!(supply_role("ADP1"), SupplyRole::Adapter);
    assert_eq!(supply_role("ucsi-source-psy-USBC000:001"), SupplyRole::Adapter);
    assert_eq!(supply_role("BAT0"), SupplyRole::Battery);
    assert_eq!(supply_role("hidpp_battery_0"), SupplyRole::Other);
    assert_eq!(supply_role("ac"), SupplyRole::Other);

    assert_eq!(ac_after(None, 1), Some(true));
    assert_eq!(ac_after(None, 0), Some(false));
    assert_eq!(ac_after(Some(true), 0), Some(true));
    assert_eq!(ac_after(Some(false), 1), Some(true));

    assert_eq!(status_code("Charging", false, false), 1);
    assert_eq!(status_code("Discharging", true, false), 1);
    assert_eq!(status_code("Not charging", false, true), 1);
    assert_eq!(status_code("Full", true, false), 2);
    assert_eq!(status_code("Full", false, true), 3);
    assert_eq!(status_code("Unknown", false, false), 0);
}
