//! How a thermal measure reads its options (CoreTemp and SpeedFan
//! compatible names).
use crate::ini::MeasureConfig;
use crate::measures::{first_of, opt_view, option, pick, prop};
use crate::text::{
    contains_chars, contains_seq, eq_ignore_case, eq_ignore_case_str, lower, lower_range, lower_str,
    parse_uint, str_eq, to_chars,
};
use vstd::prelude::*;

verus! {

/// Thermal metric type requested by the skin.
#[derive(Debug, Clone, Copy, PartialEq, Eq)]
pub enum ThermalMetric {
    /// Temperature in Celsius or Fahrenheit
    Temperature,
    /// Maximum temperature recorded or critical threshold
    MaxTemperature,
    /// CPU Model or Sensor Name
    Name,
    /// Core / Sensor index temperature
    CoreTemp(usize),
}

/// Temperature scale format.
#[derive(Debug, Clone, Copy, PartialEq, Eq)]
pub enum TemperatureScale {
    Celsius,
    Fahrenheit,
    Kelvin,
}

/// What a thermal measure's options select.
#[derive(Debug, Clone, PartialEq, Eq)]
pub struct ThermalSettings {
    pub metric: ThermalMetric,
    pub scale: TemperatureScale,
    pub sensor_index: usize,
    pub custom_name: Option<String>,
}

pub open spec fn parse_usize(s: Option<Seq<char>>) -> Option<nat> {
    match s {
        Some(v) => parse_uint(v, usize::MAX as nat),
        None => None,
    }
}

/// `Scale` or `TemperatureUnit`: `F`/`Fahrenheit` or `K`/`Kelvin` in any
/// case; Celsius otherwise.
pub open spec fn scale_of(c: MeasureConfig) -> TemperatureScale {
    match first_of(prop(c, "scale"@), prop(c, "temperatureunit"@)) {
        Some(s) => if eq_ignore_case(s, "f"@) || eq_ignore_case(s, "fahrenheit"@) {
            TemperatureScale::Fahrenheit
        } else if eq_ignore_case(s, "k"@) || eq_ignore_case(s, "kelvin"@) {
            TemperatureScale::Kelvin
        } else {
            TemperatureScale::Celsius
        },
        None => TemperatureScale::Celsius,
    }
}

/// The metric `CoreTempType` (or `Type`) names, before `SpeedFanType` and
/// the sensor number are read.
pub open spec fn coretemp_metric(c: MeasureConfig) -> ThermalMetric {
    match first_of(prop(c, "coretemptype"@), prop(c, "type"@)) {
        Some(t) => {
            let l = lower(t);
            if l == "cpuname"@ || l == "name"@ || l == "sensorname"@ {
                ThermalMetric::Name
            } else if l == "maxtemperature"@ || l == "max"@ || l == "critical"@ {
                ThermalMetric::MaxTemperature
            } else if l == "coretemp"@ || l == "core"@ {
                let idx = match parse_usize(first_of(prop(c, "coretempindex"@), prop(c, "index"@))) {
                    Some(n) => n,
                    None => 0,
                };
                ThermalMetric::CoreTemp(idx as usize)
            } else {
                ThermalMetric::Temperature
            }
        },
        None => ThermalMetric::Temperature,
    }
}

/// `SpeedFanType=Temperature` (or `Temp`) selects the temperature.
pub open spec fn speedfan_metric(c: MeasureConfig, m: ThermalMetric) -> ThermalMetric {
    match prop(c, "speedfantype"@) {
        Some(s) => if lower(s) == "temperature"@ || lower(s) == "temp"@ {
            ThermalMetric::Temperature
        } else {
            m
        },
        None => m,
    }
}

/// The sensor number: `SpeedFanNumber`, `SensorIndex` or `Index`.
pub open spec fn sensor_number(c: MeasureConfig) -> Option<nat> {
    parse_usize(
        first_of(first_of(prop(c, "speedfannumber"@), prop(c, "sensorindex"@)), prop(c, "index"@)),
    )
}

/// All thermal options together; a non-zero sensor number turns a plain
/// temperature into that core's temperature.
pub open spec fn thermal_settings_of(c: MeasureConfig) -> (ThermalMetric, TemperatureScale, nat, Option<Seq<char>>) {
    let m = speedfan_metric(c, coretemp_metric(c));
    let (idx, metric) = match sensor_number(c) {
        Some(n) => (n, if m == ThermalMetric::Temperature && n > 0 {
            ThermalMetric::CoreTemp(n as usize)
        } else {
            m
        }),
        None => (0nat, m),
    };
    (metric, scale_of(c), idx, first_of(prop(c, "sensor"@), prop(c, "sensorname"@)))
}

fn parse_usize_opt(s: Option<&str>) -> (r: Option<usize>)
    ensures
        match r {
            Some(n) => parse_usize(opt_view(s)) == Some(n as nat),
            None => parse_usize(opt_view(s)) is None,
        },
{
    match s {
        Some(v) => match crate::text::parse_uint_str(v, usize::MAX as u64) {
            Some(n) => Some(n as usize),
            None => None,
        },
        None => None,
    }
}

impl ThermalSettings {
    /// Reads a thermal measure's options.
    pub fn from_config(config: &MeasureConfig) -> (r: ThermalSettings)
        requires
            config.properties.wf(),
        ensures
            (r.metric, r.scale, r.sensor_index as nat, crate::measures::ov(r.custom_name))
                == thermal_settings_of(*config),
    {
        let scale = match pick(option(config, "scale"), option(config, "temperatureunit")) {
            Some(s) => if eq_ignore_case_str(s, "f") || eq_ignore_case_str(s, "fahrenheit") {
                TemperatureScale::Fahrenheit
            } else if eq_ignore_case_str(s, "k") || eq_ignore_case_str(s, "kelvin") {
                TemperatureScale::Kelvin
            } else {
                TemperatureScale::Celsius
            },
            None => TemperatureScale::Celsius,
        };
        let mut metric = match pick(option(config, "coretemptype"), option(config, "type")) {
            Some(t) => {
                let l = lower_str(t);
                let l = l.as_str();
                if str_eq(l, "cpuname") || str_eq(l, "name") || str_eq(l, "sensorname") {
                    ThermalMetric::Name
                } else if str_eq(l, "maxtemperature") || str_eq(l, "max") || str_eq(l, "critical") {
                    ThermalMetric::MaxTemperature
                } else if str_eq(l, "coretemp") || str_eq(l, "core") {
                    let idx = match parse_usize_opt(
                        pick(option(config, "coretempindex"), option(config, "index")),
                    ) {
                        Some(n) => n,
                        None => 0,
                    };
                    ThermalMetric::CoreTemp(idx)
                } else {
                    ThermalMetric::Temperature
                }
            },
            None => ThermalMetric::Temperature,
        };
        assert(metric == coretemp_metric(*config));
        match option(config, "speedfantype") {
            Some(s) => {
                let l = lower_str(s);
                if str_eq(l.as_str(), "temperature") || str_eq(l.as_str(), "temp") {
                    metric = ThermalMetric::Temperature;
                }
            },
            None => {},
        }
        assert(metric == speedfan_metric(*config, coretemp_metric(*config)));
        let mut sensor_index: usize = 0;
        match parse_usize_opt(
            pick(pick(option(config, "speedfannumber"), option(config, "sensorindex")), option(config, "index")),
        ) {
            Some(n) => {
                sensor_index = n;
                if matches!(metric, ThermalMetric::Temperature) && n > 0 {
                    metric = ThermalMetric::CoreTemp(n);
                }
            },
            None => {},
        }
        let custom_name = match pick(option(config, "sensor"), option(config, "sensorname")) {
            Some(s) => Some(s.to_string()),
            None => None,
        };
        ThermalSettings { metric, scale, sensor_index, custom_name }
    }
}

} // verus!
verus! {

/// Whether a (lower-case) hwmon driver name is a known CPU sensor driver.
pub open spec fn preferred_driver(l: Seq<char>) -> bool {
    contains_seq(l, "coretemp"@) || contains_seq(l, "k10temp"@) || contains_seq(l, "zenpower"@)
}

/// Whether a (lower-case) hwmon driver name may be a CPU sensor.
pub open spec fn fallback_driver(l: Seq<char>) -> bool {
    contains_seq(l, "cpu"@) || contains_seq(l, "asus"@) || contains_seq(l, "thinkpad"@)
}

/// The hwmon device chosen among `names` (in directory order; `None` for
/// a device whose name could not be read), scanning from `i` with the
/// candidate `best` found so far: with a configured sensor name, the
/// first device whose name contains it (without case); otherwise the
/// first known CPU driver, else the first device that may be a CPU sensor.
pub open spec fn hwmon_scan(
    names: Seq<Option<Seq<char>>>,
    custom: Option<Seq<char>>,
    i: int,
    best: Option<(int, Seq<char>)>,
) -> Option<(int, Seq<char>)>
    decreases names.len() - i,
{
    if i < 0 || i >= names.len() {
        best
    } else {
        match names[i] {
            None => hwmon_scan(names, custom, i + 1, best),
            Some(n) => {
                let l = lower(n);
                match custom {
                    Some(t) => if contains_seq(l, lower(t)) {
                        Some((i, n))
                    } else {
                        hwmon_scan(names, custom, i + 1, best)
                    },
                    None => if preferred_driver(l) {
                        Some((i, n))
                    } else if best is None && fallback_driver(l) {
                        hwmon_scan(names, custom, i + 1, Some((i, n)))
                    } else {
                        hwmon_scan(names, custom, i + 1, best)
                    },
                }
            },
        }
    }
}

/// The device to read temperatures from, with the name to report: the
/// scan's choice, else the first device under its name (or `hwmon0`),
/// else none when there are no devices.
pub open spec fn hwmon_choice(names: Seq<Option<Seq<char>>>, custom: Option<Seq<char>>) -> Option<
    (int, Seq<char>),
> {
    match hwmon_scan(names, custom, 0, None) {
        Some(c) => Some(c),
        None => if names.len() > 0 {
            Some(
                (
                    0,
                    match names[0] {
                        Some(n) => n,
                        None => "hwmon0"@,
                    },
                ),
            )
        } else {
            None
        },
    }
}

pub open spec fn name_views(v: Seq<Option<String>>) -> Seq<Option<Seq<char>>> {
    v.map_values(|o: Option<String>| crate::measures::ov(o))
}

fn contains_lit(l: &Vec<char>, lit: &str) -> (r: bool)
    ensures
        r == contains_seq(l@, lit@),
{
    let p = to_chars(lit);
    contains_chars(l, &p)
}

/// Chooses the hwmon device for a thermal measure from the driver names
/// of the devices, in directory order.
pub fn choose_hwmon(names: &Vec<Option<String>>, custom: Option<&str>) -> (r: Option<(usize, String)>)
    ensures
        match hwmon_choice(name_views(names@), opt_view(custom)) {
            None => r is None,
            Some((i, n)) => r matches Some((j, m)) && j == i && m@ == n,
        },
{
    let ghost nv = name_views(names@);
    let ghost c = opt_view(custom);
    let target: Option<Vec<char>> = match custom {
        Some(t) => {
            let tv = to_chars(t);
            let lt = lower_range(&tv, 0, tv.len());
            proof {
                assert(tv@.subrange(0, tv@.len() as int) =~= tv@);
            }
            Some(lt)
        },
        None => None,
    };
    let mut best: Option<(usize, String)> = None;
    let mut i: usize = 0;
    while i < names.len()
        invariant
            nv == name_views(names@),
            c == opt_view(custom),
            i <= names@.len(),
            match c {
                Some(t) => target matches Some(lt) && lt@ == lower(t),
                None => target is None,
            },
            hwmon_scan(nv, c, 0, None) == hwmon_scan(
                nv,
                c,
                i as int,
                match best {
                    Some((k, m)) => Some((k as int, m@)),
                    None => None,
                },
            ),
            best matches Some((k, _)) ==> k < i,
        decreases names.len() - i,
    {
        assert(nv[i as int] == crate::measures::ov(names@[i as int]));
        match &names[i] {
            None => {},
            Some(n) => {
                let nc = to_chars(n.as_str());
                let l = lower_range(&nc, 0, nc.len());
                proof {
                    assert(nc@.subrange(0, nc@.len() as int) =~= nc@);
                }
                match &target {
                    Some(lt) => {
                        if contains_chars(&l, lt) {
                            return Some((i, n.clone()));
                        }
                    },
                    None => {
                        if contains_lit(&l, "coretemp") || contains_lit(&l, "k10temp")
                            || contains_lit(&l, "zenpower") {
                            return Some((i, n.clone()));
                        } else if best.is_none() && (contains_lit(&l, "cpu") || contains_lit(
                            &l,
                            "asus",
                        ) || contains_lit(&l, "thinkpad")) {
                            best = Some((i, n.clone()));
                        }
                    },
                }
            },
        }
        i = i + 1;
    }
    match best {
        Some(b) => Some(b),
        None => {
            if names.len() > 0 {
                assert(nv[0] == crate::measures::ov(names@[0]));
                match &names[0] {
                    Some(n) => Some((0, n.clone())),
                    None => Some((0, "hwmon0".to_string())),
                }
            } else {
                None
            }
        },
    }
}

} // verus!
