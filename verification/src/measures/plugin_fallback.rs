//! Plugins this engine does not implement (Chameleon, FrostedGlass, ...):
//! a fixed value that skins can rely on, with the measure's substitutions.
use crate::ini::MeasureConfig;
use crate::measures::string_measure::is_one;
use crate::measures::{ov, prop};
use crate::text::lower;
use vstd::prelude::*;

verus! {

/// The value an unimplemented plugin reports.
#[derive(Debug, Clone, PartialEq, Eq)]
pub enum FallbackValue {
    Zero,
    One,
    Text(String),
}

/// A measure of an unimplemented plugin.
#[derive(Debug, Clone)]
pub struct FallbackPluginMeasure {
    pub name: String,
    pub plugin: String,
    pub substitute: Option<String>,
    pub regexp_substitute: bool,
    pub value: FallbackValue,
}

/// The plugin name of a measure, lower-cased: the section's `Plugin`, else
/// the option, else empty.
pub open spec fn fallback_plugin_name(c: MeasureConfig) -> Seq<char> {
    lower(
        match c.plugin {
            Some(p) => p@,
            None => crate::measures::or_default(prop(c, "plugin"@), ""@),
        },
    )
}

/// What an unimplemented plugin reports: Chameleon a colour (`333333`),
/// or 0 when asked for its luminance; FrostedGlass 1; other plugins 0.
pub open spec fn fallback_matches(v: FallbackValue, plugin: Seq<char>, color: Seq<char>) -> bool {
    if plugin == "chameleon"@ && lower(color) != "luminance"@ {
        v matches FallbackValue::Text(t) && t@ == "333333"@
    } else if plugin == "frostedglass"@ {
        v == FallbackValue::One
    } else {
        v == FallbackValue::Zero
    }
}

impl FallbackPluginMeasure {
    /// Reads the measure of an unimplemented plugin.
    pub fn from_config(config: &MeasureConfig) -> (r: FallbackPluginMeasure)
        requires
            config.properties.wf(),
        ensures
            r.name@ == config.name@,
            r.plugin@ == fallback_plugin_name(*config),
            ov(r.substitute) == prop(*config, "substitute"@),
            r.regexp_substitute == is_one(prop(*config, "regexpsubstitute"@)),
            fallback_matches(
                r.value,
                r.plugin@,
                crate::measures::or_default(prop(*config, "color"@), ""@),
            ),
    {
        let raw = match &config.plugin {
            Some(p) => p.clone(),
            None => match config.get("plugin") {
                Some(s) => s.to_string(),
                None => "".to_string(),
            },
        };
        let plugin = crate::text::lower_str(raw.as_str());
        let substitute = match config.get("substitute") {
            Some(s) => Some(s.to_string()),
            None => None,
        };
        let regexp_substitute = match config.get("regexpsubstitute") {
            Some(v) => crate::text::str_eq(v, "1"),
            None => false,
        };
        let color = crate::text::lower_str(
            match config.get("color") {
                Some(c) => c,
                None => "",
            },
        );
        proof {
            reveal_strlit("chameleon");
            reveal_strlit("frostedglass");
            assert("chameleon"@.len() == 9 && "frostedglass"@.len() == 12);
        }
        let value = if crate::text::str_eq(plugin.as_str(), "chameleon") {
            if crate::text::str_eq(color.as_str(), "luminance") {
                FallbackValue::Zero
            } else {
                FallbackValue::Text("333333".to_string())
            }
        } else if crate::text::str_eq(plugin.as_str(), "frostedglass") {
            FallbackValue::One
        } else {
            FallbackValue::Zero
        };
        FallbackPluginMeasure { name: config.name.clone(), plugin, substitute, regexp_substitute, value }
    }
}

} // verus!
