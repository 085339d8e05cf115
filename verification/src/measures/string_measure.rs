//! The `String` measure: a text with variables and optional
//! substitutions, re-expanded on each update.
use crate::ini::MeasureConfig;
use crate::measures::substitute::{apply_substitute, substitute_pairs, substituted};
use crate::measures::{ov, prop};
use crate::variables::{cs_ends, expand_spec, full_context, SectionValue, VariableMap};
use vstd::prelude::*;

verus! {

/// Measure of type `String`: its text, substitutions and current value.
#[derive(Debug, Clone)]
pub struct StringMeasure {
    pub name: String,
    pub raw_string: String,
    pub substitute: Option<String>,
    pub regexp_substitute: bool,
    pub dynamic_variables: bool,
    pub current_value: String,
}

/// `text` with the substitutions `sub` applied, if there are any.
pub open spec fn with_substitute(text: Seq<char>, sub: Option<Seq<char>>, regex: bool) -> Seq<char> {
    match sub {
        Some(s) => substituted(text, substitute_pairs(s), regex),
        None => text,
    }
}

/// Whether an option is exactly `1`.
pub open spec fn is_one(o: Option<Seq<char>>) -> bool {
    o == Some("1"@)
}

fn is_one_exec(o: Option<&str>) -> (r: bool)
    ensures
        r == is_one(crate::measures::opt_view(o)),
{
    match o {
        Some(v) => crate::text::str_eq(v, "1"),
        None => false,
    }
}

impl StringMeasure {
    /// Reads a `String` measure's options: `String` (default empty),
    /// `Substitute`, `RegExpSubstitute=1`, `DynamicVariables=1` (or the
    /// section's flag); the first value is the text with its substitutions.
    pub fn from_config(config: &MeasureConfig) -> (r: StringMeasure)
        requires
            config.properties.wf(),
        ensures
            r.name@ == config.name@,
            r.raw_string@ == crate::measures::or_default(prop(*config, "string"@), ""@),
            ov(r.substitute) == prop(*config, "substitute"@),
            r.regexp_substitute == is_one(prop(*config, "regexpsubstitute"@)),
            r.dynamic_variables == (config.dynamic_variables || is_one(
                prop(*config, "dynamicvariables"@),
            )),
            r.current_value@ == with_substitute(
                r.raw_string@,
                ov(r.substitute),
                r.regexp_substitute,
            ),
    {
        let raw_string = match config.get("string") {
            Some(s) => s.to_string(),
            None => "".to_string(),
        };
        let substitute = match config.get("substitute") {
            Some(s) => Some(s.to_string()),
            None => None,
        };
        let regexp_substitute = is_one_exec(config.get("regexpsubstitute"));
        let dynamic_variables = config.dynamic_variables || is_one_exec(
            config.get("dynamicvariables"),
        );
        let current_value = match &substitute {
            Some(sub) => apply_substitute(raw_string.as_str(), sub.as_str(), regexp_substitute),
            None => raw_string.clone(),
        };
        StringMeasure {
            name: config.name.clone(),
            raw_string,
            substitute,
            regexp_substitute,
            dynamic_variables,
            current_value,
        }
    }

    /// The value after an update: the text expanded (with the section and
    /// measure values when `DynamicVariables` is on), then substituted with
    /// the expanded substitutions.
    pub open spec fn updated(
        self,
        vars: Map<Seq<char>, Seq<char>>,
        measures: Seq<SectionValue>,
    ) -> Seq<char> {
        let text = if self.dynamic_variables {
            full_context(vars, self.raw_string@, Some(self.name@), Some(measures), None)
        } else {
            expand_spec(vars, self.raw_string@)
        };
        match self.substitute {
            Some(s) => substituted(
                text,
                substitute_pairs(full_context(vars, s@, Some(self.name@), Some(measures), None)),
                self.regexp_substitute,
            ),
            None => text,
        }
    }

    /// Re-expands and substitutes the text; returns the new value.
    pub fn update_with_context(&mut self, vars: &VariableMap, measures: &Vec<SectionValue>) -> (r:
        String)
        requires
            vars.wf(),
            old(self).dynamic_variables ==> cs_ends(old(self).raw_string@, old(self).name@),
            match old(self).substitute {
                Some(s) => cs_ends(s@, old(self).name@),
                None => true,
            },
        ensures
            r@ == old(self).updated(vars@, measures@),
            final(self).current_value@ == r@,
            final(self).name == old(self).name,
            final(self).raw_string == old(self).raw_string,
            final(self).substitute == old(self).substitute,
            final(self).regexp_substitute == old(self).regexp_substitute,
            final(self).dynamic_variables == old(self).dynamic_variables,
    {
        let expanded = if self.dynamic_variables {
            vars.expand_with_context(
                self.raw_string.as_str(),
                Some(self.name.as_str()),
                Some(measures),
            )
        } else {
            vars.expand(self.raw_string.as_str())
        };
        let value = match &self.substitute {
            Some(sub) => {
                let exp_sub = vars.expand_with_context(
                    sub.as_str(),
                    Some(self.name.as_str()),
                    Some(measures),
                );
                apply_substitute(expanded.as_str(), exp_sub.as_str(), self.regexp_substitute)
            },
            None => expanded,
        };
        self.current_value = value.clone();
        value
    }
}

} // verus!
