//! The `Calc` measure's options and the formula text it evaluates; the
//! evaluation on numbers is done by the caller.
use crate::ini::MeasureConfig;
use crate::measures::string_measure::is_one;
use crate::measures::{ov, prop};
use crate::variables::{cs_ends, expand_spec, full_context, SectionValue, VariableMap};
use vstd::prelude::*;

verus! {

/// Measure of type `Calc`: its formula and substitutions.
#[derive(Debug, Clone)]
pub struct CalcMeasure {
    pub name: String,
    pub formula: String,
    pub substitute: Option<String>,
    pub regexp_substitute: bool,
    pub dynamic_variables: bool,
}

fn is_one_opt(o: Option<&str>) -> (r: bool)
    ensures
        r == is_one(crate::measures::opt_view(o)),
{
    match o {
        Some(v) => crate::text::str_eq(v, "1"),
        None => false,
    }
}

impl CalcMeasure {
    /// Reads a `Calc` measure's options: the formula (the section's
    /// `Formula`, else the option, else empty), `Substitute`,
    /// `RegExpSubstitute=1`, `DynamicVariables=1` (or the section's flag).
    pub fn from_config(config: &MeasureConfig) -> (r: CalcMeasure)
        requires
            config.properties.wf(),
        ensures
            r.name@ == config.name@,
            r.formula@ == (match config.formula {
                Some(f) => f@,
                None => crate::measures::or_default(prop(*config, "formula"@), ""@),
            }),
            ov(r.substitute) == prop(*config, "substitute"@),
            r.regexp_substitute == is_one(prop(*config, "regexpsubstitute"@)),
            r.dynamic_variables == (config.dynamic_variables || is_one(
                prop(*config, "dynamicvariables"@),
            )),
    {
        let formula = match &config.formula {
            Some(f) => f.clone(),
            None => match config.get("formula") {
                Some(s) => s.to_string(),
                None => "".to_string(),
            },
        };
        let substitute = match config.get("substitute") {
            Some(s) => Some(s.to_string()),
            None => None,
        };
        CalcMeasure {
            name: config.name.clone(),
            formula,
            substitute,
            regexp_substitute: is_one_opt(config.get("regexpsubstitute")),
            dynamic_variables: config.dynamic_variables || is_one_opt(
                config.get("dynamicvariables"),
            ),
        }
    }

    /// The formula text to evaluate: expanded, with the section and measure
    /// values when `DynamicVariables` is on.
    pub fn expanded_formula(&self, vars: &VariableMap, measures: &Vec<SectionValue>) -> (r: String)
        requires
            vars.wf(),
            self.dynamic_variables ==> cs_ends(self.formula@, self.name@),
        ensures
            r@ == (if self.dynamic_variables {
                full_context(vars@, self.formula@, Some(self.name@), Some(measures@), None)
            } else {
                expand_spec(vars@, self.formula@)
            }),
    {
        if self.dynamic_variables {
            vars.expand_with_context(self.formula.as_str(), Some(self.name.as_str()), Some(measures))
        } else {
            vars.expand(self.formula.as_str())
        }
    }

    /// The substitutions to apply to the result's text, expanded with the
    /// section and measure values; `None` without `Substitute`.
    pub fn expanded_substitute(&self, vars: &VariableMap, measures: &Vec<SectionValue>) -> (r: Option<
        String,
    >)
        requires
            vars.wf(),
            match self.substitute {
                Some(s) => cs_ends(s@, self.name@),
                None => true,
            },
        ensures
            ov(r) == (match self.substitute {
                Some(s) => Some(full_context(vars@, s@, Some(self.name@), Some(measures@), None)),
                None => None,
            }),
    {
        match &self.substitute {
            Some(s) => Some(
                vars.expand_with_context(s.as_str(), Some(self.name.as_str()), Some(measures)),
            ),
            None => None,
        }
    }
}

} // verus!
