use pluvia::variables::SectionBounds;
use pluvia::variables::VariableMap;

#[test]
fn test_builtin_resource_macro_resolution() {
    let vars = VariableMap::new();
    let expanded = vars.expand("#@#Fonts/Anurati.otf");
    assert_eq!(expanded, "@Resources/Fonts/Anurati.otf");

    let expanded_backslash = vars.expand("#@#Fonts\\Anurati.otf");
    assert_eq!(expanded_backslash, "@Resources/Fonts\\Anurati.otf");
}

#[test]
fn test_section_variable_coordinates() {
    let vars = VariableMap::new();
    let bounds = vec![SectionBounds {
        name: "ClockMeter".to_string(),
        x: "150".to_string(),
        y: "250".to_string(),
        width: "300".to_string(),
        height: "100".to_string(),
    }];

    let expanded_x = vars.expand_with_full_context("[ClockMeter:X] + 10", None, None, Some(&bounds));
    assert_eq!(expanded_x, "150 + 10");

    let expanded_y = vars.expand_with_full_context("[ClockMeter:Y] + 20", None, None, Some(&bounds));
    assert_eq!(expanded_y, "250 + 20");
}

#[test]
fn section_dimensions_expand_inside_formula_text() {
    let mut vars = VariableMap::new();
    vars.set("Bands", "10");
    vars.set("MagicNumber", "-10");
    let bounds = vec![
        SectionBounds {
            name: "amogus".to_string(),
            x: "50".to_string(),
            y: "100".to_string(),
            width: "120".to_string(),
            height: "80".to_string(),
        },
        SectionBounds {
            name: "grid".to_string(),
            x: "0".to_string(),
            y: "0".to_string(),
            width: "40".to_string(),
            height: "30".to_string(),
        },
    ];
    let expanded = vars.expand_with_full_context(
        "((#Bands# * [amogus:W]) - ([grid:W] + #MagicNumber#)) / #Bands#",
        None,
        None,
        Some(&bounds),
    );
    assert_eq!(expanded, "((10 * 120) - (40 + -10)) / 10");
}

#[test]
fn section_references_keep_other_characters() {
    let vars = VariableMap::new();
    let none: Vec<SectionBounds> = Vec::new();
    assert_eq!(vars.expand_with_full_context("é", None, None, Some(&none)), "é");
    assert_eq!(vars.expand_with_full_context("Grüße [x] ✓", None, None, Some(&none)), "Grüße [x] ✓");
    let bounds = vec![SectionBounds {
        name: "Météo".to_string(),
        x: "1".to_string(),
        y: "2".to_string(),
        width: "30".to_string(),
        height: "4".to_string(),
    }];
    assert_eq!(vars.expand_with_full_context("→[Météo:W]←", None, None, Some(&bounds)), "→30←");
}

#[test]
fn long_section_names_with_hashes_are_accepted() {
    let vars = VariableMap::new();
    let name = "Section#WithALongName";
    assert_eq!(vars.expand_with_context("[#CurrentSection#]", Some(name), None), "[Section#WithALongName]");
}
