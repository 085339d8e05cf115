use pluvia::render::shapes::{
    drawn_shape_keys, ordered_shape_keys, parse_shape_definition, read_modifier,
    shape_combine_refs, shape_declaration, ShapeArg, ShapeModifier,
};
use pluvia::render::svg_path::{svg_path_commands, PathCommand};
use pluvia::variables::VariableMap;

fn describe(cs: &[PathCommand]) -> Vec<String> {
    cs.iter()
        .map(|c| match c {
            PathCommand::MoveTo { relative, x, y } => format!("{}{},{}", if *relative { "m" } else { "M" }, x, y),
            PathCommand::LineTo { relative, x, y } => format!("{}{},{}", if *relative { "l" } else { "L" }, x, y),
            PathCommand::Horizontal { relative, x } => format!("{}{}", if *relative { "h" } else { "H" }, x),
            PathCommand::Vertical { relative, y } => format!("{}{}", if *relative { "v" } else { "V" }, y),
            PathCommand::CurveTo { relative, c1x, c1y, c2x, c2y, x, y } => {
                format!("{}{},{},{},{},{},{}", if *relative { "c" } else { "C" }, c1x, c1y, c2x, c2y, x, y)
            }
            PathCommand::Close => "Z".to_string(),
        })
        .collect()
}

#[test]
fn test_svg_path_commands() {
    let cs = svg_path_commands("M 10 20 L 30 40 Z").unwrap();
    assert_eq!(describe(&cs), vec!["M10,20", "L30,40", "Z"]);
    // Further pairs after a move are lines; commas and minus signs separate.
    let cs = svg_path_commands("M10,20 30,40m1-2 3-4").unwrap();
    assert_eq!(describe(&cs), vec!["M10,20", "L30,40", "m1,-2", "l3,-4"]);
    let cs = svg_path_commands("H 5 V 6 h 1 v 2 C 1 2 3 4 5 6 c1 2 3 4 5 6").unwrap();
    assert_eq!(describe(&cs), vec!["H5", "V6", "h1", "v2", "C1,2,3,4,5,6", "c1,2,3,4,5,6"]);
    // An unknown command letter skips a token.
    let cs = svg_path_commands("Q 1 2 L 3 4").unwrap();
    assert_eq!(describe(&cs), vec!["L3,4"]);
    // Too few numbers end the path.
    let cs = svg_path_commands("M 1 2 L 3").unwrap();
    assert_eq!(describe(&cs), vec!["M1,2"]);
    let cs = svg_path_commands("M 0 0 Z M 1 1").unwrap();
    assert_eq!(describe(&cs), vec!["M0,0", "Z", "M1,1"]);
}

#[test]
fn test_svg_close_followed_by_number_never_ends() {
    assert!(svg_path_commands("M 0 0 Z 5").is_none());
}

#[test]
fn test_shape_definition_modifiers() {
    let d = parse_shape_definition("Rectangle 0,0,50,50 | Fill Color 255,0,0 | StrokeWidth 2 | Stroke Color 0,0,0,128 | Rotate 45 | Fill None | Extend Foo");
    assert_eq!(d.declaration, "Rectangle 0,0,50,50");
    assert!(d.combine.is_none());
    assert!(matches!(&d.modifiers[0], ShapeModifier::FillColor(c) if c == "255,0,0"));
    assert!(matches!(&d.modifiers[1], ShapeModifier::StrokeWidth(w) if w == "2"));
    assert!(matches!(&d.modifiers[2], ShapeModifier::StrokeColor(c) if c == "0,0,0,128"));
    assert!(matches!(&d.modifiers[3], ShapeModifier::Rotate(r) if r == "45"));
    assert!(matches!(d.modifiers[4], ShapeModifier::FillNone));
    assert!(matches!(d.modifiers[5], ShapeModifier::Other));
    assert!(matches!(read_modifier("STROKE NONE"), ShapeModifier::StrokeNone));
    let d = parse_shape_definition("Combine Shape2 | Union Shape3 | Exclude Shape4");
    assert_eq!(d.combine, Some("Shape2".to_string()));
    assert_eq!(shape_combine_refs("Combine Shape2 | Union Shape3 | Exclude Shape4"), vec!["shape2", "shape3", "shape4"]);
    assert!(shape_combine_refs("Ellipse 10,10,5 | Union Shape3").is_empty());
}

#[test]
fn test_shape_declaration_arguments() {
    let (kind, args) = shape_declaration("  Rectangle 0, (#W# * (2 + 1)),#H#\t5 ");
    assert_eq!(kind, "rectangle");
    let texts: Vec<String> = args
        .iter()
        .map(|a| match a {
            ShapeArg::Formula(f) => format!("F:{}", f),
            ShapeArg::Plain(p) => format!("P:{}", p),
        })
        .collect();
    assert_eq!(texts, vec!["P:0", "F:(#W# * (2 + 1))", "P:#H#", "P:5"]);
    let (kind, args) = shape_declaration("Ellipse(1,2)");
    assert_eq!(kind, "ellipse");
    assert_eq!(args.len(), 1);
    let (kind, args) = shape_declaration("   ");
    assert_eq!(kind, "");
    assert!(args.is_empty());
}

#[test]
fn test_shape_order_and_combined_shapes() {
    let mut props = VariableMap::empty();
    props.set("Shape3", "Ellipse 0,0,5");
    props.set("Shape", "Combine Shape2 | Union Shape3");
    props.set("Shape2", "Rectangle 0,0,10,10");
    props.set("Shape4", "Line 0,0,5,5");
    props.set("Shapely", "not a shape");
    let ordered: Vec<(usize, String)> = ordered_shape_keys(&props);
    assert_eq!(
        ordered,
        vec![(1, "shape".to_string()), (2, "shape2".to_string()), (3, "shape3".to_string()), (4, "shape4".to_string())]
    );
    let drawn = drawn_shape_keys(&props);
    assert_eq!(drawn, vec![(1, "shape".to_string()), (4, "shape4".to_string())]);
}
