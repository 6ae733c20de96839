use ccx::inp::Deck;
use ccx::materials::{material_name, material_steps, MaterialModel, MaterialStep, ScalarProperty};
use ccx::mesh_builder::{node_line_fields, NodeFields};

fn deck_of(input: &str) -> Deck {
    Deck::parse_str(input).expect("Failed to parse deck")
}

fn define(name: &str) -> Result<MaterialStep, String> {
    Ok(MaterialStep::Define(name.to_string()))
}

fn elastic(material: &str, modulus: &str, ratio: &str) -> Result<MaterialStep, String> {
    Ok(MaterialStep::Elastic {
        material: material.to_string(),
        modulus: modulus.to_string(),
        ratio: ratio.to_string(),
    })
}

fn scalar(material: &str, property: ScalarProperty, field: &str, line: &str) -> Result<MaterialStep, String> {
    Ok(MaterialStep::Scalar {
        material: material.to_string(),
        property,
        field: field.to_string(),
        line: line.to_string(),
    })
}

#[test]
fn parses_simple_material() {
    let deck = deck_of("\n*MATERIAL, NAME=STEEL\n*ELASTIC\n210000, 0.3\n");
    assert_eq!(material_steps(&deck), vec![define("STEEL"), elastic("STEEL", "210000", "0.3")]);
}

#[test]
fn parses_material_with_density() {
    let deck = deck_of("\n*MATERIAL, NAME=ALUMINUM\n*ELASTIC\n70000, 0.33\n*DENSITY\n2700\n");
    assert_eq!(
        material_steps(&deck),
        vec![
            define("ALUMINUM"),
            elastic("ALUMINUM", "70000", "0.33"),
            scalar("ALUMINUM", ScalarProperty::Density, "2700", "2700"),
        ]
    );
}

#[test]
fn handles_multiple_materials() {
    let deck = deck_of(
        "\n*MATERIAL, NAME=STEEL\n*ELASTIC\n210000, 0.3\n*MATERIAL, NAME=CONCRETE\n*ELASTIC\n30000, 0.2\n",
    );
    assert_eq!(
        material_steps(&deck),
        vec![
            define("STEEL"),
            elastic("STEEL", "210000", "0.3"),
            define("CONCRETE"),
            elastic("CONCRETE", "30000", "0.2"),
        ]
    );
}

#[test]
fn parses_thermal_properties() {
    let deck = deck_of(
        "\n*MATERIAL, NAME=STEEL\n*ELASTIC\n210000, 0.3\n*EXPANSION\n1.2e-5\n*CONDUCTIVITY\n50.0\n*SPECIFIC HEAT\n450.0\n",
    );
    let steps = material_steps(&deck);
    assert_eq!(steps.len(), 5);
    assert_eq!(steps[2], scalar("STEEL", ScalarProperty::Expansion, "1.2e-5", "1.2e-5"));
    assert_eq!(steps[3], scalar("STEEL", ScalarProperty::Conductivity, "50.0", "50.0"));
    assert_eq!(steps[4], scalar("STEEL", ScalarProperty::SpecificHeat, "450.0", "450.0"));
}

#[test]
fn statistics() {
    let deck = deck_of("\n*MATERIAL, NAME=STEEL\n*ELASTIC\n210000, 0.3\n*MATERIAL, NAME=INCOMPLETE\n");
    let steps = material_steps(&deck);
    let defined = steps.iter().filter(|s| matches!(s, Ok(MaterialStep::Define(_)))).count();
    assert_eq!(defined, 2);
    let elastic_count = steps.iter().filter(|s| matches!(s, Ok(MaterialStep::Elastic { .. }))).count();
    assert_eq!(elastic_count, 1);
}

#[test]
fn rejects_material_without_name() {
    let deck = deck_of("\n*MATERIAL\n*ELASTIC\n210000, 0.3\n");
    let steps = material_steps(&deck);
    assert_eq!(steps.len(), 1);
    let err = steps[0].clone().unwrap_err();
    assert!(err.contains("NAME"));
    assert_eq!(err, "MATERIAL card missing NAME parameter");
}

#[test]
fn name_parameter_without_value() {
    let deck = deck_of("*MATERIAL, NAME\n");
    assert_eq!(material_name(&deck.cards[0]), Err("MATERIAL parameter missing NAME value".to_string()));
    let deck = deck_of("*MATERIAL, name=Alu\n");
    assert_eq!(material_name(&deck.cards[0]), Ok("Alu".to_string()));
}

#[test]
fn property_cards_before_any_material_are_passed_over() {
    let deck = deck_of("*ELASTIC\n1, 2\n*DENSITY\n3\n*MATERIAL, NAME=M\n");
    assert_eq!(material_steps(&deck), vec![define("M")]);
}

#[test]
fn reading_stops_at_the_first_bad_card() {
    let deck = deck_of("*MATERIAL, NAME=M\n*ELASTIC\n210000\n*DENSITY\n7800\n");
    assert_eq!(
        material_steps(&deck),
        vec![
            define("M"),
            Err("ELASTIC data line needs at least 2 values: 210000".to_string()),
        ]
    );
    let deck = deck_of("*MATERIAL, NAME=M\n*CONDUCTIVITY\n*MATERIAL\n");
    assert_eq!(
        material_steps(&deck),
        vec![define("M"), Err("CONDUCTIVITY card has no data lines".to_string())]
    );
}

#[test]
fn scalar_field_is_the_first_of_the_line() {
    let deck = deck_of("*MATERIAL, NAME=M\n*DENSITY\n 7.8e-9 , 20.0 \n");
    assert_eq!(
        material_steps(&deck)[1],
        scalar("M", ScalarProperty::Density, "7.8e-9", "7.8e-9 , 20.0")
    );
}

#[test]
fn default_model_is_linear_elastic() {
    assert_eq!(MaterialModel::default(), MaterialModel::LinearElastic);
}

#[test]
fn node_lines_give_id_and_coordinate_fields() {
    assert_eq!(
        node_line_fields("1, 0.0, 1.5 ,2e3"),
        Ok(NodeFields { id: 1, x: "0.0".to_string(), y: "1.5".to_string(), z: "2e3".to_string() })
    );
    assert_eq!(
        node_line_fields("1, 0.0, 1.5"),
        Err("Invalid node data line (expected at least 4 fields): 1, 0.0, 1.5".to_string())
    );
    assert_eq!(node_line_fields("a, 0, 0, 0"), Err("Invalid node ID: a".to_string()));
}

#[test]
fn deck_without_material_cards_gives_no_steps() {
    let deck = deck_of("*ELASTIC\n1, 2\n*DENSITY\n3\n*NODE\n1, 0, 0, 0\n");
    assert!(material_steps(&deck).is_empty());
}
