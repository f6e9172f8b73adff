use fbpconvert::blueprint::{BlueprintType, Labelled, UnknownBlueprintType};
use serde_json::Value;

/// The kind keys of a blueprint string's JSON, as the library reads them.
fn kind_keys(value: &Value) -> UnknownBlueprintType {
    let label_of = |key: &str| {
        value
            .get(key)
            .and_then(|v| v.get("label"))
            .and_then(|l| l.as_str())
            .map(|l| Labelled { label: l.to_string() })
    };
    UnknownBlueprintType {
        blueprint_book: label_of("blueprint_book"),
        blueprint: label_of("blueprint"),
        upgrade_planner: label_of("upgrade_planner"),
        deconstruction_planner: label_of("deconstruction_planner"),
    }
}

fn classify_json(text: &str) -> BlueprintType {
    let value: Value = serde_json::from_str(text).unwrap();
    BlueprintType::classify(&kind_keys(&value))
}

#[test]
fn test_classify_invalid_empty() {
    assert!(matches!(classify_json("{}"), BlueprintType::Invalid));
}

#[test]
fn test_classify_invalid_nonsense() {
    assert!(matches!(
        classify_json(r#"{"blueprints": {"asd": "xyz"}}"#),
        BlueprintType::Invalid
    ));
}

#[test]
fn test_classify_valid_bp() {
    assert!(matches!(
        classify_json(
            r#"{"blueprint": {"item": "asd", "label": "blueprint_thang", "version": 1234567890}}"#
        ),
        BlueprintType::Blueprint(_)
    ));
}

#[test]
fn test_classify_valid_book() {
    assert!(matches!(
        classify_json(
            r#"{"blueprint_book": {"item": "asd", "label": "blueprint_thang", "active_index": 0, "version": 1234567890}}"#
        ),
        BlueprintType::Book(_)
    ));
}
