use fbpconvert::args::{
    ExportClipboard, ExportFile, ExportSubCommands, ImportClipboard, ImportFile, ImportSubCommands,
};
use fbpconvert::blueprint::{BlueprintType, Labelled, UnknownBlueprintType};
use fbpconvert::codec::{factorio_deflate, factorio_inflate, strip_version, with_version, InflateError};
use fbpconvert::indicator::ProgressIndicator;
use fbpconvert::naming::file_rename;

const HELLO_ZLIB: [u8; 20] = [
    120, 156, 243, 72, 205, 201, 201, 215, 81, 168, 202, 201, 76, 82, 4, 0, 27, 101, 4, 19,
];

#[test]
fn inflate_known_string() {
    let bp = format!("0{}", base64::encode(HELLO_ZLIB));
    assert_eq!(factorio_inflate(&bp), Ok("Hello, zlib!".to_string()));
}

#[test]
fn deflate_then_inflate() {
    let json = r#"{"blueprint":{"item":"blueprint","label":"x","version":1}}"#;
    let bp = factorio_deflate(json).unwrap();
    assert!(bp.starts_with('0'));
    assert_ne!(bp, json);
    assert_eq!(factorio_inflate(&bp), Ok(json.to_string()));
}

#[test]
fn inflate_errors() {
    assert_eq!(factorio_inflate(""), Err(InflateError::NoVersion));
    assert_eq!(factorio_inflate("é"), Err(InflateError::NoVersion));
    assert_eq!(factorio_inflate("0@@@@"), Err(InflateError::Base64));
    let not_zlib = format!("0{}", base64::encode("hello"));
    assert_eq!(factorio_inflate(&not_zlib), Err(InflateError::Zlib));
    let not_utf8 = format!("0{}", base64::encode(deflate::deflate_bytes_zlib(&[0xff, 0xfe])));
    assert_eq!(factorio_inflate(&not_utf8), Err(InflateError::Utf8));
}

#[test]
fn version_marker() {
    assert_eq!(strip_version("0abc"), Some("abc"));
    assert_eq!(strip_version(""), None);
    assert_eq!(with_version("abc"), "0abc");
}

#[test]
fn rename_replaces_invalid_characters() {
    assert_eq!(file_rename("a b/c\\d<e>f:g\"h|i?j*k".to_string()), "a_b_c_d_e_f_g_h_i_j_k");
    assert_eq!(file_rename("plain-name.json".to_string()), "plain-name.json");
    assert_eq!(file_rename(String::new()), "");
}

fn labelled(label: &str) -> Option<Labelled> {
    Some(Labelled { label: label.to_string() })
}

#[test]
fn classify_kinds() {
    let empty = UnknownBlueprintType {
        blueprint_book: None,
        blueprint: None,
        upgrade_planner: None,
        deconstruction_planner: None,
    };
    assert!(matches!(BlueprintType::classify(&empty), BlueprintType::Invalid));
    let bp = UnknownBlueprintType {
        blueprint_book: None,
        blueprint: labelled("blueprint_thang"),
        upgrade_planner: None,
        deconstruction_planner: labelled("decon"),
    };
    assert!(matches!(BlueprintType::classify(&bp), BlueprintType::Blueprint(l) if l == "blueprint_thang"));
    let book = UnknownBlueprintType {
        blueprint_book: labelled("book"),
        blueprint: labelled("bp"),
        upgrade_planner: None,
        deconstruction_planner: None,
    };
    assert!(matches!(BlueprintType::classify(&book), BlueprintType::Book(l) if l == "book"));
    let planners = UnknownBlueprintType {
        blueprint_book: None,
        blueprint: None,
        upgrade_planner: labelled("up"),
        deconstruction_planner: labelled("down"),
    };
    let kind = BlueprintType::classify(&planners);
    assert!(matches!(&kind, BlueprintType::UpgradePlanner(l) if l == "up"));
    assert_eq!(kind.key(), Some("upgrade_planner"));
    let decon = UnknownBlueprintType {
        blueprint_book: None,
        blueprint: None,
        upgrade_planner: None,
        deconstruction_planner: labelled("down"),
    };
    assert!(matches!(BlueprintType::classify(&decon), BlueprintType::DeconPlanner(l) if l == "down"));
    assert_eq!(BlueprintType::Invalid.key(), None);
}

#[test]
fn progress_indicator_test() {
    let mut indicator = ProgressIndicator::new(100);
    assert_eq!((indicator.complete, indicator.total), (0, 100));
    indicator.update(5);
    assert_eq!((indicator.complete, indicator.total), (5, 100));
    indicator.add();
    assert_eq!(indicator.complete, 6);
    indicator.update(100);
    indicator.add();
    assert_eq!(indicator.complete, 100);
}

#[test]
fn import_destination_defaults_to_current_directory() {
    let given = ImportSubCommands::File(ImportFile {
        infile: Some("bp.txt".to_string()),
        destination: Some("out".to_string()),
    });
    let worker = fbpconvert::import::Worker::from(&given);
    assert_eq!(worker.dest, "out");
    assert!(matches!(
        worker.import_type,
        ImportSubCommands::File(ImportFile { infile: Some(ref i), destination: Some(ref d) }) if i == "bp.txt" && d == "out"
    ));
    let none = ImportSubCommands::Clipboard(ImportClipboard { destination: None });
    assert_eq!(fbpconvert::import::Worker::from(&none).dest, ".");
}

#[test]
fn export_needs_a_source() {
    let given = ExportSubCommands::File(ExportFile {
        source: Some("book".to_string()),
        outfile: Some("bp.txt".to_string()),
        destination: None,
    });
    let worker = fbpconvert::export::Worker::from(&given).unwrap();
    assert_eq!(worker.source, "book");
    assert_eq!(worker.out_file, Some("bp.txt".to_string()));
    assert_eq!(worker.dest, None);
    assert!(matches!(worker.export_type, ExportSubCommands::File(ref f) if f.source.as_deref() == Some("book")));
    let missing = ExportSubCommands::Clipboard(ExportClipboard { source: None });
    assert!(fbpconvert::export::Worker::from(&missing).is_none());
}

#[test]
fn deflate_is_standard_padded_base64() {
    let json = r#"{"blueprint_book":{"label":"b"}}"#;
    let expected = format!("0{}", base64::encode(deflate::deflate_bytes_zlib(json.as_bytes())));
    assert_eq!(factorio_deflate(json), Some(expected));
    assert_eq!(with_version("TWE="), "0TWE=");
    assert_eq!(base64::encode("Ma"), "TWE=");
}
