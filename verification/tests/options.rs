//! Options of sources.

use tview::options::{
    resolve_selected_shape, InputFormat, ObjectMode, ObjectModeOrigin, OpenOptions,
    ResolvedObjectMode, SchemaScan, SelectedTableShape, SelectedValueShape, SourceOptionError,
    SourceOptionOverrides, StructuredPath,
};

#[test]
fn validates_and_decodes_json_pointers() {
    let pointer = StructuredPath::parse("/hits/hits/a~1b/~0meta").expect("pointer");
    assert_eq!(pointer.segments(), &["hits", "hits", "a/b", "~meta"]);
    assert!(StructuredPath::parse("hits/hits").is_err());
    assert!(StructuredPath::parse("/bad~2escape").is_err());
}

#[test]
fn sqlite_is_an_available_input_format() {
    assert_eq!(InputFormat::parse("sqlite"), Ok(InputFormat::Sqlite));
}

#[test]
fn merges_source_options_in_cli_saved_default_order() {
    let defaults = OpenOptions::default();
    let saved = SourceOptionOverrides {
        format: Some(InputFormat::Json),
        object_mode: Some(ObjectMode::Record),
        schema_scan: Some(SchemaScan::Full),
        ..SourceOptionOverrides::default()
    };
    let cli = SourceOptionOverrides {
        object_mode: Some(ObjectMode::Entries),
        schema_scan: Some(SchemaScan::Default),
        ..SourceOptionOverrides::default()
    };
    let merged = OpenOptions::merge(defaults, &saved, &cli);
    assert_eq!(merged.format, InputFormat::Json);
    assert_eq!(merged.object_mode, ObjectMode::Entries);
    assert_eq!(merged.object_mode_origin, ObjectModeOrigin::Cli);
    assert_eq!(merged.schema_scan, SchemaScan::Default);
    assert_ne!(merged.lazy_threshold_bytes, 0);
    assert_ne!(merged.schema_scan_bytes, 0);
}

#[test]
fn resolves_selected_shapes_without_adapter_specific_types() {
    let object = resolve_selected_shape(
        SelectedValueShape::Object,
        ObjectMode::Auto,
        ObjectModeOrigin::Default,
        true,
    )
    .expect("object");
    assert_eq!(object.table_shape, Some(SelectedTableShape::ObjectEntries));
    assert_eq!(object.object_mode.unwrap().resolved, ResolvedObjectMode::Entries);

    let array = resolve_selected_shape(
        SelectedValueShape::Array,
        ObjectMode::Record,
        ObjectModeOrigin::SavedView,
        false,
    )
    .expect("saved array");
    assert_eq!(array.table_shape, Some(SelectedTableShape::ArrayRows));
    assert!(array.warning.unwrap().contains("selected array"));

    assert!(matches!(
        resolve_selected_shape(
            SelectedValueShape::Scalar,
            ObjectMode::Entries,
            ObjectModeOrigin::Cli,
            false,
        ),
        Err(SourceOptionError::ObjectModeRequiresObject { mode: ObjectMode::Entries })
    ));
}

#[test]
fn pointers_escape_and_decode_each_segment() {
    for key in ["", "plain", "a/b", "~", "~1", "a~0/b"] {
        let text = format!("/{}", StructuredPath::encode_segment(key));
        let pointer = StructuredPath::parse(&text).expect("pointer");
        assert_eq!(pointer.segments(), &[key]);
        assert_eq!(pointer.as_str(), text);
    }
    assert_eq!(StructuredPath::root().as_str(), "");
}

#[test]
fn contradicting_options_are_refused() {
    let pathed = OpenOptions {
        format: InputFormat::Delimited,
        json_path: Some(StructuredPath::parse("/rows").unwrap()),
        ..OpenOptions::default()
    };
    assert_eq!(pathed.validate(), Err(SourceOptionError::JsonPathRequiresStructuredFormat));
    let both = OpenOptions {
        table: Some("users".to_owned()),
        native_query: Some("SELECT 1".to_owned()),
        ..OpenOptions::default()
    };
    assert_eq!(both.validate(), Err(SourceOptionError::TableQueryConflict));
    assert_eq!(OpenOptions::default().validate(), Ok(()));
    assert!(InputFormat::parse("xml").is_err());
    assert!(SchemaScan::parse("half").is_err());
    assert!(ObjectMode::parse("rows").is_err());
}

#[test]
fn pointers_are_refused_for_their_beginning_and_for_stray_tildes_alone() {
    for refused in ["a", "a/b", "~0", "/~", "/a~/b", "/~2", "/a/b~x", "/~~0", "/~01/~"] {
        assert!(
            matches!(StructuredPath::parse(refused),
                Err(SourceOptionError::InvalidJsonPointer(value)) if value == refused),
            "{refused}"
        );
    }
    for accepted in ["", "/", "//", "/a", "/~0", "/~1", "/~01", "/~0~1/x", "/a b/\u{e9}"] {
        assert_eq!(StructuredPath::parse(accepted).expect(accepted).as_str(), accepted);
    }
}
