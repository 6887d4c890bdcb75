//! The command line, read with clap and checked by the library.

use clap::{Arg, ArgAction, Command};
use tview::cli::{
    about, argument_help, parse_input_format, parse_json_pointer, parse_object_mode,
    parse_schema_scan, Args, CliError, Config, SavedViewSelection, StartPosition,
};
use tview::options::{
    InputFormat, ObjectMode, OpenOptions, Quoting, SchemaScan, SourceOptionOverrides,
    StructuredPath,
};
use tview::output::{ColorOutput, OutputFormat};
use tview::source::SourceTarget;
use tview::startup::leaves_order_aside;
use tview::table::{ColumnWidthMode, RowLimit};

fn option(id: &'static str, long: &'static str) -> Arg {
    Arg::new(id)
        .long(long)
        .help(argument_help(id).expect("help text"))
}

fn flag(id: &'static str, long: &'static str) -> Arg {
    option(id, long).action(ArgAction::SetTrue)
}

fn command() -> Command {
    Command::new("tview")
        .about(about())
        .arg(Arg::new("filename").required(true).help(argument_help("filename").unwrap()))
        .arg(flag("interactive", "interactive").short('i'))
        .arg(option("output", "output").short('o').value_parser(["table", "json", "jsonl"]))
        .arg(option("sorted", "sorted").value_parser(["true", "false"]))
        .arg(option("top_lines", "top-lines").short('n').value_parser(|value: &str| {
            value.parse::<std::num::NonZeroUsize>().map_err(|error| error.to_string())
        }))
        .arg(option("color", "color").value_parser(["auto", "always", "never"]))
        .arg(option("encoding", "encoding").short('e'))
        .arg(option("delimiter", "delimiter").short('d'))
        .arg(option("quoting", "quoting"))
        .arg(option("start_pos", "start_pos").short('s'))
        .arg(option("width", "width").short('w').default_value("mode"))
        .arg(flag("double_width", "double_width"))
        .arg(option("quote_char", "quote-char").short('q').default_value("\""))
        .arg(option("format", "format").value_parser(|value: &str| parse_input_format(value)))
        .arg(option("json_path", "json-path").value_parser(|value: &str| {
            parse_json_pointer(value).map(|path| path.as_str().to_owned())
        }))
        .arg(option("object_mode", "object-mode").value_name("OBJECT_MODE").value_parser(|value: &str| {
            parse_object_mode(value)
        }))
        .arg(option("schema_scan", "schema-scan").value_parser(|value: &str| {
            parse_schema_scan(value)
        }))
        .arg(option("table", "table").value_name("TABLE"))
        .arg(option("query", "query").value_name("QUERY").conflicts_with("table"))
        .arg(option("view", "view").conflicts_with("no_view"))
        .arg(flag("no_view", "no-view"))
        .arg(
            Arg::new("extra")
                .action(ArgAction::Append)
                .num_args(0..)
                .trailing_var_arg(true)
                .allow_hyphen_values(true),
        )
}

fn try_parse(args: &[&str]) -> Result<Args, clap::Error> {
    let found = command().try_get_matches_from(args)?;
    let text = |id: &str| found.get_one::<String>(id).cloned();
    Ok(Args {
        filename: text("filename").expect("filename"),
        interactive: found.get_flag("interactive"),
        output: text("output").map(|value| match value.as_str() {
            "table" => OutputFormat::Table,
            "json" => OutputFormat::Json,
            _ => OutputFormat::Jsonl,
        }),
        sorted: text("sorted").map(|value| value == "true"),
        top_lines: found
            .get_one::<std::num::NonZeroUsize>("top_lines")
            .and_then(|rows| RowLimit::new(rows.get())),
        color: match text("color").as_deref() {
            Some("always") => ColorOutput::Always,
            Some("never") => ColorOutput::Never,
            _ => ColorOutput::default(),
        },
        encoding: text("encoding"),
        delimiter: text("delimiter"),
        quoting: text("quoting"),
        start_pos: text("start_pos"),
        width: text("width").expect("width"),
        double_width: found.get_flag("double_width"),
        quote_char: text("quote_char").expect("quote character"),
        format: found.get_one::<InputFormat>("format").copied(),
        json_path: text("json_path").map(|path| StructuredPath::parse(&path).expect("path")),
        object_mode: found.get_one::<ObjectMode>("object_mode").copied(),
        schema_scan: found.get_one::<SchemaScan>("schema_scan").copied(),
        table: text("table"),
        query: text("query"),
        view: text("view"),
        no_view: found.get_flag("no_view"),
        extra: found
            .get_many::<String>("extra")
            .map(|values| values.cloned().collect())
            .unwrap_or_default(),
    })
}

fn parse(args: &[&str]) -> Config {
    Config::from_args(try_parse(args).expect("parse args")).expect("config")
}

fn parse_config_error(args: &[&str]) -> CliError {
    Config::from_args(try_parse(args).expect("parse args")).expect_err("config error")
}

#[test]
fn preview_options_require_explicit_valid_values() {
    for args in [
        vec!["tview", "--sorted", "data.csv"],
        vec!["tview", "--sorted", "yes", "data.csv"],
        vec!["tview", "-n", "0", "data.csv"],
        vec!["tview", "-n", "-1", "data.csv"],
        vec!["tview", "-n", "1.5", "data.csv"],
        vec!["tview", "-n", "99999999999999999999999999", "data.csv"],
        vec!["tview", "data.csv", "-n"],
    ] {
        assert!(try_parse(&args).is_err());
    }
    for flag in ["-n", "--top-lines"] {
        let config = parse(&["tview", "--sorted", "false", flag, "30", "data.csv"]);
        assert_eq!(config.sorted, Some(false));
        assert_eq!(config.top_lines.unwrap().get(), 30);
    }
    assert_eq!(parse(&["tview", "data.csv"]).sorted, None);
    assert_eq!(parse(&["tview", "data.csv"]).top_lines, None);
}

#[test]
fn default_width_is_mode() {
    let config = parse(&["tview", "sample/data_ohlcv.csv"]);
    assert_eq!(config.width, ColumnWidthMode::Mode);
}

#[test]
fn parses_composable_runtime_and_output_options() {
    let automatic = parse(&["tview", "sample/data_ohlcv.csv"]);
    assert!(!automatic.interactive);
    assert_eq!(automatic.output, None);
    assert_eq!(automatic.color, ColorOutput::Auto);

    let interactive = parse(&["tview", "-i", "sample/data_ohlcv.csv"]);
    assert!(interactive.interactive);
    assert_eq!(interactive.output, None);

    let direct = parse(&["tview", "-o", "table", "sample/data_ohlcv.csv"]);
    assert!(!direct.interactive);
    assert_eq!(direct.output, Some(OutputFormat::Table));

    let composed = parse(&[
        "tview",
        "--interactive",
        "--output",
        "table",
        "--color",
        "always",
        "sample/data_ohlcv.csv",
    ]);
    assert!(composed.interactive);
    assert_eq!(composed.output, Some(OutputFormat::Table));
    assert_eq!(composed.color, ColorOutput::Always);
}

#[test]
fn rejects_runtime_names_and_unknown_output_formats() {
    assert!(try_parse(&["tview", "--output", "tui", "sample/data_ohlcv.csv"]).is_err());
    assert!(try_parse(&["tview", "--output", "markdown", "sample/data_ohlcv.csv"]).is_err());
    assert!(try_parse(&["tview", "--color", "sometimes", "sample/data_ohlcv.csv"]).is_err());
}

#[test]
fn rejects_zero_fixed_width() {
    assert_eq!(
        parse_config_error(&["tview", "--width", "0", "sample/data_ohlcv.csv"]),
        CliError::InvalidWidth { value: "0".to_owned() }
    );
}

#[test]
fn rejects_non_ascii_quote_character() {
    assert_eq!(
        parse_config_error(&["tview", "--quote-char", "“", "sample/data_ohlcv.csv"]),
        CliError::InvalidChar { what: "quote character", value: "“".to_owned() }
    );
}

#[test]
fn parses_readme_start_position() {
    let config = parse(&[
        "tview",
        "sample/data_ohlcv.csv",
        "--start_pos",
        "6,5",
        "--encoding",
        "utf-8",
    ]);
    assert_eq!(config.start_position, StartPosition { row: 6, column: Some(5) });
    assert_eq!(config.encoding.as_deref(), Some("utf-8"));
}

#[test]
fn rejects_start_position_with_extra_components() {
    assert_eq!(
        parse_config_error(&["tview", "--start_pos", "1,2,3", "sample/data_ohlcv.csv"]),
        CliError::InvalidStartPosition { value: "1,2,3".to_owned() }
    );
    assert_eq!(
        parse_config_error(&["tview", "sample/data_ohlcv.csv", "+1:2:3"]),
        CliError::InvalidStartPosition { value: "+1:2:3".to_owned() }
    );
}

#[test]
fn parses_classic_start_position() {
    let config = parse(&["tview", "sample/data_ohlcv.csv", "+6:5"]);
    assert_eq!(config.start_position, StartPosition { row: 6, column: Some(5) });
}

#[test]
fn parses_classic_row_only_start_position() {
    let config = parse(&["tview", "sample/data_ohlcv.csv", "+6:"]);
    assert_eq!(config.start_position, StartPosition { row: 6, column: Some(0) });
}

#[test]
fn parses_mysql_pager_shape() {
    let config = parse(&["tview", "-d", r"\t", "--quoting", "QUOTE_NONE", "-"]);
    assert_eq!(config.target, SourceTarget::Stdin);
    assert_eq!(config.delimiter, Some(b'\t'));
    assert_eq!(config.quoting, Some(Quoting::Never));
    assert_eq!(config.source_options.format, Some(InputFormat::Auto));
}

#[test]
fn parses_source_open_options() {
    let config = parse(&[
        "tview",
        "--format",
        "json",
        "--json-path",
        "/hits/hits",
        "--schema-scan",
        "full",
        "--object-mode",
        "entries",
        "response.data",
    ]);
    assert_eq!(config.source_options.format, Some(InputFormat::Json));
    assert_eq!(
        config.source_options.json_path.as_ref().expect("path").segments(),
        &["hits", "hits"]
    );
    assert_eq!(config.source_options.schema_scan, Some(SchemaScan::Full));
    assert_eq!(config.source_options.object_mode, Some(ObjectMode::Entries));
}

#[test]
fn validates_object_mode_values_and_explicit_row_stream_conflicts() {
    assert!(try_parse(&["tview", "--object-mode", "rows", "response.json"]).is_err());
    for format in ["delimited", "ndjson"] {
        assert_eq!(
            parse_config_error(&[
                "tview",
                "--format",
                format,
                "--object-mode",
                "entries",
                "data"
            ]),
            CliError::IncompatibleOptions {
                format: InputFormat::parse(format).expect("format"),
                option: "--object-mode",
            }
        );
    }
}

#[test]
fn help_documents_format_neutral_object_mode_values() {
    let help = command().render_long_help().to_string();
    assert!(help.contains("--object-mode <OBJECT_MODE>"));
    assert!(help.contains("selected structured object"));
}

#[test]
fn sqlite_feature_exposes_its_cli_surface() {
    let config = parse(&["tview", "--format", "sqlite", "--table", "users", "application.db"]);
    assert_eq!(config.source_options.format, Some(InputFormat::Sqlite));
    assert_eq!(config.source_options.table.as_deref(), Some("users"));
    let query = parse(&[
        "tview",
        "--format",
        "sqlite",
        "--query",
        "SELECT * FROM users",
        "application.db",
    ]);
    assert_eq!(query.source_options.native_query.as_deref(), Some("SELECT * FROM users"));

    let help = command().render_long_help().to_string();
    assert!(help.contains("--table <TABLE>"));
    assert!(help.contains("--query <QUERY>"));
    assert!(help.contains("SQLite"));
}

#[test]
fn native_query_and_table_conflict_at_argument_parsing() {
    assert!(try_parse(&[
        "tview",
        "--table",
        "users",
        "--query",
        "SELECT * FROM users",
        "application.db"
    ])
    .is_err());
}

#[test]
fn table_can_be_combined_with_explicit_auto_format() {
    let config = parse(&["tview", "--format", "auto", "--table", "users", "application.db"]);

    assert_eq!(config.source_options.format, Some(InputFormat::Auto));
    assert_eq!(config.source_options.table.as_deref(), Some("users"));
}

#[test]
fn object_mode_does_not_imply_a_format_for_stdin() {
    let config = parse(&["tview", "--object-mode", "entries", "-"]);
    assert_eq!(config.target, SourceTarget::Stdin);
    assert_eq!(config.source_options.format, None);
    assert_eq!(config.source_options.object_mode, Some(ObjectMode::Entries));
}

#[test]
fn rejects_invalid_json_pointer_during_argument_parsing() {
    assert!(try_parse(&["tview", "--json-path", "hits/hits", "response.json"]).is_err());
}

#[test]
fn rejects_json_path_with_implicit_delimited_options() {
    let error = Config::from_args(
        try_parse(&["tview", "--json-path", "/rows", "--delimiter", "|", "response.data"])
            .expect("arguments"),
    )
    .expect_err("incompatible options");

    assert!(matches!(
        error,
        CliError::IncompatibleOptions { format: InputFormat::Delimited, option: "--json-path" }
    ));
    assert_eq!(error.message(), "--json-path cannot be used with delimited input");
}

#[test]
fn explicit_delimited_options_override_saved_format_with_auto_resolution() {
    let config = parse(&["tview", "--delimiter", "|", "data.unknown"]);
    assert_eq!(config.source_options.format, Some(InputFormat::Auto));

    let options = OpenOptions::merge(
        OpenOptions::default(),
        &SourceOptionOverrides {
            format: Some(InputFormat::Json),
            ..SourceOptionOverrides::default()
        },
        &config.source_options,
    );
    assert_eq!(options.format, InputFormat::Auto);
}

#[test]
fn rejects_delimited_options_with_structured_format() {
    assert_eq!(
        parse_config_error(&["tview", "--format", "json", "--delimiter", ",", "data.json"]),
        CliError::IncompatibleOptions {
            format: InputFormat::Json,
            option: "delimited parsing options"
        }
    );
    assert_eq!(
        parse_config_error(&[
            "tview",
            "--format",
            "delimited",
            "--json-path",
            "/rows",
            "data.csv"
        ]),
        CliError::IncompatibleOptions { format: InputFormat::Delimited, option: "--json-path" }
    );
}

#[test]
fn parses_saved_view_selection_flags() {
    let config = parse(&["tview", "--view", "cat-shards.yml", "sample/data.csv"]);
    assert_eq!(config.saved_view, SavedViewSelection::Force("cat-shards".to_owned()));

    let config = parse(&["tview", "--no-view", "sample/data.csv"]);
    assert_eq!(config.saved_view, SavedViewSelection::Disabled);

    assert!(try_parse(&["tview", "--view", "cat-shards", "--no-view", "sample/data.csv"]).is_err());
}

#[test]
fn unreadable_values_are_named_in_their_errors() {
    let delimiter = parse_config_error(&["tview", "--delimiter", "ab", "data.csv"]);
    assert_eq!(
        delimiter,
        CliError::InvalidChar { what: "delimiter", value: "ab".to_owned() }
    );
    let quoting = parse_config_error(&["tview", "--quoting", "QUOTE_SOME", "data.csv"]);
    assert_eq!(quoting, CliError::InvalidQuoting { value: "QUOTE_SOME".to_owned() });
    let width = parse_config_error(&["tview", "--width", "wide", "data.csv"]);
    assert_eq!(width, CliError::InvalidWidth { value: "wide".to_owned() });
    let table = parse_config_error(&["tview", "--format", "json", "--table", "users", "a.json"]);
    assert_eq!(
        table,
        CliError::IncompatibleOptions { format: InputFormat::Json, option: "--table" }
    );
    assert_eq!(argument_help("unknown"), None);
}

#[test]
fn only_unsorted_rows_leave_the_order_of_a_view_aside() {
    assert!(leaves_order_aside(&parse(&["tview", "--sorted", "false", "data.csv"])));
    assert!(!leaves_order_aside(&parse(&["tview", "--sorted", "true", "data.csv"])));
    assert!(!leaves_order_aside(&parse(&["tview", "data.csv"])));
}
