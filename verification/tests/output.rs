//! Output of views.

use tview::output::{
    align_cell, ansi_start, clip_display_width, display_width, normalize_controls, output_result,
    overlay_style, prepare, resolve_execution_mode, view_requirements, write_preview, write_view,
    Color, ColorOutput, ExecutionMode, Modifiers, OutputError, OutputFormat, OutputRequirements,
    PreparedOutput, Style, ViewContent, WriteFault,
};
use tview::table::{ColumnAlignment, RowCount};

fn rows(values: &[&[&str]]) -> Vec<Vec<String>> {
    values
        .iter()
        .map(|row| row.iter().map(|cell| (*cell).to_owned()).collect())
        .collect()
}

fn content(header: &[&str], values: &[&[&str]], alignments: &[ColumnAlignment]) -> ViewContent {
    ViewContent {
        header_visible: !header.is_empty(),
        header: Some(header.iter().map(|cell| (*cell).to_owned()).collect()),
        rows: rows(values),
        conditional_styles: Vec::new(),
        alignments: alignments.to_vec(),
        width_overrides: vec![None; alignments.len()],
        gap: 2,
    }
}

fn plain(content: &ViewContent) -> PreparedOutput {
    prepare(content, Style::default(), Style::default(), OutputRequirements::default())
}

fn styled(content: &ViewContent) -> PreparedOutput {
    let header = Style {
        fg: Some(Color::White),
        added: Modifiers { bold: true, ..Modifiers::none() },
        ..Style::default()
    };
    let cell = Style { fg: Some(Color::Gray), ..Style::default() };
    let requirements = view_requirements(OutputFormat::Table, ColorOutput::Always).unwrap();
    prepare(content, header, cell, requirements)
}

fn render(content: &ViewContent, color: ColorOutput) -> String {
    let prepared = if color == ColorOutput::Always { styled(content) } else { plain(content) };
    write_view(OutputFormat::Table, color, &prepared).expect("render")
}

const LEFT: ColumnAlignment = ColumnAlignment::Left;
const RIGHT: ColumnAlignment = ColumnAlignment::Right;

#[test]
fn resolves_composable_execution_modes() {
    assert_eq!(
        resolve_execution_mode(false, None, true),
        ExecutionMode::Interactive { emit_on_exit: None }
    );
    assert_eq!(
        resolve_execution_mode(false, None, false),
        ExecutionMode::Batch(OutputFormat::Table)
    );
    assert_eq!(
        resolve_execution_mode(true, None, false),
        ExecutionMode::Interactive { emit_on_exit: None }
    );
    assert_eq!(
        resolve_execution_mode(true, Some(OutputFormat::Table), false),
        ExecutionMode::Interactive { emit_on_exit: Some(OutputFormat::Table) }
    );
    assert_eq!(
        resolve_execution_mode(false, Some(OutputFormat::Table), true),
        ExecutionMode::Batch(OutputFormat::Table)
    );
}

#[test]
fn normalizes_controls_and_clips_unicode_by_display_width() {
    assert_eq!(normalize_controls("a\n\tb\u{1b}\u{7}"), "a\\n\\tb\\e\\u{0007}");
    assert_eq!(clip_display_width("a界b", 3), "a界");
    assert_eq!(clip_display_width("e\u{301}x", 1), "e\u{301}");
}

#[test]
fn renders_aligned_plain_rows_without_chrome_or_final_padding() {
    let view = content(&["Name", "Count"], &[&["alpha", "2"], &["b", "10"]], &[LEFT, RIGHT]);
    assert_eq!(
        render(&view, ColorOutput::Never),
        "Name   Count\nalpha      2\nb         10\n"
    );
}

#[test]
fn final_output_uses_live_view_state_but_ignores_cursor_and_viewport() {
    let mut view = content(&["A", "B"], &[&["one", "2"], &["three", "1"]], &[LEFT, RIGHT]);
    for row in &mut view.rows {
        row.remove(1);
    }
    view.header = view.header.map(|names| names[..1].to_vec());
    view.alignments.remove(1);
    view.width_overrides.remove(1);
    view.rows.sort_by(|a, b| b[0].cmp(&a[0]));
    assert_eq!(render(&view, ColorOutput::Never), "A\nthree\none\n");
}

#[test]
fn hidden_header_and_empty_result_emit_zero_bytes() {
    let view = content(&[], &[], &[]);
    assert_eq!(render(&view, ColorOutput::Never), "");
}

#[test]
fn empty_filtered_result_emits_header_only_or_zero_bytes() {
    let mut view = content(&["Name"], &[&["alpha"]], &[LEFT]);
    view.rows.retain(|row| row[0].contains("missing"));
    assert_eq!(render(&view, ColorOutput::Never), "Name\n");
    view.header_visible = false;
    assert_eq!(render(&view, ColorOutput::Never), "");
}

#[test]
fn controls_are_visible_and_unicode_alignment_is_display_width_aware() {
    let view = content(
        &["Text", "Number"],
        &[&["a\nb\t\u{1b}", "界"], &["e\u{301}", "2"]],
        &[LEFT, LEFT],
    );
    assert_eq!(
        render(&view, ColorOutput::Never),
        "Text      Number\na\\nb\\t\\e  界\ne\u{301}         2\n"
    );
}

#[test]
fn explicit_width_clips_and_color_resets_before_gaps_and_newlines() {
    let mut view = content(&["Header", "B"], &[&["abcdef", "x"]], &[LEFT, LEFT]);
    view.width_overrides = vec![Some(3), Some(3)];
    assert_eq!(render(&view, ColorOutput::Never), "Hea  B\nabc  x\n");
    let colored = render(&view, ColorOutput::Always);
    assert!(colored.contains("\x1b["));
    assert!(colored.contains("\x1b[0m  "));
    assert!(colored.ends_with("\x1b[0m\n"));
}

#[test]
fn explicit_width_pads_narrow_cells_to_match_the_live_view() {
    let mut view = content(&["A", "B"], &[&["x", "y"]], &[LEFT, LEFT]);
    view.width_overrides = vec![Some(5), Some(5)];
    assert_eq!(render(&view, ColorOutput::Never), "A      B\nx      y\n");
}

#[test]
fn conditional_colors_overlay_cells_without_leaking_ansi() {
    let mut view = content(&["Active", "Name"], &[&["true", "alpha"]], &[LEFT, LEFT]);
    let red = Style { fg: Some(Color::Red), ..Style::default() };
    view.conditional_styles = vec![vec![Some(red), None]];
    let cell = Style { fg: Some(Color::Gray), ..Style::default() };
    let expected_start = ansi_start(overlay_style(cell, red));
    let rendered = render(&view, ColorOutput::Always);
    assert!(
        rendered.contains(&format!("{expected_start}true  \x1b[0m  ")),
        "{rendered:?}"
    );
    assert!(rendered.ends_with("\x1b[0m\n"));
}

struct FailingWriter {
    kind: std::io::ErrorKind,
}

impl std::io::Write for FailingWriter {
    fn write(&mut self, _buffer: &[u8]) -> std::io::Result<usize> {
        Err(std::io::Error::from(self.kind))
    }

    fn flush(&mut self) -> std::io::Result<()> {
        Ok(())
    }
}

fn fault(error: std::io::Error) -> WriteFault {
    if error.kind() == std::io::ErrorKind::BrokenPipe {
        WriteFault::BrokenPipe
    } else {
        WriteFault::Failed(error.to_string())
    }
}

fn write_to(
    format: OutputFormat,
    view: &ViewContent,
    writer: &mut dyn std::io::Write,
) -> Result<(), WriteFault> {
    let text = write_view(format, ColorOutput::Never, &plain(view)).expect("text");
    output_result(writer.write_all(text.as_bytes()).map_err(fault))
}

#[test]
fn broken_pipe_is_clean_but_other_writer_errors_fail() {
    for format in [OutputFormat::Table, OutputFormat::Json, OutputFormat::Jsonl] {
        let view = content(&["A"], &[&["1"]], &[LEFT]);
        write_to(
            format,
            &view,
            &mut FailingWriter { kind: std::io::ErrorKind::BrokenPipe },
        )
        .expect("broken pipe");

        let error =
            write_to(format, &view, &mut FailingWriter { kind: std::io::ErrorKind::Other })
                .expect_err("other error");
        assert!(matches!(error, WriteFault::Failed(_)));
    }
}

#[test]
fn ansi_conversion_covers_colors_and_modifiers() {
    let style = Style {
        fg: Some(Color::Rgb(1, 2, 3)),
        bg: Some(Color::Indexed(42)),
        added: Modifiers { bold: true, italic: true, underlined: true, ..Modifiers::none() },
        removed: Modifiers::none(),
    };
    assert_eq!(ansi_start(style), "\x1b[38;2;1;2;3;48;5;42;1;3;4m");
    assert_eq!(ansi_start(Style::default()), "");
}

struct FlushWriter {
    kind: Option<std::io::ErrorKind>,
    flushed: bool,
}

impl std::io::Write for FlushWriter {
    fn write(&mut self, buffer: &[u8]) -> std::io::Result<usize> {
        Ok(buffer.len())
    }

    fn flush(&mut self) -> std::io::Result<()> {
        self.flushed = true;
        match self.kind {
            Some(kind) => Err(std::io::Error::from(kind)),
            None => Ok(()),
        }
    }
}

fn flush_output(writer: &mut dyn std::io::Write) -> Result<(), WriteFault> {
    output_result(writer.flush().map_err(fault))
}

#[test]
fn output_flushes_and_applies_broken_pipe_policy() {
    let mut successful = FlushWriter { kind: None, flushed: false };
    flush_output(&mut successful).expect("flush");
    assert!(successful.flushed);

    let mut broken =
        FlushWriter { kind: Some(std::io::ErrorKind::BrokenPipe), flushed: false };
    flush_output(&mut broken).expect("broken pipe flush");
    assert!(broken.flushed);

    let error = flush_output(&mut FlushWriter {
        kind: Some(std::io::ErrorKind::Other),
        flushed: false,
    })
    .expect_err("other flush error");
    assert!(matches!(error, WriteFault::Failed(_)));
}

#[test]
fn json_is_written_by_position_and_refuses_color() {
    let view = content(&["a", "a"], &[&["1", "x\"y"], &["2", "\u{7}"]], &[LEFT, LEFT]);
    assert_eq!(
        write_view(OutputFormat::Json, ColorOutput::Never, &plain(&view)).unwrap(),
        "{\"columns\":[\"a\",\"a\"],\"rows\":[[\"1\",\"x\\\"y\"],[\"2\",\"\\u0007\"]]}\n"
    );
    assert_eq!(
        write_view(OutputFormat::Jsonl, ColorOutput::Auto, &plain(&view)).unwrap(),
        "{\"columns\":[\"a\",\"a\"],\"values\":[\"1\",\"x\\\"y\"]}\n{\"columns\":[\"a\",\"a\"],\"values\":[\"2\",\"\\u0007\"]}\n"
    );
    assert_eq!(
        write_view(OutputFormat::Json, ColorOutput::Always, &plain(&view)),
        Err(OutputError::ColorUnsupported)
    );
    assert_eq!(
        OutputError::ColorUnsupported.message(),
        "output format does not support --color always"
    );
}

#[test]
fn previews_trim_lines_and_tell_of_more_rows() {
    let view = content(&["A", "B"], &[&["x", ""], &["", "y"]], &[LEFT, LEFT]);
    let prepared = plain(&view);
    assert_eq!(
        write_preview(ColorOutput::Never, &prepared, Some(RowCount::Exact(7))),
        "A  B\nx\n   y\n7 more rows...\n"
    );
    assert!(write_preview(ColorOutput::Never, &prepared, Some(RowCount::Unknown))
        .ends_with("\nmore rows...\n"));
    assert!(write_preview(ColorOutput::Never, &prepared, None).ends_with("   y\n"));
}

#[test]
fn cells_fill_their_columns() {
    for (text, width) in [("界界", 3), ("abc", 5), ("", 2), ("e\u{301}", 4)] {
        assert_eq!(display_width(&align_cell(text, width, RIGHT, true)), width);
        assert_eq!(display_width(&align_cell(text, width, LEFT, false)), width);
        assert!(display_width(&align_cell(text, width, LEFT, true)) <= width);
    }
    assert_eq!(normalize_controls(&normalize_controls("\r\u{9f}")), "\\r\\u{009F}");
}

#[test]
fn rows_take_one_line_whatever_they_hold() {
    let content = content(&["a\nb"], &[&["x\ny"], &["\u{1}z"]], &[LEFT]);
    let prepared = plain(&content);
    let lines = write_view(OutputFormat::Jsonl, ColorOutput::Never, &prepared).unwrap();
    assert_eq!(
        lines,
        "{\"columns\":[\"a\\nb\"],\"values\":[\"x\\ny\"]}\n{\"columns\":[\"a\\nb\"],\"values\":[\"\\u0001z\"]}\n"
    );
    let document = write_view(OutputFormat::Json, ColorOutput::Never, &prepared).unwrap();
    assert_eq!(document.lines().count(), 1);
    let table = write_view(OutputFormat::Table, ColorOutput::Never, &prepared).unwrap();
    assert_eq!(table.lines().count(), 3);
}

#[test]
fn printable_ascii_takes_one_column_each() {
    let all = (0x20u8..=0x7e).map(char::from).collect::<String>();
    assert_eq!(display_width(&all), 95);
    assert_eq!(clip_display_width(&all, 10), all[..10]);
    assert_eq!(clip_display_width(&all, 95), all);
    assert_eq!(align_cell("ab", 4, LEFT, false), "ab  ");
    assert_eq!(display_width("a\u{7f}\u{1}b"), 2);
}
