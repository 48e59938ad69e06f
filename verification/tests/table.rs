use aush::table::{
    parse_hex_color, render_value, render_value_with, render_value_with_colors, Table,
    TableRenderer, TableStyle, Value,
};

fn row(cells: Vec<(&str, Value)>) -> Vec<(String, Value)> {
    cells.into_iter().map(|(k, v)| (k.to_string(), v)).collect()
}

#[test]
fn test_value_to_text_primitives() {
    assert_eq!(Value::String("hello".into()).to_text(), "hello");
    assert_eq!(Value::Int(42).to_text(), "42");
    assert_eq!(Value::Float("3.5".into()).to_text(), "3.5");
    assert_eq!(Value::Bool(true).to_text(), "true");
    assert_eq!(Value::Null.to_text(), "");
}

#[test]
fn test_value_to_text_list() {
    let list = Value::List(vec![Value::Int(1), Value::Int(2), Value::Int(3)]);
    assert_eq!(list.to_text(), "1\n2\n3");
}

#[test]
fn test_table_to_tsv() {
    let mut table = Table::new(vec!["name".into(), "age".into()]);
    table.push_row(row(vec![("name", Value::String("Alice".into())), ("age", Value::Int(30))]));
    table.push_row(row(vec![("name", Value::String("Bob".into())), ("age", Value::Int(25))]));

    let tsv = table.to_tsv();
    assert!(tsv.contains("name\tage"));
    assert!(tsv.contains("Alice\t30"));
    assert!(tsv.contains("Bob\t25"));
}

#[test]
fn test_table_capacity() {
    let table = Table::with_capacity(vec!["a".into(), "b".into()], 100);
    assert_eq!(table.rows.capacity(), 100);
    assert!(table.is_empty());
}

#[test]
fn test_table_render_simple() {
    let mut table = Table::new(vec!["name".into(), "value".into()]);
    table.push_row(row(vec![("name", Value::String("test".into())), ("value", Value::Int(42))]));

    let renderer = TableRenderer::new().with_colors(false);
    let output = renderer.render(&table);

    assert!(output.contains("name"));
    assert!(output.contains("value"));
    assert!(output.contains("test"));
    assert!(output.contains("42"));
}

#[test]
fn test_table_render_empty() {
    let table = Table::new(vec!["a".into(), "b".into()]);
    let renderer = TableRenderer::new();
    let output = renderer.render(&table);
    assert_eq!(output, "");
}

#[test]
fn test_render_value_primitives() {
    assert_eq!(render_value(&Value::String("hello".into())), "hello");
    assert_eq!(render_value(&Value::Int(123)), "123");
    assert_eq!(render_value(&Value::Bool(true)), "true");
}

#[test]
fn test_render_value_list() {
    let list = Value::List(vec![
        Value::String("a".into()),
        Value::String("b".into()),
        Value::String("c".into()),
    ]);
    let output = render_value(&list);
    assert_eq!(output, "a\nb\nc");
}

#[test]
fn test_table_style_ascii() {
    let mut table = Table::new(vec!["a".into(), "b".into()]);
    table.push_row(row(vec![("a", Value::Int(1)), ("b", Value::Int(2))]));

    let renderer = TableRenderer::new()
        .with_colors(false)
        .with_style(TableStyle::Ascii);
    let output = renderer.render(&table);

    // Should use ASCII characters
    assert!(output.contains("|"));
    assert!(output.contains("-"));
}

#[test]
fn test_column_truncation() {
    let mut table = Table::new(vec!["long".into()]);
    // Create a very long value
    let long_value = "a".repeat(100);
    table.push_row(row(vec![("long", Value::String(long_value))]));

    let renderer = TableRenderer::new().with_colors(false);
    let output = renderer.render(&table);

    // Should be truncated (max 50 chars per column)
    assert!(output.contains("…"));
}

fn sample() -> Table {
    let mut table = Table::new(vec!["name".into(), "value".into()]);
    table.push_row(row(vec![("name", Value::String("test".into())), ("value", Value::Int(42))]));
    table
}

#[test]
fn unicode_layout_is_exact() {
    let out = TableRenderer::new().render(&sample());
    assert_eq!(out, "name │ value\n─────┼──────\ntest │ 42   \n");
}

#[test]
fn ascii_and_minimal_layouts_are_exact() {
    let ascii = TableRenderer::new().with_style(TableStyle::Ascii).render(&sample());
    assert_eq!(ascii, "name | value\n-----+------\ntest | 42   \n");
    let minimal = TableRenderer::new().with_style(TableStyle::Minimal).render(&sample());
    assert_eq!(minimal, "name  value\ntest  42   \n");
}

#[test]
fn truncated_cell_has_width_of_column() {
    let mut table = Table::new(vec!["c".into()]);
    table.push_row(row(vec![("c", Value::String("b".repeat(60)))]));
    let out = TableRenderer::new().with_style(TableStyle::Minimal).render(&table);
    let lines: Vec<&str> = out.lines().collect();
    assert_eq!(lines[0], format!("c{}", " ".repeat(49)));
    assert_eq!(lines[1], format!("{}…", "b".repeat(49)));
}

#[test]
fn missing_cells_are_empty() {
    let mut table = Table::new(vec!["a".into(), "b".into()]);
    table.push_row(row(vec![("b", Value::Int(7))]));
    assert_eq!(table.to_tsv(), "a\tb\n\t7\n");
}

#[test]
fn csv_quotes_fields_with_commas_and_quotes() {
    let mut table = Table::new(vec!["a".into(), "b".into()]);
    table.push_row(row(vec![
        ("a", Value::String("x,y".into())),
        ("b", Value::String("say \"hi\"".into())),
    ]));
    assert_eq!(table.to_csv(), "a,b\n\"x,y\",\"say \"\"hi\"\"\"\n");
}

#[test]
fn nested_values_render_as_text() {
    let inner = sample();
    let v = Value::List(vec![Value::Filesize(1536), Value::Table(inner)]);
    assert_eq!(v.to_text(), "1.50 KB\nname\tvalue\ntest\t42\n");
}

#[test]
fn colored_header_is_painted_bold() {
    let out = render_value_with_colors(&Value::Table(sample()), true);
    assert!(out.starts_with("\u{1b}[1;36mname\u{1b}[0m │ \u{1b}[1;36mvalue\u{1b}[0m\n"));
    let rgb = TableRenderer::with_settings(true, None, TableStyle::Ascii, Some((255, 0, 0)));
    let out = render_value_with(&rgb, &Value::Table(sample()));
    assert!(out.starts_with("\u{1b}[1;38;2;255;0;0mname\u{1b}[0m | "));
}

#[test]
fn hex_colors_parse() {
    assert_eq!(parse_hex_color("#ff8000"), Some((255, 128, 0)));
    assert_eq!(parse_hex_color("0A0b0C"), Some((10, 11, 12)));
    assert_eq!(parse_hex_color("#ff80"), None);
    assert_eq!(parse_hex_color("#gg0000"), None);
    assert_eq!(parse_hex_color("+f+f+f"), Some((15, 15, 15)));
}

#[test]
fn table_style_settings() {
    assert_eq!(TableStyle::from_setting(Some("ascii")), TableStyle::Ascii);
    assert_eq!(TableStyle::from_setting(Some("minimal")), TableStyle::Minimal);
    assert_eq!(TableStyle::from_setting(Some("fancy")), TableStyle::Unicode);
    assert_eq!(TableStyle::from_setting(None), TableStyle::Unicode);
}

#[test]
fn colored_headers_are_bold() {
    let mut table = Table::new(vec!["name".into()]);
    table.push_row(row(vec![("name", Value::String("x".into()))]));
    let out = TableRenderer::new().with_colors(true).render(&table);
    assert!(out.contains("\x1b[1;36mname"));
    assert!(out.contains("\x1b[0m"));
    let out = TableRenderer::with_settings(true, None, TableStyle::Unicode, Some((1, 22, 255))).render(&table);
    assert!(out.contains("\x1b[1;38;2;1;22;255mname"));
}

#[test]
fn column_widths_count_characters() {
    let mut table = Table::new(vec!["c".into()]);
    table.push_row(row(vec![("c", Value::String("é".repeat(60)))]));
    let out = TableRenderer::new().with_colors(false).render(&table);
    let expected = format!("{}…", "é".repeat(49));
    assert!(out.contains(&expected));
    assert!(!out.contains(&format!("{}…", "é".repeat(50))));
}
