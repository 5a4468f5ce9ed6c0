use csv_table::parse::parse_csv;
use csv_table::render::{render_table, RenderError};
use csv_table::text::to_decimal;
use csv_table::width::{column_size, column_sizes, display_width};

fn table(rows: &[&[&str]]) -> Vec<Vec<String>> {
    rows.iter().map(|r| r.iter().map(|c| c.to_string()).collect()).collect()
}

#[test]
fn parse_scenario_pads_short_row() {
    let t = parse_csv("a,b,c\n1,2,3\n4,5\n", ",");
    assert_eq!(t, table(&[&["a", "b", "c"], &["1", "2", "3"], &["4", "5", " "]]));
    assert_eq!(column_sizes(&t), vec![3, 3, 3]);
}

#[test]
fn render_scenario_full_output() {
    let t = parse_csv("a,b,c\n1,2,3\n4,5\n", ",");
    let out = render_table(&t).unwrap();
    let expected = "\
┌───┬───┬───┐
│a  │b  │c  │
├───┼───┼───┤
│1  │2  │3  │
├───┼───┼───┤
│4  │5  │   │
└───┴───┴───┘
Rows: 3, Cols: 3
";
    assert_eq!(out, expected);
}

#[test]
fn render_is_idempotent() {
    let t = parse_csv("name,qty\nspoon,4\nfork,12\n", ",");
    let first = render_table(&t).unwrap();
    let second = render_table(&t).unwrap();
    assert_eq!(first.as_bytes(), second.as_bytes());
}

#[test]
fn separator_count_is_rows_minus_one() {
    let t = parse_csv("h\n1\n2\n3\n4\n", ",");
    assert_eq!(t.len(), 5);
    let out = render_table(&t).unwrap();
    assert_eq!(out.matches('├').count(), t.len() - 1);
    assert_eq!(out.matches('┌').count(), 1);
    assert_eq!(out.matches('└').count(), 1);
}

#[test]
fn ascii_column_width_is_max_len_plus_two() {
    let t = table(&[&["abc", "x"], &["a", "yy"], &["ab", "z"]]);
    assert_eq!(column_size(&t, 0), 5);
    assert_eq!(column_size(&t, 1), 4);
}

#[test]
fn wide_glyph_counts_two_columns() {
    assert_eq!(display_width("好"), Some(2));
    assert_eq!(display_width("好a"), Some(3));
    let t = table(&[&["好"], &["a"]]);
    assert_eq!(column_size(&t, 0), 4);
}

#[test]
fn combining_glyph_counts_zero_columns() {
    assert_eq!(display_width("e\u{0301}"), Some(1));
    let t = table(&[&["e\u{0301}"], &["x"]]);
    assert_eq!(column_size(&t, 0), 3);
}

#[test]
fn empty_string_has_zero_width() {
    assert_eq!(display_width(""), Some(0));
}

#[test]
fn wide_glyph_alignment_in_rendered_table() {
    let t = parse_csv("id,name\n1,東京\n2,nyc\n", ",");
    let out = render_table(&t).unwrap();
    // The name column is 4 display columns wide plus padding: the wide-glyph
    // cell gets less space padding than the ASCII cell of the same width.
    assert!(out.contains("│東京  │"));
    assert!(out.contains("│nyc   │"));
}

#[test]
fn empty_content_gives_empty_table() {
    let t = parse_csv("", ",");
    assert!(t.is_empty());
    assert_eq!(render_table(&t), Err(RenderError::EmptyTable));
}

#[test]
fn delimiter_is_honored_for_all_rows() {
    let t = parse_csv("a;b\n1;2\n", ";");
    assert_eq!(t, table(&[&["a", "b"], &["1", "2"]]));
}

#[test]
fn fields_are_trimmed() {
    let t = parse_csv("  a , b\t\n 1 ,  2  \n", ",");
    assert_eq!(t, table(&[&["a", "b"], &["1", "2"]]));
}

#[test]
fn long_row_is_truncated_to_header_width() {
    let t = parse_csv("a,b\n1,2,3,4\n", ",");
    assert_eq!(t, table(&[&["a", "b"], &["1", "2"]]));
}

#[test]
fn no_spurious_row_for_trailing_newline() {
    let with_newline = parse_csv("a\n1\n", ",");
    let without_newline = parse_csv("a\n1", ",");
    assert_eq!(with_newline, without_newline);
    assert_eq!(with_newline.len(), 2);
}

#[test]
fn empty_middle_line_becomes_empty_cells() {
    let t = parse_csv("a\n\nb\n", ",");
    assert_eq!(t, table(&[&["a"], &[""], &["b"]]));
    let out = render_table(&t).unwrap();
    assert!(out.ends_with("Rows: 3, Cols: 1\n"));
}

#[test]
fn summary_counts_rows_and_columns() {
    let mut content = String::from("h1,h2,h3");
    for i in 0..11 {
        content.push_str(&format!("\nv{i},w,x"));
    }
    let t = parse_csv(&content, ",");
    let out = render_table(&t).unwrap();
    assert!(out.ends_with("Rows: 12, Cols: 3\n"));
}

#[test]
fn decimal_rendering_is_exact() {
    assert_eq!(to_decimal(0), "0");
    assert_eq!(to_decimal(7), "7");
    assert_eq!(to_decimal(10), "10");
    assert_eq!(to_decimal(90210), "90210");
}

#[test]
fn one_row_table_has_no_separator() {
    let t = parse_csv("only,header\n", ",");
    let out = render_table(&t).unwrap();
    assert_eq!(out.matches('├').count(), 0);
    assert!(out.ends_with("Rows: 1, Cols: 2\n"));
}
