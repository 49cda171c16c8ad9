//! The tabular document reader.

use coach::csvdoc::parse_csv;

#[test]
fn splits_rows_and_fields() {
    let rows = parse_csv("a,b,c\nd,e,f\n");
    assert_eq!(rows, vec![vec!["a", "b", "c"], vec!["d", "e", "f"]]);
}

#[test]
fn empty_document_has_no_rows() {
    assert_eq!(parse_csv("").len(), 0);
    assert_eq!(parse_csv("\n\n").len(), 0);
}

#[test]
fn blank_lines_are_skipped() {
    let rows = parse_csv("a,b\n\nc,d");
    assert_eq!(rows, vec![vec!["a", "b"], vec!["c", "d"]]);
}

#[test]
fn carriage_returns_are_stripped() {
    let rows = parse_csv("a,b\r\nc,d\r\n");
    assert_eq!(rows, vec![vec!["a", "b"], vec!["c", "d"]]);
}

#[test]
fn missing_trailing_newline_is_fine() {
    let rows = parse_csv("a,b");
    assert_eq!(rows, vec![vec!["a", "b"]]);
}

#[test]
fn adjacent_commas_give_empty_fields() {
    let rows = parse_csv("a,,c\n");
    assert_eq!(rows, vec![vec!["a", "", "c"]]);
    let rows = parse_csv(",\n");
    assert_eq!(rows, vec![vec!["", ""]]);
}

#[test]
fn quoted_field_keeps_its_comma() {
    let rows = parse_csv("\"Doe, Jane\",2\n");
    assert_eq!(rows, vec![vec!["Doe, Jane", "2"]]);
}

#[test]
fn doubled_quote_escapes_one_quote() {
    let rows = parse_csv("\"a\"\"b\",c\n");
    assert_eq!(rows, vec![vec!["a\"b", "c"]]);
}

#[test]
fn quoted_newline_stays_in_the_field() {
    let rows = parse_csv("\"a\nb\",c\n");
    assert_eq!(rows, vec![vec!["a\nb", "c"]]);
}

#[test]
fn quoted_fields_with_crlf_line_ends() {
    let rows = parse_csv("\"x\",y\r\n\"z\",w\r\n");
    assert_eq!(rows, vec![vec!["x", "y"], vec!["z", "w"]]);
}

#[test]
fn quote_opens_only_at_field_start() {
    // a quote in the middle of an unquoted field is a literal character
    let rows = parse_csv("a\"b,c\n");
    assert_eq!(rows, vec![vec!["a\"b", "c"]]);
}

#[test]
fn unterminated_quote_runs_to_the_end() {
    let rows = parse_csv("\"a,b");
    assert_eq!(rows, vec![vec!["a,b"]]);
}
