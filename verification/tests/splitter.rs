use event_pipeline::split::split_statements;

#[test]
fn splits_simple_script() {
    let got = split_statements("a;b;c");
    assert_eq!(got, vec!["a".to_string(), "b".to_string(), "c".to_string()]);
}

#[test]
fn trims_and_drops_blank_statements() {
    let script = "  one ; \n ; two ;;; three  ";
    let got = split_statements(script);
    assert_eq!(got, vec!["one".to_string(), "two".to_string(), "three".to_string()]);
}

#[test]
fn keeps_statement_order() {
    let script = "CREATE TABLE t;\n\nDROP TABLE t;\nCREATE TABLE t";
    let got = split_statements(script);
    assert_eq!(
        got,
        vec![
            "CREATE TABLE t".to_string(),
            "DROP TABLE t".to_string(),
            "CREATE TABLE t".to_string()
        ]
    );
}

#[test]
fn empty_script_has_no_statements() {
    assert_eq!(split_statements(""), Vec::<String>::new());
    assert_eq!(split_statements("   \n\t "), Vec::<String>::new());
    assert_eq!(split_statements(";;;"), Vec::<String>::new());
}

#[test]
fn trailing_terminator_is_silent() {
    let got = split_statements("SELECT 1;");
    assert_eq!(got, vec!["SELECT 1".to_string()]);
}

#[test]
fn statement_with_inner_whitespace_keeps_it() {
    let got = split_statements("  a  b  ;c");
    assert_eq!(got, vec!["a  b".to_string(), "c".to_string()]);
}
