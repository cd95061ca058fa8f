use kiroro::content::Content;
use kiroro::error::EditError;
use kiroro::row::Row;

fn doc(lines: &[&str]) -> Content {
    Content::new(String::from("t.txt"), lines.iter().map(|l| Row::new(l)).collect())
}

fn raws(c: &Content) -> Vec<String> {
    c.rows.iter().map(|r| r.raw.clone()).collect()
}

#[test]
fn from_text_splits_lines() {
    let c = Content::from_text(String::from("f"), &String::from("ab\ncd\n\nef"));
    assert_eq!(raws(&c), vec!["ab", "cd", "", "ef"]);
    assert_eq!(c.filename, Some(String::from("f")));
    assert!(!c.dirty);
}

#[test]
fn from_text_empty_is_one_empty_row() {
    let c = Content::from_text(String::from("f"), &String::new());
    assert_eq!(raws(&c), vec![""]);
}

#[test]
fn from_text_final_newline_adds_no_row() {
    let c = Content::from_text(String::from("f"), &String::from("a\nb\n"));
    assert_eq!(raws(&c), vec!["a", "b"]);
    let c = Content::from_text(String::from("f"), &String::from("\n"));
    assert_eq!(raws(&c), vec![""]);
}

#[test]
fn from_text_drops_carriage_return_before_newline() {
    let c = Content::from_text(String::from("f"), &String::from("a\r\nb\rc\r\n"));
    assert_eq!(raws(&c), vec!["a", "b\rc"]);
    let c = Content::from_text(String::from("f"), &String::from("x\r"));
    assert_eq!(raws(&c), vec!["x\r"]);
}

#[test]
fn from_text_renders_rows() {
    let c = Content::from_text(String::from("f"), &String::from("\tx\ny"));
    assert_eq!(c.rows[0].render, "        x");
    assert_eq!(c.rows[1].render, "y");
}

#[test]
fn text_round_trips() {
    for t in ["", "a", "a\nb", "\n\nx", "tab\there\n\nend", "é\nß", "a\rb"] {
        let c = Content::from_text(String::from("f"), &String::from(t));
        assert_eq!(c.rows_to_string(), t);
    }
}

#[test]
fn rows_to_string_joins_with_newlines() {
    assert_eq!(doc(&["a", "", "b"]).rows_to_string(), "a\n\nb");
    assert_eq!(doc(&[]).rows_to_string(), "");
    assert_eq!(doc(&[""]).rows_to_string(), "");
}

#[test]
fn row_from_index_in_and_out_of_range() {
    let c = doc(&["a", "b"]);
    assert_eq!(c.row_from_index(1).map(|r| r.raw.clone()), Some(String::from("b")));
    assert!(c.row_from_index(2).is_none());
}

#[test]
fn insert_char_into_row() {
    let mut c = doc(&["abc", "de"]);
    assert_eq!(c.insert_char(1, 1, 'x'), Ok(()));
    assert_eq!(raws(&c), vec!["abc", "dxe"]);
    assert!(c.dirty);
}

#[test]
fn insert_char_past_last_row_appends_row() {
    let mut c = doc(&["a", "b", "c"]);
    assert_eq!(c.insert_char(3, 0, 'x'), Ok(()));
    assert_eq!(raws(&c), vec!["a", "b", "c", "x"]);
}

#[test]
fn insert_char_far_past_last_row_is_row_not_found() {
    let mut c = doc(&["a", "b", "c"]);
    assert_eq!(c.insert_char(5, 0, 'x'), Err(EditError::RowNotFound(5)));
    assert_eq!(raws(&c), vec!["a", "b", "c"]);
    assert!(!c.dirty);
}

#[test]
fn insert_char_past_row_end_is_index_error() {
    let mut c = doc(&["abc"]);
    assert_eq!(c.insert_char(0, 4, 'x'), Err(EditError::IndexError(4)));
    assert_eq!(raws(&c), vec!["abc"]);
    assert!(!c.dirty);
}

#[test]
fn insert_new_line_splits_row() {
    let mut c = doc(&["hello", "x"]);
    assert_eq!(c.insert_new_line(0, 2), Ok(()));
    assert_eq!(raws(&c), vec!["he", "llo", "x"]);
    assert!(c.dirty);
}

#[test]
fn insert_new_line_past_end_appends_empty_row() {
    let mut c = doc(&["a"]);
    assert_eq!(c.insert_new_line(1, 0), Ok(()));
    assert_eq!(raws(&c), vec!["a", ""]);
    assert_eq!(c.insert_new_line(9, 3), Ok(()));
    assert_eq!(raws(&c), vec!["a", "", ""]);
}

#[test]
fn insert_new_line_past_row_end_is_index_error() {
    let mut c = doc(&["ab"]);
    assert_eq!(c.insert_new_line(0, 3), Err(EditError::IndexError(3)));
    assert_eq!(raws(&c), vec!["ab"]);
}

#[test]
fn split_then_join_restores_row() {
    for col in 0..=5 {
        let mut c = doc(&["x", "he\tlo", "y"]);
        c.insert_new_line(1, col).unwrap();
        c.concatenate_previous_row(2).unwrap();
        assert_eq!(raws(&c), vec!["x", "he\tlo", "y"]);
        assert_eq!(c.rows[1].render, Row::new("he\tlo").render);
    }
}

#[test]
fn delete_char_in_row() {
    let mut c = doc(&["abc"]);
    assert_eq!(c.delete_char(0, 2), Ok(()));
    assert_eq!(raws(&c), vec!["ab"]);
    assert!(c.dirty);
}

#[test]
fn delete_char_errors() {
    let mut c = doc(&["abc"]);
    assert_eq!(c.delete_char(1, 0), Err(EditError::RowNotFound(1)));
    assert_eq!(c.delete_char(0, 3), Err(EditError::IndexError(3)));
    assert_eq!(raws(&c), vec!["abc"]);
    assert!(!c.dirty);
}

#[test]
fn concatenate_first_row_does_nothing() {
    let mut c = doc(&["a", "b"]);
    assert_eq!(c.concatenate_previous_row(0), Ok(()));
    assert_eq!(raws(&c), vec!["a", "b"]);
    assert!(!c.dirty);
    let mut empty = doc(&[]);
    assert_eq!(empty.concatenate_previous_row(0), Ok(()));
}

#[test]
fn concatenate_joins_with_previous_row() {
    let mut c = doc(&["ab", "\tc", "d"]);
    assert_eq!(c.concatenate_previous_row(1), Ok(()));
    assert_eq!(raws(&c), vec!["ab\tc", "d"]);
    assert_eq!(c.rows[0].render, "ab      c");
    assert!(c.dirty);
}

#[test]
fn concatenate_past_end_is_out_of_range() {
    let mut c = doc(&["a", "b"]);
    assert_eq!(c.concatenate_previous_row(2), Err(EditError::OutOfRange(2)));
    assert_eq!(raws(&c), vec!["a", "b"]);
}

#[test]
fn find_first_match() {
    let c = doc(&["abcde", "xy"]);
    assert_eq!(c.find(&String::from("de")), Some((0, 3)));
    assert_eq!(c.find(&String::from("y")), Some((1, 1)));
    assert_eq!(c.find(&String::from("zz")), None);
}

#[test]
fn find_prefers_earlier_row_and_leftmost_match() {
    let c = doc(&["xx", "abab", "ab"]);
    assert_eq!(c.find(&String::from("ab")), Some((1, 0)));
    assert_eq!(c.find(&String::from("ba")), Some((1, 1)));
}

#[test]
fn find_maps_rendered_column_to_raw() {
    let c = doc(&["\tab"]);
    assert_eq!(c.find(&String::from("ab")), Some((0, 1)));
    let c = doc(&["a\tb"]);
    assert_eq!(c.find(&String::from("  b")), Some((0, 1)));
}

#[test]
fn find_empty_query_and_empty_document() {
    assert_eq!(doc(&["a"]).find(&String::new()), Some((0, 0)));
    assert_eq!(doc(&[]).find(&String::from("a")), None);
}

#[test]
fn phantom_document_has_no_name() {
    assert!(Content::default().is_phantom());
    assert!(!doc(&["a"]).is_phantom());
    let d = Content::default();
    assert!(d.rows.is_empty());
    assert!(!d.dirty);
}
