use kiroro::error::EditError;
use kiroro::row::Row;

#[test]
fn row_renders_tab_to_next_stop() {
    let row = Row::new("a\tb");
    assert_eq!(row.render, "a       b");
    assert_eq!(row.convert_index_render_to_raw(8), 2);
    assert_eq!(row.convert_index_raw_to_render(2), 8);
}

#[test]
fn row_renders_several_tabs() {
    let row = Row::new("\t\tx");
    assert_eq!(row.render, format!("{}x", " ".repeat(16)));
    let row = Row::new("abcdefgh\tz");
    assert_eq!(row.render, format!("abcdefgh{}z", " ".repeat(8)));
}

#[test]
fn row_without_tabs_renders_as_is() {
    let row = Row::new("hello");
    assert_eq!(row.raw, "hello");
    assert_eq!(row.render, "hello");
    let empty = Row::new("");
    assert_eq!(empty.render, "");
}

#[test]
fn tab_mapping_round_trips_every_raw_index() {
    let row = Row::new("a\tbc\t\td");
    let len = row.raw.chars().count();
    for i in 0..=len {
        let r = row.convert_index_raw_to_render(i);
        assert_eq!(row.convert_index_render_to_raw(r), i);
    }
}

#[test]
fn render_to_raw_inside_a_tab_gives_the_tab() {
    let row = Row::new("a\tb");
    for j in 1..8 {
        assert_eq!(row.convert_index_render_to_raw(j), 1);
    }
    assert_eq!(row.convert_index_render_to_raw(0), 0);
}

#[test]
fn render_to_raw_past_the_end_gives_length() {
    let row = Row::new("a\tb");
    assert_eq!(row.convert_index_render_to_raw(9), 3);
    assert_eq!(row.convert_index_render_to_raw(100), 3);
}

#[test]
fn raw_to_render_past_the_end_gives_rendered_length() {
    let row = Row::new("a\tb");
    assert_eq!(row.convert_index_raw_to_render(3), 9);
    assert_eq!(row.convert_index_raw_to_render(50), 9);
    assert_eq!(row.convert_index_raw_to_render(0), 0);
}

#[test]
fn row_insert_in_range() {
    let mut row = Row::new("abc");
    assert_eq!(row.insert(1, 'x'), Ok(()));
    assert_eq!(row.raw, "axbc");
    assert_eq!(row.render, "axbc");
    assert_eq!(row.insert(4, 'y'), Ok(()));
    assert_eq!(row.raw, "axbcy");
}

#[test]
fn row_insert_tab_updates_render() {
    let mut row = Row::new("ab");
    assert_eq!(row.insert(1, '\t'), Ok(()));
    assert_eq!(row.render, "a       b");
}

#[test]
fn row_insert_out_of_range_is_index_error() {
    let mut row = Row::new("abc");
    assert_eq!(row.insert(4, 'x'), Err(EditError::IndexError(4)));
    assert_eq!(row.raw, "abc");
}

#[test]
fn row_delete_in_range() {
    let mut row = Row::new("a\tc");
    assert_eq!(row.delete(1), Ok(()));
    assert_eq!(row.raw, "ac");
    assert_eq!(row.render, "ac");
}

#[test]
fn row_delete_at_length_is_index_error() {
    let mut row = Row::new("abc");
    assert_eq!(row.delete(3), Err(EditError::IndexError(3)));
    assert_eq!(row.delete(7), Err(EditError::IndexError(7)));
    assert_eq!(row.raw, "abc");
    let mut empty = Row::new("");
    assert_eq!(empty.delete(0), Err(EditError::IndexError(0)));
}

#[test]
fn row_insert_then_delete_restores() {
    for c in 0..=4 {
        let mut row = Row::new("ab\tc");
        row.insert(c, 'z').unwrap();
        row.delete(c).unwrap();
        assert_eq!(row.raw, "ab\tc");
        assert_eq!(row.render, Row::new("ab\tc").render);
    }
}

#[test]
fn row_split_in_range() {
    let row = Row::new("hello");
    let (a, b) = row.split(2).unwrap();
    assert_eq!(a.raw, "he");
    assert_eq!(b.raw, "llo");
    let (a, b) = row.split(0).unwrap();
    assert_eq!(a.raw, "");
    assert_eq!(b.raw, "hello");
    let (a, b) = row.split(5).unwrap();
    assert_eq!(a.raw, "hello");
    assert_eq!(b.raw, "");
}

#[test]
fn row_split_renders_halves() {
    let row = Row::new("x\ty\tz");
    let (a, b) = row.split(2).unwrap();
    assert_eq!(a.render, "x       ");
    assert_eq!(b.render, "y       z");
}

#[test]
fn row_split_out_of_range_is_index_error() {
    let row = Row::new("hello");
    assert!(matches!(row.split(6), Err(EditError::IndexError(6))));
}

#[test]
fn row_edits_count_characters_not_bytes() {
    let mut row = Row::new("héllo");
    assert_eq!(row.insert(2, 'x'), Ok(()));
    assert_eq!(row.raw, "héxllo");
    assert_eq!(row.delete(1), Ok(()));
    assert_eq!(row.raw, "hxllo");
    let row = Row::new("日本語");
    let (a, b) = row.split(1).unwrap();
    assert_eq!(a.raw, "日");
    assert_eq!(b.raw, "本語");
}

#[test]
fn row_render_slice_clamps() {
    let row = Row::new("a\tb");
    assert_eq!(row.render_slice(0, 3), "a  ");
    assert_eq!(row.render_slice(7, 10), " b");
    assert_eq!(row.render_slice(9, 4), "");
    assert_eq!(row.render_slice(20, 4), "");
    assert_eq!(row.render_slice(2, 0), "");
}
