use minimal_table::TableRenderer;

fn row(cells: &[&str]) -> Vec<String> {
    cells.iter().map(|c| c.to_string()).collect()
}

#[test]
fn test_table_rendering() {
    let data = vec![
        vec!["Header 1".to_string(), "Header 2".to_string()],
        vec!["Row1".to_string(), "Row1Col2".to_string()],
    ];
    let rendered_table = TableRenderer::render(&data);
    let expected_table = "\
┌──────────┬──────────┐\n\
│ Header 1 │ Header 2 │\n\
├──────────┼──────────┤\n\
│ Row1     │ Row1Col2 │\n\
└──────────┴──────────┘\n";

    assert_eq!(rendered_table, expected_table);
}

#[test]
fn empty_input_renders_empty_string() {
    let data: Vec<Vec<String>> = vec![];
    assert_eq!(TableRenderer::render(&data), "");
}

#[test]
fn header_only_table_has_top_border_and_bottom_border() {
    let data = vec![row(&["A", "B"])];
    let expected = "\
┌───┬───┐\n\
│ A │ B │\n\
└───┴───┘\n";
    assert_eq!(TableRenderer::render(&data), expected);
}

#[test]
fn body_cell_longer_than_header_drives_column_width() {
    let data = vec![row(&["A", "B"]), row(&["CCC", "D"])];
    let expected = "\
┌─────┬───┐\n\
│ A   │ B │\n\
├─────┼───┤\n\
│ CCC │ D │\n\
└─────┴───┘\n";
    assert_eq!(TableRenderer::render(&data), expected);
}

#[test]
fn ragged_row_renders_missing_cells_as_blanks() {
    let data = vec![row(&["A", "BB"]), row(&["x"])];
    let expected = "\
┌───┬────┐\n\
│ A │ BB │\n\
├───┼────┤\n\
│ x │    │\n\
└───┴────┘\n";
    assert_eq!(TableRenderer::render(&data), expected);
}

#[test]
fn cells_beyond_header_columns_are_ignored() {
    let with_extra = vec![row(&["A"]), row(&["b", "zzz"])];
    let without_extra = vec![row(&["A"]), row(&["b"])];
    let expected = "\
┌───┐\n\
│ A │\n\
├───┤\n\
│ b │\n\
└───┘\n";
    assert_eq!(TableRenderer::render(&with_extra), expected);
    assert_eq!(
        TableRenderer::render(&with_extra),
        TableRenderer::render(&without_extra)
    );
}

#[test]
fn unicode_cells_pad_by_code_point_count() {
    // "e" followed by a combining acute accent: two code points, one glyph.
    // The renderer counts code points, so the cell counts as two wide and
    // the column as four; the rendered line is one glyph narrower than the
    // border. This is the documented limitation, asserted as such.
    let accented = "e\u{301}".to_string();
    let data = vec![row(&["A"]), vec![accented]];
    let expected = "\
┌────┐\n\
│ A  │\n\
├────┤\n\
│ e\u{301} │\n\
└────┘\n";
    assert_eq!(TableRenderer::render(&data), expected);
}

#[test]
fn rendering_twice_is_byte_identical() {
    let data = vec![
        row(&["Header 1", "Header 2"]),
        row(&["Row1", "Row1Col2"]),
    ];
    let first = TableRenderer::render(&data);
    let second = TableRenderer::render(&data);
    assert_eq!(first, second);
}

#[test]
fn each_body_row_gets_its_own_separator_in_order() {
    let data = vec![row(&["H"]), row(&["a"]), row(&["b"]), row(&["c"])];
    let expected = "\
┌───┐\n\
│ H │\n\
├───┤\n\
│ a │\n\
├───┤\n\
│ b │\n\
├───┤\n\
│ c │\n\
└───┘\n";
    assert_eq!(TableRenderer::render(&data), expected);
}
