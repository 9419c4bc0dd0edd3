use mdx::common::table_layout::{analyze_table, calc_display_width, to_docx_grid, ColumnAlignment, ColumnLayout, ColumnWidth};

#[test]
fn display_width_counts_cjk_as_research_tex_did() {
    assert_eq!(calc_display_width("hello") as f64 / 10.0, 5.0);
    assert_eq!(calc_display_width("你好") as f64 / 10.0, 3.6);
    assert_eq!(calc_display_width("hello你好") as f64 / 10.0, 8.6);
}

#[test]
fn narrow_numeric_column_is_fixed_at_two_em() {
    let rows = vec![
        vec!["序号".into(), "说明".into()],
        vec!["1".into(), "第一条说明文字，较长。".into()],
        vec!["12".into(), "第二条说明文字，同样较长。".into()],
    ];
    let layout = analyze_table(&rows);
    assert_eq!(layout[0].width, ColumnWidth::FixedEm(2));
    assert!(matches!(layout[1].width, ColumnWidth::Relative(_)));
}

#[test]
fn punctuated_column_is_left_aligned() {
    let rows = vec![
        vec!["序号".into(), "说明".into()],
        vec!["1".into(), "第一条说明文字，较长。".into()],
    ];
    let layout = analyze_table(&rows);
    assert_eq!(layout[0].alignment, ColumnAlignment::Center);
    assert_eq!(layout[1].alignment, ColumnAlignment::Left);
    assert!(layout[1].has_punctuation);
    assert!(layout[0].is_numeric);
}

#[test]
fn relative_widths_follow_weights() {
    // weights are 1.2 x the average width: 2.4 and 7.2; 2 * 2.4 / 9.6 = 0.5 -> 0.8; 2 * 7.2 / 9.6 = 1.5
    let rows = vec![
        vec!["a".into(), "b".into()],
        vec!["xy".into(), "abcdef".into()],
    ];
    let layout = analyze_table(&rows);
    assert_eq!(layout[0].width, ColumnWidth::Relative(8));
    assert_eq!(layout[1].width, ColumnWidth::Relative(15));
}

#[test]
fn docx_grid_reserves_fixed_columns_and_fills_available_width() {
    let rows = vec![
        vec!["序号".into(), "名称".into(), "详细说明".into()],
        vec![
            "1".into(),
            "短项".into(),
            "这是一段很长的说明文字，用于拉宽最后一列。".into(),
        ],
        vec!["2".into(), "另一项".into(), "另一段较长的说明文字。".into()],
    ];
    let layout = analyze_table(&rows);
    let grid = to_docx_grid(&layout, 8_844, 280);

    assert_eq!(grid[0], 560);
    assert_eq!(grid.iter().sum::<usize>(), 8_844);
    assert!(grid[2] > grid[1]);
}

#[test]
fn docx_grid_without_relative_columns_keeps_fixed_widths() {
    let column = ColumnLayout {
        alignment: ColumnAlignment::Center,
        width: ColumnWidth::FixedEm(2),
        total_width: 0,
        max_width: 0,
        count: 0,
        is_numeric: true,
        has_punctuation: false,
    };
    assert_eq!(to_docx_grid(&[column, column], 1000, 300), vec![600, 600]);
    let relative = ColumnLayout { width: ColumnWidth::Relative(10), ..column };
    assert_eq!(to_docx_grid(&[relative, relative, relative], 1000, 300), vec![333, 333, 334]);
    assert!(to_docx_grid(&[], 1000, 300).is_empty());
}

#[test]
fn wide_table_with_uneven_columns_gets_real_ratios() {
    // 40 columns, 20 body rows; column j > 0 has "ab" in its first j % 20 + 1 rows.
    // Weights: 12.0 for the first column, 2.4 for each other one; sum 105.6.
    // 40 * 12.0 / 105.6 = 4.55 -> 4.0; 40 * 2.4 / 105.6 = 0.909 -> 0.9.
    let mut rows: Vec<Vec<String>> = vec![vec!["h".to_string(); 40]];
    for r in 0..20 {
        let mut row = vec!["abcdefghij".to_string()];
        for j in 1..40 {
            row.push(if r < j % 20 + 1 { "ab".to_string() } else { String::new() });
        }
        rows.push(row);
    }
    let layout = analyze_table(&rows);
    assert_eq!(layout[0].width, ColumnWidth::Relative(40));
    for column in &layout[1..] {
        assert_eq!(column.width, ColumnWidth::Relative(9));
    }
}
