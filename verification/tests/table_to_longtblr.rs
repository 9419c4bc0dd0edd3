use mdx::common::ast::Block;
use mdx::common::table_to_longtblr::{emit_longtblr, table_block_to_longtblr};

#[test]
fn narrow_numeric_column_uses_fixed_width() {
    // 序号列：表头以外全是 2 位以内纯数字 → 固定 2em；其余列仍走 X 比例
    let rows = vec![
        vec!["序号".to_string(), "说明".to_string()],
        vec!["1".to_string(), "第一条说明文字，较长。".to_string()],
        vec!["12".to_string(), "第二条说明文字，同样较长。".to_string()],
    ];
    let result = emit_longtblr(&rows, None, None);
    assert!(result.contains("Q[c,wd=2em]"), "{result}");
    assert!(result.contains(" X["), "第二列应仍为 X 列: {result}");
}

#[test]
fn three_digit_column_keeps_ratio_width() {
    // 出现 3 位数字即不算窄数字列，仍按原比例算法分配
    let rows = vec![
        vec!["数量".to_string(), "说明".to_string()],
        vec!["1".to_string(), "文字".to_string()],
        vec!["123".to_string(), "文字".to_string()],
    ];
    let result = emit_longtblr(&rows, None, None);
    assert!(!result.contains("wd=2em"), "{result}");
}

#[test]
fn non_digit_content_is_not_narrow_numeric() {
    // 带单位/小数点的数字不算纯数字，不走固定列宽
    let rows = vec![
        vec!["比例".to_string(), "说明".to_string()],
        vec!["5%".to_string(), "文字".to_string()],
        vec!["1.5".to_string(), "文字".to_string()],
    ];
    let result = emit_longtblr(&rows, None, None);
    assert!(!result.contains("wd=2em"), "{result}");
}

#[test]
fn narrow_numeric_ignores_header_and_empty_cells() {
    // 表头再宽也不影响判定；空单元格跳过
    let rows = vec![
        vec!["很长的表头文字说明".to_string(), "说明".to_string()],
        vec!["1".to_string(), "文字".to_string()],
        vec!["".to_string(), "文字".to_string()],
        vec!["99".to_string(), "文字".to_string()],
    ];
    let result = emit_longtblr(&rows, None, None);
    assert!(result.contains("Q[c,wd=2em]"), "{result}");
}

#[test]
fn test_longtblr_output() {
    let rows = vec![
        vec!["列A".to_string(), "列B".to_string(), "列C".to_string()],
        vec!["1".to_string(), "2".to_string(), "文本内容".to_string()],
        vec!["3".to_string(), "4".to_string(), "更多文本".to_string()],
    ];
    let result = emit_longtblr(&rows, Some("测试表格"), None);
    assert!(result.contains("\\begin{longtblr}"));
    assert!(result.contains("\\end{longtblr}"));
    assert!(result.contains("caption={测试表格}"));
    assert!(!result.contains("label="));
}

#[test]
fn test_longtblr_with_label() {
    let rows = vec![vec!["列A".to_string()], vec!["1".to_string()]];
    let result = emit_longtblr(&rows, Some("测试表格"), Some("tbl:products"));
    assert!(
        result.contains("caption={测试表格}, label={tbl:products}"),
        "{result}"
    );
}

#[test]
fn table_cell_renders_citation() {
    let tex = emit_longtblr(&[vec!["文献".into()], vec!["[@a; @b]".into()]], None, None);
    assert!(tex.contains("\\cite{a,b}"), "{tex}");
}


#[test]
fn empty_table_gives_nothing() {
    let rows: Vec<Vec<String>> = Vec::new();
    assert_eq!(emit_longtblr(&rows, Some("题"), None), "");
    let headless = vec![Vec::<String>::new(), vec!["1".to_string()]];
    assert_eq!(emit_longtblr(&headless, None, None), "");
}

#[test]
fn full_output_of_small_table() {
    let rows = vec![vec!["A".to_string(), "说明".to_string()], vec!["1".to_string(), "x_y".to_string()]];
    let tex = emit_longtblr(&rows, None, Some("t"));
    let expected = "% 智能表格分析结果:\n\
%% 列1: 平均宽度=1.0, 最大宽度=1.0, 数字列=是, 有标点=否 → 对齐=居中, 窄数字列 → 固定列宽=2em\n\
%% 列2: 平均宽度=3.0, 最大宽度=3.0, 数字列=否, 有标点=否 → 对齐=居中\n\
\n\\begin{longtblr}[label={t}]{\n  colspec = {Q[c,wd=2em] X[1.3,c]},\n  rowhead = 1,\n  hlines,\n  vlines,\n  row{1} = {c, font=\\heiti},\n}\n\
\\heiti A & \\heiti 说明 \\\\\n\
1 & x\\_y \\\\\n\
\\end{longtblr}";
    assert_eq!(tex, expected);
}

#[test]
fn table_block_caption_falls_back_to_block_caption() {
    let block = Block::Table {
        rows: vec![vec!["列A".to_string()], vec!["1".to_string()]],
        caption: Some("自带表题".to_string()),
    };
    assert!(table_block_to_longtblr(&block, None).contains("caption={自带表题}"));
    assert!(table_block_to_longtblr(&block, Some("新表题")).contains("caption={新表题}"));
    assert_eq!(table_block_to_longtblr(&Block::Empty, None), "");
}

#[test]
fn cell_escapes_backslash_as_textbackslash() {
    let rows = vec![vec!["A".to_string()], vec!["a\\b".to_string()]];
    let tex = emit_longtblr(&rows, None, None);
    assert!(tex.contains("a\\textbackslash{}b \\\\"), "{tex}");
}
