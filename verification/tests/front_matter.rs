use mdx::common::front_matter::{parse, Metadata};

#[test]
fn parses_single_bibliography_and_removes_front_matter() {
    let md = "---\nbibliography: refs/library.bib\n密级: 内部\n---\n# 标题\n";
    let (meta, body) = parse(md);
    assert_eq!(meta.bibliography.as_deref(), Some("refs/library.bib"));
    assert_eq!(meta.security.as_deref(), Some("内部"));
    assert_eq!(body, "# 标题");
}

#[test]
fn parses_front_matter_after_utf8_bom() {
    let md = "\u{feff}---\nbibliography: refs.bib\n---\n正文 [@a]\n";
    let (meta, body) = parse(md);
    assert_eq!(meta.bibliography.as_deref(), Some("refs.bib"));
    assert_eq!(body, "正文 [@a]");
}

#[test]
fn unclosed_front_matter_is_left_untouched() {
    let md = "---\nbibliography: refs.bib\n正文\n";
    let (meta, body) = parse(md);
    assert_eq!(meta, Metadata::default());
    assert_eq!(body, md);
}


#[test]
fn parses_front_matter_cover_fields() {
    let md = "---\n密级: 内部\n文件类型：技术报告\n文件编号: XX-2026-001\n版本: V2.1\n撰写单位: 某研究所\n撰写时间: 2026-07\n---\n\n# 标题\n\n正文\n";
    let (cover, body) = parse(md);
    assert_eq!(cover.security.as_deref(), Some("内部"));
    assert_eq!(cover.doc_type.as_deref(), Some("技术报告"));
    assert_eq!(cover.doc_number.as_deref(), Some("XX-2026-001"));
    assert_eq!(cover.version.as_deref(), Some("V2.1"));
    assert_eq!(cover.institution.as_deref(), Some("某研究所"));
    assert_eq!(cover.date.as_deref(), Some("2026-07"));
    assert!(body.starts_with("# 标题") || body.starts_with("\n# 标题"));
    assert!(!body.contains("密级"));
}

#[test]
fn unclosed_front_matter_left_untouched() {
    let md = "---\n密级: 内部\n\n正文\n";
    let (cover, body) = parse(md);
    assert!(cover.security.is_none());
    assert_eq!(body, md);
}

#[test]
fn later_keys_override_and_empty_values_are_ignored() {
    let md = "---\ntitle: 甲\n标题: 乙\ndate:\nunknown: x\n---\n正文";
    let (meta, body) = parse(md);
    assert_eq!(meta.title.as_deref(), Some("乙"));
    assert_eq!(meta.date, None);
    assert_eq!(meta.security_years, None);
    assert_eq!(body, "正文");
}

#[test]
fn document_without_front_matter_is_unchanged() {
    let md = "# 标题\n---\n";
    let (meta, body) = parse(md);
    assert_eq!(meta, Metadata::default());
    assert_eq!(body, md);
}
