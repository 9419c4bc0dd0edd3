use mdx::common::ast::Inline;
use mdx::common::inline::{flatten, parse};

#[test]
fn parses_inline_footnote_halfwidth() {
    let inlines = parse("正文[^1]:(这是注释)继续");
    assert_eq!(
        inlines,
        vec![
            Inline::Text("正文".into()),
            Inline::Footnote("这是注释".into()),
            Inline::Text("继续".into()),
        ]
    );
}

#[test]
fn parses_inline_footnote_fullwidth() {
    let inlines = parse("正文[^2]：（全角注释）");
    assert_eq!(
        inlines,
        vec![
            Inline::Text("正文".into()),
            Inline::Footnote("全角注释".into()),
        ]
    );
}

#[test]
fn footnote_coexists_with_bold_and_link() {
    let inlines = parse("**重点**[^a]:(注) [页](https://x)");
    assert_eq!(
        inlines,
        vec![
            Inline::Bold(vec![Inline::Text("重点".into())]),
            Inline::Footnote("注".into()),
            Inline::Text(" ".into()),
            Inline::Link {
                text: "页".into(),
                url: "https://x".into()
            },
        ]
    );
}

#[test]
fn bare_footnote_ref_without_definition_stays_text() {
    // 没有 `:(内容)` 的 `[^1]` 不识别为脚注，原样保留
    let inlines = parse("正文[^1]结束");
    assert_eq!(inlines, vec![Inline::Text("正文[^1]结束".into())]);
}

#[test]
fn parses_image_with_alt() {
    let inlines = parse("见下图：![系统架构](figs/arch.png)");
    assert_eq!(
        inlines,
        vec![
            Inline::Text("见下图：".into()),
            Inline::Image {
                alt: "系统架构".into(),
                url: "figs/arch.png".into(),
                label: None,
            },
        ]
    );
}

#[test]
fn parses_image_with_empty_alt() {
    let inlines = parse("![](a.png)");
    assert_eq!(
        inlines,
        vec![Inline::Image {
            alt: String::new(),
            url: "a.png".into(),
            label: None,
        }]
    );
}

#[test]
fn parses_image_label_attr() {
    let inlines = parse("![架构](figs/arch.png){#fig:arch}后续");
    assert_eq!(
        inlines,
        vec![
            Inline::Image {
                alt: "架构".into(),
                url: "figs/arch.png".into(),
                label: Some("fig:arch".into()),
            },
            Inline::Text("后续".into()),
        ]
    );
}

#[test]
fn parses_crossref() {
    let inlines = parse("见第{@chap:overview}章和图{@fig:arch}。");
    assert_eq!(
        inlines,
        vec![
            Inline::Text("见第".into()),
            Inline::CrossRef("chap:overview".into()),
            Inline::Text("章和图".into()),
            Inline::CrossRef("fig:arch".into()),
            Inline::Text("。".into()),
        ]
    );
}

#[test]
fn crossref_coexists_with_footnote_and_link() {
    let inlines = parse("正文[^1]:(注)见{@sec:a}和[页](https://x)");
    assert_eq!(
        inlines,
        vec![
            Inline::Text("正文".into()),
            Inline::Footnote("注".into()),
            Inline::Text("见".into()),
            Inline::CrossRef("sec:a".into()),
            Inline::Text("和".into()),
            Inline::Link {
                text: "页".into(),
                url: "https://x".into(),
            },
        ]
    );
}

#[test]
fn plain_link_still_parses_as_link() {
    let inlines = parse("[页](https://x)");
    assert_eq!(
        inlines,
        vec![Inline::Link {
            text: "页".into(),
            url: "https://x".into(),
        }]
    );
}

#[test]
fn parses_single_and_multiple_citations() {
    assert_eq!(parse("[@key]"), vec![Inline::Citation(vec!["key".into()])]);
    assert_eq!(
        parse("前文 [@a; @b] 后文"),
        vec![
            Inline::Text("前文 ".into()),
            Inline::Citation(vec!["a".into(), "b".into()]),
            Inline::Text(" 后文".into()),
        ]
    );
}

#[test]
fn citation_inside_bold_parses_as_citation() {
    // 粗体内部的 [@key] 应被识别为引用，而不是作为粗体文字原样保留。
    let inlines = parse("**bold and [@biddle_military_2006] inside**");
    assert_eq!(
        inlines,
        vec![Inline::Bold(vec![
            Inline::Text("bold and ".into()),
            Inline::Citation(vec!["biddle_military_2006".into()]),
            Inline::Text(" inside".into()),
        ])]
    );
}

#[test]
fn footnote_inside_italic_parses_as_footnote() {
    // 斜体与脚注在同一段时，脚注先于斜体匹配，所以需要斜体不在脚注左右两侧被切断。
    let inlines = parse("斜体中[^f]:(脚注)嵌套", ); // 单独测试脚注 + 斜体分段行为
    // 期望：脚注独立匹配，前后是普通文本
    assert_eq!(
        inlines,
        vec![
            Inline::Text("斜体中".into()),
            Inline::Footnote("脚注".into()),
            Inline::Text("嵌套".into()),
        ]
    );
}

#[test]
fn italic_wraps_text_with_internal_format() {
    // 斜体内部如果出现裸文本（无内嵌格式），整段被识别为 Italic
    let inlines = parse("*整段斜体*");
    assert_eq!(inlines, vec![Inline::Italic(vec![Inline::Text("整段斜体".into())])]);
}

#[test]
fn emphasis_wraps_link_crossref_and_citation() {
    // 强调里包住链接、交叉引用、引用都应保留强调外壳并正确解析内部。
    assert_eq!(
        parse("**加粗 [文档](https://x) 尾**"),
        vec![Inline::Bold(vec![
            Inline::Text("加粗 ".into()),
            Inline::Link {
                text: "文档".into(),
                url: "https://x".into(),
            },
            Inline::Text(" 尾".into()),
        ])]
    );
    assert_eq!(
        parse("*斜体 {@fig:arch} 尾*"),
        vec![Inline::Italic(vec![
            Inline::Text("斜体 ".into()),
            Inline::CrossRef("fig:arch".into()),
            Inline::Text(" 尾".into()),
        ])]
    );
    assert_eq!(
        parse("**结论 [@a; @b]**"),
        vec![Inline::Bold(vec![
            Inline::Text("结论 ".into()),
            Inline::Citation(vec!["a".into(), "b".into()]),
        ])]
    );
}

#[test]
fn link_text_with_emphasis_markers_stays_a_link() {
    // 链接文字里的 `**` 不拆强调：链接整体先匹配，文字原样保留。
    assert_eq!(
        parse("[**粗**](https://x)"),
        vec![Inline::Link {
            text: "**粗**".into(),
            url: "https://x".into(),
        }]
    );
}

#[test]
fn code_span_with_asterisks_is_not_emphasized() {
    // 行内代码优先级最高：内部的 `*` 不被当作强调。
    assert_eq!(parse("`a*b*c`"), vec![Inline::Code("a*b*c".into())]);
    assert_eq!(
        parse("前 `x**y**z` 后"),
        vec![
            Inline::Text("前 ".into()),
            Inline::Code("x**y**z".into()),
            Inline::Text(" 后".into()),
        ]
    );
}

#[test]
fn unsupported_citations_and_inline_code_stay_literal() {
    assert_eq!(parse("@key"), vec![Inline::Text("@key".into())]);
    assert_eq!(
        parse("[@key, p. 2]"),
        vec![Inline::Text("[@key, p. 2]".into())]
    );
    assert_eq!(parse("`[@key]`"), vec![Inline::Code("[@key]".into())]);
}

#[test]
fn flatten_reconstructs_citation_source() {
    assert_eq!(
        flatten(&[Inline::Citation(vec!["a".into(), "b".into()])]),
        "[@a; @b]"
    );
}


#[test]
fn plain_text_survives_parse_and_flatten() {
    for s in ["普通文字，没有标记。", "a-b, c. (d) #e ~f", "x"] {
        assert_eq!(flatten(&parse(s)), s);
        assert_eq!(parse(s), vec![Inline::Text(s.to_string())]);
    }
    assert_eq!(
        flatten(&parse("见[@a; @b]。")),
        "见[@a; @b]。"
    );
}
