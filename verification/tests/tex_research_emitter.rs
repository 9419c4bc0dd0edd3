use mdx::common::ast::{Block, Inline, MarkerKind};
use mdx::tex_research_emitter::{escape_latex, render_inlines, TexResearchEmitter};

/// Main text and all parts joined in order.
fn test_body(e: TexResearchEmitter) -> String {
    let (main, parts) = e.finish();
    let mut s = main;
    for (_, content) in parts {
        s.push_str(&content);
    }
    s
}

#[test]
fn test_chapter_heading() {
    let mut e = TexResearchEmitter::new();
    e.emit_block(&Block::Heading {
        level: 1,
        text: "引言".into(),
    });
    let body = test_body(e);
    assert!(body.contains("\\chapter{引言}"));
}

#[test]
fn test_section_heading() {
    let mut e = TexResearchEmitter::new();
    e.emit_block(&Block::Heading {
        level: 3,
        text: "背景".into(),
    });
    let body = test_body(e);
    assert!(body.contains("\\section{背景}"));
}

#[test]
fn test_abstract_marker() {
    let mut e = TexResearchEmitter::new();
    e.emit_block(&Block::Marker(MarkerKind::Abstract));
    e.emit_block(&Block::Paragraph(vec![Inline::Text("这是摘要内容".into())]));
    e.finish_abstract();
    let body = test_body(e);
    assert!(body.contains("\\begin{abstract}"));
    assert!(body.contains("\\end{abstract}"));
}

#[test]
fn test_list_prefix() {
    let mut e = TexResearchEmitter::new();
    e.emit_block(&Block::List {
        ordered: false,
        level: 1,
        content: vec![Inline::Text("第一项".into())],
    });
    e.emit_block(&Block::List {
        ordered: false,
        level: 1,
        content: vec![Inline::Text("第二项".into())],
    });
    e.emit_block(&Block::List {
        ordered: false,
        level: 2,
        content: vec![Inline::Text("子项".into())],
    });
    let body = test_body(e);
    assert!(body.contains("1. "));
    assert!(body.contains("2. "));
    assert!(body.contains("(1) "));
}

#[test]
fn test_escape_latex() {
    assert_eq!(
        escape_latex("a&b%c$d#e_f{g}h~i^j"),
        "a\\&b\\%c\\$d\\#e\\_f\\{g\\}h\\textasciitilde{}i\\textasciicircum{}j"
    );
}

#[test]
fn test_appendix_marker() {
    let mut e = TexResearchEmitter::new();
    e.emit_block(&Block::Marker(MarkerKind::Appendix));
    e.emit_block(&Block::Heading {
        level: 1,
        text: "主要符号表".into(),
    });
    let body = test_body(e);
    assert!(body.contains("\\appendix"));
    assert!(body.contains("\\chapter{主要符号表}"));
}

#[test]
fn test_appendix_h1_shifts_inner_levels() {
    // 附录以 H1 开章：H1→chapter，后续 H2→section、H3→subsection
    let mut e = TexResearchEmitter::new();
    e.emit_block(&Block::Marker(MarkerKind::Appendix));
    e.emit_block(&Block::Heading {
        level: 1,
        text: "关键算法模型清单".into(),
    });
    e.emit_block(&Block::Heading {
        level: 2,
        text: "能力簇总览".into(),
    });
    e.emit_block(&Block::Heading {
        level: 3,
        text: "第1簇 态势发现".into(),
    });
    let body = test_body(e);
    assert!(body.contains("\\chapter{关键算法模型清单}"));
    assert!(body.contains("\\section{能力簇总览}"));
    assert!(body.contains("\\subsection{第1簇 态势发现}"));
    assert!(!body.contains("\\chapter{能力簇总览}"));
}

#[test]
fn test_changelog_marker() {
    let mut e = TexResearchEmitter::new();
    e.emit_block(&Block::Marker(MarkerKind::Changelog));
    e.emit_block(&Block::Heading {
        level: 1,
        text: "版本变更记录".into(),
    });
    e.emit_block(&Block::Paragraph(vec![Inline::Text(
        "v1.0 初始版本".into(),
    )]));
    let body = test_body(e);
    assert!(body.contains("\\chapter*{版本变更记录}"));
    assert!(body.contains("v1.0 初始版本"));
}

#[test]
fn test_body_marker_resets_counters() {
    let mut e = TexResearchEmitter::new();
    // 先有一些章节
    e.emit_block(&Block::Heading {
        level: 1,
        text: "第一章".into(),
    });
    // 遇到 Body 标记
    e.emit_block(&Block::Marker(MarkerKind::Body));
    // 继续标题应该重新开始计数
    e.emit_block(&Block::Heading {
        level: 1,
        text: "新的第一章".into(),
    });
    let body = test_body(e);
    // 应该包含两个章节
    assert!(body.contains("\\chapter{第一章}"));
    assert!(body.contains("\\chapter{新的第一章}"));
}

#[test]
fn test_abstract_with_multiple_paragraphs() {
    let mut e = TexResearchEmitter::new();
    e.emit_block(&Block::Marker(MarkerKind::Abstract));
    e.emit_block(&Block::Paragraph(vec![Inline::Text("第一段".into())]));
    e.emit_block(&Block::Paragraph(vec![Inline::Text("第二段".into())]));
    e.finish_abstract();
    let body = test_body(e);
    assert!(body.contains("\\begin{abstract}"));
    assert!(body.contains("第一段"));
    assert!(body.contains("第二段"));
    assert!(body.contains("\\end{abstract}"));
}

#[test]
fn test_table_in_normal_mode() {
    let mut e = TexResearchEmitter::new();
    e.emit_block(&Block::Table {
        rows: vec![
            vec!["列A".into(), "列B".into()],
            vec!["1".into(), "2".into()],
        ],
        caption: None,
    });
    let body = test_body(e);
    assert!(body.contains("\\begin{longtblr}"));
    assert!(body.contains("\\end{longtblr}"));
}

#[test]
fn test_table_cell_bold_italic() {
    let mut e = TexResearchEmitter::new();
    e.emit_block(&Block::Table {
        rows: vec![
            vec!["列A".into(), "列B".into()],
            vec!["**重点**".into(), "*斜体*".into()],
        ],
        caption: None,
    });
    let body = test_body(e);
    assert!(body.contains("\\textbf{重点}"));
    assert!(body.contains("\\textit{斜体}"));
    // 行内标记不应作为字面量出现
    assert!(!body.contains("**重点**"));
}

#[test]
fn test_table_caption() {
    let mut e = TexResearchEmitter::new();
    e.emit_block(&Block::Table {
        rows: vec![
            vec!["列A".into(), "列B".into()],
            vec!["1".into(), "2".into()],
        ],
        caption: Some("测试表格".into()),
    });
    let body = test_body(e);
    assert!(body.contains("\\begin{longtblr}[caption={测试表格}]"));
}

#[test]
fn test_subsection_heading() {
    let mut e = TexResearchEmitter::new();
    e.emit_block(&Block::Heading {
        level: 4,
        text: "子小节".into(),
    });
    let body = test_body(e);
    assert!(body.contains("\\subsection{子小节}"));
}

#[test]
fn test_subsubsection_heading() {
    let mut e = TexResearchEmitter::new();
    e.emit_block(&Block::Heading {
        level: 5,
        text: "四级标题".into(),
    });
    let body = test_body(e);
    assert!(body.contains("\\subsubsection{四级标题}"));
}

#[test]
fn test_h2_maps_to_chapter_like_pandoc_shift() {
    let mut e = TexResearchEmitter::new();
    e.emit_block(&Block::Heading {
        level: 2,
        text: "引言".into(),
    });
    let body = test_body(e);
    assert!(body.contains("\\chapter{引言}"));
}

#[test]
fn test_code_block() {
    let mut e = TexResearchEmitter::new();
    e.emit_block(&Block::CodeBlock {
        lang: Some("rust".into()),
        content: "fn main() {}".into(),
    });
    let body = test_body(e);
    assert!(body.contains("\\begin{lstlisting}[language=Rust]"));
    assert!(body.contains("fn main()"));
    assert!(body.contains("\\end{lstlisting}"));
}

#[test]
fn test_code_block_sanitizes_unknown_language() {
    let mut e = TexResearchEmitter::new();
    e.emit_block(&Block::CodeBlock {
        lang: Some("rust,caption={x}".into()),
        content: "fn main() {}".into(),
    });
    let body = test_body(e);
    assert!(body.contains("\\begin{lstlisting}\n"));
    assert!(!body.contains("caption"));
}

#[test]
fn test_link_escapes_latex() {
    let rendered = render_inlines(&[Inline::Link {
        text: "a_b".into(),
        url: "https://e.test/a#b%20".into(),
    }]);
    assert_eq!(rendered, "\\href{https://e.test/a\\#b\\%20}{a\\_b}");
}

#[test]
fn test_footnote_renders_latex_footnote() {
    let rendered = render_inlines(&[
        Inline::Text("正文".into()),
        Inline::Footnote("注释 100% 属实".into()),
    ]);
    assert_eq!(rendered, "正文\\footnote{注释 100\\% 属实}");
}

#[test]
fn test_standalone_image_emits_figure_with_textwidth() {
    let mut e = TexResearchEmitter::new();
    e.emit_block(&Block::Paragraph(vec![Inline::Image {
        alt: "总体框架".into(),
        url: "figs/framework.png".into(),
        label: Some("fig:framework".into()),
    }]));
    let body = test_body(e);
    assert!(body.contains("\\begin{figure}[htbp]"), "got {}", body);
    assert!(body.contains("\\centering"));
    assert!(
        body.contains("\\includegraphics[width=\\textwidth]{figs/framework.png}"),
        "got {}",
        body
    );
    assert!(body.contains("\\caption{总体框架}"));
    // \label 必须跟在 \caption 之后
    let cap = body.find("\\caption{总体框架}").expect("caption");
    let lab = body.find("\\label{fig:framework}").expect("label");
    assert!(cap < lab, "got {}", body);
    assert!(body.contains("\\end{figure}"));
}

#[test]
fn test_image_without_alt_omits_caption() {
    let mut e = TexResearchEmitter::new();
    e.emit_block(&Block::Paragraph(vec![Inline::Image {
        alt: String::new(),
        url: "a.png".into(),
        label: None,
    }]));
    let body = test_body(e);
    assert!(body.contains("\\includegraphics[width=\\textwidth]{a.png}"));
    assert!(!body.contains("\\caption"));
}

#[test]
fn test_inline_image_stays_inline() {
    let rendered = render_inlines(&[
        Inline::Text("见".into()),
        Inline::Image {
            alt: "图".into(),
            url: "a.png".into(),
            label: None,
        },
    ]);
    assert_eq!(rendered, "见\\includegraphics[width=\\textwidth]{a.png}");
}

#[test]
fn test_heading_label_emits_label_after_chapter() {
    let mut e = TexResearchEmitter::new();
    e.emit_block(&Block::Label("chap:overview".into()));
    e.emit_block(&Block::Heading {
        level: 2,
        text: "概述".into(),
    });
    let (main, parts) = e.finish();
    assert!(!main.contains("\\label"));
    assert!(
        parts[0].1.contains("\\chapter{概述}\\label{chap:overview}"),
        "got {}",
        parts[0].1
    );
}

#[test]
fn test_section_label_emits_label() {
    let mut e = TexResearchEmitter::new();
    e.emit_block(&Block::Label("sec:bg".into()));
    e.emit_block(&Block::Heading {
        level: 3,
        text: "背景".into(),
    });
    let body = test_body(e);
    assert!(
        body.contains("\\section{背景}\\label{sec:bg}"),
        "got {body}"
    );
}

#[test]
fn test_crossref_renders_ref() {
    let rendered = render_inlines(&[
        Inline::Text("见第".into()),
        Inline::CrossRef("chap:overview".into()),
        Inline::Text("章".into()),
    ]);
    assert_eq!(rendered, "见第\\ref{chap:overview}章");
}

#[test]
fn test_citation_renders_as_latex_cite() {
    let rendered = render_inlines(&[Inline::Citation(vec!["a".into(), "b".into()])]);
    assert_eq!(rendered, "\\cite{a,b}");
}

#[test]
fn test_table_label_passed_to_longtblr() {
    let mut e = TexResearchEmitter::new();
    e.emit_block(&Block::Label("tbl:products".into()));
    e.emit_block(&Block::Table {
        rows: vec![
            vec!["列A".into(), "列B".into()],
            vec!["1".into(), "2".into()],
        ],
        caption: Some("产品清单".into()),
    });
    let body = test_body(e);
    assert!(
        body.contains("caption={产品清单}, label={tbl:products}"),
        "got {body}"
    );
}

#[test]
fn test_appendix_emitted_after_normal_chapter() {
    let mut e = TexResearchEmitter::new();
    e.emit_block(&Block::Heading {
        level: 1,
        text: "正文".into(),
    });
    e.emit_block(&Block::Marker(MarkerKind::Appendix));
    e.emit_block(&Block::Heading {
        level: 1,
        text: "附录".into(),
    });
    let body = test_body(e);
    assert!(body.contains("\\appendix"));
    assert!(body.contains("\\chapter{附录}"));
}

#[test]
fn test_chapters_split_into_data_parts() {
    let mut e = TexResearchEmitter::new();
    e.emit_block(&Block::Paragraph(vec![Inline::Text("前言".into())]));
    e.emit_block(&Block::Heading {
        level: 2,
        text: "第一章".into(),
    });
    e.emit_block(&Block::Paragraph(vec![Inline::Text("第一章正文".into())]));
    e.emit_block(&Block::Heading {
        level: 2,
        text: "第二章".into(),
    });
    e.emit_block(&Block::Paragraph(vec![Inline::Text("第二章正文".into())]));
    let (main, parts) = e.finish();

    // 主文件：前言保留，两章按序 \input 引用
    assert!(main.contains("前言"), "got {main}");
    assert!(!main.contains("\\chapter"), "got {main}");
    let first = main.find("\\input{data/chapter01.tex}").expect("input 1");
    let second = main.find("\\input{data/chapter02.tex}").expect("input 2");
    assert!(first < second);

    // 部件：各章内容各自成文
    assert_eq!(parts.len(), 2);
    assert_eq!(parts[0].0, "data/chapter01.tex");
    assert!(parts[0].1.contains("\\chapter{第一章}"));
    assert!(parts[0].1.contains("第一章正文"));
    assert_eq!(parts[1].0, "data/chapter02.tex");
    assert!(parts[1].1.contains("\\chapter{第二章}"));
}

#[test]
fn test_appendix_split_into_appendix_parts() {
    let mut e = TexResearchEmitter::new();
    e.emit_block(&Block::Heading {
        level: 2,
        text: "正文".into(),
    });
    e.emit_block(&Block::Marker(MarkerKind::Appendix));
    e.emit_block(&Block::Heading {
        level: 1,
        text: "附录A 清单".into(),
    });
    e.emit_block(&Block::Paragraph(vec![Inline::Text("附录内容".into())]));
    let (main, parts) = e.finish();

    // \appendix 必须留在主文件且位于附录部件的 \input 之前
    let appendix_pos = main.find("\\appendix").expect("appendix");
    let input_pos = main
        .find("\\input{appendix/appendix01.tex}")
        .expect("appendix input");
    assert!(appendix_pos < input_pos, "got {main}");

    assert_eq!(parts.len(), 2);
    assert_eq!(parts[1].0, "appendix/appendix01.tex");
    assert!(parts[1].1.contains("\\chapter{附录A 清单}"));
    assert!(parts[1].1.contains("附录内容"));
}

#[test]
fn test_changelog_and_reference_stay_in_main() {
    let mut e = TexResearchEmitter::new();
    e.emit_block(&Block::Heading {
        level: 2,
        text: "正文".into(),
    });
    e.emit_block(&Block::Marker(MarkerKind::Changelog));
    e.emit_block(&Block::Heading {
        level: 1,
        text: "版本变更记录".into(),
    });
    e.emit_block(&Block::Marker(MarkerKind::Reference));
    e.emit_block(&Block::List {
        ordered: true,
        level: 1,
        content: vec![Inline::Text("文献一".into())],
    });
    let (main, parts) = e.finish();

    assert_eq!(parts.len(), 1, "只有正文一章: {parts:?}");
    assert!(main.contains("\\chapter*{版本变更记录}"));
    assert!(main.contains("参考文献"));
    assert!(main.contains("文献一"));
}



#[test]
fn bold_and_italic_children_are_rendered_recursively() {
    let rendered = render_inlines(&[Inline::Bold(vec![
        Inline::Text("a_b".into()),
        Inline::Italic(vec![Inline::Text("c".into())]),
    ])]);
    assert_eq!(rendered, "\\textbf{a\\_b\\textit{c}}");
}

#[test]
fn reference_list_uses_bracketed_numbers() {
    let mut e = TexResearchEmitter::new();
    e.emit_block(&Block::Marker(MarkerKind::Reference));
    for t in ["甲", "乙"] {
        e.emit_block(&Block::List { ordered: true, level: 1, content: vec![Inline::Text(t.into())] });
    }
    let (main, parts) = e.finish();
    assert!(parts.is_empty());
    assert_eq!(
        main,
        "\\chapter*{参考文献}\n\\addcontentsline{toc}{chapter}{参考文献}\n\n[1] 甲\\par\n\n[2] 乙\\par\n\n"
    );
}

#[test]
fn nested_list_prefixes_cycle_by_level() {
    let mut e = TexResearchEmitter::new();
    for level in 1..=6u8 {
        e.emit_block(&Block::List { ordered: false, level, content: vec![Inline::Text("x".into())] });
    }
    e.emit_block(&Block::List { ordered: false, level: 4, content: vec![Inline::Text("y".into())] });
    let body = test_body(e);
    assert_eq!(
        body,
        "1. x\\par\n\n(1) x\\par\n\na. x\\par\n\nI. x\\par\n\n(A) x\\par\n\n1) x\\par\n\nII. y\\par\n\n"
    );
}

#[test]
fn heading_levels_beyond_five_are_dropped() {
    let mut e = TexResearchEmitter::new();
    e.emit_block(&Block::Heading { level: 6, text: "六级".into() });
    assert_eq!(test_body(e), "");
}

#[test]
fn blank_paragraph_is_dropped() {
    let mut e = TexResearchEmitter::new();
    e.emit_block(&Block::Paragraph(vec![Inline::Text("  ".into())]));
    let (main, parts) = e.finish();
    assert_eq!(main, "");
    assert!(parts.is_empty());
}

#[test]
fn code_block_language_is_case_insensitive() {
    let mut e = TexResearchEmitter::new();
    e.emit_block(&Block::CodeBlock { lang: Some("PY".into()), content: "x = 1".into() });
    assert_eq!(test_body(e), "\\begin{lstlisting}[language=Python]\nx = 1\n\\end{lstlisting}\n\n");
}

#[test]
fn abstract_skips_its_first_heading() {
    let mut e = TexResearchEmitter::new();
    e.emit_block(&Block::Marker(MarkerKind::Abstract));
    e.emit_block(&Block::Heading { level: 1, text: "摘要".into() });
    e.emit_block(&Block::Heading { level: 2, text: "要点".into() });
    e.emit_block(&Block::Paragraph(vec![Inline::Text("内容".into())]));
    e.finish_abstract();
    assert_eq!(
        test_body(e),
        "\\begin{abstract}\n\\textbf{要点}\\par\n\n内容\\par\n\n\\end{abstract}\n\n"
    );
}

#[test]
fn emit_all_matches_block_by_block() {
    let blocks = vec![
        Block::Heading { level: 2, text: "甲".into() },
        Block::Paragraph(vec![Inline::Text("正文".into())]),
    ];
    let mut a = TexResearchEmitter::new();
    a.emit_all(&blocks);
    let mut b = TexResearchEmitter::default();
    for blk in &blocks {
        b.emit_block(blk);
    }
    let (ma, pa) = a.finish();
    let (mb, pb) = b.finish();
    assert_eq!(ma, mb);
    assert_eq!(pa, pb);
    assert_eq!(ma, "\\input{data/chapter01.tex}\n\n");
    assert_eq!(pa, vec![("data/chapter01.tex".to_string(), "\\chapter{甲}\\par\n\n正文\\par\n\n".to_string())]);
}

#[test]
fn parts_are_numbered_by_kind_and_open_with_a_chapter() {
    let mut e = TexResearchEmitter::new();
    e.emit_all(&[
        Block::Heading { level: 2, text: "一".into() },
        Block::Paragraph(vec![Inline::Text("正文".into())]),
        Block::Heading { level: 2, text: "二".into() },
        Block::Marker(MarkerKind::Appendix),
        Block::Heading { level: 1, text: "附".into() },
        Block::Marker(MarkerKind::Body),
        Block::Heading { level: 1, text: "三".into() },
    ]);
    let (main, parts) = e.finish();
    let paths: Vec<&str> = parts.iter().map(|(p, _)| p.as_str()).collect();
    assert_eq!(
        paths,
        vec!["data/chapter01.tex", "data/chapter02.tex", "appendix/appendix01.tex", "data/chapter03.tex"]
    );
    for (path, content) in &parts {
        assert!(content.starts_with("\\chapter{"), "{path}: {content}");
        assert!(main.contains(&format!("\\input{{{path}}}")));
    }
}
