use mdx::common::heading::clean;

#[test]
fn strips_chinese_chapter() {
    assert_eq!(clean("第一章 引言"), "引言");
    assert_eq!(clean("第二节 背景"), "背景");
}

#[test]
fn strips_chinese_ordinal() {
    assert_eq!(clean("一、引言"), "引言");
    assert_eq!(clean("二. 方法"), "方法");
}

#[test]
fn strips_parenthesized_chinese() {
    assert_eq!(clean("（一）目标"), "目标");
    assert_eq!(clean("(二) 范围"), "范围");
}

#[test]
fn strips_multilevel_arabic() {
    assert_eq!(clean("1.1 简介"), "简介");
    assert_eq!(clean("1.2.3 细节"), "细节");
    assert_eq!(clean("1.1.1.1 子项"), "子项");
}

#[test]
fn strips_single_arabic_without_eating_title() {
    assert_eq!(clean("3 第三章标题"), "第三章标题");
    assert_eq!(clean("12 战略目标"), "战略目标");
}

#[test]
fn passes_through_clean_titles() {
    assert_eq!(clean("纯标题"), "纯标题");
}

#[test]
fn strips_appendix_numbering() {
    assert_eq!(clean("附录E 集成任务清单"), "集成任务清单");
    assert_eq!(clean("附录A：术语表"), "术语表");
    assert_eq!(clean("附录 1 补充材料"), "补充材料");
    assert_eq!(clean("Appendix E Task List"), "Task List");
}

