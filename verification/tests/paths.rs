use mdx::common::docx_image::{is_pdf, scaled_size, split_pdf_page, PageError, EMU_PER_PIXEL};
use mdx::convert::suggested_output;
use mdx::input::InputKind;
use mdx::paths::{generated_path, output_dir};
use mdx::OutputFormat;

#[test]
fn output_dir_defaults_to_current_dir_for_bare_file_name() {
    assert_eq!(output_dir("report.tex"), ".");
    assert_eq!(output_dir("./report.tex"), ".");
    assert_eq!(output_dir("out/report.tex"), "out");
}

#[test]
fn suggested_output_stays_next_to_input_file() {
    let input = "reports/source.md";
    assert_eq!(
        suggested_output(input, InputKind::File, None, OutputFormat::Docx),
        "reports/source.docx"
    );
    // TeX output with its side files goes into reports/source/
    assert_eq!(
        suggested_output(input, InputKind::File, None, OutputFormat::Tex),
        "reports/source/source.tex"
    );
}

#[test]
fn parses_pdf_page_fragment() {
    assert_eq!(
        split_pdf_page("figures/a.pdf").unwrap(),
        ("figures/a.pdf".to_string(), None)
    );
    assert_eq!(
        split_pdf_page("figures/a.pdf#page=3").unwrap(),
        ("figures/a.pdf".to_string(), Some(3))
    );
    assert!(split_pdf_page("a.pdf#page=0").is_err());
    assert!(split_pdf_page("a.pdf#page=x").is_err());
}

#[test]
fn recognizes_pdf_extension_case_insensitively() {
    assert!(is_pdf("figure.PDF"));
    assert!(!is_pdf("figure.png"));
}

#[test]
fn page_errors_name_the_page_and_url() {
    assert_eq!(
        split_pdf_page("a.pdf#page=x").unwrap_err(),
        PageError::Invalid { page: "x".to_string(), url: "a.pdf#page=x".to_string() }
    );
    assert_eq!(split_pdf_page("a.pdf#page=0").unwrap_err(), PageError::Zero { url: "a.pdf#page=0".to_string() });
    assert_eq!(split_pdf_page("a#page=1.pdf#page=+2").unwrap(), ("a#page=1.pdf".to_string(), Some(2)));
}

#[test]
fn wide_images_are_scaled_to_the_page() {
    assert_eq!(
        scaled_size(100 * EMU_PER_PIXEL, 20 * EMU_PER_PIXEL, 10 * EMU_PER_PIXEL),
        (10 * EMU_PER_PIXEL, 2 * EMU_PER_PIXEL)
    );
    assert_eq!(scaled_size(50, 40, 100), (50, 40));
    assert_eq!(scaled_size(1000, 1, 10), (10, 1));
}

#[test]
fn side_files_take_the_stem() {
    assert_eq!(generated_path("out", "report", "aux"), "out/report.aux");
    assert_eq!(generated_path("out", "report", "synctex.gz"), "out/report.synctex.gz");
}
