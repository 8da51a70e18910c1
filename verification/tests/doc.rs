use speed_reader::doc::{
    blocks_from_plain_text, format_for_extension, parse_docx, parse_docx_xml, parse_heading_style,
    parse_markdown, sections_from_blocks, Block, DocFormat, Document, SectionStart,
};
use speed_reader::docx::{local_name, DocxError};

#[test]
fn document_from_blocks_collects_heading_sections() {
    let doc = Document::from_blocks(vec![
        Block::Heading(1, "One".into()),
        Block::Text("alpha".into()),
        Block::Heading(2, "Two".into()),
    ]);
    assert_eq!(
        doc.sections,
        vec![
            SectionStart {
                title: "One".into(),
                level: 1,
                block_index: 0,
            },
            SectionStart {
                title: "Two".into(),
                level: 2,
                block_index: 2,
            },
        ]
    );
}

#[test]
fn sections_skip_non_heading_blocks() {
    let blocks = vec![Block::Text("a".into()), Block::Code("b".into()), Block::Image("c".into())];
    assert!(sections_from_blocks(&blocks).is_empty());
}

#[test]
fn plain_paragraph_becomes_text_block() {
    let blocks = parse_markdown("hello world");
    assert_eq!(blocks, vec![Block::Text("hello world".into())]);
}

#[test]
fn heading_captures_level_and_text() {
    let blocks = parse_markdown("## Section title");
    assert_eq!(blocks, vec![Block::Heading(2, "Section title".into())]);
}

#[test]
fn fenced_code_block_captured_as_code() {
    let md = "```\nlet x = 1;\nlet y = 2;\n```";
    let blocks = parse_markdown(md);
    assert_eq!(blocks, vec![Block::Code("let x = 1;\nlet y = 2;".into())]);
}

#[test]
fn image_becomes_image_block_with_url() {
    let blocks = parse_markdown("![alt](https://example.com/a.png)");
    assert_eq!(
        blocks,
        vec![Block::Image("https://example.com/a.png".into())]
    );
}

#[test]
fn mixed_document_preserves_block_order() {
    let md = "# Title\n\nfirst para\n\n```\ncode\n```\n\n![](img.png)\n\nlast para";
    let blocks = parse_markdown(md);
    assert_eq!(
        blocks,
        vec![
            Block::Heading(1, "Title".into()),
            Block::Text("first para".into()),
            Block::Code("code".into()),
            Block::Image("img.png".into()),
            Block::Text("last para".into()),
        ]
    );
}

#[test]
fn image_alt_text_does_not_leak_into_text_block() {
    let blocks = parse_markdown("![do not include me](x.png)");
    assert_eq!(blocks, vec![Block::Image("x.png".into())]);
}

#[test]
fn soft_break_joins_lines_with_space() {
    let blocks = parse_markdown("line one\nline two");
    assert_eq!(blocks, vec![Block::Text("line one line two".into())]);
}

#[test]
fn empty_input_produces_no_blocks() {
    assert!(parse_markdown("").is_empty());
    assert!(parse_markdown("   \n\n  ").is_empty());
}

#[test]
fn markdown_text_is_sanitized_of_zero_width_chars() {
    let blocks = parse_markdown("he\u{200B}llo wor\u{00AD}ld");
    assert_eq!(blocks, vec![Block::Text("hello world".into())]);
}

#[test]
fn markdown_list_items_become_separate_paragraphs() {
    let blocks = parse_markdown("- one\n- two `code`");
    assert_eq!(
        blocks,
        vec![Block::Text("one".into()), Block::Text("two code".into())]
    );
}

#[test]
fn plain_text_splits_on_blank_lines() {
    let blocks = blocks_from_plain_text("first para\nline two\n\nsecond para\n\n\nthird");
    assert_eq!(
        blocks,
        vec![
            Block::Text("first para line two".into()),
            Block::Text("second para".into()),
            Block::Text("third".into()),
        ]
    );
}

#[test]
fn plain_text_strips_zero_width_and_collapses_space() {
    let blocks = blocks_from_plain_text("hel\u{200B}lo    world");
    assert_eq!(blocks, vec![Block::Text("hello world".into())]);
}

#[test]
fn plain_text_of_only_blank_lines_has_no_blocks() {
    assert!(blocks_from_plain_text("\n\n \n\n").is_empty());
}

#[test]
fn heading_style_parsing_accepts_common_forms() {
    assert_eq!(parse_heading_style("Heading1"), Some(1));
    assert_eq!(parse_heading_style("heading 3"), Some(3));
    assert_eq!(parse_heading_style("Heading9"), Some(6)); // clamped
    assert_eq!(parse_heading_style("Title"), Some(1));
    assert_eq!(parse_heading_style("Subtitle"), Some(2));
    assert_eq!(parse_heading_style("Normal"), None);
}

#[test]
fn heading_style_parsing_edge_cases() {
    assert_eq!(parse_heading_style("Heading0"), Some(1)); // clamped up
    assert_eq!(parse_heading_style("Heading+2"), Some(2));
    assert_eq!(parse_heading_style("Heading"), None);
    assert_eq!(parse_heading_style("Heading256"), None);
    assert_eq!(parse_heading_style("Heading-1"), None);
}

#[test]
fn local_name_drops_namespace_prefix() {
    assert_eq!(local_name(b"w:pStyle"), b"pStyle".to_vec());
    assert_eq!(local_name(b"a:b:c"), b"c".to_vec());
    assert_eq!(local_name(b"p"), b"p".to_vec());
}

#[test]
fn docx_xml_extracts_paragraphs_and_heading() {
    let xml = r#"<?xml version="1.0"?>
<w:document xmlns:w="urn">
  <w:body>
    <w:p>
      <w:pPr><w:pStyle w:val="Heading1"/></w:pPr>
      <w:r><w:t>Big Title</w:t></w:r>
    </w:p>
    <w:p>
      <w:r><w:t xml:space="preserve">hello </w:t></w:r>
      <w:r><w:t>world</w:t></w:r>
    </w:p>
    <w:p>
      <w:pPr><w:pStyle w:val="Heading 2"/></w:pPr>
      <w:r><w:t>Sub</w:t></w:r>
    </w:p>
    <w:p><w:r><w:t>plain paragraph</w:t></w:r></w:p>
  </w:body>
</w:document>"#;
    let blocks = parse_docx_xml(xml);
    assert_eq!(
        blocks,
        vec![
            Block::Heading(1, "Big Title".into()),
            Block::Text("hello world".into()),
            Block::Heading(2, "Sub".into()),
            Block::Text("plain paragraph".into()),
        ]
    );
}

#[test]
fn docx_xml_skips_empty_paragraphs() {
    let xml = r#"<w:document xmlns:w="urn"><w:body>
            <w:p></w:p>
            <w:p><w:r><w:t>   </w:t></w:r></w:p>
            <w:p><w:r><w:t>content</w:t></w:r></w:p>
        </w:body></w:document>"#;
    assert_eq!(parse_docx_xml(xml), vec![Block::Text("content".into())]);
}

#[test]
fn docx_xml_tabs_and_breaks_become_spaces() {
    let xml = r#"<w:p><w:r><w:t>a</w:t><w:tab/><w:t>b</w:t><w:br/><w:t>c</w:t></w:r></w:p>"#;
    assert_eq!(parse_docx_xml(xml), vec![Block::Text("a b c".into())]);
}

#[test]
fn docx_rejects_bytes_that_are_not_a_zip() {
    assert_eq!(parse_docx(b"not a zip file"), Err(DocxError::NotAZip));
}

fn zip_with(name: &str, contents: &[u8]) -> Vec<u8> {
    let mut w = zip::ZipWriter::new(std::io::Cursor::new(Vec::new()));
    let opts = zip::write::SimpleFileOptions::default()
        .compression_method(zip::CompressionMethod::Stored);
    w.start_file(name, opts).unwrap();
    std::io::Write::write_all(&mut w, contents).unwrap();
    w.finish().unwrap().into_inner()
}

#[test]
fn docx_files_are_read_from_their_document_part() {
    let xml = r#"<w:document xmlns:w="x"><w:body>
        <w:p><w:pPr><w:pStyle w:val="Heading2"/></w:pPr><w:r><w:t>Part One</w:t></w:r></w:p>
        <w:p><w:r><w:t>Body text</w:t></w:r></w:p>
    </w:body></w:document>"#;
    let bytes = zip_with("word/document.xml", xml.as_bytes());
    assert_eq!(
        parse_docx(&bytes),
        Ok(vec![Block::Heading(2, "Part One".into()), Block::Text("Body text".into())])
    );
}

#[test]
fn docx_without_its_document_part_or_with_broken_text_is_rejected() {
    let other = zip_with("word/other.xml", b"<x/>");
    assert_eq!(parse_docx(&other), Err(DocxError::MissingDocument));
    let broken = zip_with("word/document.xml", &[0xFF, 0xFE, 0x00]);
    assert_eq!(parse_docx(&broken), Err(DocxError::Unreadable));
}

#[test]
fn file_formats_follow_the_extension_case_insensitively() {
    assert_eq!(format_for_extension("md"), DocFormat::Markdown);
    assert_eq!(format_for_extension("Markdown"), DocFormat::Markdown);
    assert_eq!(format_for_extension("MDX"), DocFormat::Markdown);
    assert_eq!(format_for_extension("docx"), DocFormat::Docx);
    assert_eq!(format_for_extension("PDF"), DocFormat::Pdf);
    assert_eq!(format_for_extension("txt"), DocFormat::PlainText);
    assert_eq!(format_for_extension(""), DocFormat::PlainText);
    assert_eq!(format_for_extension("doc"), DocFormat::PlainText);
}
