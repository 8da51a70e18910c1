use speed_reader::doc::{Block, SectionStart};
use speed_reader::outline::{
    parse_pdf, pdf_document, pdf_outline_sections, PdfError, PdfGraph, PdfValue,
};
use speed_reader::pdf::{
    blocks_from_pdf_pages, decode_pdf_string, decode_utf16_be, infer_pdf_section_title,
    infer_pdf_sections, looks_like_pdf_section_heading, page_to_block_index,
};

fn chars(s: &str) -> Vec<char> {
    s.chars().collect()
}

#[test]
fn decode_pdf_string_handles_utf16_with_bom() {
    assert_eq!(
        decode_pdf_string(&[0xFE, 0xFF, 0x00, b'T', 0x00, b'e', 0x00, b's', 0x00, b't']),
        "Test"
    );
}

#[test]
fn infer_pdf_section_title_prefers_heading_like_lines() {
    let page = "\n  2. B-Tree Basics\nsome body text\n";
    assert_eq!(
        infer_pdf_section_title(page).as_deref(),
        Some("2. B-Tree Basics")
    );
}

#[test]
fn decode_pdf_string_reads_utf16_without_bom_and_plain_bytes() {
    assert_eq!(decode_pdf_string(&[0x00, b'O', 0x00, b'K']), "OK");
    assert_eq!(decode_pdf_string(b"  Intro\0 "), "Intro");
    assert_eq!(decode_pdf_string(&[0xFF, b'a']), "\u{FFFD}a");
    assert_eq!(decode_utf16_be(&[0xD8, 0x3D, 0xDE, 0x00]), "😀");
    assert_eq!(decode_utf16_be(&[0xD8, 0x3D, 0x00, 0x41]), "\u{FFFD}A");
}

#[test]
fn utf16_lone_surrogates_become_replacement_characters() {
    assert_eq!(decode_utf16_be(&[0xDC, 0x00, 0x00, 0x42]), "\u{FFFD}B");
    assert_eq!(decode_utf16_be(&[0x00, 0x41, 0xD8, 0x3D]), "A\u{FFFD}");
    assert_eq!(decode_utf16_be(&[0x00, 0xE9, 0x20, 0xAC, 0x00]), "é€");
    assert_eq!(decode_utf16_be(&[0xDB, 0xFF, 0xDF, 0xFF]), "\u{10FFFF}");
}

#[test]
fn heading_like_lines() {
    assert!(looks_like_pdf_section_heading(&chars("Chapter 3 Results")));
    assert!(looks_like_pdf_section_heading(&chars("IV. Methods")));
    assert!(looks_like_pdf_section_heading(&chars("Part Two")));
    assert!(!looks_like_pdf_section_heading(&chars("ABSTRACT")));
    assert!(!looks_like_pdf_section_heading(&chars("3. lowercase start")));
    assert!(!looks_like_pdf_section_heading(&chars("this is a sentence of body text.")));
    assert!(!looks_like_pdf_section_heading(&chars("")));
}

#[test]
fn page_to_block_index_clamps_and_defaults() {
    let starts = [0usize, 3, 7];
    assert_eq!(page_to_block_index(1, &starts, 10), 0);
    assert_eq!(page_to_block_index(2, &starts, 10), 3);
    assert_eq!(page_to_block_index(3, &starts, 5), 4);
    assert_eq!(page_to_block_index(9, &starts, 10), 0);
    assert_eq!(page_to_block_index(0, &starts, 10), 0);
    assert_eq!(page_to_block_index(2, &starts, 0), 0);
}

#[test]
fn pages_become_blocks_with_their_starts() {
    let pages = vec!["one\n\ntwo".to_string(), "".to_string(), "three".to_string()];
    let (blocks, starts) = blocks_from_pdf_pages(&pages);
    assert_eq!(
        blocks,
        vec![
            Block::Text("one".into()),
            Block::Text("two".into()),
            Block::Text("three".into())
        ]
    );
    assert_eq!(starts, vec![0, 2, 2]);
}

#[test]
fn inferred_sections_come_from_page_tops() {
    let pages = vec![
        "1. Introduction\nbody text here".to_string(),
        "just a long sentence that is plainly not a heading at all, really.".to_string(),
        "2. Method\nmore".to_string(),
    ];
    let (blocks, starts) = blocks_from_pdf_pages(&pages);
    let sections = infer_pdf_sections(&pages, &starts, blocks.len());
    assert_eq!(sections.len(), 2);
    assert_eq!(sections[0].title, "1. Introduction");
    assert_eq!(sections[0].level, 1);
    assert_eq!(sections[0].block_index, starts[0]);
    assert_eq!(sections[1].title, "2. Method");
    assert_eq!(sections[1].block_index, starts[2]);
}

fn dict(entries: Vec<(&str, PdfValue)>) -> PdfValue {
    PdfValue::Dictionary(
        entries
            .into_iter()
            .map(|(k, v)| (k.as_bytes().to_vec(), v))
            .collect(),
    )
}

fn text(s: &str) -> PdfValue {
    PdfValue::Text(s.as_bytes().to_vec())
}

fn dest(page: (u32, u16)) -> PdfValue {
    PdfValue::Array(vec![PdfValue::Reference(page.0, page.1), PdfValue::Other])
}

/// Catalog 1, outline root 2, pages 10 and 11, items 20 (child 21) and 22.
fn sample_graph() -> PdfGraph {
    PdfGraph {
        root: Some((1, 0)),
        pages: vec![(1, (10, 0)), (2, (11, 0))],
        objects: vec![
            ((1, 0), dict(vec![("Outlines", PdfValue::Reference(2, 0))])),
            ((2, 0), dict(vec![("First", PdfValue::Reference(20, 0))])),
            (
                (20, 0),
                dict(vec![
                    ("Title", text("Intro")),
                    ("Dest", dest((10, 0))),
                    ("First", PdfValue::Reference(21, 0)),
                    ("Next", PdfValue::Reference(22, 0)),
                ]),
            ),
            (
                (21, 0),
                dict(vec![
                    ("Title", text("Background")),
                    ("A", dict(vec![("D", dest((11, 0)))])),
                ]),
            ),
            (
                (22, 0),
                dict(vec![("Title", text("Results")), ("Dest", PdfValue::Reference(30, 0))]),
            ),
            ((30, 0), dest((11, 0))),
        ],
    }
}

#[test]
fn outline_items_become_nested_sections() {
    let g = sample_graph();
    let sections = pdf_outline_sections(&g, &[0, 4], 9).unwrap();
    assert_eq!(
        sections,
        vec![
            SectionStart { title: "Intro".into(), level: 1, block_index: 0 },
            SectionStart { title: "Background".into(), level: 2, block_index: 4 },
            SectionStart { title: "Results".into(), level: 1, block_index: 4 },
        ]
    );
}

#[test]
fn outline_cycles_end_the_walk() {
    let mut g = sample_graph();
    // item 22 points back at item 20 as its next sibling
    g.objects[4] = (
        (22, 0),
        dict(vec![
            ("Title", text("Results")),
            ("Dest", dest((11, 0))),
            ("Next", PdfValue::Reference(20, 0)),
        ]),
    );
    let sections = pdf_outline_sections(&g, &[0, 4], 9).unwrap();
    assert_eq!(sections.len(), 3);
}

#[test]
fn outline_items_without_title_or_page_are_skipped() {
    let g = PdfGraph {
        root: Some((1, 0)),
        pages: vec![(1, (10, 0))],
        objects: vec![
            ((1, 0), dict(vec![("Outlines", PdfValue::Reference(2, 0))])),
            ((2, 0), dict(vec![("First", PdfValue::Reference(20, 0))])),
            (
                (20, 0),
                dict(vec![("Title", text("  ")), ("Dest", dest((10, 0))), ("Next", PdfValue::Reference(21, 0))]),
            ),
            ((21, 0), dict(vec![("Title", text("Lost")), ("Dest", dest((99, 0)))])),
        ],
    };
    assert_eq!(pdf_outline_sections(&g, &[0], 3), Some(vec![]));
}

#[test]
fn broken_outlines_are_errors_and_missing_ones_are_empty() {
    let no_outline = PdfGraph {
        root: Some((1, 0)),
        pages: vec![],
        objects: vec![((1, 0), dict(vec![]))],
    };
    assert_eq!(pdf_outline_sections(&no_outline, &[], 0), Some(vec![]));
    let no_root = PdfGraph { root: None, pages: vec![], objects: vec![] };
    assert_eq!(pdf_outline_sections(&no_root, &[], 0), None);
    let bad_item = PdfGraph {
        root: Some((1, 0)),
        pages: vec![],
        objects: vec![
            ((1, 0), dict(vec![("Outlines", PdfValue::Reference(2, 0))])),
            ((2, 0), dict(vec![("First", PdfValue::Reference(5, 0))])),
            ((5, 0), PdfValue::Other),
        ],
    };
    assert_eq!(pdf_outline_sections(&bad_item, &[], 0), None);
}

#[test]
fn reference_chains_are_followed() {
    let g = PdfGraph {
        root: Some((1, 0)),
        pages: vec![],
        objects: vec![
            ((1, 0), PdfValue::Reference(2, 0)),
            ((2, 0), dict(vec![])),
        ],
    };
    assert_eq!(pdf_outline_sections(&g, &[], 0), Some(vec![]));
    let looping = PdfGraph {
        root: Some((1, 0)),
        pages: vec![],
        objects: vec![((1, 0), PdfValue::Reference(1, 0))],
    };
    assert_eq!(pdf_outline_sections(&looping, &[], 0), None);
}

#[test]
fn pdf_document_uses_outline_or_inferred_sections() {
    let pages = vec!["1. Intro\nhello there".to_string(), "more words\n\nand more".to_string()];
    let doc = pdf_document(pages.clone(), Some(sample_graph())).unwrap();
    assert_eq!(doc.blocks.len(), 3);
    assert_eq!(doc.sections[0].title, "Intro");
    assert_eq!(doc.sections[2].block_index, 1);

    let empty = PdfGraph {
        root: Some((1, 0)),
        pages: vec![],
        objects: vec![((1, 0), dict(vec![]))],
    };
    let doc = pdf_document(pages.clone(), Some(empty)).unwrap();
    assert_eq!(doc.sections, vec![SectionStart { title: "1. Intro".into(), level: 1, block_index: 0 }]);

    assert_eq!(pdf_document(pages, None), Err(PdfError::Outline));
}

#[test]
fn unreadable_pdf_bytes_are_rejected() {
    assert_eq!(parse_pdf(b"definitely not a pdf", None), Err(PdfError::Pages));
}

/// A one-page PDF whose outline has one entry, "Opening", for that page.
fn tiny_pdf() -> Vec<u8> {
    let content = "BT /F1 24 Tf 72 700 Td (Hello PDF world) Tj ET";
    let objects = vec![
        "<< /Type /Catalog /Pages 2 0 R /Outlines 6 0 R >>".to_string(),
        "<< /Type /Pages /Kids [3 0 R] /Count 1 >>".to_string(),
        "<< /Type /Page /Parent 2 0 R /MediaBox [0 0 612 792] /Contents 4 0 R /Resources << /Font << /F1 5 0 R >> >> >>".to_string(),
        format!("<< /Length {} >>\nstream\n{}\nendstream", content.len(), content),
        "<< /Type /Font /Subtype /Type1 /BaseFont /Helvetica >>".to_string(),
        "<< /Type /Outlines /First 7 0 R /Last 7 0 R /Count 1 >>".to_string(),
        "<< /Title (Opening) /Parent 6 0 R /Dest [3 0 R /Fit] >>".to_string(),
    ];
    let mut out = String::from("%PDF-1.4\n");
    let mut offsets = Vec::new();
    for (i, body) in objects.iter().enumerate() {
        offsets.push(out.len());
        out.push_str(&format!("{} 0 obj\n{}\nendobj\n", i + 1, body));
    }
    let xref_at = out.len();
    out.push_str(&format!("xref\n0 {}\n0000000000 65535 f \n", objects.len() + 1));
    for off in &offsets {
        out.push_str(&format!("{:010} 00000 n \n", off));
    }
    out.push_str(&format!(
        "trailer\n<< /Size {} /Root 1 0 R >>\nstartxref\n{}\n%%EOF\n",
        objects.len() + 1,
        xref_at
    ));
    out.into_bytes()
}

#[test]
fn a_real_pdf_gives_its_text_and_outline() {
    let bytes = tiny_pdf();
    let pages = pdf_extract::extract_text_from_mem_by_pages(&bytes).ok();
    let doc = parse_pdf(&bytes, pages).unwrap();
    let text: Vec<String> = doc
        .blocks
        .iter()
        .map(|b| match b {
            Block::Text(t) => t.clone(),
            other => panic!("unexpected block {:?}", other),
        })
        .collect();
    assert!(text.join(" ").contains("Hello PDF world"));
    assert_eq!(
        doc.sections,
        vec![SectionStart { title: "Opening".into(), level: 1, block_index: 0 }]
    );
}
