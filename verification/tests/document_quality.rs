use speed_reader::doc::{
    blocks_from_plain_text, parse_docx_xml, parse_markdown, Block, SectionStart, TableBlock,
};
use speed_reader::docx::{read_heading_val, XmlAttr};
use speed_reader::history::promote_recent_path;
use speed_reader::picker::PickerEntry;
use speed_reader::preset::Preset;
use speed_reader::reader::{
    caption_of, chapter_targets, tokenize_with_block_starts, ChunkKind, Reader,
};
use speed_reader::session::{effect_status, missing_image_note, Effect};
use speed_reader::theme::ThemeChoice;
use speed_reader::web::WebReader;

/// Notes written the way people write them: headings, prose in more than one
/// language, a code block, an image and a table.
const REAL_WORLD_MARKDOWN: &str = "# Field Notes

Reading on a small screen works best one word at a time.

## Findings

A short passage in tiếng Việt reads as smoothly as English.

```rust
let pace = 300;
```

![Diagram](assets/diagram.png)

| Signal | Result | Notes |
| --- | --- | --- |
| Headings | OK | chapter picker should work |
| Tables | OK | displayed as full blocks |

That is all for now.
";

/// Text as a PDF extractor gives it: numbered sections and a table whose
/// columns are aligned with runs of spaces.
const PDF_EXTRACTED_TEXT: &str = "1. Overview
The pilot ran for six weeks with twelve readers.

Metric      Value     Note
Speed       320       words per minute
Recall      85%       after one pass

2. Details
Readers chose their own presets and themes.
";

fn table_block(headers: &[&str], rows: &[&[&str]]) -> TableBlock {
    TableBlock {
        headers: headers.iter().map(|s| s.to_string()).collect(),
        rows: rows
            .iter()
            .map(|r| r.iter().map(|s| s.to_string()).collect())
            .collect(),
    }
}

#[test]
fn markdown_fixture_preserves_reader_structure() {
    let blocks = parse_markdown(REAL_WORLD_MARKDOWN);

    assert!(matches!(blocks.first(), Some(Block::Heading(1, title)) if title == "Field Notes"));
    assert!(blocks.iter().any(|block| matches!(block, Block::Heading(2, title) if title == "Findings")));
    assert!(blocks.iter().any(|block| matches!(block, Block::Code(code) if code.contains("let pace"))));
    assert!(blocks.iter().any(|block| matches!(block, Block::Image(path) if path == "assets/diagram.png")));
    assert!(blocks.iter().any(|block| matches!(block, Block::Text(text) if text.contains("tiếng Việt"))));
}

#[test]
fn markdown_fixture_keeps_tables_as_full_blocks() {
    let blocks = parse_markdown(REAL_WORLD_MARKDOWN);
    let table = blocks.iter().find_map(|block| match block {
        Block::Table(table) => Some(table),
        _ => None,
    });

    assert_eq!(
        table,
        Some(&TableBlock {
            headers: vec!["Signal".into(), "Result".into(), "Notes".into()],
            rows: vec![
                vec!["Headings".into(), "OK".into(), "chapter picker should work".into()],
                vec!["Tables".into(), "OK".into(), "displayed as full blocks".into()],
            ],
        })
    );
}

#[test]
fn pdf_like_text_fixture_detects_fixed_width_tables() {
    let blocks = blocks_from_plain_text(PDF_EXTRACTED_TEXT);

    assert!(blocks.iter().any(|block| matches!(block, Block::Text(text) if text.contains("1. Overview"))));
    assert!(blocks.iter().any(|block| matches!(block, Block::Table(table) if table.headers == ["Metric", "Value", "Note"])));
    assert!(blocks.iter().any(|block| matches!(block, Block::Text(text) if text.contains("2. Details"))));
}

#[test]
fn fixed_width_table_rows_are_kept_cell_by_cell() {
    let blocks = blocks_from_plain_text(PDF_EXTRACTED_TEXT);
    let table = blocks.iter().find_map(|block| match block {
        Block::Table(table) => Some(table.clone()),
        _ => None,
    });
    assert_eq!(
        table,
        Some(table_block(
            &["Metric", "Value", "Note"],
            &[
                &["Speed", "320", "words per minute"],
                &["Recall", "85%", "after one pass"],
            ],
        ))
    );
    assert_eq!(blocks.len(), 3);
}

#[test]
fn tab_separated_lines_form_a_table() {
    let blocks = blocks_from_plain_text("a\tb\nc\td\n");
    assert_eq!(blocks, vec![Block::Table(table_block(&["a", "b"], &[&["c", "d"]]))]);
}

#[test]
fn prose_with_single_spaces_stays_text() {
    let blocks = blocks_from_plain_text("one two three\nfour five six\n");
    assert!(blocks.iter().all(|b| matches!(b, Block::Text(_))));
}

#[test]
fn lines_with_different_column_counts_are_not_a_table() {
    let blocks = blocks_from_plain_text("a  b  c\nd  e\n");
    assert!(blocks.iter().all(|b| matches!(b, Block::Text(_))));
}

#[test]
fn a_single_aligned_line_is_not_a_table() {
    let blocks = blocks_from_plain_text("Metric   Value\n");
    assert!(blocks.iter().all(|b| matches!(b, Block::Text(_))));
}

#[test]
fn table_caption_joins_headers_with_bars() {
    let headers = vec!["Signal".to_string(), "Result".to_string(), "Notes".to_string()];
    assert_eq!(caption_of(&headers), "Signal | Result | Notes");
    assert_eq!(caption_of(&[]), "");
}

#[test]
fn a_table_block_becomes_one_table_chunk() {
    let table = table_block(&["x", "y"], &[&["1", "2"]]);
    let blocks = vec![
        Block::Text("before".into()),
        Block::Table(table.clone()),
        Block::Text("after".into()),
    ];
    let (chunks, starts) = tokenize_with_block_starts(&blocks);
    // A paragraph break stands before every block but the first.
    assert_eq!(starts, vec![0, 1, 3]);
    assert_eq!(chunks.len(), 5);
    assert_eq!(chunks[1].kind, ChunkKind::Paragraph);
    let chunk = &chunks[2];
    assert_eq!(chunk.kind, ChunkKind::Table);
    assert_eq!(chunk.text, "x | y");
    assert_eq!(chunk.orp, 0);
    assert_eq!(chunk.table, Some(table));
    assert_eq!(chunks[0].table, None);

    let reader = Reader::from_blocks(blocks);
    assert_eq!(reader.chunks[2].kind, ChunkKind::Table);
}

#[test]
fn web_reader_reports_table_data_and_kind() {
    let reader = WebReader::new("| a | b |\n| - | - |\n| 1 | 2 |\n", None);
    assert_eq!(reader.kind(), "table");
    assert_eq!(reader.table_data(), Some(table_block(&["a", "b"], &[&["1", "2"]])));
    let words = WebReader::new("just words", None);
    assert_eq!(words.table_data(), None);
}

#[test]
fn presets_pace_tables_like_code() {
    for preset in [Preset::Gentle, Preset::Standard, Preset::Technical, Preset::Study] {
        assert_eq!(
            preset.chunk_multiplier_percent(ChunkKind::Table),
            preset.chunk_multiplier_percent(ChunkKind::Code)
        );
    }
}

#[test]
fn effect_status_texts() {
    assert_eq!(
        effect_status(&Effect::PresetChanged(Preset::Technical, 240)),
        Some("preset: technical (240 wpm)".to_string())
    );
    assert_eq!(
        effect_status(&Effect::ThemeCycled(ThemeChoice::Dark)),
        Some("theme: dark".to_string())
    );
    assert_eq!(
        effect_status(&Effect::ChapterJumped("Findings".into())),
        Some("chapter: Findings".to_string())
    );
    assert_eq!(effect_status(&Effect::NoChapters), Some("no chapters found".to_string()));
    assert_eq!(effect_status(&Effect::Nothing), None);
    assert_eq!(effect_status(&Effect::PresetChanged(Preset::Gentle, 0)), Some("preset: gentle (0 wpm)".to_string()));
}

#[test]
fn hard_and_soft_breaks_read_as_spaces() {
    assert_eq!(parse_markdown("one  \ntwo\nthree"), vec![Block::Text("one two three".into())]);
    assert_eq!(parse_markdown("one\\\ntwo"), vec![Block::Text("one two".into())]);
}

#[test]
fn each_list_item_ends_its_own_block() {
    assert_eq!(
        parse_markdown("- first item\n- second item\n\nAfter."),
        vec![
            Block::Text("first item".into()),
            Block::Text("second item".into()),
            Block::Text("After.".into()),
        ]
    );
}

#[test]
fn unreadable_attributes_are_skipped_for_the_heading_style() {
    let attrs = vec![
        None,
        Some(XmlAttr(b"w:other".to_vec(), b"x".to_vec())),
        Some(XmlAttr(b"w:val".to_vec(), b"Heading3".to_vec())),
    ];
    assert_eq!(read_heading_val(&attrs), Some(3));
    assert_eq!(read_heading_val(&[None]), None);
    assert_eq!(read_heading_val(&[]), None);
}

#[test]
fn a_duplicated_style_attribute_keeps_the_first_value() {
    let xml = r#"<w:document><w:body><w:p><w:pPr><w:pStyle w:val="Heading2" w:val="Title"/></w:pPr><w:r><w:t>Hi</w:t></w:r></w:p></w:body></w:document>"#;
    assert_eq!(parse_docx_xml(xml), vec![Block::Heading(2, "Hi".into())]);
}

#[test]
fn picker_rows_name_parents_directories_and_unnamed_files() {
    let parent = PickerEntry { name: Some("home".into()), is_parent: true, is_dir: true };
    let dir = PickerEntry { name: Some("notes".into()), is_parent: false, is_dir: true };
    let file = PickerEntry { name: Some("a.md".into()), is_parent: false, is_dir: false };
    let unnamed = PickerEntry { name: None, is_parent: false, is_dir: false };
    assert_eq!(parent.label(), "../");
    assert_eq!(dir.label(), "notes/");
    assert_eq!(file.label(), "a.md");
    assert_eq!(unnamed.label(), "?");
}

#[test]
fn missing_image_notes() {
    assert_eq!(missing_image_note(true), "[loading image…] ");
    assert_eq!(missing_image_note(false), "[image failed to load] ");
}

#[test]
fn chapter_targets_follow_block_order() {
    let blocks = vec![
        Block::Heading(1, "One".into()),
        Block::Text("alpha beta".into()),
        Block::Heading(1, "Two".into()),
        Block::Text("gamma".into()),
    ];
    let section = |title: &str, block_index: usize| SectionStart {
        title: title.into(),
        level: 1,
        block_index,
    };
    let sections = vec![section("One", 0), section("Two", 2), section("Past", 9)];
    let targets = chapter_targets(&blocks, &sections);
    let idx: Vec<usize> = targets.iter().map(|t| t.chunk_index).collect();
    assert_eq!(idx, vec![0, 4, 6]);
    assert!(idx.windows(2).all(|w| w[0] <= w[1]));
}

#[test]
fn promoting_keeps_the_recent_list_free_of_repeats() {
    let mut paths: Vec<String> = (0..12).map(|i| format!("/f{}", i)).collect();
    promote_recent_path(&mut paths, "/f5".into());
    promote_recent_path(&mut paths, "/new".into());
    let mut seen = std::collections::HashSet::new();
    assert!(paths.iter().all(|p| seen.insert(p.clone())));
    assert_eq!(paths.len(), 12);
    assert_eq!(paths[0], "/new");
    assert_eq!(paths[1], "/f5");
    assert_eq!(paths[2], "/f0");
    assert_eq!(paths[11], "/f10");
    assert!(!paths.contains(&"/f11".to_string()));
}
