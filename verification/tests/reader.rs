use speed_reader::doc::{Block, SectionStart};
use speed_reader::reader::{chapter_targets, orp_index, tokenize_text, ChunkKind, Reader};

#[test]
fn tokenize_text_handles_long_punctuation() {
    let mut out = Vec::new();
    tokenize_text(&mut out, "hello .......... world", ChunkKind::Word, 100);
    assert_eq!(out.len(), 2);
    assert_eq!(out[0].text, "hello");
    assert_eq!(out[1].text, "world");
}

#[test]
fn tokenize_text_strips_trailing_punctuation_but_keeps_multiplier() {
    let mut out = Vec::new();
    tokenize_text(&mut out, "Hello, world...", ChunkKind::Word, 100);
    assert_eq!(out.len(), 2);
    assert_eq!(out[0].text, "Hello");
    assert_eq!(out[0].multiplier_percent as f32 / 100.0, 1.5);
    assert_eq!(out[1].text, "world");
    assert_eq!(out[1].multiplier_percent as f32 / 100.0, 2.0);
}

#[test]
fn tokenize_text_heading_multiplier_compounds_with_punctuation() {
    let mut out = Vec::new();
    tokenize_text(&mut out, "Intro: done!", ChunkKind::Heading, 130);
    assert_eq!(out[0].multiplier_percent, 195);
    assert_eq!(out[1].multiplier_percent, 260);
    assert_eq!(out[0].kind, ChunkKind::Heading);
}

#[test]
fn orp_index_buckets() {
    assert_eq!(orp_index(""), 0);
    assert_eq!(orp_index("a"), 0);
    assert_eq!(orp_index("hi"), 1);
    assert_eq!(orp_index("hello"), 1);
    assert_eq!(orp_index("mornings"), 2);
    assert_eq!(orp_index("understand"), 3);
    assert_eq!(orp_index("supercalifragilistic"), 4);
}

#[test]
fn orp_index_counts_graphemes_not_chars() {
    // "e" + combining acute accent, five times: 10 chars but 5 graphemes.
    assert_eq!(orp_index("e\u{301}e\u{301}e\u{301}e\u{301}e\u{301}"), 1);
}

#[test]
fn from_blocks_produces_word_chunks_with_paragraph_separators() {
    let blocks = vec![
        Block::Text("hello world".into()),
        Block::Text("second para".into()),
    ];
    let r = Reader::from_blocks(blocks);
    let kinds: Vec<_> = r.chunks.iter().map(|c| c.kind).collect();
    assert_eq!(
        kinds,
        vec![
            ChunkKind::Word,
            ChunkKind::Word,
            ChunkKind::Paragraph,
            ChunkKind::Word,
            ChunkKind::Word,
        ]
    );
}

#[test]
fn advance_stops_at_end_and_retreat_saturates_at_zero() {
    let r_blocks = vec![Block::Text("a b c".into())];
    let mut r = Reader::from_blocks(r_blocks);
    assert_eq!(r.index, 0);
    r.advance(100);
    assert_eq!(r.index, r.chunks.len() - 1);
    assert!(r.at_end());
    r.retreat(100);
    assert_eq!(r.index, 0);
}

#[test]
fn code_blocks_are_single_chunks() {
    let r = Reader::from_blocks(vec![Block::Code(
        "fn main() {\n    println!(\"hi\");\n}".into(),
    )]);
    assert_eq!(r.chunks.len(), 1);
    assert_eq!(r.chunks[0].kind, ChunkKind::Code);
    assert_eq!(r.chunks[0].text, "fn main() {\n    println!(\"hi\");\n}");
}

#[test]
fn empty_reader_reports_end_and_advance_is_noop() {
    let mut r = Reader::empty();
    assert!(r.at_end());
    r.advance(5);
    assert_eq!(r.index, 0);
}

#[test]
fn advance_onto_image_does_not_pause_playback() {
    let mut r = Reader::from_blocks(vec![
        Block::Text("a".into()),
        Block::Image("file.png".into()),
    ]);
    r.playing = true;
    r.advance(2);
    assert_eq!(r.current().map(|c| c.kind), Some(ChunkKind::Image));
    assert!(r.playing, "image should auto-advance, not force-pause");
}

#[test]
fn image_chunk_keeps_full_url_and_shortens_its_text() {
    let url = "https://example.com/".to_string() + &"x".repeat(80);
    let r = Reader::from_blocks(vec![Block::Image(url.clone())]);
    assert_eq!(r.chunks[0].image_url.as_deref(), Some(url.as_str()));
    assert_eq!(r.chunks[0].text.chars().count(), 60);
    assert!(r.chunks[0].text.ends_with('…'));
    assert_eq!(r.chunks[0].multiplier_percent, 300);
}

#[test]
fn chapter_targets_map_heading_blocks_to_chunk_positions() {
    let blocks = vec![
        Block::Heading(1, "Intro".into()),
        Block::Text("alpha beta".into()),
        Block::Heading(2, "Details".into()),
        Block::Text("gamma".into()),
    ];
    let sections = vec![
        SectionStart {
            title: "Intro".into(),
            level: 1,
            block_index: 0,
        },
        SectionStart {
            title: "Details".into(),
            level: 2,
            block_index: 2,
        },
    ];

    let targets = chapter_targets(&blocks, &sections);
    assert_eq!(targets[0].chunk_index, 0);
    assert_eq!(targets[1].chunk_index, 4);
}

#[test]
fn chapter_targets_follow_tokenizer_rules_for_punctuation_only_words() {
    let blocks = vec![
        Block::Text("alpha .......... beta".into()),
        Block::Heading(1, "Gamma".into()),
    ];
    let sections = vec![SectionStart {
        title: "Gamma".into(),
        level: 1,
        block_index: 1,
    }];

    let targets = chapter_targets(&blocks, &sections);
    assert_eq!(targets[0].chunk_index, 2);
}

#[test]
fn chapter_targets_past_the_end_go_to_the_last_block() {
    let blocks = vec![Block::Text("one".into()), Block::Text("two".into())];
    let sections = vec![SectionStart {
        title: "Late".into(),
        level: 1,
        block_index: 9,
    }];
    assert_eq!(chapter_targets(&blocks, &sections)[0].chunk_index, 1);
    assert_eq!(chapter_targets(&[], &sections)[0].chunk_index, 0);
}
