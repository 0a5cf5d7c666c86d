use personal_knowledge_os::chunking::{chunk_text, Chunk};

#[test]
fn chunking_is_deterministic_and_overlapping() {
    let text = "a".repeat(400);
    let first = chunk_text(&text, 128, 16);
    let second = chunk_text(&text, 128, 16);
    assert_eq!(first, second);
    assert!(first.len() > 1);
    assert!(first[1].char_start < first[0].char_end);
}

#[test]
fn empty_input_has_no_chunks() {
    assert!(chunk_text("   ", 128, 16).is_empty());
}

#[test]
fn short_text_is_one_trimmed_chunk() {
    assert_eq!(
        chunk_text("  hello  ", 1400, 180),
        vec![Chunk { position: 0, char_start: 0, char_end: 9, content: "hello".to_string() }]
    );
}

#[test]
fn windows_follow_target_and_overlap() {
    // Target below the minimum of 128 is raised to 128; the overlap is at most half of it.
    let text = "a".repeat(400);
    let chunks = chunk_text(&text, 10, 100);
    let bounds: Vec<(i32, i32, i32)> = chunks.iter().map(|c| (c.position, c.char_start, c.char_end)).collect();
    assert_eq!(bounds, vec![(0, 0, 128), (1, 64, 192), (2, 128, 256), (3, 192, 320), (4, 256, 384), (5, 320, 400)]);
    assert!(chunks.iter().all(|c| c.content.chars().count() as i32 == c.char_end - c.char_start));
}

#[test]
fn windows_end_after_a_sentence_boundary() {
    // A boundary in the second half of the window ends the chunk just after it.
    let mut text = "x".repeat(100);
    text.push('。');
    text.push_str(&"y".repeat(200));
    let chunks = chunk_text(&text, 128, 0);
    assert_eq!(chunks[0].char_end, 101);
    assert!(chunks[0].content.ends_with('。'));
    assert_eq!(chunks[1].char_start, 101);
    // A boundary in the first half is not used.
    let mut early = "x".repeat(10);
    early.push('.');
    early.push_str(&"y".repeat(300));
    assert_eq!(chunk_text(&early, 128, 0)[0].char_end, 128);
}

#[test]
fn blank_windows_are_skipped_without_gaps_in_positions() {
    let mut text = "a".repeat(130);
    text.push_str(&" ".repeat(300));
    text.push_str(&"b".repeat(10));
    // Windows [0,128), [128,256), [256,384) (blank) and [384,440).
    let chunks = chunk_text(&text, 128, 0);
    let positions: Vec<i32> = chunks.iter().map(|c| c.position).collect();
    assert_eq!(positions, vec![0, 1, 2]);
    assert_eq!(chunks[1].content, "aa");
    assert_eq!((chunks[2].char_start, chunks[2].char_end), (384, 440));
    assert_eq!(chunks[2].content, "b".repeat(10));
}
