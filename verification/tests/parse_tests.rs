//! Segmentation behavior: determinism, the hard cap on chunk length,
//! empty input, and markup stripping.
use embedding_index::parse_operator::{chunk_document, segment, Chunk};

fn chars_of(s: &str) -> Vec<char> {
    s.chars().collect()
}

fn texts(chunks: &[Chunk]) -> Vec<String> {
    chunks.iter().map(|c| c.text.iter().collect()).collect()
}

#[test]
fn segment_is_deterministic() {
    let text = chars_of("One sentence. Another one! A third?\nAnd a trailing tail");
    let a = texts(&segment(&text));
    let b = texts(&segment(&text));
    assert_eq!(a, b);
    assert!(!a.is_empty());
}

#[test]
fn segment_of_empty_input_is_empty() {
    let text: Vec<char> = Vec::new();
    assert!(segment(&text).is_empty());
}

#[test]
fn three_sentences_form_one_chunk_with_full_text() {
    let chunks = chunk_document("One sentence. Another one! A third?");
    assert_eq!(chunks.len(), 1);
    let text: String = chunks[0].text.iter().collect();
    assert_eq!(text, "One sentence. Another one! A third?");
}

#[test]
fn newlines_are_normalized_to_spaces() {
    let text = chars_of("First line\nSecond line.");
    let chunks = segment(&text);
    assert_eq!(chunks.len(), 1);
    let joined: String = chunks[0].text.iter().collect();
    assert_eq!(joined, "First line Second line.");
}

#[test]
fn oversized_chunks_are_resliced_under_the_cap() {
    // One giant sentence far over the hard cap of 30000 characters.
    let text: Vec<char> = std::iter::repeat('a').take(70000).collect();
    let chunks = segment(&text);
    assert_eq!(chunks.len(), 3);
    for c in &chunks {
        assert!(c.text.len() <= 30000);
        assert!(!c.text.is_empty());
    }
    // near-equal pieces of ceil(70000 / 3) characters, the last shorter
    assert_eq!(chunks[0].text.len(), 23334);
    assert_eq!(chunks[1].text.len(), 23334);
    assert_eq!(chunks[2].text.len(), 23332);
    let total: usize = chunks.iter().map(|c| c.text.len()).sum();
    assert_eq!(total, 70000);
}

#[test]
fn token_estimates_count_words() {
    let text = chars_of("two words. three more words!");
    let chunks = segment(&text);
    assert_eq!(chunks.len(), 1);
    assert_eq!(chunks[0].token_estimate, 5);
}

#[test]
fn chunk_document_strips_markup() {
    let chunks = chunk_document("<p>Hello <b>bold</b> world.</p>");
    assert_eq!(chunks.len(), 1);
    let text: String = chunks[0].text.iter().collect();
    assert_eq!(text, "Hello bold world.");
}

#[test]
fn sentences_keep_their_trailing_delimiters() {
    let text = chars_of("Hi!! Bye.");
    let chunks = segment(&text);
    assert_eq!(chunks.len(), 1);
    let joined: String = chunks[0].text.iter().collect();
    assert_eq!(joined, "Hi!! Bye.");
}
