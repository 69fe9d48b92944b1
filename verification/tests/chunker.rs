use pr_dedupe::chunker::chunk;
use pr_dedupe::chunker::chunk_texts_vec;
use pr_dedupe::chunker::try_chunk;

#[test]
fn one_small_blob_is_one_chunk() {
    let chunks = chunk("hello", 384);
    assert_eq!(chunks.len(), 1);
    assert_eq!(chunks[0].text, "hello");
    assert_eq!(chunks[0].index, 0);
}

#[test]
fn chunks_stay_within_the_budget_and_come_in_order() {
    let blob = "Some text\n\nfrom a\ndocument";
    let chunks = chunk(blob, 10);
    assert_eq!(chunks.len(), 3);
    assert_eq!(chunks[0].text, "Some text");
    assert_eq!(chunks[1].text, "from a");
    assert_eq!(chunks[2].text, "document");
    for (i, c) in chunks.iter().enumerate() {
        assert!(c.text.chars().count() <= 10);
        assert_eq!(c.index, i);
    }
}

#[test]
fn a_long_line_is_cut_into_budget_sized_pieces() {
    let blob = "abcdefghijklmnopqrstuvwxyz";
    let chunks = chunk(blob, 8);
    assert!(chunks.len() >= 4);
    let mut rebuilt = String::new();
    for (i, c) in chunks.iter().enumerate() {
        assert!(c.text.chars().count() <= 8);
        assert_eq!(c.index, i);
        rebuilt.push_str(&c.text);
    }
    assert_eq!(rebuilt, blob);
}

#[test]
fn a_whitespace_only_blob_still_yields_one_chunk() {
    let chunks = chunk(" ", 384);
    assert_eq!(chunks.len(), 1);
    assert_eq!(chunks[0].text, " ");
    assert_eq!(chunks[0].index, 0);
}

#[test]
fn chunking_twice_yields_the_same_chunks() {
    let blob = "Some text\n\nfrom a\ndocument";
    let first = chunk(blob, 10);
    let second = chunk(blob, 10);
    assert_eq!(first.len(), second.len());
    for (a, b) in first.iter().zip(second.iter()) {
        assert_eq!(a.text, b.text);
        assert_eq!(a.index, b.index);
    }
}

#[test]
fn chunk_texts_vec_lists_the_texts_in_order() {
    let chunks = chunk("Some text\n\nfrom a\ndocument", 10);
    let texts = chunk_texts_vec(&chunks);
    assert_eq!(texts, vec!["Some text", "from a", "document"]);
}

#[test]
fn a_zero_budget_is_a_chunking_error() {
    let err = try_chunk("hello", 0).unwrap_err();
    assert_eq!(err.max_tokens, 0);
}

#[test]
fn any_positive_budget_chunks() {
    let chunks = try_chunk("hello", 1).unwrap();
    assert_eq!(chunks.len(), 5);
    assert_eq!(chunks[0].text, "h");
    let chunks = try_chunk("hello", 384).unwrap();
    assert_eq!(chunks.len(), 1);
}
