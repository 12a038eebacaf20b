use rag_api_server::chunking::chunk_text;

fn check(text: &str, k: usize) {
    let chunks = chunk_text(text, k);
    assert_eq!(chunks.concat(), text);
    for c in chunks.iter() {
        let n = c.chars().count();
        assert!(n > 0 && n <= k);
    }
}

#[test]
fn chunks_rebuild_text() {
    for k in 1..8 {
        check("The quick brown fox jumps over the lazy dog.", k);
        check("añb€c😀d", k);
    }
}

#[test]
fn chunks_have_expected_shape() {
    assert_eq!(chunk_text("abcdefg", 3), vec!["abc", "def", "g"]);
    assert_eq!(chunk_text("abcdef", 3), vec!["abc", "def"]);
    assert_eq!(chunk_text("ab", 5), vec!["ab"]);
}

#[test]
fn empty_text_gives_no_chunk() {
    assert!(chunk_text("", 4).is_empty());
}

#[test]
fn multibyte_characters_count_once() {
    assert_eq!(chunk_text("ééé", 2), vec!["éé", "é"]);
}

#[test]
fn chunks_break_after_whitespace() {
    assert_eq!(chunk_text("hello world", 8), vec!["hello ", "world"]);
    assert_eq!(chunk_text("the quick brown fox", 10), vec!["the quick ", "brown fox"]);
    assert_eq!(chunk_text("a\nbc def", 4), vec!["a\n", "bc ", "def"]);
}

#[test]
fn long_word_is_cut_at_capacity() {
    assert_eq!(chunk_text("abcdefgh ij", 3), vec!["abc", "def", "gh ", "ij"]);
}
