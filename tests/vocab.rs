use parakeet::vocab::{merge_vocab, render_vocab, vocab_sources, VocabError};

fn strings(v: &[&str]) -> Vec<String> {
    v.iter().map(|s| s.to_string()).collect()
}

#[test]
fn merge_overlapping_files_sorted_without_comment() {
    let files = strings(&["alpha\nAlpha\n# note\n", "beta\nalpha\n"]);
    assert_eq!(merge_vocab(&files), strings(&["Alpha", "alpha", "beta"]));
}

#[test]
fn merge_is_independent_of_file_order() {
    let a = strings(&["zeta\n  beta \n", "# c\nalpha\n\n"]);
    let b = strings(&["# c\nalpha\n\n", "zeta\n  beta \n", "zeta\n  beta \n"]);
    assert_eq!(merge_vocab(&a), merge_vocab(&b));
    assert_eq!(merge_vocab(&a), strings(&["alpha", "beta", "zeta"]));
}

#[test]
fn merge_is_idempotent() {
    let first = merge_vocab(&strings(&["b\r\na\n\t c d \n#x\n"]));
    assert_eq!(first, strings(&["a", "b", "c d"]));
    let again = merge_vocab(&vec![render_vocab(&first)]);
    assert_eq!(again, first);
}

#[test]
fn merge_skips_blank_and_comment_lines() {
    let files = strings(&["\n   \n#only\n  # indented comment\n"]);
    assert!(merge_vocab(&files).is_empty());
    assert!(merge_vocab(&Vec::new()).is_empty());
}

#[test]
fn merge_orders_by_code_point() {
    let files = strings(&["é\nz\nZ\n10\n9\n"]);
    assert_eq!(merge_vocab(&files), strings(&["10", "9", "Z", "z", "é"]));
}

#[test]
fn render_puts_each_term_on_its_line() {
    assert_eq!(render_vocab(&strings(&["a", "b"])), "a\nb\n");
    assert_eq!(render_vocab(&Vec::new()), "");
}

#[test]
fn vocab_sources_orders_library_then_user() {
    let lib = "/h/terms/vocab.txt".to_string();
    let user = Some("mine.txt".to_string());
    assert_eq!(
        vocab_sources(&lib, true, true, &user, true).unwrap(),
        strings(&["/h/terms/vocab.txt", "mine.txt"])
    );
    assert_eq!(vocab_sources(&lib, false, true, &user, true).unwrap(), strings(&["mine.txt"]));
    assert!(vocab_sources(&lib, true, false, &None, false).unwrap().is_empty());
}

#[test]
fn vocab_sources_requires_user_file() {
    let lib = "/h/terms/vocab.txt".to_string();
    let user = Some("missing.txt".to_string());
    match vocab_sources(&lib, true, true, &user, false) {
        Err(VocabError::MissingVocabFile(p)) => assert_eq!(p, "missing.txt"),
        other => panic!("unexpected {:?}", other),
    }
}
