use webgrab::tokens::count;

#[test]
fn ascii_tokens_reasonable() {
    let n = count("hello world");
    assert!((1..=5).contains(&n), "got {n}");
}

#[test]
fn japanese_costs_more_than_char_div_4() {
    let text = "これは日本語のトークン数を確認するための文章です。";
    let n = count(text);
    let approx = text.chars().count() / 4;
    assert!(n > approx, "tokens {n} should exceed char/4 {approx}");
}

#[test]
fn empty_is_zero() {
    assert_eq!(count(""), 0);
}

#[test]
fn same_text_same_count() {
    assert_eq!(count("The quick brown fox"), count("The quick brown fox"));
    assert!(count("The quick brown fox jumps over the lazy dog") > count("The quick"));
}
