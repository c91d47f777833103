use initvec::text::split_lowercase;

fn expected(text: &str) -> Vec<String> {
    text.split_whitespace().map(|word| word.to_lowercase()).collect()
}

#[test]
fn splits_at_white_space() {
    assert_eq!(vec!["hello", "world"], split_lowercase("hello world"));
    assert_eq!(vec!["a", "b", "c"], split_lowercase("  a \t b\n\nc  "));
    assert_eq!(vec!["one"], split_lowercase("one"));
    assert_eq!(vec!["one"], split_lowercase("one "));
    assert_eq!(vec!["one"], split_lowercase(" one"));
}

#[test]
fn text_without_words() {
    assert!(split_lowercase("").is_empty());
    assert!(split_lowercase(" ").is_empty());
    assert!(split_lowercase(" \t\r\n ").is_empty());
}

#[test]
fn folds_to_lower_case() {
    assert_eq!(vec!["hello", "world"], split_lowercase("HeLLo WORLD"));
    assert_eq!(vec!["\u{e4}b", "\u{3c9}"], split_lowercase("\u{c4}B \u{3a9}"));
}

#[test]
fn agrees_with_std() {
    let texts = [
        "",
        "x",
        "The quick  brown\tFox",
        "\u{a0}no-break\u{a0}space\u{2003}and em space",
        "\u{1e9e}trasse \u{130}stanbul \u{3a3}\u{391}\u{3a3}",
        "tr\u{e8}s bien\u{85}next line",
        "zero\u{200b}width is no white space",
    ];
    for text in texts {
        assert_eq!(expected(text), split_lowercase(text));
    }
}
