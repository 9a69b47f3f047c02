use ekanban::model::find_urls;

#[test]
fn finds_the_urls_in_a_description() {
    assert_eq!(
        find_urls("設計は https://example.com/design 、PR は https://example.com/pull/1 です"),
        ["https://example.com/design", "https://example.com/pull/1"],
        "the links come back in the order they were written"
    );
    assert_eq!(find_urls("改行のあと\nhttp://example.com/plain"), ["http://example.com/plain"]);
}

#[test]
fn leaves_plain_text_alone() {
    for description in [
        "",
        "URL のない説明",
        "example.com は裸のホスト名なので拾わない",
        "ftp://example.com/file は http でも https でもない",
        "https:// だけではアドレスにならない",
    ] {
        assert!(find_urls(description).is_empty(), "nothing in {description:?} is a link");
    }
}

#[test]
fn drops_trailing_punctuation_but_keeps_a_balanced_bracket() {
    assert_eq!(
        find_urls("詳しくは https://example.com/a 。"),
        ["https://example.com/a"],
        "the full stop after the address is not part of it"
    );
    assert_eq!(
        find_urls("(https://example.com/b) を見る"),
        ["https://example.com/b"],
        "and neither is a bracket that only wraps it"
    );
    assert_eq!(
        find_urls("https://ja.wikipedia.org/wiki/Rust_(プログラミング言語)"),
        ["https://ja.wikipedia.org/wiki/Rust_(プログラミング言語)"],
        "but a bracket the address opened itself stays"
    );
}

#[test]
fn lists_a_repeated_url_once() {
    assert_eq!(
        find_urls("https://example.com/a と https://example.com/a は同じ"),
        ["https://example.com/a"]
    );
}
