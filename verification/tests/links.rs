use ekanban::links::{link_at, link_ranges, link_runs};
use std::ops::Range;

fn runs(text: &str, range: Range<usize>) -> Vec<(Range<usize>, bool)> {
    link_runs(&link_ranges(text), range.start, range.end)
}

fn run_kinds(text: &str) -> Vec<(String, bool)> {
    runs(text, 0..text.len())
        .into_iter()
        .map(|(range, is_link)| (text[range].to_string(), is_link))
        .collect()
}

#[test]
fn points_at_the_address_under_the_cursor() {
    let text = "見て https://example.com/a ね";
    let start = text.find("https").expect("the address is in the text");
    let end = start + "https://example.com/a".len();

    assert_eq!(link_at(text, start), Some(start..end), "the first character counts");
    assert_eq!(link_at(text, start + 4), Some(start..end), "and so does the middle");
    assert_eq!(link_at(text, end), Some(start..end), "and the far end");
    assert_eq!(link_at(text, 0), None, "the words before it are not a link");
    assert_eq!(link_at(text, text.len()), None, "nor the ones after");
    assert_eq!(link_at("リンクのない説明", 3), None);
}

#[test]
fn marks_only_the_address_inside_the_text() {
    assert_eq!(
        run_kinds("見て https://example.com/a ね"),
        [
            ("見て ".to_string(), false),
            ("https://example.com/a".to_string(), true),
            (" ね".to_string(), false),
        ],
        "the address is the only styled run, and the words around it keep their colour"
    );
}

#[test]
fn covers_the_whole_range_without_gaps() {
    for text in [
        "",
        "リンクのない説明",
        "https://example.com/a",
        "https://example.com/a https://example.com/b",
        "先頭 https://example.com/a 中 https://example.com/b 末尾",
    ] {
        let runs = runs(text, 0..text.len());
        let mut at = 0;
        for (range, _) in &runs {
            assert_eq!(range.start, at, "the runs of {text:?} leave no gap: {runs:?}");
            assert!(range.start < range.end, "and none of them is empty");
            at = range.end;
        }
        assert_eq!(at, text.len(), "and together they reach the end of {text:?}");
    }
}

#[test]
fn clips_the_runs_to_the_range_it_was_asked_about() {
    let text = "先頭 https://example.com/a 末尾";
    let asked = 3..text.len() - 3;
    let runs = runs(text, asked.clone());

    assert_eq!(runs.first().map(|(range, _)| range.start), Some(asked.start));
    assert_eq!(runs.last().map(|(range, _)| range.end), Some(asked.end));
}

#[test]
fn a_run_inside_an_address_is_all_link() {
    let text = "見て https://example.com/a ね";
    let start = text.find("https").unwrap();
    assert_eq!(runs(text, start + 2..start + 6), vec![(start + 2..start + 6, true)]);
    assert_eq!(runs(text, 4..4), vec![]);
}
