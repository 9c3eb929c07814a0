use yomikae_report::classify::{classify_not_found_text, NotFoundBucket};
use yomikae_report::dedup::sort_dedup;
use yomikae_report::order::Chapter;
use yomikae_report::records::{
    get_law_info_from_yomikae_error, is_eq_yomikae_error, ord_yomikae_error, LawContents, LawInfo,
    YomikaeError,
};

fn chap(article: u64) -> Chapter {
    Chapter { part: 0, chapter: 0, section: 0, article }
}

fn law(num: &str, article: u64, text: &str) -> LawInfo {
    LawInfo {
        num: String::from(num),
        chapter: chap(article),
        contents: LawContents::Text(String::from(text)),
    }
}

#[test]
fn rule_precedence_bracket_beats_table() {
    // Contains both a bracketed marker span and a table-reference phrase.
    let text = "「甲を乙と読み替える」ほかそれぞれ同表の下欄に掲げる字句と読み替える。";
    assert_eq!(classify_not_found_text(text), NotFoundBucket::InKagiParen);
}

#[test]
fn marker_absence_wins_over_everything() {
    // No marker phrase at all, though table-like wording occurs.
    let text = "それぞれ同表の下欄に掲げる字句による。";
    assert_eq!(classify_not_found_text(text), NotFoundBucket::NotContainsMarker);
}

#[test]
fn bracket_span_with_inner_opening_bracket_still_matches() {
    // A second opening bracket may occur before the marker inside the span.
    assert_eq!(classify_not_found_text("「「と読み替える」"), NotFoundBucket::InKagiParen);
}

#[test]
fn each_table_phrase_is_recognized() {
    let phrases = [
        "それぞれ同表の下欄に掲げる字句と読み替える",
        "同表下欄の字句と読み替える",
        "同表の下欄の字句と読み替える",
        "下欄に掲げる字句と読み替える",
        "同表の下欄に掲げる日又は月と読み替える",
    ];
    for phrase in phrases {
        let text = format!("この場合において{}ものとする。", phrase);
        assert_eq!(classify_not_found_text(&text), NotFoundBucket::TableContents);
    }
}

#[test]
fn unmatched_text_falls_to_other() {
    assert_eq!(
        classify_not_found_text("前項の規定により甲と読み替えるものとする。"),
        NotFoundBucket::Other
    );
}

#[test]
fn sort_dedup_is_idempotent_on_concrete_input() {
    let records = vec![
        YomikaeError::UnmatchedParen(law("B", 1, "b1")),
        YomikaeError::ContentsOfTable(law("A", 2, "a2")),
        YomikaeError::NotFoundYomikae(law("A", 1, "a1")),
        YomikaeError::UnexpectedParallelWords(law("A", 2, "dropped")),
    ];
    let once = sort_dedup(records);
    let twice = sort_dedup(once.clone());
    assert_eq!(once, twice);
    assert_eq!(once.len(), 3);
}

#[test]
fn sort_dedup_orders_by_num_then_chapter() {
    let records = vec![
        YomikaeError::UnmatchedParen(law("B", 1, "third")),
        YomikaeError::ContentsOfTable(law("A", 2, "second")),
        YomikaeError::NotFoundYomikae(law("A", 1, "first")),
    ];
    let sorted = sort_dedup(records);
    let nums: Vec<(String, u64)> = sorted
        .iter()
        .map(|e| {
            let info = get_law_info_from_yomikae_error(e);
            (info.num.clone(), info.chapter.article)
        })
        .collect();
    assert_eq!(
        nums,
        vec![
            (String::from("A"), 1),
            (String::from("A"), 2),
            (String::from("B"), 1),
        ]
    );
}

#[test]
fn ord_yomikae_error_follows_key_order() {
    let a = YomikaeError::ContentsOfTable(law("A", 1, "x"));
    let b = YomikaeError::NotFoundYomikae(law("A", 2, "y"));
    let c = YomikaeError::UnmatchedParen(law("B", 1, "z"));
    let a_again = YomikaeError::UnexpectedParallelWords(law("A", 1, "w"));
    assert_eq!(ord_yomikae_error(&a, &b), std::cmp::Ordering::Less);
    assert_eq!(ord_yomikae_error(&b, &a), std::cmp::Ordering::Greater);
    assert_eq!(ord_yomikae_error(&a, &c), std::cmp::Ordering::Less);
    assert_eq!(ord_yomikae_error(&a, &a_again), std::cmp::Ordering::Equal);
}

#[test]
fn is_eq_yomikae_error_compares_keys_only() {
    let a = YomikaeError::ContentsOfTable(law("A", 1, "x"));
    let b = YomikaeError::NotFoundYomikae(law("A", 1, "different payload"));
    let c = YomikaeError::ContentsOfTable(law("A", 2, "x"));
    assert!(is_eq_yomikae_error(&a, &b));
    assert!(!is_eq_yomikae_error(&a, &c));
}

#[test]
fn get_law_info_unwraps_each_variant() {
    let info = law("A", 1, "x");
    for e in [
        YomikaeError::ContentsOfTable(info.clone()),
        YomikaeError::UnmatchedParen(info.clone()),
        YomikaeError::UnexpectedParallelWords(info.clone()),
        YomikaeError::NotFoundYomikae(info.clone()),
    ] {
        assert_eq!(get_law_info_from_yomikae_error(&e), info);
    }
}

#[test]
fn empty_span_before_marker_does_not_match_bracket_rule() {
    // The bracketed-marker rule needs at least one character between the
    // opening bracket and the marker phrase.
    assert_eq!(classify_not_found_text("「と読み替える」"), NotFoundBucket::Other);
}

#[test]
fn second_bracket_pair_holding_marker_matches() {
    assert_eq!(
        classify_not_found_text("前項中「甲」とあるのは「乙と読み替える」ものとする。"),
        NotFoundBucket::InKagiParen
    );
}
