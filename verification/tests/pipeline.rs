use yomikae_report::aggregate::{analyze_yomikae, count_not_analyzed, sum_candidate_counts, AnalysisDefect};
use yomikae_report::order::Chapter;
use yomikae_report::records::{LawContents, LawInfo, YomikaeError, YomikaeInfo};

fn chap(article: u64) -> Chapter {
    Chapter { part: 1, chapter: 2, section: 3, article }
}

fn yinfo(num: &str, article: u64) -> YomikaeInfo {
    YomikaeInfo { num: String::from(num), chapter: chap(article) }
}

fn law(num: &str, article: u64, text: &str) -> LawInfo {
    LawInfo {
        num: String::from(num),
        chapter: chap(article),
        contents: LawContents::Text(String::from(text)),
    }
}

#[test]
fn empty_inputs_give_zero_report() {
    let report = analyze_yomikae(Vec::new(), Vec::new()).unwrap();
    assert_eq!(report.size_of_all, 0);
    assert_eq!(report.size_of_analysis, 0);
    assert_eq!(report.size_of_analysis_error.all, 0);
    assert_eq!(report.size_of_not_analysis_yomikae_sentence.all, 0);
    assert!(report.analysis_not_found_sentence_data_other.is_empty());
}

#[test]
fn duplicate_unmatched_paren_keys_collapse() {
    // Two failures with the same (num, chapter) key: one survivor.
    let errors = vec![
        YomikaeError::UnmatchedParen(law("A1", 1, "text one")),
        YomikaeError::UnmatchedParen(law("A1", 1, "text two")),
    ];
    let report = analyze_yomikae(Vec::new(), errors).unwrap();
    assert_eq!(report.size_of_analysis_error.unmatched_parenthese, 1);
    assert_eq!(report.size_of_analysis_error.all, 1);
    assert_eq!(report.analysis_error_data_unmatched_parenthese.len(), 1);
}

#[test]
fn key_only_dedup_keeps_first_record() {
    // Same key, differing payloads: the record that appears first wins.
    let errors = vec![
        YomikaeError::ContentsOfTable(law("A1", 1, "first payload")),
        YomikaeError::ContentsOfTable(law("A1", 1, "second payload")),
    ];
    let report = analyze_yomikae(Vec::new(), errors).unwrap();
    assert_eq!(report.analysis_error_data_contents_of_table.len(), 1);
    assert_eq!(
        report.analysis_error_data_contents_of_table[0].contents,
        LawContents::Text(String::from("first payload"))
    );
}

#[test]
fn analysis_list_counts_distinct_keys() {
    // Three analyzed entries, two sharing (num, chapter).
    let analysis = vec![yinfo("A1", 1), yinfo("A1", 1), yinfo("B2", 7)];
    let report = analyze_yomikae(analysis, Vec::new()).unwrap();
    assert_eq!(report.size_of_analysis, 2);
    assert_eq!(report.size_of_all, 2);
}

#[test]
fn count_conservation_over_mixed_input() {
    let analysis = vec![yinfo("A1", 1), yinfo("A2", 2), yinfo("A1", 1)];
    let errors = vec![
        YomikaeError::ContentsOfTable(law("B1", 1, "t")),
        YomikaeError::UnmatchedParen(law("B2", 1, "t")),
        YomikaeError::UnexpectedParallelWords(law("B3", 1, "t")),
        YomikaeError::NotFoundYomikae(law("B4", 1, "適用しない。")),
        YomikaeError::NotFoundYomikae(law("B5", 1, "甲を乙と読み替える。")),
    ];
    let report = analyze_yomikae(analysis, errors).unwrap();
    let err = &report.size_of_analysis_error;
    let nf = &report.size_of_not_analysis_yomikae_sentence;
    assert_eq!(err.all, err.contents_of_table + err.unmatched_parenthese + err.unexpected_parallel_words);
    assert_eq!(nf.all, nf.in_kagi_paren + nf.table_contents + nf.not_contains_toyomikaeru + nf.other);
    assert_eq!(report.size_of_all, report.size_of_analysis + err.all + nf.all);
    assert_eq!(report.size_of_all, 2 + 3 + 2);
}

#[test]
fn in_bracket_marker_counts_in_kagi() {
    // Marker phrase inside a single quotation-bracket span.
    let errors = vec![YomikaeError::NotFoundYomikae(law(
        "A1",
        1,
        "第五条中「特別区を市と読み替える」とする。",
    ))];
    let report = analyze_yomikae(Vec::new(), errors).unwrap();
    let nf = &report.size_of_not_analysis_yomikae_sentence;
    assert_eq!(nf.all, 1);
    assert_eq!(nf.in_kagi_paren, 1);
    assert_eq!(nf.other, 0);
    assert!(report.analysis_not_found_sentence_data_other.is_empty());
}

#[test]
fn marker_outside_brackets_goes_to_other() {
    // The marker phrase follows the closing bracket, so the bracketed-marker
    // rule does not apply and no table phrase occurs: the record keeps its
    // full detail in the "other" list.
    let errors = vec![YomikaeError::NotFoundYomikae(law(
        "A1",
        1,
        "第五条中「特別区」とあるのは「市」と読み替える。",
    ))];
    let report = analyze_yomikae(Vec::new(), errors).unwrap();
    let nf = &report.size_of_not_analysis_yomikae_sentence;
    assert_eq!(nf.all, 1);
    assert_eq!(nf.in_kagi_paren, 0);
    assert_eq!(nf.other, 1);
    assert_eq!(report.analysis_not_found_sentence_data_other.len(), 1);
}

#[test]
fn text_without_marker_counts_not_contains() {
    let errors = vec![YomikaeError::NotFoundYomikae(law("A1", 1, "適用しない。"))];
    let report = analyze_yomikae(Vec::new(), errors).unwrap();
    let nf = &report.size_of_not_analysis_yomikae_sentence;
    assert_eq!(nf.all, 1);
    assert_eq!(nf.not_contains_toyomikaeru, 1);
    assert_eq!(nf.other, 0);
}

#[test]
fn table_reference_phrase_counts_table_contents() {
    let errors = vec![YomikaeError::NotFoundYomikae(law(
        "A1",
        1,
        "この場合において同表下欄の字句と読み替えるものとする。",
    ))];
    let report = analyze_yomikae(Vec::new(), errors).unwrap();
    let nf = &report.size_of_not_analysis_yomikae_sentence;
    assert_eq!(nf.all, 1);
    assert_eq!(nf.table_contents, 1);
    assert_eq!(nf.other, 0);
}

#[test]
fn non_text_not_found_record_is_a_defect() {
    let errors = vec![YomikaeError::NotFoundYomikae(LawInfo {
        num: String::from("A1"),
        chapter: chap(1),
        contents: LawContents::Table,
    })];
    let result = analyze_yomikae(Vec::new(), errors);
    assert_eq!(result.unwrap_err(), AnalysisDefect::NonTextContents);
}

#[test]
fn detail_lists_follow_sorted_key_order() {
    let errors = vec![
        YomikaeError::ContentsOfTable(law("B", 1, "third")),
        YomikaeError::ContentsOfTable(law("A", 2, "second")),
        YomikaeError::ContentsOfTable(law("A", 1, "first")),
    ];
    let report = analyze_yomikae(Vec::new(), errors).unwrap();
    let texts: Vec<&LawContents> = report
        .analysis_error_data_contents_of_table
        .iter()
        .map(|info| &info.contents)
        .collect();
    assert_eq!(
        texts,
        vec![
            &LawContents::Text(String::from("first")),
            &LawContents::Text(String::from("second")),
            &LawContents::Text(String::from("third")),
        ]
    );
}

#[test]
fn candidate_counts_sum_over_groups() {
    assert_eq!(sum_candidate_counts(&vec![2, 3, 4]), Some(9));
    assert_eq!(sum_candidate_counts(&Vec::new()), Some(0));
    assert_eq!(sum_candidate_counts(&vec![usize::MAX, 1]), None);
}

#[test]
fn not_analyzed_count_subtracts_with_guard() {
    assert_eq!(count_not_analyzed(10, 4, 3), Ok(3));
    assert_eq!(count_not_analyzed(7, 4, 3), Ok(0));
    assert_eq!(count_not_analyzed(5, 4, 3), Err(AnalysisDefect::NegativeNotAnalyzed));
}
