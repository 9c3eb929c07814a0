//! Bucketing of the deduplicated failure list, count aggregation, and the
//! final report, with its totals proved consistent.

use crate::classify::{classify_not_found_text, classify_spec, NotFoundBucket};
use crate::dedup::{
    count_distinct_keys, is_sorted_dedup_of, key_seq, lemma_sorted_dedup_unique, sort_dedup,
};
use crate::records::{law_info_of, LawContents, LawInfo, YomikaeError, YomikaeInfo};
use vstd::prelude::*;

verus! {

/// Whether a clause record carries plain text.
pub open spec fn is_text(info: LawInfo) -> bool {
    match info.contents {
        LawContents::Text(_) => true,
        LawContents::Table => false,
    }
}

/// The plain text of a clause record (empty when it carries none).
pub open spec fn text_of(info: LawInfo) -> Seq<char> {
    match info.contents {
        LawContents::Text(s) => s@,
        LawContents::Table => Seq::empty(),
    }
}

pub open spec fn is_contents_of_table(e: YomikaeError) -> bool {
    match e {
        YomikaeError::ContentsOfTable(_) => true,
        _ => false,
    }
}

pub open spec fn is_unmatched_paren(e: YomikaeError) -> bool {
    match e {
        YomikaeError::UnmatchedParen(_) => true,
        _ => false,
    }
}

pub open spec fn is_unexpected_parallel_words(e: YomikaeError) -> bool {
    match e {
        YomikaeError::UnexpectedParallelWords(_) => true,
        _ => false,
    }
}

pub open spec fn is_not_found(e: YomikaeError) -> bool {
    match e {
        YomikaeError::NotFoundYomikae(_) => true,
        _ => false,
    }
}

/// Every not-found record of `s` carries plain text.
pub open spec fn all_not_found_texts(s: Seq<YomikaeError>) -> bool {
    forall|i: int| 0 <= i < s.len() && is_not_found(#[trigger] s[i]) ==> is_text(law_info_of(s[i]))
}

/// The clause records of the table-contents failures of `s`, in order.
pub open spec fn infos_contents_of_table(s: Seq<YomikaeError>) -> Seq<LawInfo>
    decreases s.len(),
{
    if s.len() == 0 {
        Seq::empty()
    } else if is_contents_of_table(s.last()) {
        infos_contents_of_table(s.drop_last()).push(law_info_of(s.last()))
    } else {
        infos_contents_of_table(s.drop_last())
    }
}

/// The clause records of the unmatched-bracket failures of `s`, in order.
pub open spec fn infos_unmatched_paren(s: Seq<YomikaeError>) -> Seq<LawInfo>
    decreases s.len(),
{
    if s.len() == 0 {
        Seq::empty()
    } else if is_unmatched_paren(s.last()) {
        infos_unmatched_paren(s.drop_last()).push(law_info_of(s.last()))
    } else {
        infos_unmatched_paren(s.drop_last())
    }
}

/// The clause records of the parallel-words failures of `s`, in order.
pub open spec fn infos_unexpected_parallel_words(s: Seq<YomikaeError>) -> Seq<LawInfo>
    decreases s.len(),
{
    if s.len() == 0 {
        Seq::empty()
    } else if is_unexpected_parallel_words(s.last()) {
        infos_unexpected_parallel_words(s.drop_last()).push(law_info_of(s.last()))
    } else {
        infos_unexpected_parallel_words(s.drop_last())
    }
}

/// The number of not-found records of `s`.
pub open spec fn count_not_found(s: Seq<YomikaeError>) -> nat
    decreases s.len(),
{
    if s.len() == 0 {
        0
    } else if is_not_found(s.last()) {
        count_not_found(s.drop_last()) + 1
    } else {
        count_not_found(s.drop_last())
    }
}

/// Whether a record is a not-found record with plain text classified into
/// bucket `b`.
pub open spec fn in_not_found_bucket(e: YomikaeError, b: NotFoundBucket) -> bool {
    &&& is_not_found(e)
    &&& is_text(law_info_of(e))
    &&& classify_spec(text_of(law_info_of(e))) == b
}

/// The number of not-found records of `s` classified into bucket `b`.
pub open spec fn count_not_found_bucket(s: Seq<YomikaeError>, b: NotFoundBucket) -> nat
    decreases s.len(),
{
    if s.len() == 0 {
        0
    } else if in_not_found_bucket(s.last(), b) {
        count_not_found_bucket(s.drop_last(), b) + 1
    } else {
        count_not_found_bucket(s.drop_last(), b)
    }
}

/// The clause records of the not-found records of `s` that no rule matched,
/// in order.
pub open spec fn infos_not_found_other(s: Seq<YomikaeError>) -> Seq<LawInfo>
    decreases s.len(),
{
    if s.len() == 0 {
        Seq::empty()
    } else if in_not_found_bucket(s.last(), NotFoundBucket::Other) {
        infos_not_found_other(s.drop_last()).push(law_info_of(s.last()))
    } else {
        infos_not_found_other(s.drop_last())
    }
}

/// Counts of the three failure kinds that keep full detail lists, plus their
/// combined total.
#[derive(Debug, Clone, Copy, Hash, PartialEq, Eq, Structural)]
pub struct SizeOfAnalysisError {
    pub all: usize,
    pub contents_of_table: usize,
    pub unmatched_parenthese: usize,
    pub unexpected_parallel_words: usize,
}

/// Counts of the not-found records by sub-classification bucket, plus their
/// combined total.
#[derive(Debug, Clone, Copy, Hash, PartialEq, Eq, Structural)]
pub struct SizeOfNotFoundYomikae {
    pub all: usize,
    /// The marker phrase sits inside a quotation-bracket span.
    pub in_kagi_paren: usize,
    /// A table-reference phrase matched.
    pub table_contents: usize,
    /// The marker phrase does not occur at all.
    pub not_contains_toyomikaeru: usize,
    /// None of the rules matched; full detail is kept for these.
    pub other: usize,
}

/// An internal invariant violation: fatal, never coerced into a report.
#[derive(Debug, Clone, Copy, PartialEq, Eq, Structural)]
pub enum AnalysisDefect {
    /// A not-found record carried a non-text payload where plain text was
    /// required for sub-classification.
    NonTextContents,
    /// The candidate total fell short of the analyzed and failed counts, so
    /// the not-analyzed count would be negative.
    NegativeNotAnalyzed,
}

/// The classified failure list: both count summaries and the detail lists.
#[derive(Debug, PartialEq, Eq)]
pub struct ClassifiedErrors {
    pub size_of_analysis_error: SizeOfAnalysisError,
    pub size_of_not_analysis_yomikae_sentence: SizeOfNotFoundYomikae,
    pub analysis_error_data_contents_of_table: Vec<LawInfo>,
    pub analysis_error_data_unmatched_parenthese: Vec<LawInfo>,
    pub analysis_error_data_unexpected_parallel_words: Vec<LawInfo>,
    pub analysis_not_found_sentence_data_other: Vec<LawInfo>,
}

/// The final report: the grand total, the count of distinct analyzed keys,
/// both failure summaries, and the detail lists.
#[derive(Debug, PartialEq, Eq)]
pub struct DataOfAnalysisYomikae {
    pub size_of_all: usize,
    pub size_of_analysis: usize,
    pub size_of_analysis_error: SizeOfAnalysisError,
    pub size_of_not_analysis_yomikae_sentence: SizeOfNotFoundYomikae,
    pub analysis_error_data_contents_of_table: Vec<LawInfo>,
    pub analysis_error_data_unmatched_parenthese: Vec<LawInfo>,
    pub analysis_error_data_unexpected_parallel_words: Vec<LawInfo>,
    pub analysis_not_found_sentence_data_other: Vec<LawInfo>,
}

/// The two summaries and four detail lists describe the failure list `s`.
pub open spec fn summaries_match(
    err_sum: SizeOfAnalysisError,
    nf_sum: SizeOfNotFoundYomikae,
    cot: Seq<LawInfo>,
    unm: Seq<LawInfo>,
    upw: Seq<LawInfo>,
    other: Seq<LawInfo>,
    s: Seq<YomikaeError>,
) -> bool {
    &&& err_sum.contents_of_table == infos_contents_of_table(s).len()
    &&& err_sum.unmatched_parenthese == infos_unmatched_paren(s).len()
    &&& err_sum.unexpected_parallel_words == infos_unexpected_parallel_words(s).len()
    &&& err_sum.all == infos_contents_of_table(s).len() + infos_unmatched_paren(s).len()
        + infos_unexpected_parallel_words(s).len()
    &&& nf_sum.all == count_not_found(s)
    &&& nf_sum.in_kagi_paren == count_not_found_bucket(s, NotFoundBucket::InKagiParen)
    &&& nf_sum.table_contents == count_not_found_bucket(s, NotFoundBucket::TableContents)
    &&& nf_sum.not_contains_toyomikaeru == count_not_found_bucket(
        s,
        NotFoundBucket::NotContainsMarker,
    )
    &&& nf_sum.other == count_not_found_bucket(s, NotFoundBucket::Other)
    &&& nf_sum.all == nf_sum.in_kagi_paren + nf_sum.table_contents
        + nf_sum.not_contains_toyomikaeru + nf_sum.other
    &&& cot == infos_contents_of_table(s)
    &&& unm == infos_unmatched_paren(s)
    &&& upw == infos_unexpected_parallel_words(s)
    &&& other == infos_not_found_other(s)
}

pub open spec fn classified_matches(c: ClassifiedErrors, s: Seq<YomikaeError>) -> bool {
    summaries_match(
        c.size_of_analysis_error,
        c.size_of_not_analysis_yomikae_sentence,
        c.analysis_error_data_contents_of_table@,
        c.analysis_error_data_unmatched_parenthese@,
        c.analysis_error_data_unexpected_parallel_words@,
        c.analysis_not_found_sentence_data_other@,
        s,
    )
}

/// The report describes the analyzed list `analysis` and the deduplicated
/// failure list `ds`.
pub open spec fn report_matches(
    rep: DataOfAnalysisYomikae,
    analysis: Seq<YomikaeInfo>,
    ds: Seq<YomikaeError>,
) -> bool {
    &&& rep.size_of_analysis == key_seq(analysis).to_set().len()
    &&& summaries_match(
        rep.size_of_analysis_error,
        rep.size_of_not_analysis_yomikae_sentence,
        rep.analysis_error_data_contents_of_table@,
        rep.analysis_error_data_unmatched_parenthese@,
        rep.analysis_error_data_unexpected_parallel_words@,
        rep.analysis_not_found_sentence_data_other@,
        ds,
    )
    &&& rep.size_of_all == rep.size_of_analysis + rep.size_of_analysis_error.all
        + rep.size_of_not_analysis_yomikae_sentence.all
}

/// Count conservation: the grand total equals the analyzed count plus the
/// sum of the failure bucket counts plus the sum of the not-found bucket
/// counts.
pub proof fn lemma_count_conservation(
    rep: DataOfAnalysisYomikae,
    analysis: Seq<YomikaeInfo>,
    ds: Seq<YomikaeError>,
)
    requires
        report_matches(rep, analysis, ds),
    ensures
        rep.size_of_all == rep.size_of_analysis + (rep.size_of_analysis_error.contents_of_table
            + rep.size_of_analysis_error.unmatched_parenthese
            + rep.size_of_analysis_error.unexpected_parallel_words) + (
        rep.size_of_not_analysis_yomikae_sentence.in_kagi_paren
            + rep.size_of_not_analysis_yomikae_sentence.table_contents
            + rep.size_of_not_analysis_yomikae_sentence.not_contains_toyomikaeru
            + rep.size_of_not_analysis_yomikae_sentence.other),
{
}

/// Walk the (deduplicated) failure list once, in order: count the three
/// detailed failure kinds and append their clause records, and sub-classify
/// each not-found record's text into its bucket. A not-found record without
/// plain text is an internal defect and aborts the walk.
pub fn classify_errors(errors: Vec<YomikaeError>) -> (r: Result<ClassifiedErrors, AnalysisDefect>)
    ensures
        (r is Ok) <==> all_not_found_texts(errors@),
        r matches Ok(c) ==> classified_matches(c, errors@),
        r matches Ok(c) ==> c.size_of_analysis_error.all
            + c.size_of_not_analysis_yomikae_sentence.all <= errors@.len(),
        r matches Err(defect) ==> defect == AnalysisDefect::NonTextContents,
{
    let ghost orig = errors@;
    let mut rest = errors;
    let total = rest.len();
    let mut i: usize = 0;
    let mut contents_of_table: usize = 0;
    let mut unmatched_parenthese: usize = 0;
    let mut unexpected_parallel_words: usize = 0;
    let mut size_of_analysis_error_all: usize = 0;
    let mut size_nf: usize = 0;
    let mut in_kagi: usize = 0;
    let mut table_c: usize = 0;
    let mut not_contains: usize = 0;
    let mut data_cot: Vec<LawInfo> = Vec::new();
    let mut data_unm: Vec<LawInfo> = Vec::new();
    let mut data_upw: Vec<LawInfo> = Vec::new();
    let mut data_other: Vec<LawInfo> = Vec::new();
    proof {
        assert(rest@ =~= orig.skip(0));
        assert(orig.take(0) =~= Seq::<YomikaeError>::empty());
    }
    #[verifier::loop_isolation(false)]
    while rest.len() > 0
        invariant
            orig.len() == total,
            i + rest@.len() == orig.len(),
            rest@ == orig.skip(i as int),
            all_not_found_texts(orig.take(i as int)),
            data_cot@ == infos_contents_of_table(orig.take(i as int)),
            data_unm@ == infos_unmatched_paren(orig.take(i as int)),
            data_upw@ == infos_unexpected_parallel_words(orig.take(i as int)),
            data_other@ == infos_not_found_other(orig.take(i as int)),
            contents_of_table == data_cot@.len(),
            unmatched_parenthese == data_unm@.len(),
            unexpected_parallel_words == data_upw@.len(),
            size_of_analysis_error_all == contents_of_table + unmatched_parenthese
                + unexpected_parallel_words,
            size_nf == count_not_found(orig.take(i as int)),
            in_kagi == count_not_found_bucket(orig.take(i as int), NotFoundBucket::InKagiParen),
            table_c == count_not_found_bucket(orig.take(i as int), NotFoundBucket::TableContents),
            not_contains == count_not_found_bucket(
                orig.take(i as int),
                NotFoundBucket::NotContainsMarker,
            ),
            data_other@.len() == count_not_found_bucket(
                orig.take(i as int),
                NotFoundBucket::Other,
            ),
            size_nf == in_kagi + table_c + not_contains + data_other@.len(),
            size_of_analysis_error_all + size_nf <= i,
        decreases rest@.len(),
    {
        let ghost prefix = orig.take(i as int);
        let x = rest.remove(0);
        proof {
            assert(orig.skip(i as int)[0] == orig[i as int]);
            assert(x == orig[i as int]);
            assert(rest@ =~= orig.skip(i as int + 1));
            let t1 = orig.take(i as int + 1);
            assert(t1.drop_last() =~= prefix);
            assert(t1.last() == x);
        }
        match x {
            YomikaeError::ContentsOfTable(info) => {
                size_of_analysis_error_all += 1;
                contents_of_table += 1;
                data_cot.push(info);
            },
            YomikaeError::UnmatchedParen(info) => {
                size_of_analysis_error_all += 1;
                unmatched_parenthese += 1;
                data_unm.push(info);
            },
            YomikaeError::UnexpectedParallelWords(info) => {
                size_of_analysis_error_all += 1;
                unexpected_parallel_words += 1;
                data_upw.push(info);
            },
            YomikaeError::NotFoundYomikae(info) => {
                size_nf += 1;
                match &info.contents {
                    LawContents::Text(text) => {
                        let bucket = classify_not_found_text(text.as_str());
                        proof {
                            assert(text_of(law_info_of(orig[i as int])) == text@);
                        }
                        match bucket {
                            NotFoundBucket::NotContainsMarker => {
                                not_contains += 1;
                            },
                            NotFoundBucket::InKagiParen => {
                                in_kagi += 1;
                            },
                            NotFoundBucket::TableContents => {
                                table_c += 1;
                            },
                            NotFoundBucket::Other => {
                                data_other.push(info);
                            },
                        }
                    },
                    LawContents::Table => {
                        proof {
                            assert(0 <= i < orig.len());
                            assert(is_not_found(orig[i as int]));
                            assert(!is_text(law_info_of(orig[i as int])));
                            assert(!all_not_found_texts(orig)) by {
                                if all_not_found_texts(orig) {
                                    assert(is_text(law_info_of(orig[i as int])));
                                }
                            }
                        }
                        return Err(AnalysisDefect::NonTextContents);
                    },
                }
            },
        }
        i += 1;
    }
    proof {
        assert(orig.take(i as int) =~= orig);
    }
    let size_of_analysis_error = SizeOfAnalysisError {
        all: size_of_analysis_error_all,
        contents_of_table,
        unmatched_parenthese,
        unexpected_parallel_words,
    };
    let other = size_nf - in_kagi - table_c - not_contains;
    let size_of_not_analysis_yomikae_sentence = SizeOfNotFoundYomikae {
        all: size_nf,
        in_kagi_paren: in_kagi,
        table_contents: table_c,
        not_contains_toyomikaeru: not_contains,
        other,
    };
    Ok(
        ClassifiedErrors {
            size_of_analysis_error,
            size_of_not_analysis_yomikae_sentence,
            analysis_error_data_contents_of_table: data_cot,
            analysis_error_data_unmatched_parenthese: data_unm,
            analysis_error_data_unexpected_parallel_words: data_upw,
            analysis_not_found_sentence_data_other: data_other,
        },
    )
}

/// The whole pipeline: count the distinct keys of the analyzed list, sort
/// and deduplicate the failure list by key, classify it, and assemble the
/// report. The result is stated against the (unique) sorted deduplication of
/// the failure list.
pub fn analyze_yomikae(
    analysis_data_lst: Vec<YomikaeInfo>,
    error_data_lst: Vec<YomikaeError>,
) -> (r: Result<DataOfAnalysisYomikae, AnalysisDefect>)
    requires
        analysis_data_lst@.len() + error_data_lst@.len() <= usize::MAX,
    ensures
        exists|ds: Seq<YomikaeError>| #[trigger] is_sorted_dedup_of(ds, error_data_lst@),
        r matches Err(defect) ==> defect == AnalysisDefect::NonTextContents,
        forall|ds: Seq<YomikaeError>|
            #[trigger] is_sorted_dedup_of(ds, error_data_lst@) ==> ((r is Ok)
                <==> all_not_found_texts(ds)) && (r matches Ok(rep) ==> report_matches(
                rep,
                analysis_data_lst@,
                ds,
            )),
{
    let ghost analysis_seq = analysis_data_lst@;
    let ghost errors_seq = error_data_lst@;
    let size_of_analysis = count_distinct_keys(analysis_data_lst);
    let deduped = sort_dedup(error_data_lst);
    let ghost ds0 = deduped@;
    match classify_errors(deduped) {
        Err(defect) => {
            proof {
                assert forall|ds: Seq<YomikaeError>|
                    #[trigger] is_sorted_dedup_of(ds, errors_seq) implies !all_not_found_texts(
                    ds,
                ) by {
                    lemma_sorted_dedup_unique(errors_seq, ds, ds0);
                }
            }
            Err(defect)
        },
        Ok(c) => {
            let size_of_all = size_of_analysis + c.size_of_analysis_error.all
                + c.size_of_not_analysis_yomikae_sentence.all;
            let rep = DataOfAnalysisYomikae {
                size_of_all,
                size_of_analysis,
                size_of_analysis_error: c.size_of_analysis_error,
                size_of_not_analysis_yomikae_sentence: c.size_of_not_analysis_yomikae_sentence,
                analysis_error_data_contents_of_table: c.analysis_error_data_contents_of_table,
                analysis_error_data_unmatched_parenthese:
                    c.analysis_error_data_unmatched_parenthese,
                analysis_error_data_unexpected_parallel_words:
                    c.analysis_error_data_unexpected_parallel_words,
                analysis_not_found_sentence_data_other: c.analysis_not_found_sentence_data_other,
            };
            proof {
                assert forall|ds: Seq<YomikaeError>|
                    #[trigger] is_sorted_dedup_of(ds, errors_seq) implies all_not_found_texts(ds)
                    && report_matches(rep, analysis_seq, ds) by {
                    lemma_sorted_dedup_unique(errors_seq, ds, ds0);
                }
            }
            Ok(rep)
        },
    }
}

/// The sum of a sequence of group sizes.
pub open spec fn sum_of(s: Seq<usize>) -> nat
    decreases s.len(),
{
    if s.len() == 0 {
        0
    } else {
        (sum_of(s.drop_last()) + s.last()) as nat
    }
}

proof fn lemma_sum_of_take_le(s: Seq<usize>, i: int)
    requires
        0 <= i <= s.len(),
    ensures
        sum_of(s.take(i)) <= sum_of(s),
    decreases s.len(),
{
    if i == s.len() {
        assert(s.take(i) =~= s);
    } else {
        assert(s.take(i) =~= s.drop_last().take(i));
        lemma_sum_of_take_le(s.drop_last(), i);
    }
}

/// Alternative (three-way taxonomy) mode: the total number of candidate
/// paragraphs over the chapter-list groups, given each group's size; `None`
/// when the total does not fit in `usize`.
pub fn sum_candidate_counts(group_sizes: &Vec<usize>) -> (r: Option<usize>)
    ensures
        (r is Some) <==> sum_of(group_sizes@) <= usize::MAX,
        r matches Some(n) ==> n == sum_of(group_sizes@),
{
    let n = group_sizes.len();
    let mut acc: usize = 0;
    let mut i: usize = 0;
    proof {
        assert(group_sizes@.take(0) =~= Seq::<usize>::empty());
    }
    while i < n
        invariant
            n == group_sizes@.len(),
            i <= n,
            acc == sum_of(group_sizes@.take(i as int)),
        decreases n - i,
    {
        let g = group_sizes[i];
        proof {
            let t1 = group_sizes@.take(i as int + 1);
            assert(t1.drop_last() =~= group_sizes@.take(i as int));
            assert(t1.last() == group_sizes@[i as int]);
        }
        if usize::MAX - acc < g {
            proof {
                lemma_sum_of_take_le(group_sizes@, i as int + 1);
            }
            return None;
        }
        acc += g;
        i += 1;
    }
    proof {
        assert(group_sizes@.take(i as int) =~= group_sizes@);
    }
    Some(acc)
}

/// Alternative (three-way taxonomy) mode: the number of candidate paragraphs
/// that were neither analyzed nor reported as failures. A candidate total
/// below the other two counts is an internal invariant violation, never
/// clamped.
pub fn count_not_analyzed(
    total_candidates: usize,
    size_of_analysis: usize,
    size_of_analysis_error: usize,
) -> (r: Result<usize, AnalysisDefect>)
    ensures
        (r is Ok) <==> size_of_analysis + size_of_analysis_error <= total_candidates,
        r matches Ok(n) ==> n == total_candidates - size_of_analysis - size_of_analysis_error,
        r matches Err(defect) ==> defect == AnalysisDefect::NegativeNotAnalyzed,
{
    if size_of_analysis <= total_candidates && size_of_analysis_error <= total_candidates
        - size_of_analysis {
        Ok(total_candidates - size_of_analysis - size_of_analysis_error)
    } else {
        Err(AnalysisDefect::NegativeNotAnalyzed)
    }
}

} // verus!
