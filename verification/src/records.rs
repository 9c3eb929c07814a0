//! The record kinds that flow through the pipeline: clause identities, their
//! text payloads, the success records and the four-way failure union, plus
//! the key projection shared by deduplication and sorting.

use crate::order::{
    chapter_lt, chapter_lt_exec, key_lt, lemma_str_lt_asym, lemma_str_lt_irrefl,
    lemma_str_lt_trichotomy, str_lt, str_lt_exec, Chapter,
};
use vstd::prelude::*;

verus! {

/// The contents payload of one clause occurrence. Only plain text can be
/// sub-classified; a table payload in that position is an internal defect.
#[derive(Debug, PartialEq, Eq)]
pub enum LawContents {
    Text(String),
    Table,
}

impl Clone for LawContents {
    fn clone(&self) -> (r: Self)
        ensures
            r == *self,
    {
        match self {
            LawContents::Text(s) => LawContents::Text(s.clone()),
            LawContents::Table => LawContents::Table,
        }
    }
}

/// Identity and payload of one clause occurrence under analysis.
#[derive(Debug, PartialEq, Eq)]
pub struct LawInfo {
    pub num: String,
    pub chapter: Chapter,
    pub contents: LawContents,
}

impl Clone for LawInfo {
    fn clone(&self) -> (r: Self)
        ensures
            r == *self,
    {
        LawInfo { num: self.num.clone(), chapter: self.chapter, contents: self.contents.clone() }
    }
}

/// A successfully analyzed clause; the report only counts these, so the
/// record carries its identity alone.
#[derive(Debug, PartialEq, Eq)]
pub struct YomikaeInfo {
    pub num: String,
    pub chapter: Chapter,
}

impl Clone for YomikaeInfo {
    fn clone(&self) -> (r: Self)
        ensures
            r == *self,
    {
        YomikaeInfo { num: self.num.clone(), chapter: self.chapter }
    }
}

/// Identity of one clause sentence.
#[derive(Debug, PartialEq, Eq)]
pub struct LawSentenceInfo {
    pub num: String,
    pub chapter: Chapter,
}

/// The four-way failure taxonomy of the analysis pass.
#[derive(Debug, PartialEq, Eq)]
pub enum YomikaeError {
    /// The clause references a table's contents rather than inline text.
    ContentsOfTable(LawInfo),
    /// The clause text has unbalanced bracket nesting.
    UnmatchedParen(LawInfo),
    /// The clause text contains an unresolvable parallel-word construct.
    UnexpectedParallelWords(LawInfo),
    /// No "read-as" substitution pattern was found at all; the wrapped
    /// record carries the clause text for sub-classification.
    NotFoundYomikae(LawInfo),
}

impl Clone for YomikaeError {
    fn clone(&self) -> (r: Self)
        ensures
            r == *self,
    {
        match self {
            YomikaeError::ContentsOfTable(i) => YomikaeError::ContentsOfTable(i.clone()),
            YomikaeError::UnmatchedParen(i) => YomikaeError::UnmatchedParen(i.clone()),
            YomikaeError::UnexpectedParallelWords(i) => YomikaeError::UnexpectedParallelWords(
                i.clone(),
            ),
            YomikaeError::NotFoundYomikae(i) => YomikaeError::NotFoundYomikae(i.clone()),
        }
    }
}

/// The clause record wrapped by a failure, whichever variant holds it.
pub open spec fn law_info_of(e: YomikaeError) -> LawInfo {
    match e {
        YomikaeError::ContentsOfTable(i) => i,
        YomikaeError::UnmatchedParen(i) => i,
        YomikaeError::UnexpectedParallelWords(i) => i,
        YomikaeError::NotFoundYomikae(i) => i,
    }
}

/// A record kind that exposes the composite `(num, chapter)` key.
pub trait Keyed: Sized {
    spec fn key(&self) -> (Seq<char>, Chapter);

    fn key_lt_exec(&self, other: &Self) -> (r: bool)
        ensures
            r == key_lt(self.key(), other.key()),
    ;
}

/// Comparison of a `num` string and chapter pair under `key_lt`.
fn num_chapter_lt_exec(an: &String, ac: &Chapter, bn: &String, bc: &Chapter) -> (r: bool)
    ensures
        r == key_lt((an@, *ac), (bn@, *bc)),
{
    if str_lt_exec(an.as_str(), bn.as_str()) {
        true
    } else if str_lt_exec(bn.as_str(), an.as_str()) {
        proof {
            lemma_str_lt_asym(bn@, an@);
            lemma_str_lt_irrefl(an@);
        }
        false
    } else {
        proof {
            lemma_str_lt_trichotomy(an@, bn@);
        }
        chapter_lt_exec(ac, bc)
    }
}

impl Keyed for YomikaeError {
    open spec fn key(&self) -> (Seq<char>, Chapter) {
        (law_info_of(*self).num@, law_info_of(*self).chapter)
    }

    fn key_lt_exec(&self, other: &Self) -> (r: bool)
        ensures
            r == key_lt(self.key(), other.key()),
    {
        let a = get_law_info_from_yomikae_error(self);
        let b = get_law_info_from_yomikae_error(other);
        num_chapter_lt_exec(&a.num, &a.chapter, &b.num, &b.chapter)
    }
}

impl Keyed for YomikaeInfo {
    open spec fn key(&self) -> (Seq<char>, Chapter) {
        (self.num@, self.chapter)
    }

    fn key_lt_exec(&self, other: &Self) -> (r: bool)
        ensures
            r == key_lt(self.key(), other.key()),
    {
        num_chapter_lt_exec(&self.num, &self.chapter, &other.num, &other.chapter)
    }
}

/// The clause record wrapped by a failure record.
pub fn get_law_info_from_yomikae_error(err: &YomikaeError) -> (r: LawInfo)
    ensures
        r == law_info_of(*err),
{
    match err {
        YomikaeError::ContentsOfTable(info) => info.clone(),
        YomikaeError::UnmatchedParen(info) => info.clone(),
        YomikaeError::UnexpectedParallelWords(info) => info.clone(),
        YomikaeError::NotFoundYomikae(info) => info.clone(),
    }
}

/// Whether two failure records share the same `(num, chapter)` key; payloads
/// are not compared.
pub fn is_eq_yomikae_error(a: &YomikaeError, b: &YomikaeError) -> (r: bool)
    ensures
        r == (a.key() == b.key()),
{
    let a_law_info = get_law_info_from_yomikae_error(a);
    let b_law_info = get_law_info_from_yomikae_error(b);
    a_law_info.num == b_law_info.num && a_law_info.chapter == b_law_info.chapter
}

/// Three-way comparison of two failure records by their composite key.
pub fn ord_yomikae_error(a: &YomikaeError, b: &YomikaeError) -> (r: core::cmp::Ordering)
    ensures
        (r == core::cmp::Ordering::Less) == key_lt(a.key(), b.key()),
        (r == core::cmp::Ordering::Greater) == key_lt(b.key(), a.key()),
        (r == core::cmp::Ordering::Equal) == (a.key() == b.key()),
{
    let a_law_info = get_law_info_from_yomikae_error(a);
    let b_law_info = get_law_info_from_yomikae_error(b);
    proof {
        lemma_str_lt_trichotomy(a_law_info.num@, b_law_info.num@);
        if str_lt(a_law_info.num@, b_law_info.num@) {
            lemma_str_lt_asym(a_law_info.num@, b_law_info.num@);
        }
        if str_lt(b_law_info.num@, a_law_info.num@) {
            lemma_str_lt_asym(b_law_info.num@, a_law_info.num@);
        }
        lemma_str_lt_irrefl(a_law_info.num@);
    }
    if str_lt_exec(a_law_info.num.as_str(), b_law_info.num.as_str()) {
        core::cmp::Ordering::Less
    } else if str_lt_exec(b_law_info.num.as_str(), a_law_info.num.as_str()) {
        core::cmp::Ordering::Greater
    } else if chapter_lt_exec(&a_law_info.chapter, &b_law_info.chapter) {
        core::cmp::Ordering::Less
    } else if chapter_lt_exec(&b_law_info.chapter, &a_law_info.chapter) {
        core::cmp::Ordering::Greater
    } else {
        core::cmp::Ordering::Equal
    }
}

} // verus!
