//! Textual sub-classification of "no read-as pattern found" clauses.
//!
//! The rules are ordered and first-match-wins: a text without the marker
//! phrase is bucketed first, then a text whose marker phrase sits inside a
//! single quotation-bracket span, then a text containing one of five literal
//! table-reference phrases, and everything else falls into the last bucket.

use vstd::prelude::*;
use vstd::string::StrSliceExecFns;

verus! {

/// The marker phrase of a read-as clause.
pub open spec fn marker() -> Seq<char> {
    seq!['と', '読', 'み', '替', 'え', 'る']
}

/// The five literal table-reference phrases, each ending in the marker.
pub open spec fn table_phrase_1() -> Seq<char> {
    seq!['そ', 'れ', 'ぞ', 'れ', '同', '表', 'の', '下', '欄', 'に', '掲', 'げ', 'る', '字', '句', 'と', '読', 'み', '替', 'え', 'る']
}

pub open spec fn table_phrase_2() -> Seq<char> {
    seq!['同', '表', '下', '欄', 'の', '字', '句', 'と', '読', 'み', '替', 'え', 'る']
}

pub open spec fn table_phrase_3() -> Seq<char> {
    seq!['同', '表', 'の', '下', '欄', 'の', '字', '句', 'と', '読', 'み', '替', 'え', 'る']
}

pub open spec fn table_phrase_4() -> Seq<char> {
    seq!['下', '欄', 'に', '掲', 'げ', 'る', '字', '句', 'と', '読', 'み', '替', 'え', 'る']
}

pub open spec fn table_phrase_5() -> Seq<char> {
    seq!['同', '表', 'の', '下', '欄', 'に', '掲', 'げ', 'る', '日', '又', 'は', '月', 'と', '読', 'み', '替', 'え', 'る']
}

/// `pat` occurs in `s` starting at position `i`.
pub open spec fn seq_contains_at(s: Seq<char>, pat: Seq<char>, i: int) -> bool {
    &&& 0 <= i
    &&& i + pat.len() <= s.len()
    &&& s.subrange(i, i + pat.len() as int) == pat
}

/// `pat` occurs somewhere in `s`.
pub open spec fn seq_contains(s: Seq<char>, pat: Seq<char>) -> bool {
    exists|i: int| seq_contains_at(s, pat, i)
}

/// `s` contains one of the five table-reference phrases.
pub open spec fn contains_table_phrase(s: Seq<char>) -> bool {
    ||| seq_contains(s, table_phrase_1())
    ||| seq_contains(s, table_phrase_2())
    ||| seq_contains(s, table_phrase_3())
    ||| seq_contains(s, table_phrase_4())
    ||| seq_contains(s, table_phrase_5())
}

/// An opening quotation bracket at `i`, a nonempty run of characters free of
/// closing brackets, the marker phrase at `j`, then a run free of brackets of
/// either kind up to a closing bracket at `l`.
pub open spec fn kagi_match_at(s: Seq<char>, i: int, j: int, l: int) -> bool {
    &&& 0 <= i
    &&& i + 2 <= j
    &&& j + 6 <= l
    &&& l < s.len()
    &&& s[i] == '「'
    &&& (forall|k: int| i < k < j ==> s[k] != '」')
    &&& seq_contains_at(s, marker(), j)
    &&& (forall|k: int| j + 6 <= k < l ==> s[k] != '」' && s[k] != '「')
    &&& s[l] == '」'
}

/// The marker phrase occurs inside a single quotation-bracket span.
pub open spec fn kagi_match(s: Seq<char>) -> bool {
    exists|i: int, j: int, l: int| kagi_match_at(s, i, j, l)
}

/// The part of `kagi_match_at` to the left of a marker occurrence at `j`.
pub open spec fn kagi_left_ok(s: Seq<char>, j: int) -> bool {
    exists|i: int|
        0 <= i && i + 2 <= j && (#[trigger] s[i]) == '「' && (forall|k: int|
            i < k < j ==> s[k] != '」')
}

/// The part of `kagi_match_at` to the right of a marker occurrence at `j`.
pub open spec fn kagi_right_ok(s: Seq<char>, j: int) -> bool {
    exists|l: int|
        j + 6 <= l < s.len() && (#[trigger] s[l]) == '」' && (forall|k: int|
            j + 6 <= k < l ==> s[k] != '」' && s[k] != '「')
}

/// A full bracketed-marker match anchored at the marker occurrence `j`.
pub open spec fn kagi_at_marker(s: Seq<char>, j: int) -> bool {
    seq_contains_at(s, marker(), j) && kagi_left_ok(s, j) && kagi_right_ok(s, j)
}

pub proof fn lemma_kagi_iff(s: Seq<char>)
    ensures
        kagi_match(s) <==> exists|j: int| #[trigger] kagi_at_marker(s, j),
{
    if kagi_match(s) {
        let (i, j, l) = choose|i: int, j: int, l: int| kagi_match_at(s, i, j, l);
        assert(kagi_at_marker(s, j));
    }
    if exists|j: int| #[trigger] kagi_at_marker(s, j) {
        let j = choose|j: int| #[trigger] kagi_at_marker(s, j);
        let i = choose|i: int|
            0 <= i && i + 2 <= j && (#[trigger] s[i]) == '「' && (forall|k: int|
                i < k < j ==> s[k] != '」');
        let l = choose|l: int|
            j + 6 <= l < s.len() && (#[trigger] s[l]) == '」' && (forall|k: int|
                j + 6 <= k < l ==> s[k] != '」' && s[k] != '「');
        assert(kagi_match_at(s, i, j, l));
    }
}

/// The classification buckets for a clause in which no read-as pattern was
/// found, in rule order.
#[derive(Debug, Clone, Copy, PartialEq, Eq, Structural)]
pub enum NotFoundBucket {
    /// The text does not contain the marker phrase at all.
    NotContainsMarker,
    /// The marker phrase sits inside a single quotation-bracket span.
    InKagiParen,
    /// The text contains a literal table-reference phrase.
    TableContents,
    /// None of the rules above applied; kept with full detail.
    Other,
}

/// The ordered, first-match-wins classification of a clause text.
pub open spec fn classify_spec(s: Seq<char>) -> NotFoundBucket {
    if !seq_contains(s, marker()) {
        NotFoundBucket::NotContainsMarker
    } else if kagi_match(s) {
        NotFoundBucket::InKagiParen
    } else if contains_table_phrase(s) {
        NotFoundBucket::TableContents
    } else {
        NotFoundBucket::Other
    }
}

/// Classifier rule precedence: a text that matches the bracketed-marker rule
/// is bucketed as in-bracket even when it also contains a table-reference
/// phrase.
pub proof fn lemma_classifier_rule_precedence(s: Seq<char>)
    requires
        kagi_match(s),
        contains_table_phrase(s),
    ensures
        classify_spec(s) == NotFoundBucket::InKagiParen,
{
    let (i, j, l) = choose|i: int, j: int, l: int| kagi_match_at(s, i, j, l);
    assert(seq_contains_at(s, marker(), j));
}

/// Marker-absence short-circuit: a text without the marker phrase is bucketed
/// as not-containing-marker whatever else it contains.
pub proof fn lemma_marker_absence_short_circuit(s: Seq<char>)
    requires
        !seq_contains(s, marker()),
    ensures
        classify_spec(s) == NotFoundBucket::NotContainsMarker,
{
}

/// The characters of a string slice, in order.
pub fn str_to_chars(s: &str) -> (v: Vec<char>)
    ensures
        v@ == s@,
{
    let n = s.unicode_len();
    let mut v: Vec<char> = Vec::new();
    let mut i: usize = 0;
    while i < n
        invariant
            n == s@.len(),
            i <= n,
            v@ == s@.take(i as int),
        decreases n - i,
    {
        let c = s.get_char(i);
        v.push(c);
        proof {
            assert(v@ =~= s@.take(i as int + 1));
        }
        i += 1;
    }
    proof {
        assert(s@.take(n as int) =~= s@);
    }
    v
}

/// The marker phrase as characters.
pub fn marker_chars() -> (v: Vec<char>)
    ensures
        v@ == marker(),
{
    let mut v: Vec<char> = Vec::new();
    v.push('と');
    v.push('読');
    v.push('み');
    v.push('替');
    v.push('え');
    v.push('る');
    proof {
        assert(v@ =~= marker());
    }
    v
}

/// Whether `pat` occurs in `v` starting at `i`.
fn matches_at(v: &Vec<char>, pat: &Vec<char>, i: usize) -> (r: bool)
    requires
        i + pat@.len() <= v@.len(),
    ensures
        r == seq_contains_at(v@, pat@, i as int),
{
    let plen = pat.len();
    let vlen = v.len();
    let mut k: usize = 0;
    while k < plen
        invariant
            plen == pat@.len(),
            vlen == v@.len(),
            i + plen <= v@.len(),
            k <= plen,
            forall|m: int| 0 <= m < k ==> v@[i + m] == pat@[m],
        decreases plen - k,
    {
        if v[i + k] != pat[k] {
            proof {
                assert(v@.subrange(i as int, i as int + pat@.len() as int)[k as int] == v@[i + k]);
            }
            return false;
        }
        k += 1;
    }
    proof {
        assert(v@.subrange(i as int, i as int + pat@.len() as int) =~= pat@);
    }
    true
}

/// Whether `pat` occurs anywhere in `v`.
pub fn seq_contains_exec(v: &Vec<char>, pat: &Vec<char>) -> (r: bool)
    ensures
        r == seq_contains(v@, pat@),
{
    if pat.len() == 0 {
        proof {
            assert(v@.subrange(0, 0) =~= pat@);
            assert(seq_contains_at(v@, pat@, 0));
        }
        return true;
    }
    if pat.len() > v.len() {
        proof {
            assert forall|i: int| !seq_contains_at(v@, pat@, i) by {}
        }
        return false;
    }
    let vlen = v.len();
    let bound = vlen - pat.len();
    let mut i: usize = 0;
    while i <= bound
        invariant
            1 <= pat@.len() <= v@.len(),
            vlen == v@.len(),
            bound == v@.len() - pat@.len(),
            i <= bound + 1,
            forall|i2: int| 0 <= i2 < i ==> !seq_contains_at(v@, pat@, i2),
        decreases bound + 1 - i,
    {
        if matches_at(v, pat, i) {
            return true;
        }
        i += 1;
    }
    false
}

/// Scan left from a marker occurrence at `j` for an opening bracket with a
/// closing-bracket-free gap.
fn scan_left(v: &Vec<char>, j: usize) -> (r: bool)
    requires
        j <= v@.len(),
    ensures
        r == kagi_left_ok(v@, j as int),
{
    let mut t: usize = j;
    while t > 0
        invariant
            t <= j,
            j <= v@.len(),
            forall|k: int| t <= k < j ==> v@[k] != '」',
            forall|i: int| t <= i && i + 2 <= j ==> v@[i] != '「',
        decreases t,
    {
        let c = v[t - 1];
        if c == '」' {
            proof {
                assert forall|i: int|
                    0 <= i && i + 2 <= j && (#[trigger] v@[i]) == '「' implies !(forall|k: int|
                    i < k < j ==> v@[k] != '」') by {
                    if i < t - 1 {
                        assert(v@[t - 1] == '」');
                    } else {
                        assert(v@[i] != '「');
                    }
                }
            }
            return false;
        }
        if c == '「' && j >= 2 && t - 1 <= j - 2 {
            proof {
                assert(0 <= t - 1 && (t - 1) + 2 <= j && v@[t - 1] == '「');
                assert(forall|k: int| t - 1 < k < j ==> v@[k] != '」');
            }
            return true;
        }
        t -= 1;
    }
    proof {
        assert forall|i: int| 0 <= i && i + 2 <= j implies (#[trigger] v@[i]) != '「' by {}
    }
    false
}

/// Scan right from a marker occurrence at `j` for a closing bracket with a
/// bracket-free gap.
fn scan_right(v: &Vec<char>, j: usize) -> (r: bool)
    requires
        j + 6 <= v@.len(),
    ensures
        r == kagi_right_ok(v@, j as int),
{
    let vlen = v.len();
    let mut k: usize = j + 6;
    while k < v.len()
        invariant
            vlen == v@.len(),
            j + 6 <= k <= v@.len(),
            forall|m: int| j + 6 <= m < k ==> v@[m] != '」' && v@[m] != '「',
        decreases v@.len() - k,
    {
        let c = v[k];
        if c == '」' {
            proof {
                assert(j + 6 <= k < v@.len() && v@[k as int] == '」');
            }
            return true;
        }
        if c == '「' {
            proof {
                assert forall|l: int|
                    j + 6 <= l < v@.len() && (#[trigger] v@[l]) == '」' implies !(forall|m: int|
                    j + 6 <= m < l ==> v@[m] != '」' && v@[m] != '「') by {
                    if l > k {
                        assert(v@[k as int] == '「');
                    }
                }
            }
            return false;
        }
        k += 1;
    }
    false
}

/// Whether the marker phrase occurs inside a single quotation-bracket span.
pub fn kagi_match_exec(v: &Vec<char>) -> (r: bool)
    ensures
        r == kagi_match(v@),
{
    proof {
        lemma_kagi_iff(v@);
    }
    if v.len() < 6 {
        proof {
            assert forall|j: int| !kagi_at_marker(v@, j) by {}
        }
        return false;
    }
    let m = marker_chars();
    let vlen = v.len();
    let bound = vlen - 6;
    let mut j: usize = 0;
    while j <= bound
        invariant
            v@.len() >= 6,
            vlen == v@.len(),
            bound == v@.len() - 6,
            j <= bound + 1,
            m@ == marker(),
            forall|j2: int| 0 <= j2 < j ==> !kagi_at_marker(v@, j2),
        decreases bound + 1 - j,
    {
        if matches_at(v, &m, j) {
            if scan_left(v, j) {
                if scan_right(v, j) {
                    proof {
                        assert(kagi_at_marker(v@, j as int));
                        lemma_kagi_iff(v@);
                    }
                    return true;
                }
            }
        }
        j += 1;
    }
    proof {
        assert forall|j2: int| !kagi_at_marker(v@, j2) by {
            if 0 <= j2 < j {
            } else if j2 < 0 {
            } else {
                assert(j2 > bound);
                if seq_contains_at(v@, marker(), j2) {
                    assert(j2 + 6 <= v@.len());
                    assert(false);
                }
            }
        }
        lemma_kagi_iff(v@);
    }
    false
}

/// Whether any of the five table-reference phrases occurs in `v`.
fn contains_table_phrase_exec(v: &Vec<char>) -> (r: bool)
    ensures
        r == contains_table_phrase(v@),
{
    let mut p: Vec<char> = Vec::new();
    p.push('そ');
    p.push('れ');
    p.push('ぞ');
    p.push('れ');
    p.push('同');
    p.push('表');
    p.push('の');
    p.push('下');
    p.push('欄');
    p.push('に');
    p.push('掲');
    p.push('げ');
    p.push('る');
    p.push('字');
    p.push('句');
    p.push('と');
    p.push('読');
    p.push('み');
    p.push('替');
    p.push('え');
    p.push('る');
    proof {
        assert(p@ =~= table_phrase_1());
    }
    if seq_contains_exec(v, &p) {
        return true;
    }
    let mut p: Vec<char> = Vec::new();
    p.push('同');
    p.push('表');
    p.push('下');
    p.push('欄');
    p.push('の');
    p.push('字');
    p.push('句');
    p.push('と');
    p.push('読');
    p.push('み');
    p.push('替');
    p.push('え');
    p.push('る');
    proof {
        assert(p@ =~= table_phrase_2());
    }
    if seq_contains_exec(v, &p) {
        return true;
    }
    let mut p: Vec<char> = Vec::new();
    p.push('同');
    p.push('表');
    p.push('の');
    p.push('下');
    p.push('欄');
    p.push('の');
    p.push('字');
    p.push('句');
    p.push('と');
    p.push('読');
    p.push('み');
    p.push('替');
    p.push('え');
    p.push('る');
    proof {
        assert(p@ =~= table_phrase_3());
    }
    if seq_contains_exec(v, &p) {
        return true;
    }
    let mut p: Vec<char> = Vec::new();
    p.push('下');
    p.push('欄');
    p.push('に');
    p.push('掲');
    p.push('げ');
    p.push('る');
    p.push('字');
    p.push('句');
    p.push('と');
    p.push('読');
    p.push('み');
    p.push('替');
    p.push('え');
    p.push('る');
    proof {
        assert(p@ =~= table_phrase_4());
    }
    if seq_contains_exec(v, &p) {
        return true;
    }
    let mut p: Vec<char> = Vec::new();
    p.push('同');
    p.push('表');
    p.push('の');
    p.push('下');
    p.push('欄');
    p.push('に');
    p.push('掲');
    p.push('げ');
    p.push('る');
    p.push('日');
    p.push('又');
    p.push('は');
    p.push('月');
    p.push('と');
    p.push('読');
    p.push('み');
    p.push('替');
    p.push('え');
    p.push('る');
    proof {
        assert(p@ =~= table_phrase_5());
    }
    seq_contains_exec(v, &p)
}

/// Apply the ordered classification rules to one clause text.
pub fn classify_not_found_text(text: &str) -> (b: NotFoundBucket)
    ensures
        b == classify_spec(text@),
{
    let chars = str_to_chars(text);
    let m = marker_chars();
    if !seq_contains_exec(&chars, &m) {
        NotFoundBucket::NotContainsMarker
    } else if kagi_match_exec(&chars) {
        NotFoundBucket::InKagiParen
    } else if contains_table_phrase_exec(&chars) {
        NotFoundBucket::TableContents
    } else {
        NotFoundBucket::Other
    }
}

} // verus!
