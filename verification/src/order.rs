//! The composite record key `(num, chapter)` and its total order:
//! document numbers compare lexicographically as character sequences, and
//! ties are broken by the chapter locator's own lexicographic field order.

use vstd::prelude::*;
use vstd::string::StrSliceExecFns;

verus! {

/// Structured locator for a position within a legal document, ordered
/// lexicographically by part, then chapter, then section, then article.
#[derive(Debug, Clone, Copy, Hash, PartialEq, Eq, Structural)]
pub struct Chapter {
    pub part: u64,
    pub chapter: u64,
    pub section: u64,
    pub article: u64,
}

/// Strict lexicographic order on chapter locators.
pub open spec fn chapter_lt(a: Chapter, b: Chapter) -> bool {
    ||| a.part < b.part
    ||| (a.part == b.part && a.chapter < b.chapter)
    ||| (a.part == b.part && a.chapter == b.chapter && a.section < b.section)
    ||| (a.part == b.part && a.chapter == b.chapter && a.section == b.section && a.article
        < b.article)
}

/// Strict lexicographic order on character sequences (code-point order).
pub open spec fn str_lt(a: Seq<char>, b: Seq<char>) -> bool
    decreases a.len(),
{
    if b.len() == 0 {
        false
    } else if a.len() == 0 {
        true
    } else if a[0] != b[0] {
        a[0] < b[0]
    } else {
        str_lt(a.skip(1), b.skip(1))
    }
}

pub proof fn lemma_str_lt_irrefl(a: Seq<char>)
    ensures
        !str_lt(a, a),
    decreases a.len(),
{
    if a.len() > 0 {
        lemma_str_lt_irrefl(a.skip(1));
    }
}

pub proof fn lemma_str_lt_asym(a: Seq<char>, b: Seq<char>)
    requires
        str_lt(a, b),
    ensures
        !str_lt(b, a),
    decreases a.len(),
{
    if b.len() == 0 {
    } else if a.len() == 0 {
    } else if a[0] != b[0] {
    } else {
        lemma_str_lt_asym(a.skip(1), b.skip(1));
    }
}

pub proof fn lemma_str_lt_trichotomy(a: Seq<char>, b: Seq<char>)
    ensures
        str_lt(a, b) || str_lt(b, a) || a == b,
    decreases a.len(),
{
    if b.len() == 0 {
        if a.len() == 0 {
            assert(a =~= b);
        }
    } else if a.len() == 0 {
    } else if a[0] != b[0] {
    } else {
        lemma_str_lt_trichotomy(a.skip(1), b.skip(1));
        if !str_lt(a, b) && !str_lt(b, a) {
            assert(a.skip(1) == b.skip(1));
            assert forall|i: int| 0 <= i < a.len() implies a[i] == b[i] by {
                if i > 0 {
                    assert(a[i] == a.skip(1)[i - 1]);
                    assert(b[i] == b.skip(1)[i - 1]);
                }
            }
            assert(a =~= b);
        }
    }
}

pub proof fn lemma_str_lt_trans(a: Seq<char>, b: Seq<char>, c: Seq<char>)
    requires
        str_lt(a, b),
        str_lt(b, c),
    ensures
        str_lt(a, c),
    decreases a.len(),
{
    if a.len() == 0 {
    } else {
        if a[0] == b[0] && b[0] == c[0] {
            lemma_str_lt_trans(a.skip(1), b.skip(1), c.skip(1));
        }
    }
}

/// The composite key on which records are deduplicated and sorted.
pub open spec fn key_lt(a: (Seq<char>, Chapter), b: (Seq<char>, Chapter)) -> bool {
    str_lt(a.0, b.0) || (a.0 == b.0 && chapter_lt(a.1, b.1))
}

pub proof fn lemma_key_lt_irrefl(k: (Seq<char>, Chapter))
    ensures
        !key_lt(k, k),
{
    lemma_str_lt_irrefl(k.0);
}

pub proof fn lemma_key_lt_asym(a: (Seq<char>, Chapter), b: (Seq<char>, Chapter))
    requires
        key_lt(a, b),
    ensures
        !key_lt(b, a),
        a != b,
{
    if str_lt(a.0, b.0) {
        lemma_str_lt_asym(a.0, b.0);
        lemma_str_lt_irrefl(a.0);
    }
}

pub proof fn lemma_key_lt_trichotomy(a: (Seq<char>, Chapter), b: (Seq<char>, Chapter))
    ensures
        key_lt(a, b) || key_lt(b, a) || a == b,
{
    lemma_str_lt_trichotomy(a.0, b.0);
    if !str_lt(a.0, b.0) && !str_lt(b.0, a.0) {
        if !chapter_lt(a.1, b.1) && !chapter_lt(b.1, a.1) {
            assert(a.1 == b.1);
            assert(a == b);
        }
    }
}

pub proof fn lemma_key_lt_trans(
    a: (Seq<char>, Chapter),
    b: (Seq<char>, Chapter),
    c: (Seq<char>, Chapter),
)
    requires
        key_lt(a, b),
        key_lt(b, c),
    ensures
        key_lt(a, c),
{
    if str_lt(a.0, b.0) && str_lt(b.0, c.0) {
        lemma_str_lt_trans(a.0, b.0, c.0);
    }
}

/// Lexicographic comparison of two string slices, by code point.
pub fn str_lt_exec(a: &str, b: &str) -> (r: bool)
    ensures
        r == str_lt(a@, b@),
{
    let alen = a.unicode_len();
    let blen = b.unicode_len();
    let n = if alen < blen {
        alen
    } else {
        blen
    };
    let mut i: usize = 0;
    proof {
        assert(a@.skip(0) =~= a@);
        assert(b@.skip(0) =~= b@);
    }
    while i < n
        invariant
            alen == a@.len(),
            blen == b@.len(),
            n == if alen < blen {
                alen
            } else {
                blen
            },
            i <= n,
            str_lt(a@, b@) == str_lt(a@.skip(i as int), b@.skip(i as int)),
        decreases n - i,
    {
        let ca = a.get_char(i);
        let cb = b.get_char(i);
        proof {
            assert(a@.skip(i as int)[0] == a@[i as int]);
            assert(b@.skip(i as int)[0] == b@[i as int]);
        }
        if ca != cb {
            return ca < cb;
        }
        proof {
            assert(a@.skip(i as int).skip(1) =~= a@.skip(i as int + 1));
            assert(b@.skip(i as int).skip(1) =~= b@.skip(i as int + 1));
        }
        i += 1;
    }
    proof {
        assert(a@.skip(i as int).len() == alen - i);
        assert(b@.skip(i as int).len() == blen - i);
    }
    alen < blen
}

/// Comparison of two chapter locators under `chapter_lt`.
pub fn chapter_lt_exec(a: &Chapter, b: &Chapter) -> (r: bool)
    ensures
        r == chapter_lt(*a, *b),
{
    if a.part != b.part {
        a.part < b.part
    } else if a.chapter != b.chapter {
        a.chapter < b.chapter
    } else if a.section != b.section {
        a.section < b.section
    } else {
        a.article < b.article
    }
}

} // verus!
