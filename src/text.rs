use vstd::prelude::*;

verus! {

/// Whether two strings hold the same characters.
pub fn str_eq(a: &str, b: &str) -> (r: bool)
    ensures
        r == (a@ == b@),
{
    let n = a.unicode_len();
    let m = b.unicode_len();
    if n != m {
        return false;
    }
    let mut i: usize = 0;
    while i < n
        invariant
            n == a@.len(),
            m == b@.len(),
            n == m,
            i <= n,
            a@.subrange(0, i as int) == b@.subrange(0, i as int),
        decreases n - i,
    {
        if a.get_char(i) != b.get_char(i) {
            return false;
        }
        assert(a@.subrange(0, i + 1) == a@.subrange(0, i as int).push(a@[i as int]));
        assert(b@.subrange(0, i + 1) == b@.subrange(0, i as int).push(b@[i as int]));
        i = i + 1;
    }
    assert(a@ == a@.subrange(0, n as int));
    assert(b@ == b@.subrange(0, n as int));
    true
}

/// A full-width katakana letter (ァ to ヴ) or the long-vowel mark ー.
pub open spec fn is_katakana(c: char) -> bool {
    ('\u{30A1}' <= c && c <= '\u{30F4}') || c == '\u{30FC}'
}

/// A small katakana letter that joins the mora before it.
pub open spec fn is_small_kana(c: char) -> bool {
    c == '\u{30A1}' || c == '\u{30A3}' || c == '\u{30A5}' || c == '\u{30A7}' || c == '\u{30A9}'
        || c == '\u{30E3}' || c == '\u{30E5}' || c == '\u{30E7}' || c == '\u{30EE}'
}

/// A reading: non-empty, all katakana, not opening with a small letter.
pub open spec fn is_reading(s: Seq<char>) -> bool {
    &&& s.len() > 0
    &&& !is_small_kana(s[0])
    &&& forall|i: int| 0 <= i < s.len() ==> #[trigger] is_katakana(s[i])
}

/// The number of morae of a katakana reading: every letter but the small ones.
pub open spec fn mora_count(s: Seq<char>) -> nat
    decreases s.len(),
{
    if s.len() == 0 {
        0
    } else {
        mora_count(s.drop_last()) + if is_small_kana(s.last()) { 0nat } else { 1nat }
    }
}

pub fn is_small_kana_char(c: char) -> (r: bool)
    ensures
        r == is_small_kana(c),
{
    c == '\u{30A1}' || c == '\u{30A3}' || c == '\u{30A5}' || c == '\u{30A7}' || c == '\u{30A9}'
        || c == '\u{30E3}' || c == '\u{30E5}' || c == '\u{30E7}' || c == '\u{30EE}'
}

/// Checks a reading and counts its morae: `Some(count)` exactly when `s` is a reading.
pub fn reading_mora_count(s: &str) -> (r: Option<usize>)
    ensures
        r is Some <==> is_reading(s@),
        r matches Some(n) ==> n as nat == mora_count(s@),
{
    let n = s.unicode_len();
    if n == 0 {
        return None;
    }
    if is_small_kana_char(s.get_char(0)) {
        return None;
    }
    let mut count: usize = 0;
    let mut i: usize = 0;
    while i < n
        invariant
            n == s@.len(),
            i <= n,
            count as nat == mora_count(s@.subrange(0, i as int)),
            count <= i,
            forall|k: int| 0 <= k < i ==> #[trigger] is_katakana(s@[k]),
        decreases n - i,
    {
        let c = s.get_char(i);
        if !(('\u{30A1}' <= c && c <= '\u{30F4}') || c == '\u{30FC}') {
            assert(!is_katakana(s@[i as int]));
            return None;
        }
        assert(s@.subrange(0, i + 1).drop_last() == s@.subrange(0, i as int));
        if !is_small_kana_char(c) {
            count = count + 1;
        }
        i = i + 1;
    }
    assert(s@.subrange(0, n as int) == s@);
    Some(count)
}

} // verus!
