use vstd::prelude::*;

verus! {

/// One mora. The numeric fields hold the bit patterns of 32-bit IEEE-754
/// values (seconds for the lengths, log-frequency for the pitch): the
/// coordinator moves them, it never computes with them.
#[derive(Debug, Clone)]
pub struct Mora {
    pub text: String,
    pub consonant: Option<String>,
    pub consonant_length: Option<u32>,
    pub vowel: String,
    pub vowel_length: u32,
    pub pitch: u32,
}

/// A prosodic unit: its morae, the mora carrying the accent, an optional
/// pause after it, and whether it is spoken as a question.
#[derive(Debug, Clone)]
pub struct AccentPhrase {
    pub moras: Vec<Mora>,
    pub accent: u32,
    pub pause_mora: Option<Mora>,
    pub is_interrogative: bool,
}

/// Which numeric fields a prediction recomputes.
#[derive(Debug, Clone, Copy, PartialEq, Eq)]
pub enum Recompute {
    /// Lengths and pitch.
    MoraData,
    /// Consonant and vowel lengths.
    PhonemeLength,
    /// Pitch.
    MoraPitch,
}

/// `m` with the fields that `kind` recomputes taken from `p`.
pub open spec fn merged_mora(m: Mora, p: Mora, kind: Recompute) -> Mora {
    let lengths = kind != Recompute::MoraPitch;
    let pitch = kind != Recompute::PhonemeLength;
    Mora {
        consonant_length: if lengths { p.consonant_length } else { m.consonant_length },
        vowel_length: if lengths { p.vowel_length } else { m.vowel_length },
        pitch: if pitch { p.pitch } else { m.pitch },
        ..m
    }
}

/// Two phrases have the same shape: as many morae, and a pause in both or in neither.
pub open spec fn same_phrase_shape(a: AccentPhrase, b: AccentPhrase) -> bool {
    a.moras@.len() == b.moras@.len() && (a.pause_mora is Some) == (b.pause_mora is Some)
}

/// Two phrase sequences have the same shape, phrase by phrase.
pub open spec fn same_shape(a: Seq<AccentPhrase>, b: Seq<AccentPhrase>) -> bool {
    a.len() == b.len() && forall|i: int| 0 <= i < a.len() ==> same_phrase_shape(#[trigger] a[i], b[i])
}

/// `r` is `a` with the recomputed fields of each mora, pause included, taken from `p`.
pub open spec fn merged_phrase(r: AccentPhrase, a: AccentPhrase, p: AccentPhrase, kind: Recompute) -> bool {
    &&& r.moras@.len() == a.moras@.len()
    &&& forall|j: int| 0 <= j < a.moras@.len() ==> #[trigger] r.moras@[j] == merged_mora(a.moras@[j], p.moras@[j], kind)
    &&& r.accent == a.accent
    &&& r.is_interrogative == a.is_interrogative
    &&& match (a.pause_mora, p.pause_mora) {
        (Some(x), Some(y)) => r.pause_mora == Some(merged_mora(x, y, kind)),
        _ => r.pause_mora is None,
    }
}

/// `r` is `a` with the recomputed fields taken from `p`, phrase by phrase.
pub open spec fn merged(r: Seq<AccentPhrase>, a: Seq<AccentPhrase>, p: Seq<AccentPhrase>, kind: Recompute) -> bool {
    r.len() == a.len() && forall|i: int| 0 <= i < a.len() ==> merged_phrase(#[trigger] r[i], a[i], p[i], kind)
}

/// `r` differs from `a` at most in the numeric fields that `kind` recomputes:
/// same phrases, same morae, same text, accents and flags.
pub open spec fn differs_only_in(r: Seq<AccentPhrase>, a: Seq<AccentPhrase>, kind: Recompute) -> bool {
    &&& r.len() == a.len()
    &&& forall|i: int| 0 <= i < a.len() ==> {
        &&& (#[trigger] r[i]).moras@.len() == a[i].moras@.len()
        &&& r[i].accent == a[i].accent
        &&& r[i].is_interrogative == a[i].is_interrogative
        &&& (r[i].pause_mora is Some) == (a[i].pause_mora is Some)
        &&& forall|j: int| 0 <= j < a[i].moras@.len() ==> kept_fields(#[trigger] r[i].moras@[j], a[i].moras@[j], kind)
        &&& (r[i].pause_mora matches Some(x) ==> kept_fields(x, a[i].pause_mora->0, kind))
    }
}

/// `x` agrees with `m` on every field that `kind` leaves alone.
pub open spec fn kept_fields(x: Mora, m: Mora, kind: Recompute) -> bool {
    &&& x.text == m.text
    &&& x.consonant == m.consonant
    &&& x.vowel == m.vowel
    &&& kind == Recompute::MoraPitch ==> x.consonant_length == m.consonant_length && x.vowel_length == m.vowel_length
    &&& kind == Recompute::PhonemeLength ==> x.pitch == m.pitch
}

fn copy_text(s: &Option<String>) -> (r: Option<String>)
    ensures
        r == *s,
{
    match s {
        Some(t) => Some(t.clone()),
        None => None,
    }
}

/// `m` with the fields that `kind` recomputes taken from `p`.
pub fn merge_mora(m: &Mora, p: &Mora, kind: Recompute) -> (r: Mora)
    ensures
        r == merged_mora(*m, *p, kind),
{
    let lengths = match kind {
        Recompute::MoraPitch => false,
        _ => true,
    };
    let pitch = match kind {
        Recompute::PhonemeLength => false,
        _ => true,
    };
    Mora {
        text: m.text.clone(),
        consonant: copy_text(&m.consonant),
        consonant_length: if lengths { p.consonant_length } else { m.consonant_length },
        vowel: m.vowel.clone(),
        vowel_length: if lengths { p.vowel_length } else { m.vowel_length },
        pitch: if pitch { p.pitch } else { m.pitch },
    }
}

/// Merges one phrase; requires the two to have the same shape.
pub fn merge_phrase(a: &AccentPhrase, p: &AccentPhrase, kind: Recompute) -> (r: AccentPhrase)
    requires
        same_phrase_shape(*a, *p),
    ensures
        merged_phrase(r, *a, *p, kind),
{
    let mut moras: Vec<Mora> = Vec::new();
    let mut j: usize = 0;
    while j < a.moras.len()
        invariant
            same_phrase_shape(*a, *p),
            j <= a.moras@.len(),
            moras@.len() == j,
            forall|k: int| 0 <= k < j ==> #[trigger] moras@[k] == merged_mora(a.moras@[k], p.moras@[k], kind),
        decreases a.moras@.len() - j,
    {
        moras.push(merge_mora(&a.moras[j], &p.moras[j], kind));
        j = j + 1;
    }
    let pause_mora = match (&a.pause_mora, &p.pause_mora) {
        (Some(x), Some(y)) => Some(merge_mora(x, y, kind)),
        _ => None,
    };
    AccentPhrase { moras, accent: a.accent, pause_mora, is_interrogative: a.is_interrogative }
}

/// Whether two phrase sequences have the same shape.
pub fn check_shape(a: &Vec<AccentPhrase>, p: &Vec<AccentPhrase>) -> (r: bool)
    ensures
        r == same_shape(a@, p@),
{
    if a.len() != p.len() {
        return false;
    }
    let mut i: usize = 0;
    while i < a.len()
        invariant
            a@.len() == p@.len(),
            i <= a@.len(),
            forall|k: int| 0 <= k < i ==> same_phrase_shape(#[trigger] a@[k], p@[k]),
        decreases a@.len() - i,
    {
        let same_pause = match (&a[i].pause_mora, &p[i].pause_mora) {
            (Some(_), Some(_)) => true,
            (None, None) => true,
            _ => false,
        };
        if a[i].moras.len() != p[i].moras.len() || !same_pause {
            assert(!same_phrase_shape(a@[i as int], p@[i as int]));
            return false;
        }
        i = i + 1;
    }
    true
}

/// Takes the fields that `kind` recomputes from the prediction `p` into a
/// copy of `a`; `None` where `p` does not have the shape of `a`. `a` itself is
/// left alone.
pub fn merge_prediction(a: &Vec<AccentPhrase>, p: &Vec<AccentPhrase>, kind: Recompute) -> (r: Option<Vec<AccentPhrase>>)
    ensures
        r is Some <==> same_shape(a@, p@),
        r matches Some(v) ==> merged(v@, a@, p@, kind),
{
    if !check_shape(a, p) {
        return None;
    }
    let mut out: Vec<AccentPhrase> = Vec::new();
    let mut i: usize = 0;
    while i < a.len()
        invariant
            same_shape(a@, p@),
            i <= a@.len(),
            out@.len() == i,
            forall|k: int| 0 <= k < i ==> merged_phrase(#[trigger] out@[k], a@[k], p@[k], kind),
        decreases a@.len() - i,
    {
        assert(same_phrase_shape(a@[i as int], p@[i as int]));
        out.push(merge_phrase(&a[i], &p[i], kind));
        i = i + 1;
    }
    Some(out)
}

/// A merge changes nothing but the fields that were recomputed.
pub proof fn lemma_merge_keeps_the_rest(r: Seq<AccentPhrase>, a: Seq<AccentPhrase>, p: Seq<AccentPhrase>, kind: Recompute)
    requires
        same_shape(a, p),
        merged(r, a, p, kind),
    ensures
        differs_only_in(r, a, kind),
{
    assert forall|i: int| 0 <= i < a.len() implies {
        &&& (#[trigger] r[i]).moras@.len() == a[i].moras@.len()
        &&& r[i].accent == a[i].accent
        &&& r[i].is_interrogative == a[i].is_interrogative
        &&& (r[i].pause_mora is Some) == (a[i].pause_mora is Some)
        &&& forall|j: int| 0 <= j < a[i].moras@.len() ==> kept_fields(#[trigger] r[i].moras@[j], a[i].moras@[j], kind)
        &&& (r[i].pause_mora matches Some(x) ==> kept_fields(x, a[i].pause_mora->0, kind))
    } by {
        assert(merged_phrase(r[i], a[i], p[i], kind));
        assert(same_phrase_shape(a[i], p[i]));
    }
}

} // verus!
