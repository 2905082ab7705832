use vstd::prelude::*;
use crate::error::{Error, WordField};
use crate::text::{is_reading, mora_count, reading_mora_count, str_eq};

verus! {

/// The highest priority a dictionary word may have.
pub const MAX_PRIORITY: u32 = 10;

/// The part of speech of a dictionary word.
#[derive(Debug, Clone, Copy, PartialEq, Eq)]
pub enum UserDictWordType {
    ProperNoun,
    CommonNoun,
    Verb,
    Adjective,
    Suffix,
}

/// A user-supplied pronunciation entry.
#[derive(Debug, Clone)]
pub struct UserDictWord {
    /// How the word is written.
    pub surface: String,
    /// How the word is read, in katakana.
    pub pronunciation: String,
    /// The mora that carries the accent; 0 for none.
    pub accent_type: u32,
    pub word_type: UserDictWordType,
    /// How strongly the word is preferred, from 0 to `MAX_PRIORITY`.
    pub priority: u32,
}

/// The first field of `w`, in the order surface, pronunciation, priority,
/// accent type, that breaks the word rules: a non-empty surface, a katakana
/// reading, a priority within range, an accent within the reading's morae.
pub open spec fn word_fault(w: UserDictWord) -> Option<WordField> {
    if w.surface@.len() == 0 {
        Some(WordField::Surface)
    } else if !is_reading(w.pronunciation@) {
        Some(WordField::Pronunciation)
    } else if w.priority > MAX_PRIORITY {
        Some(WordField::Priority)
    } else if w.accent_type > mora_count(w.pronunciation@) {
        Some(WordField::AccentType)
    } else {
        None
    }
}

/// Whether `w` keeps the word rules.
pub open spec fn valid_word(w: UserDictWord) -> bool {
    word_fault(w) is None
}

/// Checks `w` against the word rules, naming the first field that breaks them.
pub fn validate_word(w: &UserDictWord) -> (r: Result<(), Error>)
    ensures
        r is Ok <==> valid_word(*w),
        r is Err ==> (word_fault(*w) matches Some(f) && r == Err::<(), Error>(Error::ValidationError(f))),
{
    if w.surface.as_str().unicode_len() == 0 {
        return Err(Error::ValidationError(WordField::Surface));
    }
    match reading_mora_count(w.pronunciation.as_str()) {
        None => Err(Error::ValidationError(WordField::Pronunciation)),
        Some(n) => if w.priority > MAX_PRIORITY {
            Err(Error::ValidationError(WordField::Priority))
        } else if (w.accent_type as usize) <= n {
            Ok(())
        } else {
            Err(Error::ValidationError(WordField::AccentType))
        },
    }
}

impl UserDictWord {
    /// A copy equal to `self`.
    pub fn duplicate(&self) -> (r: UserDictWord)
        ensures
            r == *self,
    {
        UserDictWord {
            surface: self.surface.clone(),
            pronunciation: self.pronunciation.clone(),
            accent_type: self.accent_type,
            word_type: self.word_type,
            priority: self.priority,
        }
    }
}

/// An entry of a dictionary: the word's id and the word.
pub type Entry = (Seq<char>, UserDictWord);

/// Whether `id` is the id of some entry of `s`.
pub open spec fn has_id(s: Seq<Entry>, id: Seq<char>) -> bool {
    exists|i: int| 0 <= i < s.len() && #[trigger] s[i].0 == id
}

/// No two entries share an id.
pub open spec fn unique_ids(s: Seq<Entry>) -> bool {
    forall|i: int, j: int|
        0 <= i < s.len() && 0 <= j < s.len() && i != j ==> #[trigger] s[i].0 != #[trigger] s[j].0
}

/// `s` with entry `e` put in: in place of the entry with the same id, or at
/// the end where there is none.
pub open spec fn upsert(s: Seq<Entry>, e: Entry) -> Seq<Entry> {
    if has_id(s, e.0) {
        s.update(choose|i: int| 0 <= i < s.len() && #[trigger] s[i].0 == e.0, e)
    } else {
        s.push(e)
    }
}

/// `s` with every entry of `o` put in, in order: on an equal id the entry of
/// `o` wins.
pub open spec fn merged_entries(s: Seq<Entry>, o: Seq<Entry>) -> Seq<Entry>
    decreases o.len(),
{
    if o.len() == 0 {
        s
    } else {
        upsert(merged_entries(s, o.drop_last()), o.last())
    }
}

/// Word ids are never reused: an id issued to an earlier word stays in the
/// record of issued ids through every later call, and a new word only gets
/// an id outside that record, so it differs from every earlier one.
pub proof fn lemma_ids_never_reused(earlier: Seq<Seq<char>>, later: Seq<Seq<char>>, first: Seq<char>, second: Seq<char>)
    requires
        earlier.contains(first),
        forall|k: Seq<char>| earlier.contains(k) ==> #[trigger] later.contains(k),
        !later.contains(second),
    ensures
        first != second,
{
}

/// Whether `e` is one of the entries of `s`.
pub open spec fn has_entry(s: Seq<Entry>, e: Entry) -> bool {
    exists|i: int| 0 <= i < s.len() && #[trigger] s[i] == e
}

proof fn lemma_upsert(s: Seq<Entry>, e: Entry)
    requires
        unique_ids(s),
    ensures
        unique_ids(upsert(s, e)),
        has_entry(upsert(s, e), e),
        forall|x: Entry| has_entry(s, x) && x.0 != e.0 ==> #[trigger] has_entry(upsert(s, e), x),
        forall|k: Seq<char>| has_id(s, k) ==> #[trigger] has_id(upsert(s, e), k),
{
    let t = upsert(s, e);
    if has_id(s, e.0) {
        let c = choose|i: int| 0 <= i < s.len() && #[trigger] s[i].0 == e.0;
        assert(t[c] == e);
        assert forall|x: Entry| has_entry(s, x) && x.0 != e.0 implies #[trigger] has_entry(t, x) by {
            let i = choose|i: int| 0 <= i < s.len() && #[trigger] s[i] == x;
            assert(t[i] == x);
        }
        assert forall|k: Seq<char>| has_id(s, k) implies #[trigger] has_id(t, k) by {
            let i = choose|i: int| 0 <= i < s.len() && #[trigger] s[i].0 == k;
            assert(t[i].0 == k);
        }
        assert forall|i: int, j: int| 0 <= i < t.len() && 0 <= j < t.len() && i != j implies #[trigger] t[i].0
            != #[trigger] t[j].0 by {
            assert(t[i].0 == s[i].0);
            assert(t[j].0 == s[j].0);
        }
    } else {
        assert(t[s.len() as int] == e);
        assert forall|x: Entry| has_entry(s, x) && x.0 != e.0 implies #[trigger] has_entry(t, x) by {
            let i = choose|i: int| 0 <= i < s.len() && #[trigger] s[i] == x;
            assert(t[i] == x);
        }
        assert forall|k: Seq<char>| has_id(s, k) implies #[trigger] has_id(t, k) by {
            let i = choose|i: int| 0 <= i < s.len() && #[trigger] s[i].0 == k;
            assert(t[i].0 == k);
        }
        assert forall|i: int, j: int| 0 <= i < t.len() && 0 <= j < t.len() && i != j implies #[trigger] t[i].0
            != #[trigger] t[j].0 by {
            if i < s.len() {
                assert(t[i] == s[i]);
            }
            if j < s.len() {
                assert(t[j] == s[j]);
            }
        }
    }
}

/// Importing `o` into `s`: every entry of `o` is then in the dictionary,
/// over any entry with the same id, every id of `s` is kept, and ids stay
/// unique.
pub proof fn lemma_import_last_writer_wins(s: Seq<Entry>, o: Seq<Entry>)
    requires
        unique_ids(s),
        unique_ids(o),
    ensures
        unique_ids(merged_entries(s, o)),
        forall|i: int| 0 <= i < o.len() ==> has_entry(merged_entries(s, o), #[trigger] o[i]),
        forall|k: Seq<char>| has_id(s, k) ==> #[trigger] has_id(merged_entries(s, o), k),
    decreases o.len(),
{
    if o.len() > 0 {
        let rest = o.drop_last();
        assert forall|i: int, j: int| 0 <= i < rest.len() && 0 <= j < rest.len() && i != j implies #[trigger] rest[i].0
            != #[trigger] rest[j].0 by {
            assert(rest[i] == o[i] && rest[j] == o[j]);
        }
        lemma_import_last_writer_wins(s, rest);
        let m = merged_entries(s, rest);
        lemma_upsert(m, o.last());
        assert forall|i: int| 0 <= i < o.len() implies has_entry(merged_entries(s, o), #[trigger] o[i]) by {
            if i < o.len() - 1 {
                assert(rest[i] == o[i]);
                assert(has_entry(m, rest[i]));
                assert(o[i].0 != o[o.len() - 1].0);
            }
        }
    }
}

/// A user dictionary: its entries in the order they came in, with unique ids.
pub struct UserDict {
    entries: Vec<(String, UserDictWord)>,
    issued: Vec<String>,
}

impl View for UserDict {
    type V = Seq<Entry>;

    closed spec fn view(&self) -> Seq<Entry> {
        self.entries@.map_values(|e: (String, UserDictWord)| (e.0@, e.1))
    }
}

/// Copies a sequence of strings.
fn copy_ids(s: &Vec<String>) -> (r: Vec<String>)
    ensures
        r@ == s@,
{
    let mut r: Vec<String> = Vec::new();
    let mut i: usize = 0;
    while i < s.len()
        invariant
            i <= s@.len(),
            r@ == s@.subrange(0, i as int),
        decreases s@.len() - i,
    {
        r.push(s[i].clone());
        i = i + 1;
    }
    assert(s@.subrange(0, s@.len() as int) == s@);
    r
}

impl UserDict {
    /// Every id this dictionary ever held or handed out, removed ones included.
    pub closed spec fn issued(&self) -> Seq<Seq<char>> {
        self.issued@.map_values(|k: String| k@)
    }

    /// Ids are unique and on record as issued, and every word keeps the word rules.
    pub open spec fn wf(&self) -> bool {
        &&& unique_ids(self@)
        &&& forall|i: int| 0 <= i < self@.len() ==> valid_word(#[trigger] self@[i].1)
        &&& forall|i: int| 0 <= i < self@.len() ==> self.issued().contains(#[trigger] self@[i].0)
    }

    /// An empty dictionary.
    pub fn new() -> (r: UserDict)
        ensures
            r.wf(),
            r@.len() == 0,
            r.issued().len() == 0,
    {
        let r = UserDict { entries: Vec::new(), issued: Vec::new() };
        assert(r@ =~= Seq::<Entry>::empty());
        assert(r.issued() =~= Seq::<Seq<char>>::empty());
        r
    }

    /// The position of the entry with id `id`, if there is one.
    fn position(&self, id: &str) -> (r: Option<usize>)
        ensures
            r matches Some(i) ==> i < self@.len() && self@[i as int].0 == id@,
            r is None <==> !has_id(self@, id@),
    {
        let mut i: usize = 0;
        while i < self.entries.len()
            invariant
                i <= self@.len(),
                self@.len() == self.entries@.len(),
                forall|k: int| 0 <= k < i ==> #[trigger] self@[k].0 != id@,
            decreases self@.len() - i,
        {
            assert(self@[i as int].0 == self.entries@[i as int].0@);
            if str_eq(self.entries[i].0.as_str(), id) {
                return Some(i);
            }
            i = i + 1;
        }
        None
    }

    /// Tells whether `id` was ever issued by this dictionary.
    fn was_issued(&self, id: &str) -> (r: bool)
        ensures
            r == self.issued().contains(id@),
    {
        let mut i: usize = 0;
        while i < self.issued.len()
            invariant
                i <= self.issued@.len(),
                forall|k: int| 0 <= k < i ==> #[trigger] self.issued@[k]@ != id@,
            decreases self.issued@.len() - i,
        {
            if str_eq(self.issued[i].as_str(), id) {
                assert(self.issued()[i as int] == id@);
                return true;
            }
            i = i + 1;
        }
        assert forall|k: int| 0 <= k < self.issued().len() implies self.issued()[k] != id@ by {
            assert(self.issued()[k] == self.issued@[k]@);
        }
        false
    }

    /// Puts `id` on the record of issued ids.
    fn record(&mut self, id: &String)
        ensures
            final(self)@ == old(self)@,
            final(self).issued() == old(self).issued().push(id@),
    {
        let ghost before = self.issued@;
        self.issued.push(id.clone());
        assert(self.issued() =~= before.map_values(|k: String| k@).push(id@));
    }

    /// Adds `word` under the id `id`, which the caller generated, and hands
    /// the id back. An invalid word, or an id that this dictionary issued
    /// before (even one since removed), leaves the dictionary as it was.
    pub fn add_word(&mut self, word: UserDictWord, id: String) -> (r: Result<String, Error>)
        requires
            old(self).wf(),
        ensures
            final(self).wf(),
            word_fault(word) matches Some(f) ==> r == Err::<String, Error>(Error::ValidationError(f))
                && final(self)@ == old(self)@ && final(self).issued() == old(self).issued(),
            valid_word(word) && old(self).issued().contains(id@) ==> r == Err::<String, Error>(
                Error::WordIdInUseError(id),
            ) && final(self)@ == old(self)@ && final(self).issued() == old(self).issued(),
            valid_word(word) && !old(self).issued().contains(id@) ==> (r matches Ok(k) && k@ == id@)
                && final(self)@ == old(self)@.push((id@, word)) && final(self).issued() == old(
                self,
            ).issued().push(id@),
            r matches Ok(k) ==> !old(self).issued().contains(k@) && final(self).issued().contains(k@),
            forall|k: Seq<char>| old(self).issued().contains(k) ==> #[trigger] final(self).issued().contains(k),
    {
        if let Err(e) = validate_word(&word) {
            return Err(e);
        }
        if self.was_issued(id.as_str()) {
            return Err(Error::WordIdInUseError(id));
        }
        let ghost before = self@;
        let ghost issued_before = self.issued();
        assert(!has_id(before, id@)) by {
            if has_id(before, id@) {
                let k = choose|k: int| 0 <= k < before.len() && #[trigger] before[k].0 == id@;
                assert(issued_before.contains(before[k].0));
            }
        }
        self.record(&id);
        let key = id.clone();
        self.entries.push((key, word));
        assert(self@ =~= before.push((id@, word)));
        assert(self@[before.len() as int].0 == id@);
        assert(self.issued()[issued_before.len() as int] == id@);
        assert forall|k: Seq<char>| issued_before.contains(k) implies #[trigger] self.issued().contains(k) by {
            let j = choose|j: int| 0 <= j < issued_before.len() && issued_before[j] == k;
            assert(self.issued()[j] == k);
        }
        assert forall|i: int| 0 <= i < self@.len() implies self.issued().contains(#[trigger] self@[i].0) by {
            if i < before.len() {
                assert(self@[i] == before[i]);
                assert(issued_before.contains(before[i].0));
            }
        }
        assert forall|i: int, j: int| 0 <= i < self@.len() && 0 <= j < self@.len() && i != j implies #[trigger] self@[i].0
            != #[trigger] self@[j].0 by {
            if i < before.len() {
                assert(self@[i] == before[i]);
            }
            if j < before.len() {
                assert(self@[j] == before[j]);
            }
        }
        assert(forall|k: int| 0 <= k < before.len() ==> self@[k] == before[k]);
        Ok(id)
    }

    /// Replaces the word with id `id` by `word`, in place. An unknown id is
    /// reported whatever the word; a known id with an invalid word is refused.
    pub fn update_word(&mut self, id: &str, word: UserDictWord) -> (r: Result<(), Error>)
        requires
            old(self).wf(),
        ensures
            final(self).wf(),
            final(self).issued() == old(self).issued(),
            !has_id(old(self)@, id@) ==> (r matches Err(Error::NotFoundError(k)) && k@ == id@)
                && final(self)@ == old(self)@,
            has_id(old(self)@, id@) ==> (word_fault(word) matches Some(f) ==> r == Err::<(), Error>(
                Error::ValidationError(f),
            ) && final(self)@ == old(self)@),
            has_id(old(self)@, id@) && valid_word(word) ==> r is Ok && final(self)@ == upsert(
                old(self)@,
                (id@, word),
            ),
    {
        match self.position(id) {
            None => Err(Error::NotFoundError(id.to_owned())),
            Some(i) => {
                if let Err(e) = validate_word(&word) {
                    return Err(e);
                }
                self.put_at(i, id.to_owned(), word);
                Ok(())
            },
        }
    }

    /// Writes entry (`id`, `word`) over the entry at `i`, which has the same id.
    fn put_at(&mut self, i: usize, id: String, word: UserDictWord)
        requires
            old(self).wf(),
            i < old(self)@.len(),
            old(self)@[i as int].0 == id@,
            valid_word(word),
        ensures
            final(self).wf(),
            final(self)@ == upsert(old(self)@, (id@, word)),
            final(self).issued() == old(self).issued(),
    {
        let ghost before = self@;
        let ghost c = choose|k: int| 0 <= k < before.len() && #[trigger] before[k].0 == id@;
        assert(has_id(before, id@));
        assert(c == i);
        self.entries.set(i, (id, word));
        assert(self@ =~= before.update(i as int, (id@, word)));
        assert(forall|k: int| 0 <= k < before.len() && k != i ==> self@[k] == before[k]);
        assert(self@[i as int].0 == before[i as int].0);
    }

    /// Removes the word with id `id` and hands it back. The id stays on the
    /// record of issued ids, so it is never handed out again.
    pub fn remove_word(&mut self, id: &str) -> (r: Result<UserDictWord, Error>)
        requires
            old(self).wf(),
        ensures
            final(self).wf(),
            final(self).issued() == old(self).issued(),
            !has_id(old(self)@, id@) ==> (r matches Err(Error::NotFoundError(k)) && k@ == id@)
                && final(self)@ == old(self)@,
            has_id(old(self)@, id@) ==> exists|i: int|
                0 <= i < old(self)@.len() && old(self)@[i].0 == id@ && r == Ok::<UserDictWord, Error>(old(self)@[i].1)
                    && #[trigger] final(self)@ == old(self)@.remove(i),
    {
        match self.position(id) {
            None => Err(Error::NotFoundError(id.to_owned())),
            Some(i) => {
                let ghost before = self@;
                let (_, word) = self.entries.remove(i);
                assert(self@ =~= before.remove(i as int));
                assert(forall|k: int| 0 <= k < self@.len() ==> #[trigger] self@[k] == before[if k < i { k } else { k + 1 }]);
                Ok(word)
            },
        }
    }

    /// Puts every entry of `other` into this dictionary, in order; where an id
    /// is in both, the entry of `other` wins.
    pub fn import(&mut self, other: &UserDict)
        requires
            old(self).wf(),
            other.wf(),
        ensures
            final(self).wf(),
            final(self)@ == merged_entries(old(self)@, other@),
            forall|i: int| 0 <= i < other@.len() ==> has_entry(final(self)@, #[trigger] other@[i]),
            forall|k: Seq<char>| has_id(old(self)@, k) ==> #[trigger] has_id(final(self)@, k),
            forall|k: Seq<char>| old(self).issued().contains(k) ==> #[trigger] final(self).issued().contains(k),
    {
        let ghost start = self@;
        let ghost issued_start = self.issued();
        let mut j: usize = 0;
        while j < other.entries.len()
            invariant
                self.wf(),
                other.wf(),
                j <= other@.len(),
                other@.len() == other.entries@.len(),
                self@ == merged_entries(start, other@.subrange(0, j as int)),
                forall|k: Seq<char>| issued_start.contains(k) ==> #[trigger] self.issued().contains(k),
            decreases other@.len() - j,
        {
            let id = other.entries[j].0.clone();
            let word = other.entries[j].1.duplicate();
            assert(other@[j as int] == (id@, word));
            assert(valid_word(other@[j as int].1));
            assert(other@.subrange(0, j + 1).drop_last() == other@.subrange(0, j as int));
            match self.position(id.as_str()) {
                Some(i) => self.put_at(i, id, word),
                None => {
                    let ghost before = self@;
                    let ghost issued_before = self.issued();
                    self.record(&id);
                    self.entries.push((id, word));
                    assert(self@ =~= before.push(other@[j as int]));
                    assert(forall|k: int| 0 <= k < before.len() ==> self@[k] == before[k]);
                    assert(self.issued()[issued_before.len() as int] == other@[j as int].0);
                    assert forall|k: Seq<char>| issued_before.contains(k) implies #[trigger] self.issued().contains(k) by {
                        let x = choose|x: int| 0 <= x < issued_before.len() && issued_before[x] == k;
                        assert(self.issued()[x] == k);
                    }
                    assert forall|i: int| 0 <= i < self@.len() implies self.issued().contains(#[trigger] self@[i].0) by {
                        if i < before.len() {
                            assert(issued_before.contains(before[i].0));
                        }
                    }
                },
            }
            j = j + 1;
        }
        assert(other@.subrange(0, other@.len() as int) == other@);
        proof {
            lemma_import_last_writer_wins(start, other@);
        }
    }

    /// A snapshot of every entry, in the dictionary's order.
    pub fn words(&self) -> (r: Vec<(String, UserDictWord)>)
        ensures
            r@.len() == self@.len(),
            forall|i: int| 0 <= i < r@.len() ==> (#[trigger] r@[i]).0@ == self@[i].0 && r@[i].1 == self@[i].1,
    {
        let mut r: Vec<(String, UserDictWord)> = Vec::new();
        let mut i: usize = 0;
        while i < self.entries.len()
            invariant
                i <= self.entries@.len(),
                self@.len() == self.entries@.len(),
                r@.len() == i,
                forall|k: int| 0 <= k < i ==> (#[trigger] r@[k]).0@ == self@[k].0 && r@[k].1 == self@[k].1,
            decreases self.entries@.len() - i,
        {
            r.push((self.entries[i].0.clone(), self.entries[i].1.duplicate()));
            i = i + 1;
        }
        r
    }

    /// A dictionary with the same entries as `self`.
    pub fn duplicate(&self) -> (r: UserDict)
        ensures
            r@ == self@,
            r.issued() == self.issued(),
    {
        let r = UserDict { entries: self.words(), issued: copy_ids(&self.issued) };
        assert(r@ =~= self@);
        assert(r.issued() =~= self.issued());
        r
    }

    /// Tells whether every word keeps the word rules.
    pub fn check_words(&self) -> (r: Result<(), Error>)
        ensures
            r is Ok <==> forall|i: int| 0 <= i < self@.len() ==> valid_word(#[trigger] self@[i].1),
            r matches Err(e) ==> exists|i: int|
                0 <= i < self@.len() && (word_fault(#[trigger] self@[i].1) matches Some(f) && e == Error::ValidationError(f)),
    {
        let mut i: usize = 0;
        while i < self.entries.len()
            invariant
                i <= self@.len(),
                self@.len() == self.entries@.len(),
                forall|k: int| 0 <= k < i ==> valid_word(#[trigger] self@[k].1),
            decreases self@.len() - i,
        {
            assert(self@[i as int].1 == self.entries@[i as int].1);
            if let Err(e) = validate_word(&self.entries[i].1) {
                assert(word_fault(self@[i as int].1) is Some);
                return Err(e);
            }
            i = i + 1;
        }
        Ok(())
    }
}

} // verus!
