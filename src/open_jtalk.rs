use vstd::prelude::*;
use crate::error::Error;
use crate::user_dict::{valid_word, word_fault, Entry, UserDict};

verus! {

/// The text analyzer's side of the coordinator: where its base dictionary
/// lives, and the user dictionary laid over it. One value is shared by every
/// coordinator that analyzes with it, so a swap of the overlay is seen by all.
pub struct OpenJtalk {
    dict_dir: String,
    overlay: Option<UserDict>,
}

impl OpenJtalk {
    /// The directory of the base dictionary.
    pub closed spec fn dict_path(&self) -> Seq<char> {
        self.dict_dir@
    }

    /// The entries of the overlay dictionary, if one is bound.
    pub closed spec fn overlay(&self) -> Option<Seq<Entry>> {
        match self.overlay {
            Some(d) => Some(d@),
            None => None,
        }
    }

    /// An analyzer over the base dictionary in `open_jtalk_dict_dir`, with no overlay.
    pub fn new(open_jtalk_dict_dir: String) -> (r: OpenJtalk)
        ensures
            r.dict_path() == open_jtalk_dict_dir@,
            r.overlay() is None,
    {
        OpenJtalk { dict_dir: open_jtalk_dict_dir, overlay: None }
    }

    pub fn dict_dir(&self) -> (r: &str)
        ensures
            r@ == self.dict_path(),
    {
        self.dict_dir.as_str()
    }

    /// Binds a copy of `user_dict` as the overlay, in place of any earlier
    /// one. A dictionary with a word that breaks the word rules is refused,
    /// and the overlay is then left as it was.
    pub fn use_user_dict(&mut self, user_dict: &UserDict) -> (r: Result<(), Error>)
        ensures
            final(self).dict_path() == old(self).dict_path(),
            r is Ok <==> forall|i: int| 0 <= i < user_dict@.len() ==> valid_word(#[trigger] user_dict@[i].1),
            r is Ok ==> final(self).overlay() == Some(user_dict@),
            r matches Err(e) ==> (exists|i: int|
                0 <= i < user_dict@.len() && (word_fault(#[trigger] user_dict@[i].1) matches Some(f) && e == Error::ValidationError(f))),
            r is Err ==> final(self).overlay() == old(self).overlay(),
    {
        match user_dict.check_words() {
            Err(e) => Err(e),
            Ok(()) => {
                self.overlay = Some(user_dict.duplicate());
                Ok(())
            },
        }
    }

    /// A copy of the bound overlay dictionary, if any.
    pub fn user_dict(&self) -> (r: Option<UserDict>)
        ensures
            r matches Some(d) ==> self.overlay() == Some(d@),
            r is None <==> self.overlay() is None,
    {
        match &self.overlay {
            Some(d) => Some(d.duplicate()),
            None => None,
        }
    }
}

} // verus!
