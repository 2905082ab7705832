use voicevox_node::error::{Error, WordField};
use voicevox_node::open_jtalk::OpenJtalk;
use voicevox_node::text::{reading_mora_count, str_eq};
use voicevox_node::user_dict::{UserDict, UserDictWord, UserDictWordType};

fn word(surface: &str, pronunciation: &str, accent_type: u32, priority: u32) -> UserDictWord {
    UserDictWord {
        surface: surface.to_string(),
        pronunciation: pronunciation.to_string(),
        accent_type,
        word_type: UserDictWordType::ProperNoun,
        priority,
    }
}

#[test]
fn mora_counting() {
    assert_eq!(reading_mora_count("キャット"), Some(3));
    assert_eq!(reading_mora_count("コンニチワ"), Some(5));
    assert_eq!(reading_mora_count("ラーメン"), Some(4));
    assert_eq!(reading_mora_count(""), None);
    assert_eq!(reading_mora_count("ャア"), None);
    assert_eq!(reading_mora_count("こんにちは"), None);
    assert!(str_eq("ab", "ab"));
    assert!(!str_eq("ab", "abc"));
}

#[test]
fn add_word_rejects_empty_surface() {
    let mut d = UserDict::new();
    assert_eq!(
        d.add_word(word("", "テスト", 1, 5), "id1".to_string()),
        Err(Error::ValidationError(WordField::Surface))
    );
    assert!(d.words().is_empty());
}

#[test]
fn add_word_checks_accent_and_priority() {
    let mut d = UserDict::new();
    assert_eq!(
        d.add_word(word("cat", "キャット", 4, 5), "a".to_string()),
        Err(Error::ValidationError(WordField::AccentType))
    );
    assert_eq!(
        d.add_word(word("cat", "キャット", 3, 11), "a".to_string()),
        Err(Error::ValidationError(WordField::Priority))
    );
    assert_eq!(
        d.add_word(word("cat", "きゃっと", 1, 5), "a".to_string()),
        Err(Error::ValidationError(WordField::Pronunciation))
    );
    assert_eq!(d.add_word(word("cat", "キャット", 3, 10), "a".to_string()), Ok("a".to_string()));
    assert_eq!(d.words().len(), 1);
}

#[test]
fn added_ids_differ() {
    let mut d = UserDict::new();
    let a = d.add_word(word("犬", "イヌ", 1, 5), "id-a".to_string()).unwrap();
    let b = d.add_word(word("猫", "ネコ", 1, 5), "id-b".to_string()).unwrap();
    assert_ne!(a, b);
    assert_eq!(
        d.add_word(word("鳥", "トリ", 0, 5), "id-a".to_string()),
        Err(Error::WordIdInUseError("id-a".to_string()))
    );
    let words = d.words();
    assert_eq!(words.len(), 2);
    assert_eq!(words[0].0, "id-a");
    assert_eq!(words[1].1.surface, "猫");
}

#[test]
fn update_and_remove_unknown_id() {
    let mut d = UserDict::new();
    d.add_word(word("犬", "イヌ", 1, 5), "x".to_string()).unwrap();
    assert_eq!(d.update_word("y", word("猫", "ネコ", 1, 5)), Err(Error::NotFoundError("y".to_string())));
    assert_eq!(d.remove_word("y").map(|w| w.surface), Err(Error::NotFoundError("y".to_string())));
    assert_eq!(d.words().len(), 1);
}

#[test]
fn update_and_remove_existing() {
    let mut d = UserDict::new();
    d.add_word(word("犬", "イヌ", 1, 5), "x".to_string()).unwrap();
    d.add_word(word("猫", "ネコ", 1, 5), "y".to_string()).unwrap();
    assert_eq!(d.update_word("x", word("狗", "イヌ", 2, 3)), Ok(()));
    assert_eq!(
        d.update_word("x", word("", "イヌ", 2, 3)),
        Err(Error::ValidationError(WordField::Surface))
    );
    let w = d.words();
    assert_eq!(w[0].0, "x");
    assert_eq!(w[0].1.surface, "狗");
    assert_eq!(w[0].1.accent_type, 2);
    let removed = d.remove_word("x").unwrap();
    assert_eq!(removed.surface, "狗");
    let w = d.words();
    assert_eq!(w.len(), 1);
    assert_eq!(w[0].0, "y");
}

#[test]
fn import_last_writer_wins() {
    let mut d = UserDict::new();
    d.add_word(word("犬", "イヌ", 1, 5), "x".to_string()).unwrap();
    d.add_word(word("猫", "ネコ", 1, 5), "y".to_string()).unwrap();
    let mut o = UserDict::new();
    o.add_word(word("狐", "キツネ", 1, 7), "y".to_string()).unwrap();
    o.add_word(word("狸", "タヌキ", 1, 7), "z".to_string()).unwrap();
    d.import(&o);
    let w = d.words();
    assert_eq!(w.len(), 3);
    assert_eq!((w[0].0.as_str(), w[0].1.surface.as_str()), ("x", "犬"));
    assert_eq!((w[1].0.as_str(), w[1].1.surface.as_str()), ("y", "狐"));
    assert_eq!((w[2].0.as_str(), w[2].1.surface.as_str()), ("z", "狸"));
    assert_eq!(o.words().len(), 2);
}

#[test]
fn analyzer_binds_overlay() {
    let mut j = OpenJtalk::new("dict".to_string());
    assert_eq!(j.dict_dir(), "dict");
    assert!(j.user_dict().is_none());
    let mut d = UserDict::new();
    d.add_word(word("犬", "イヌ", 1, 5), "x".to_string()).unwrap();
    assert_eq!(j.use_user_dict(&d), Ok(()));
    let bound = j.user_dict().unwrap();
    assert_eq!(bound.words()[0].1.surface, "犬");
    assert_eq!(d.duplicate().words().len(), 1);
    assert_eq!(d.check_words(), Ok(()));
}

#[test]
fn removed_id_is_not_issued_again() {
    let mut d = UserDict::new();
    let a = d.add_word(word("犬", "イヌ", 1, 5), "x".to_string()).unwrap();
    d.remove_word(&a).unwrap();
    assert_eq!(
        d.add_word(word("猫", "ネコ", 1, 5), "x".to_string()),
        Err(Error::WordIdInUseError("x".to_string()))
    );
    assert!(d.words().is_empty());
    assert_eq!(d.add_word(word("猫", "ネコ", 1, 5), "y".to_string()), Ok("y".to_string()));
}

#[test]
fn update_unknown_id_with_invalid_word() {
    let mut d = UserDict::new();
    d.add_word(word("犬", "イヌ", 1, 5), "x".to_string()).unwrap();
    assert_eq!(d.update_word("y", word("", "", 9, 99)), Err(Error::NotFoundError("y".to_string())));
    assert_eq!(d.words().len(), 1);
    assert_eq!(d.words()[0].1.surface, "犬");
}
