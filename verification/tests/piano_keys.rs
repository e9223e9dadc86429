use sparmos::piano::{index_to_key, pianokey_index};

#[test]
fn indices_name_keys() {
    assert_eq!(index_to_key(0), "C0");
    assert_eq!(index_to_key(46), "A#3");
    assert_eq!(index_to_key(57), "A4");
    assert_eq!(index_to_key(87), "D#7");
    assert_eq!(index_to_key(131), "B10");
}

#[test]
fn key_names_give_indices() {
    assert_eq!(pianokey_index("C0"), Some(0));
    assert_eq!(pianokey_index("A4"), Some(57));
    assert_eq!(pianokey_index("A#3"), Some(46));
    assert_eq!(pianokey_index("B9"), Some(119));
}

#[test]
fn malformed_key_names_give_none() {
    assert_eq!(pianokey_index("H4"), None);
    assert_eq!(pianokey_index("C#10"), None);
    assert_eq!(pianokey_index("Cb4"), None);
    assert_eq!(pianokey_index("C"), None);
    assert_eq!(pianokey_index("4"), None);
    assert_eq!(pianokey_index("A#x"), None);
}

#[test]
fn names_round_trip() {
    for index in 0..120usize {
        assert_eq!(pianokey_index(&index_to_key(index)), Some(index as i32));
    }
}

#[test]
fn names_past_ten_octaves_read_as_no_key() {
    assert_eq!(index_to_key(120), "C10");
    assert_eq!(pianokey_index(&index_to_key(120)), None);
    assert_eq!(pianokey_index(&index_to_key(121)), None);
    assert_eq!(pianokey_index(&index_to_key(131)), None);
    assert_eq!(pianokey_index(&index_to_key(1200)), None);
    assert_eq!(pianokey_index(&index_to_key(119)), Some(119));
}
