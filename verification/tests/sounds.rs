use vidyut_prakriya::sounds::{map_sounds, s, to_dirgha, to_guna, to_hrasva, to_vrddhi, SoundMap};

#[test]
fn test_s() {
    let tests = vec![
        ("ac", "aAiIuUfFxXeEoO"),
        ("iR", "iIuU"),
        ("iR2", "iIuUfFxXeEoOyrlvh"),
        ("yaR", "yrlv"),
        ("hal", "kKgGNcCjJYwWqQRtTdDnpPbBmyrlvSzsh"),
        ("Yam", "NYRnm"),
        ("Sar", "Szs"),
        ("a", "aA"),
        ("e", "e"),
        ("ku~", "kKgGN"),
        ("cu~", "cCjJY"),
        ("i cu~", "iIcCjJY"),
        ("a ku~ h H", "aAHkKgGNh"),
    ];
    for (input, expected) in tests {
        let actual = s(input).to_string();
        assert_eq!(actual, expected, "input: `{input}`");
    }
}

#[test]
fn test_map_sounds_jhal_jhash() {
    let actual = map_sounds("Jal", "jaS");
    let expected_vec = vec![
        ('J', 'j'),
        ('B', 'b'),
        ('G', 'g'),
        ('Q', 'q'),
        ('D', 'd'),
        ('j', 'j'),
        ('b', 'b'),
        ('g', 'g'),
        ('q', 'q'),
        ('d', 'd'),
        ('K', 'g'),
        ('P', 'b'),
        ('C', 'j'),
        ('W', 'q'),
        ('T', 'd'),
        ('c', 'j'),
        ('w', 'q'),
        ('t', 'd'),
        ('k', 'g'),
        ('p', 'b'),
        ('S', 'j'),
        ('z', 'q'),
        ('s', 'd'),
        ('h', 'g'),
    ];
    let mut expected = SoundMap::new();
    for (k, v) in expected_vec {
        expected.insert(k, v);
    }
    assert_eq!(expected, actual);
}

#[test]
fn test_map_sounds_kuh_cu() {
    let actual = map_sounds("ku~ h", "cu~");
    let expected_vec = vec![
        ('k', 'c'),
        ('K', 'C'),
        ('g', 'j'),
        ('G', 'J'),
        ('N', 'Y'),
        ('h', 'J'),
    ];
    let mut expected = SoundMap::new();
    for (k, v) in expected_vec {
        expected.insert(k, v);
    }
    assert_eq!(expected, actual);

    assert_eq!(expected, actual);
}

#[test]
fn sound_map_get_returns_what_insert_stored() {
    let mut m = SoundMap::new();
    assert_eq!(m.get('k'), None);
    m.insert('k', 'c');
    assert!(m.contains('k'));
    assert_eq!(m.get('k'), Some('c'));
    assert_eq!(m.get('g'), None);
}

#[test]
fn substitutes_of_vowels() {
    assert_eq!(to_guna('i'), Some("e"));
    assert_eq!(to_guna('F'), Some("ar"));
    assert_eq!(to_guna('a'), None);
    assert_eq!(to_vrddhi('a'), Some("A"));
    assert_eq!(to_vrddhi('o'), Some("O"));
    assert_eq!(to_vrddhi('k'), None);
    assert_eq!(to_hrasva('E'), Some('i'));
    assert_eq!(to_hrasva('k'), None);
    assert_eq!(to_dirgha('u'), Some('U'));
    assert_eq!(to_dirgha('e'), Some('e'));
    assert_eq!(to_dirgha('k'), None);
}

#[test]
fn hrasva_then_dirgha_of_a_short_vowel_is_its_long_vowel() {
    for c in ['a', 'i', 'u', 'f', 'x'] {
        let d = to_dirgha(c).unwrap();
        assert_eq!(to_hrasva(d), Some(c));
    }
}
