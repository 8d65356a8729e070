use coogler::distance::levenshtein_distance;

#[test]
fn distance_of_empty_strings_is_zero() {
    assert_eq!(levenshtein_distance("", ""), 0);
}

#[test]
fn distance_to_empty_is_length_of_other() {
    assert_eq!(levenshtein_distance("abc", ""), 3);
    assert_eq!(levenshtein_distance("", "abcd"), 4);
}

#[test]
fn distance_of_string_to_itself_is_zero() {
    for s in ["", "a", "add", "int ( char * )", "größe", "a::b"] {
        assert_eq!(levenshtein_distance(s, s), 0);
    }
}

#[test]
fn distance_ignores_ascii_case() {
    assert_eq!(levenshtein_distance("Foo", "foo"), 0);
    assert_eq!(levenshtein_distance("FOO_BAR", "foo_bar"), 0);
    assert_eq!(levenshtein_distance("AZ", "az"), 0);
}

#[test]
fn distance_does_not_fold_beyond_ascii_letters() {
    // '@' and '`' sit just below 'A' and 'a', '[' and '{' just above 'Z' and 'z'.
    assert_eq!(levenshtein_distance("@", "`"), 1);
    assert_eq!(levenshtein_distance("[", "{"), 1);
    // Letters outside ASCII are compared as they are.
    assert_eq!(levenshtein_distance("É", "é"), 1);
    assert_eq!(levenshtein_distance("é", "é"), 0);
}

#[test]
fn distance_counts_characters_not_bytes() {
    assert_eq!(levenshtein_distance("ñ", "n"), 1);
    assert_eq!(levenshtein_distance("日本語", ""), 3);
    assert_eq!(levenshtein_distance("日本語", "日本"), 1);
}

#[test]
fn distance_known_values() {
    assert_eq!(levenshtein_distance("kitten", "sitting"), 3);
    assert_eq!(levenshtein_distance("flaw", "lawn"), 2);
    assert_eq!(levenshtein_distance("sub", "add"), 3);
    assert_eq!(levenshtein_distance("saturday", "sunday"), 3);
    assert_eq!(levenshtein_distance("abc", "abd"), 1);
    assert_eq!(levenshtein_distance("abc", "ab"), 1);
    assert_eq!(levenshtein_distance("abc", "xabc"), 1);
}

#[test]
fn distance_is_symmetric() {
    let words = ["", "a", "Add", "sub", "kitten", "sitting", "int ( int , int )", "héllo"];
    for a in words {
        for b in words {
            assert_eq!(levenshtein_distance(a, b), levenshtein_distance(b, a));
        }
    }
}

#[test]
fn distance_obeys_triangle_inequality() {
    let words = ["", "a", "ab", "ba", "Add", "sub", "kitten", "sitting", "mitten"];
    for a in words {
        for b in words {
            for c in words {
                assert!(
                    levenshtein_distance(a, c)
                        <= levenshtein_distance(a, b) + levenshtein_distance(b, c)
                );
            }
        }
    }
}

#[test]
fn distance_is_bounded_by_lengths() {
    let words = ["", "a", "ab", "kitten", "sitting", "xyz"];
    for a in words {
        for b in words {
            let d = levenshtein_distance(a, b);
            let (n, m) = (a.chars().count(), b.chars().count());
            assert!(d <= n.max(m));
            assert!(d >= n.max(m) - n.min(m));
        }
    }
}
