use fleetform::text::{
    chars_of, contains_subseq, is_space_char, reads, same_chars, scan_run, scan_run_back,
    split_words, string_of, strip_end_vec, strip_start_vec, strip_vec, subvec, CharClass,
};

fn chars(s: &str) -> Vec<char> {
    s.chars().collect()
}

#[test]
fn strings_and_characters_convert_both_ways() {
    assert_eq!(chars_of("héllo"), chars("héllo"));
    assert_eq!(chars_of(""), Vec::<char>::new());
    assert_eq!(string_of(&chars("héllo")), "héllo");
    assert_eq!(string_of(&Vec::new()), "");
}

#[test]
fn white_space_is_what_the_standard_says() {
    for code in 0u32..0x3100 {
        if let Some(c) = char::from_u32(code) {
            assert_eq!(is_space_char(c), c.is_whitespace());
        }
    }
    assert!(!is_space_char('\u{FEFF}'));
}

#[test]
fn runs_are_measured() {
    let s = chars("  ab=c  ");
    assert_eq!(scan_run(&s, 0, CharClass::Space, true), 2);
    assert_eq!(scan_run(&s, 2, CharClass::Space, true), 0);
    assert_eq!(scan_run(&s, 2, CharClass::Is('='), false), 2);
    assert_eq!(scan_run(&s, 8, CharClass::Space, true), 0);
    assert_eq!(scan_run(&s, 0, CharClass::Either('b', 'c'), false), 3);
    assert_eq!(scan_run_back(&s, 8, CharClass::Space, true), 2);
    assert_eq!(scan_run_back(&s, 6, CharClass::Space, true), 0);
    assert_eq!(scan_run_back(&s, 8, CharClass::Is('='), false), 3);
    assert_eq!(scan_run_back(&s, 0, CharClass::Space, true), 0);
}

#[test]
fn stripping() {
    assert_eq!(strip_vec(&chars("  a b \n"), CharClass::Space), chars("a b"));
    assert_eq!(strip_vec(&chars("   "), CharClass::Space), chars(""));
    assert_eq!(strip_vec(&chars("\"\"x\"y\"\""), CharClass::Is('"')), chars("x\"y"));
    assert_eq!(strip_start_vec(&chars("  a "), CharClass::Space), chars("a "));
    assert_eq!(strip_end_vec(&chars("a,,"), CharClass::Is(',')), chars("a"));
    assert_eq!(strip_end_vec(&chars(",a"), CharClass::Is(',')), chars(",a"));
    assert_eq!(subvec(&chars("abcdef"), 2, 4), chars("cd"));
    assert_eq!(subvec(&chars("abcdef"), 3, 3), chars(""));
}

#[test]
fn words_are_split_at_white_space() {
    let words = split_words(&chars("  resource \"aws_instance\"\t\"example\"  "));
    assert_eq!(words, vec![chars("resource"), chars("\"aws_instance\""), chars("\"example\"")]);
    assert_eq!(split_words(&chars("")), Vec::<Vec<char>>::new());
    assert_eq!(split_words(&chars(" \n ")), Vec::<Vec<char>>::new());
    assert_eq!(split_words(&chars("one")), vec![chars("one")]);
}

#[test]
fn searching_and_comparing() {
    assert!(contains_subseq(&chars("a resource b"), &chars("resource")));
    assert!(contains_subseq(&chars("resource"), &chars("resource")));
    assert!(contains_subseq(&chars("abc"), &chars("")));
    assert!(contains_subseq(&chars(""), &chars("")));
    assert!(!contains_subseq(&chars("resourc"), &chars("resource")));
    assert!(!contains_subseq(&chars("rresourc e"), &chars("resource")));
    assert!(same_chars(&chars("ab"), &chars("ab")));
    assert!(!same_chars(&chars("ab"), &chars("ac")));
    assert!(!same_chars(&chars("ab"), &chars("abc")));
    assert!(reads("resource", "resource"));
    assert!(!reads("resources", "resource"));
}
