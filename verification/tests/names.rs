use dns_server::name::{label_matches, label_ok, lower_byte, utf8_ok, Name};

fn name(labels: &[&str]) -> Name {
    Name { labels: labels.iter().map(|l| l.as_bytes().to_vec()).collect() }
}

#[test]
fn utf8_ok_accepts_every_scalar_in_its_shortest_form() {
    assert!(utf8_ok(b""));
    assert!(utf8_ok(b"*"));
    assert!(utf8_ok(b"My Printer._ipp"));
    assert!(utf8_ok(&[0x00, 0x7f]));
    assert!(utf8_ok(&[0xc2, 0x80, 0xdf, 0xbf]));
    assert!(utf8_ok(&[0xe0, 0xa0, 0x80, 0xef, 0xbf, 0xbf]));
    assert!(utf8_ok(&[0xed, 0x9f, 0xbf, 0xee, 0x80, 0x80]));
    assert!(utf8_ok(&[0xf0, 0x90, 0x80, 0x80, 0xf4, 0x8f, 0xbf, 0xbf]));
    assert!(utf8_ok("b\u{fc}cher-\u{65e5}\u{672c}-\u{1f600}".as_bytes()));
}

#[test]
fn utf8_ok_agrees_with_the_standard_library_on_short_inputs() {
    for a in 0u8..=255 {
        assert_eq!(utf8_ok(&[a]), std::str::from_utf8(&[a]).is_ok(), "{:02x}", a);
        for b in 0u8..=255 {
            assert_eq!(utf8_ok(&[a, b]), std::str::from_utf8(&[a, b]).is_ok(), "{:02x} {:02x}", a, b);
        }
    }
    for a in [0xe0u8, 0xe1, 0xec, 0xed, 0xee, 0xef, 0xf0, 0xf1, 0xf3, 0xf4, 0xf5, 0xf7, 0xf8] {
        for b in 0x70u8..=0xcf {
            for c in [0x00u8, 0x7f, 0x80, 0x9f, 0xa0, 0xbf, 0xc0] {
                let three = [a, b, c];
                assert_eq!(utf8_ok(&three), std::str::from_utf8(&three).is_ok(), "{:02x?}", three);
                for d in [0x7fu8, 0x80, 0xbf, 0xc0] {
                    let four = [a, b, c, d];
                    assert_eq!(utf8_ok(&four), std::str::from_utf8(&four).is_ok(), "{:02x?}", four);
                }
            }
        }
    }
}

#[test]
fn utf8_ok_refuses_malformed_sequences() {
    assert!(!utf8_ok(&[0x80]));
    assert!(!utf8_ok(&[0xbf, b'a']));
    assert!(!utf8_ok(&[0xc3]));
    assert!(!utf8_ok(&[b'a', 0xc3, b'b']));
    assert!(!utf8_ok(&[0xc0, 0x80]));
    assert!(!utf8_ok(&[0xc1, 0xbf]));
    assert!(!utf8_ok(&[0xe0, 0x9f, 0xbf]));
    assert!(!utf8_ok(&[0xed, 0xa0, 0x80]));
    assert!(!utf8_ok(&[0xed, 0xbf, 0xbf]));
    assert!(!utf8_ok(&[0xe2, 0x82]));
    assert!(!utf8_ok(&[0xf0, 0x8f, 0xbf, 0xbf]));
    assert!(!utf8_ok(&[0xf4, 0x90, 0x80, 0x80]));
    assert!(!utf8_ok(&[0xf5, 0x80, 0x80, 0x80]));
    assert!(!utf8_ok(&[0xf0, 0x90, 0x80]));
    assert!(!utf8_ok(&[0xf8, 0x88, 0x80, 0x80, 0x80]));
    assert!(!utf8_ok(&[0xff]));
}

#[test]
fn lower_byte_changes_capital_letters_only() {
    for b in 0u8..=255 {
        assert_eq!(lower_byte(b), b.to_ascii_lowercase(), "byte {}", b);
    }
}

#[test]
fn labels_have_one_to_sixty_three_bytes() {
    assert!(!label_ok(b""));
    assert!(label_ok(b"a"));
    assert!(label_ok(&[b'x'; 63]));
    assert!(!label_ok(&[b'x'; 64]));
    assert!(label_ok(b"_dmarc-1"));
    assert!(label_ok(b"*"));
    assert!(label_ok(b"My Printer"));
    assert!(label_ok("\u{65e5}\u{672c}\u{8a9e}".as_bytes()));
    assert!(!label_ok(&[b'a', 0xff]));
    assert!(!label_ok(&[0xc3]));
    let mut cut = vec![b'x'; 62];
    cut.push(0xc3);
    assert!(!label_ok(&cut));
    cut.push(0xa9);
    assert!(!label_ok(&cut));
    cut.remove(0);
    assert!(label_ok(&cut));
}

#[test]
fn labels_match_without_regard_to_case() {
    assert!(label_matches(b"Example", b"eXAMPLE"));
    assert!(!label_matches(b"example", b"examples"));
    assert!(!label_matches(b"example", b"exbmple"));
    assert!(!label_matches(b"a-b", b"a_b"));
    assert!(label_matches(b"", b""));
}

#[test]
fn names_match_without_regard_to_case() {
    assert!(name(&["WWW", "Example", "COM"]).matches(&name(&["www", "example", "com"])));
    assert!(!name(&["www", "example", "com"]).matches(&name(&["example", "com"])));
    assert!(!name(&["www", "example", "com"]).matches(&name(&["www", "example", "org"])));
    assert!(Name::root().matches(&name(&[])));
}

#[test]
fn canonical_form_is_lower_case() {
    assert_eq!(name(&["WWW", "Ex-Ample_1", "COM"]).to_canonical(), name(&["www", "ex-ample_1", "com"]));
    let c = name(&["a", "B"]).to_canonical();
    assert_eq!(c.to_canonical(), c);
}

#[test]
fn name_well_formedness_bounds_labels_and_their_number() {
    assert!(Name::root().is_well_formed());
    assert!(name(&["example", "com"]).is_well_formed());
    assert!(!name(&["example", "", "com"]).is_well_formed());
    assert!(name(&["exam ple", "*"]).is_well_formed());
    assert!(!Name { labels: vec![b"example".to_vec(), vec![0xe2, 0x82]] }.is_well_formed());
    let many: Vec<&str> = std::iter::repeat("a").take(128).collect();
    assert!(name(&many).is_well_formed());
    let too_many: Vec<&str> = std::iter::repeat("a").take(129).collect();
    assert!(!name(&too_many).is_well_formed());
}

#[test]
fn clone_of_a_name_is_equal_to_it() {
    let n = name(&["www", "example", "com"]);
    assert_eq!(n.clone(), n);
}

#[test]
fn dotted_form_joins_labels_with_dots() {
    assert_eq!(name(&["www", "google", "com"]).to_dotted(), b"www.google.com".to_vec());
    assert_eq!(name(&["com"]).to_dotted(), b"com".to_vec());
    assert_eq!(Name::root().to_dotted(), Vec::<u8>::new());
}
