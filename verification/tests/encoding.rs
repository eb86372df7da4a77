use sizr::encoding::Encoding;

#[test]
fn labels_are_the_short_names() {
    assert_eq!(Encoding::Raw.label(), "raw");
    assert_eq!(Encoding::Gzip.label(), "gz");
    assert_eq!(Encoding::Brotli.label(), "br");
}

#[test]
fn all_lists_the_canonical_order() {
    assert_eq!(Encoding::all(), vec![Encoding::Raw, Encoding::Gzip, Encoding::Brotli]);
}

#[test]
fn names_are_read_in_any_case() {
    assert_eq!(Encoding::from_name("raw"), Some(Encoding::Raw));
    assert_eq!(Encoding::from_name("Raw"), Some(Encoding::Raw));
    assert_eq!(Encoding::from_name("RAW"), Some(Encoding::Raw));
    assert_eq!(Encoding::from_name("gz"), Some(Encoding::Gzip));
    assert_eq!(Encoding::from_name("Gz"), Some(Encoding::Gzip));
    assert_eq!(Encoding::from_name("gZ"), Some(Encoding::Gzip));
    assert_eq!(Encoding::from_name("br"), Some(Encoding::Brotli));
    assert_eq!(Encoding::from_name("BR"), Some(Encoding::Brotli));
}

#[test]
fn other_texts_name_no_encoding() {
    assert_eq!(Encoding::from_name(""), None);
    assert_eq!(Encoding::from_name("r"), None);
    assert_eq!(Encoding::from_name("ra"), None);
    assert_eq!(Encoding::from_name("raw "), None);
    assert_eq!(Encoding::from_name("gzip"), None);
    assert_eq!(Encoding::from_name("brotli"), None);
    assert_eq!(Encoding::from_name("zg"), None);
    assert_eq!(Encoding::from_name("bz"), None);
    assert_eq!(Encoding::from_name("räw"), None);
    assert_eq!(Encoding::from_name("gß"), None);
}

#[test]
fn every_label_names_its_encoding() {
    for encoding in Encoding::all() {
        assert_eq!(Encoding::from_name(encoding.label()), Some(encoding));
    }
}
