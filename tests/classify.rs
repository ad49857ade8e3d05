use raw_processor::format::{classify_format, is_specific_raw_format, FormatTag};

#[test]
fn classify_ignores_case() {
    assert_eq!(classify_format("IMG.RAF"), classify_format("img.raf"));
    assert_eq!(classify_format("IMG.RAF"), FormatTag::Raf);
    assert_eq!(classify_format("Photo.Nef"), classify_format("photo.nef"));
}

#[test]
fn classify_known_families() {
    assert_eq!(classify_format("/photos/a.arw"), FormatTag::Arw);
    assert_eq!(classify_format("a.CR2"), FormatTag::Canon);
    assert_eq!(classify_format("a.cr3"), FormatTag::Canon);
    assert_eq!(classify_format("dir/x.NEF"), FormatTag::Nef);
    assert_eq!(classify_format("x.dng"), FormatTag::Generic);
}

#[test]
fn classify_without_extension_is_generic() {
    assert_eq!(classify_format(""), FormatTag::Generic);
    assert_eq!(classify_format("noext"), FormatTag::Generic);
    assert_eq!(classify_format(".raf"), FormatTag::Generic);
    assert_eq!(classify_format(".."), FormatTag::Generic);
    assert_eq!(classify_format("a.raf/.."), FormatTag::Generic);
    assert_eq!(classify_format("raf.d/file"), FormatTag::Generic);
}

#[test]
fn classify_ignores_trailing_separators() {
    assert_eq!(classify_format("shots/a.raf/"), FormatTag::Raf);
    assert_eq!(classify_format("shots/a.raf/."), FormatTag::Raf);
    assert_eq!(classify_format("..raf"), FormatTag::Raf);
}

#[test]
fn specific_format_matches_ignoring_case() {
    assert!(is_specific_raw_format("IMG.RAF", "raf"));
    assert!(is_specific_raw_format("img.raf", "RAF"));
    assert!(!is_specific_raw_format("img.raw", "raf"));
    assert!(!is_specific_raw_format("img.raf", "ra"));
    assert!(!is_specific_raw_format("noext", ""));
    assert!(is_specific_raw_format("a.", ""));
}

#[test]
fn folding_covers_non_ascii_letters() {
    assert!(is_specific_raw_format("x.\u{c0}", "\u{e0}"));
    assert!(is_specific_raw_format("x.N\u{c9}F", "n\u{e9}f"));
    assert_eq!(classify_format("x.\u{212a}"), FormatTag::Generic);
    assert!(is_specific_raw_format("IMG.Raf", "rAF"));
}
