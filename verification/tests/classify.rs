use tracklist::classify::{classify, extension_of, is_audio_ext, name_order, Classification};

fn name(s: &str) -> Vec<u8> {
    s.as_bytes().to_vec()
}

#[test]
fn all_digit_name_orders_by_prefix() {
    assert_eq!(classify(&name("01.flac")), Classification::Ordered(1));
}

#[test]
fn bare_number_and_dot_orders_by_number() {
    assert_eq!(classify(&name("7.flac")), Classification::Ordered(7));
}

#[test]
fn leading_zeros_order_numerically() {
    assert_eq!(classify(&name("007.flac")), Classification::Ordered(7));
}

#[test]
fn prefix_stops_at_first_non_digit() {
    assert_eq!(classify(&name("02 Middle.flac")), Classification::Ordered(2));
    assert_eq!(classify(&name("10-finale.opus")), Classification::Ordered(10));
    assert_eq!(classify(&name("3_track.ogg")), Classification::Ordered(3));
}

#[test]
fn no_digit_prefix_escalates_to_metadata() {
    assert_eq!(classify(&name("bonus.flac")), Classification::NeedsTag);
    assert_eq!(classify(&name("intro.mp3")), Classification::NeedsTag);
}

#[test]
fn overflowing_prefix_escalates_to_metadata() {
    assert_eq!(
        classify(&name("99999999999999999999999.flac")),
        Classification::NeedsTag
    );
}

#[test]
fn u64_boundary_prefix() {
    assert_eq!(
        classify(&name("18446744073709551615.flac")),
        Classification::Ordered(u64::MAX)
    );
    assert_eq!(classify(&name("18446744073709551616.flac")), Classification::NeedsTag);
}

#[test]
fn unknown_extension_is_not_audio() {
    assert_eq!(classify(&name("cover.jpg")), Classification::NotAudio);
    assert_eq!(classify(&name("README.md")), Classification::NotAudio);
    assert_eq!(classify(&name("notes.txt")), Classification::NotAudio);
}

#[test]
fn missing_extension_is_not_audio() {
    assert_eq!(classify(&name("README")), Classification::NotAudio);
    assert_eq!(classify(&name("01")), Classification::NotAudio);
}

#[test]
fn upper_case_extension_is_not_audio() {
    assert_eq!(classify(&name("01.FLAC")), Classification::NotAudio);
    assert_eq!(classify(&name("01.Flac")), Classification::NotAudio);
}

#[test]
fn hidden_file_has_no_extension() {
    assert_eq!(classify(&name(".flac")), Classification::NotAudio);
}

#[test]
fn trailing_dot_is_empty_extension() {
    assert_eq!(classify(&name("01.")), Classification::NotAudio);
}

#[test]
fn every_recognised_extension_is_audio() {
    for ext in [
        "mp3", "flac", "opus", "ape", "ogg", "mka", "aac", "alac", "m4a", "caf", "wma", "wav",
    ] {
        assert!(is_audio_ext(&name(ext)), "{ext}");
        assert_eq!(classify(&name(&format!("5.{ext}"))), Classification::Ordered(5));
    }
}

#[test]
fn near_miss_extensions_are_not_audio() {
    for ext in ["mp4", "m4b", "og", "oggs", "fla", "flacc", "wavx", ""] {
        assert!(!is_audio_ext(&name(ext)), "{ext}");
    }
}

#[test]
fn extension_is_after_last_dot() {
    assert_eq!(extension_of(&name("a.b.flac")), Some(name("flac")));
    assert_eq!(extension_of(&name("archive.tar.gz")), Some(name("gz")));
    assert_eq!(extension_of(&name("plain")), None);
    assert_eq!(extension_of(&name(".hidden")), None);
}

#[test]
fn name_order_reads_the_leading_run() {
    assert_eq!(name_order(&name("042abc")), Some(42));
    assert_eq!(name_order(&name("x42")), None);
    assert_eq!(name_order(&name("")), None);
    assert_eq!(name_order(&name("18446744073709551616")), None);
}
