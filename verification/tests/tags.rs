use tracklist::tags::get_track;

fn pairs(raw: &[(&str, &str)]) -> Vec<(Vec<u8>, Vec<u8>)> {
    raw.iter()
        .map(|(k, v)| (k.as_bytes().to_vec(), v.as_bytes().to_vec()))
        .collect()
}

#[test]
fn plain_track_number() {
    assert_eq!(get_track(&pairs(&[("track", "3")])), Some(3));
}

#[test]
fn track_key_is_case_insensitive() {
    assert_eq!(get_track(&pairs(&[("TRACK", "4")])), Some(4));
    assert_eq!(get_track(&pairs(&[("Track", "5")])), Some(5));
    assert_eq!(get_track(&pairs(&[("tRaCk", "6")])), Some(6));
}

#[test]
fn total_after_slash_is_dropped() {
    assert_eq!(get_track(&pairs(&[("track", "3/12")])), Some(3));
    assert_eq!(get_track(&pairs(&[("track", "10/10")])), Some(10));
}

#[test]
fn other_keys_are_ignored() {
    let tags = pairs(&[("artist", "7"), ("title", "9"), ("track", "2")]);
    assert_eq!(get_track(&tags), Some(2));
}

#[test]
fn first_parseable_track_key_wins() {
    let tags = pairs(&[("track", "abc"), ("TRACK", "8"), ("track", "9")]);
    assert_eq!(get_track(&tags), Some(8));
}

#[test]
fn unparseable_value_yields_nothing() {
    assert_eq!(get_track(&pairs(&[("track", "abc")])), None);
    assert_eq!(get_track(&pairs(&[("track", "")])), None);
    assert_eq!(get_track(&pairs(&[("track", "/9")])), None);
    assert_eq!(get_track(&pairs(&[("track", "3a")])), None);
    assert_eq!(get_track(&pairs(&[("track", "18446744073709551616")])), None);
}

#[test]
fn no_track_key_yields_nothing() {
    assert_eq!(get_track(&pairs(&[])), None);
    assert_eq!(get_track(&pairs(&[("artist", "someone"), ("album", "thing")])), None);
    assert_eq!(get_track(&pairs(&[("tracks", "3")])), None);
}

#[test]
fn leading_plus_parses_as_standard_decimal() {
    assert_eq!(get_track(&pairs(&[("track", "+7")])), Some(7));
    assert_eq!(get_track(&pairs(&[("track", "+")])), None);
}
