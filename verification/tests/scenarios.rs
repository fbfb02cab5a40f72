use tracklist::playlist::render_playlist;
use tracklist::scan::{NameOutcome, Scanner, TagOutcome};
use tracklist::sorting::sort_tracks;

/// One simulated run: each directory entry is a bare file name plus the
/// metadata pairs its container would yield if the scan asks for them.
struct RunResult {
    playlist: Vec<u8>,
    fallback_notices: usize,
    unorderable: Vec<Vec<u8>>,
}

fn run(dir: &[(&str, &[(&str, &str)])]) -> RunResult {
    let mut scanner = Scanner::new();
    let mut fallback_notices = 0;
    let mut unorderable = Vec::new();
    for (entry_name, raw_tags) in dir {
        match scanner.process_name(entry_name.as_bytes().to_vec()) {
            NameOutcome::Recorded | NameOutcome::Ignored => {}
            NameOutcome::NeedMetadata { name, first_fallback } => {
                if first_fallback {
                    fallback_notices += 1;
                }
                let tags: Vec<(Vec<u8>, Vec<u8>)> = raw_tags
                    .iter()
                    .map(|(k, v)| (k.as_bytes().to_vec(), v.as_bytes().to_vec()))
                    .collect();
                match scanner.process_tags(name, &tags) {
                    TagOutcome::Recorded => {}
                    TagOutcome::Unorderable { name } => unorderable.push(name),
                }
            }
        }
    }
    let sorted = sort_tracks(scanner.tracks);
    RunResult {
        playlist: render_playlist(&sorted),
        fallback_notices,
        unorderable,
    }
}

const NO_TAGS: &[(&str, &str)] = &[];

#[test]
fn album_with_numbered_rips_and_cover() {
    let r = run(&[
        ("01 Intro.flac", NO_TAGS),
        ("02 Middle.flac", NO_TAGS),
        ("10 Finale.flac", NO_TAGS),
        ("cover.jpg", NO_TAGS),
    ]);
    assert_eq!(r.playlist, b"01 Intro.flac\n02 Middle.flac\n10 Finale.flac\n".to_vec());
    assert_eq!(r.fallback_notices, 0);
    assert!(r.unorderable.is_empty());
}

#[test]
fn album_ordered_by_container_tags() {
    let r = run(&[
        ("intro.flac", &[("track", "1")]),
        ("middle.flac", &[("track", "2")]),
        ("notes.txt", NO_TAGS),
    ]);
    assert_eq!(r.playlist, b"intro.flac\nmiddle.flac\n".to_vec());
    assert_eq!(r.fallback_notices, 1);
    assert!(r.unorderable.is_empty());
}

#[test]
fn unorderable_file_is_warned_about_and_omitted() {
    let r = run(&[
        ("01.flac", NO_TAGS),
        ("02.flac", NO_TAGS),
        ("bonus.flac", NO_TAGS),
    ]);
    assert_eq!(r.playlist, b"01.flac\n02.flac\n".to_vec());
    assert_eq!(r.fallback_notices, 1);
    assert_eq!(r.unorderable, vec![b"bonus.flac".to_vec()]);
}

#[test]
fn non_audio_only_directory_yields_empty_playlist() {
    let r = run(&[("README.md", NO_TAGS)]);
    assert_eq!(r.playlist, b"".to_vec());
    assert_eq!(r.fallback_notices, 0);
    assert!(r.unorderable.is_empty());
}

#[test]
fn duplicate_orders_keep_both_entries() {
    let r = run(&[("01.flac", NO_TAGS), ("1.flac", NO_TAGS)]);
    let one_way = b"01.flac\n1.flac\n".to_vec();
    let other_way = b"1.flac\n01.flac\n".to_vec();
    assert!(r.playlist == one_way || r.playlist == other_way);
}

#[test]
fn duplicate_orders_from_mixed_sources_stay_adjacent() {
    let r = run(&[
        ("02.flac", NO_TAGS),
        ("again.flac", &[("track", "1")]),
        ("01.flac", NO_TAGS),
        ("03.flac", NO_TAGS),
    ]);
    let one_way = b"again.flac\n01.flac\n02.flac\n03.flac\n".to_vec();
    let other_way = b"01.flac\nagain.flac\n02.flac\n03.flac\n".to_vec();
    assert!(r.playlist == one_way || r.playlist == other_way);
}

#[test]
fn output_lines_are_sorted_by_order() {
    let r = run(&[
        ("9 z.flac", NO_TAGS),
        ("007.ogg", NO_TAGS),
        ("1 a.mp3", NO_TAGS),
        ("12 end.wav", NO_TAGS),
        ("03.m4a", NO_TAGS),
    ]);
    assert_eq!(r.playlist, b"1 a.mp3\n03.m4a\n007.ogg\n9 z.flac\n12 end.wav\n".to_vec());
}

#[test]
fn playlist_holds_no_path_separator() {
    let r = run(&[
        ("01 a.flac", NO_TAGS),
        ("02 b.flac", NO_TAGS),
        ("sub.dir.notes", NO_TAGS),
    ]);
    assert!(!r.playlist.contains(&b'/'));
}

#[test]
fn same_enumeration_gives_byte_identical_output() {
    let dir: &[(&str, &[(&str, &str)])] = &[
        ("b.flac", &[("track", "2")]),
        ("05 x.flac", NO_TAGS),
        ("a.flac", &[("track", "2")]),
        ("cover.png", NO_TAGS),
    ];
    let first = run(dir);
    let second = run(dir);
    assert_eq!(first.playlist, second.playlist);
}

#[test]
fn second_run_after_fallback_is_identical() {
    let dir: &[(&str, &[(&str, &str)])] = &[
        ("intro.flac", &[("track", "1")]),
        ("02.flac", NO_TAGS),
        ("outro.flac", &[("track", "3")]),
    ];
    let first = run(dir);
    let second = run(dir);
    assert_eq!(first.playlist, second.playlist);
    assert_eq!(first.fallback_notices, 1);
    assert_eq!(second.fallback_notices, 1);
}

#[test]
fn fallback_notice_appears_at_most_once() {
    let r = run(&[
        ("a.flac", &[("track", "1")]),
        ("b.flac", &[("track", "2")]),
        ("c.flac", NO_TAGS),
        ("d.flac", &[("track", "4")]),
    ]);
    assert_eq!(r.fallback_notices, 1);
    assert_eq!(r.unorderable, vec![b"c.flac".to_vec()]);
    assert_eq!(r.playlist, b"a.flac\nb.flac\nd.flac\n".to_vec());
}

#[test]
fn tag_totals_and_case_are_handled_in_a_run() {
    let r = run(&[
        ("closer.flac", &[("TRACK", "2/2")]),
        ("opener.flac", &[("artist", "x"), ("Track", "1/2")]),
    ]);
    assert_eq!(r.playlist, b"opener.flac\ncloser.flac\n".to_vec());
    assert_eq!(r.fallback_notices, 1);
}
