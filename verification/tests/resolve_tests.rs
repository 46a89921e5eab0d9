use gifclip::resolve::{
    find_dialogue, resolve_clip_range, Padding, ResolveError, ResolvedRange,
};
use gifclip::srt::{parse_srt, SubtitleEntry};

fn entry(start_ms: u64, end_ms: u64, text: &str) -> SubtitleEntry {
    SubtitleEntry { start_ms, end_ms, text: text.to_string() }
}

fn no_padding() -> Padding {
    Padding::none()
}

#[test]
fn exact_substring_is_case_insensitive() {
    let entries = vec![entry(0, 1000, "The Quick Fox"), entry(2000, 3000, "hello")];
    assert_eq!(find_dialogue(&entries, "QUICK").unwrap(), 0);
}

#[test]
fn exact_tier_wins_over_fuzzy() {
    // the first entry holds both words (a fuzzy hit), the second holds the
    // exact phrase: the exact tier must win
    let entries = vec![
        entry(0, 1000, "world hello"),
        entry(2000, 3000, "well hello world"),
    ];
    assert_eq!(find_dialogue(&entries, "hello world").unwrap(), 1);
}

#[test]
fn ordered_words_bridge_reflowed_text() {
    let entries = vec![entry(0, 1000, "hello big world")];
    assert_eq!(find_dialogue(&entries, "hello world").unwrap(), 0);
}

#[test]
fn earlier_entry_wins_exact_ties() {
    let entries = vec![
        entry(0, 1000, "say hello world now"),
        entry(2000, 3000, "hello world again"),
    ];
    assert_eq!(find_dialogue(&entries, "hello world").unwrap(), 0);
}

#[test]
fn fuzzy_two_of_four_words_succeeds() {
    let entries = vec![
        entry(0, 1000, "aa qq"),
        entry(2000, 3000, "aa cc"),
    ];
    // four words, two found in the second entry, one in the first: 2 >= 4/2
    assert_eq!(find_dialogue(&entries, "aa bb cc dd").unwrap(), 1);
}

#[test]
fn fuzzy_one_of_five_words_fails() {
    let entries = vec![entry(0, 1000, "aa xx"), entry(2000, 3000, "yy zz")];
    // five words, at best one found: 1 < 5/2
    let err = find_dialogue(&entries, "aa bb cc dd ee").unwrap_err();
    match err {
        ResolveError::NotFound { query } => assert_eq!(query, "aa bb cc dd ee"),
        other => panic!("expected NotFound, got {:?}", other),
    }
}

#[test]
fn fuzzy_first_seen_wins_ties() {
    let entries = vec![entry(0, 1000, "aa bb"), entry(2000, 3000, "aa bb")];
    assert_eq!(find_dialogue(&entries, "aa bb cc dd").unwrap(), 0);
}

#[test]
fn not_found_carries_query() {
    let entries = vec![entry(0, 1000, "something else")];
    match find_dialogue(&entries, "zzz qq") {
        Err(ResolveError::NotFound { query }) => assert_eq!(query, "zzz qq"),
        other => panic!("expected NotFound, got {:?}", other),
    }
}

#[test]
fn empty_track_finds_nothing() {
    let entries: Vec<SubtitleEntry> = Vec::new();
    assert!(matches!(
        find_dialogue(&entries, "x"),
        Err(ResolveError::NotFound { .. })
    ));
}

#[test]
fn range_inversion_is_rejected() {
    let entries = vec![
        entry(10_000, 12_000, "goodbye"),
        entry(20_000, 21_000, "hello"),
    ];
    let err = resolve_clip_range(&entries, "hello", Some("goodbye"), no_padding()).unwrap_err();
    match err {
        ResolveError::InvalidRange { from_start_ms, from_end_ms, to_start_ms, to_end_ms } => {
            assert_eq!(from_start_ms, 20_000);
            assert_eq!(from_end_ms, 21_000);
            assert_eq!(to_start_ms, 10_000);
            assert_eq!(to_end_ms, 12_000);
        },
        other => panic!("expected InvalidRange, got {:?}", other),
    }
}

#[test]
fn single_quote_default_padding_is_two_seconds() {
    let entries = vec![entry(10_000, 12_500, "hello world")];
    let r = resolve_clip_range(&entries, "hello", None, no_padding()).unwrap();
    assert_eq!(r, ResolvedRange { start_ms: 8_000, end_ms: 14_500 });
}

#[test]
fn range_default_padding_is_half_a_second() {
    let entries = vec![
        entry(10_000, 12_500, "hello world"),
        entry(20_000, 21_000, "goodbye"),
    ];
    let r = resolve_clip_range(&entries, "hello", Some("goodbye"), no_padding()).unwrap();
    assert_eq!(r, ResolvedRange { start_ms: 9_500, end_ms: 21_500 });
}

#[test]
fn shared_pad_overrides_default() {
    let entries = vec![entry(10_000, 12_500, "hello world")];
    let pads = Padding { pad: Some(3_000), pad_before: None, pad_after: None };
    let r = resolve_clip_range(&entries, "hello", None, pads).unwrap();
    assert_eq!(r, ResolvedRange { start_ms: 7_000, end_ms: 15_500 });
}

#[test]
fn specific_pads_override_shared_and_default() {
    let entries = vec![entry(10_000, 12_500, "hello world")];
    let pads = Padding { pad: Some(3_000), pad_before: Some(1_000), pad_after: Some(5_000) };
    let r = resolve_clip_range(&entries, "hello", None, pads).unwrap();
    assert_eq!(r, ResolvedRange { start_ms: 9_000, end_ms: 17_500 });
}

#[test]
fn one_specific_pad_leaves_shared_for_the_other_side() {
    let entries = vec![entry(10_000, 12_500, "hello world")];
    let pads = Padding { pad: Some(3_000), pad_before: Some(1_000), pad_after: None };
    let r = resolve_clip_range(&entries, "hello", None, pads).unwrap();
    assert_eq!(r, ResolvedRange { start_ms: 9_000, end_ms: 15_500 });
}

#[test]
fn padded_start_clamps_at_zero() {
    let entries = vec![entry(1_000, 2_000, "early words")];
    let r = resolve_clip_range(&entries, "early", None, no_padding()).unwrap();
    assert_eq!(r.start_ms, 0);
    assert_eq!(r.end_ms, 4_000);
}

#[test]
fn missing_to_quote_reports_its_own_query() {
    let entries = vec![entry(10_000, 12_500, "hello world")];
    match resolve_clip_range(&entries, "hello", Some("absent"), no_padding()) {
        Err(ResolveError::NotFound { query }) => assert_eq!(query, "absent"),
        other => panic!("expected NotFound, got {:?}", other),
    }
}

#[test]
fn end_to_end_scenario() {
    let input = "1\n00:00:10,000 --> 00:00:12,500\nHello <i>world</i>\n\n2\n00:00:20,000 --> 00:00:21,000\nGoodbye\n\n";
    let entries = parse_srt(input);
    assert_eq!(entries.len(), 2);
    assert_eq!(entries[0].start_ms, 10_000);
    assert_eq!(entries[0].end_ms, 12_500);
    assert_eq!(entries[0].text, "Hello world");
    assert_eq!(entries[1].start_ms, 20_000);
    assert_eq!(entries[1].end_ms, 21_000);
    assert_eq!(entries[1].text, "Goodbye");
    // exact-substring tier picks the first entry
    assert_eq!(find_dialogue(&entries, "hello world").unwrap(), 0);
    // single-quote mode with default padding
    let r = resolve_clip_range(&entries, "hello world", None, no_padding()).unwrap();
    assert_eq!(r, ResolvedRange { start_ms: 8_000, end_ms: 14_500 });
}
