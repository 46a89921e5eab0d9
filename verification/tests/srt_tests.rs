use gifclip::srt::{parse_srt, parse_timing_line};

#[test]
fn end_to_end_two_entries() {
    let input = "1\n00:00:10,000 --> 00:00:12,500\nHello <i>world</i>\n\n2\n00:00:20,000 --> 00:00:21,000\nGoodbye\n\n";
    let entries = parse_srt(input);
    assert_eq!(entries.len(), 2);
    assert_eq!(entries[0].start_ms, 10_000);
    assert_eq!(entries[0].end_ms, 12_500);
    assert_eq!(entries[0].text, "Hello world");
    assert_eq!(entries[1].start_ms, 20_000);
    assert_eq!(entries[1].end_ms, 21_000);
    assert_eq!(entries[1].text, "Goodbye");
}

#[test]
fn timing_line_round_trip() {
    // start = 0*3600000 + 1*60000 + 23*1000 + 456, end likewise
    let r = parse_timing_line("00:01:23,456 --> 00:01:25,789");
    assert_eq!(r, Some((83_456, 85_789)));
}

#[test]
fn timing_line_round_trip_formula() {
    let r = parse_timing_line("01:02:03.004 --> 02:03:04,005");
    let start = 1 * 3_600_000 + 2 * 60_000 + 3 * 1000 + 4;
    let end = 2 * 3_600_000 + 3 * 60_000 + 4 * 1000 + 5;
    assert_eq!(r, Some((start, end)));
}

#[test]
fn timing_line_dot_separator() {
    let r = parse_timing_line("00:00:01.500 --> 00:00:02.750");
    assert_eq!(r, Some((1_500, 2_750)));
}

#[test]
fn timing_line_not_found() {
    assert_eq!(parse_timing_line("just some caption text"), None);
    assert_eq!(parse_timing_line("00:00:01,000 -> 00:00:02,000"), None);
}

#[test]
fn timing_line_found_mid_line() {
    // the pattern is looked for anywhere in the line
    let r = parse_timing_line("x 00:00:01,000 --> 00:00:02,000 y");
    assert_eq!(r, Some((1_000, 2_000)));
}

#[test]
fn block_without_index_line_needs_three_lines() {
    // a block of three lines whose first is the timing line still parses
    let input = "00:00:01,000 --> 00:00:02,000\nfirst\nsecond\n\n";
    let entries = parse_srt(input);
    assert_eq!(entries.len(), 1);
    assert_eq!(entries[0].text, "first second");
}

#[test]
fn short_blocks_are_skipped() {
    let input = "1\n00:00:01,000 --> 00:00:02,000\n\nlonely\n\n2\n00:00:03,000 --> 00:00:04,000\nkept\n";
    let entries = parse_srt(input);
    assert_eq!(entries.len(), 1);
    assert_eq!(entries[0].text, "kept");
}

#[test]
fn blocks_without_timing_are_skipped() {
    let input = "WEBVTT style\nheader block\nmore\n\n1\n00:00:01,000 --> 00:00:02,000\nreal\n";
    let entries = parse_srt(input);
    assert_eq!(entries.len(), 1);
    assert_eq!(entries[0].text, "real");
}

#[test]
fn empty_text_blocks_are_discarded() {
    let input = "1\n00:00:01,000 --> 00:00:02,000\n<i></i>\n\n";
    let entries = parse_srt(input);
    assert_eq!(entries.len(), 0);
}

#[test]
fn nested_and_repeated_tags_are_stripped() {
    let input = "1\n00:00:01,000 --> 00:00:02,000\n<b><i>Bold</i></b> and <u>under</u> <i>again</i>\n\n";
    let entries = parse_srt(input);
    assert_eq!(entries.len(), 1);
    let t = &entries[0].text;
    assert_eq!(t, "Bold and under again");
    for tag in ["<i>", "</i>", "<b>", "</b>", "<u>", "</u>"] {
        assert!(!t.contains(tag));
    }
}

#[test]
fn multi_line_text_is_flattened_and_trimmed() {
    let input = "7\n00:00:05,000 --> 00:00:06,000\n  first line\nsecond line  \n\n";
    let entries = parse_srt(input);
    assert_eq!(entries.len(), 1);
    assert_eq!(entries[0].text, "first line second line");
}

#[test]
fn carriage_returns_are_stripped_from_lines() {
    // CRLF line endings leave no blank "\n\n" separator, so this is one block
    let input = "1\r\n00:00:01,000 --> 00:00:02,000\r\nHi there\r\n";
    let entries = parse_srt(input);
    assert_eq!(entries.len(), 1);
    assert_eq!(entries[0].text, "Hi there");
}

#[test]
fn parse_never_fails_on_noise() {
    let entries = parse_srt("complete\n\nnonsense --> here\n\n\n\n");
    assert_eq!(entries.len(), 0);
    let entries = parse_srt("");
    assert_eq!(entries.len(), 0);
}

#[test]
fn file_order_is_kept() {
    let input = "1\n00:00:20,000 --> 00:00:21,000\nlater first\n\n2\n00:00:01,000 --> 00:00:02,000\nearlier second\n";
    let entries = parse_srt(input);
    assert_eq!(entries.len(), 2);
    assert_eq!(entries[0].text, "later first");
    assert_eq!(entries[1].text, "earlier second");
}
