use gifclip::names::{
    build_subtitle_filter, format_timestamp, get_filename_from_path, get_filename_from_url,
    is_url, is_youtube_url, sanitize_filename,
};

#[test]
fn urls_are_recognised_by_scheme() {
    assert!(is_url("http://example.com/v.mp4"));
    assert!(is_url("https://example.com/v.mp4"));
    assert!(!is_url("ftp://example.com/v.mp4"));
    assert!(!is_url("movie.mp4"));
    assert!(!is_url(""));
}

#[test]
fn youtube_hosts_are_recognised() {
    assert!(is_youtube_url("https://www.youtube.com/watch?v=abc"));
    assert!(is_youtube_url("https://youtu.be/abc"));
    assert!(!is_youtube_url("https://example.com/watch?v=abc"));
}

#[test]
fn title_from_path_takes_the_stem() {
    assert_eq!(get_filename_from_path("dir/movie.mp4"), "movie");
    assert_eq!(get_filename_from_path("/a/b/archive.tar.gz"), "archive.tar");
    assert_eq!(get_filename_from_path("noext"), "noext");
    assert_eq!(get_filename_from_path(".hidden"), ".hidden");
}

#[test]
fn title_from_path_falls_back_to_video() {
    assert_eq!(get_filename_from_path(""), "video");
    assert_eq!(get_filename_from_path("/"), "video");
    assert_eq!(get_filename_from_path(".."), "video");
}

#[test]
fn title_from_path_ignores_trailing_separators() {
    assert_eq!(get_filename_from_path("a/b/"), "b");
    assert_eq!(get_filename_from_path("a/."), "a");
}

#[test]
fn title_from_url_cuts_query_and_extension() {
    assert_eq!(
        get_filename_from_url("https://example.com/videos/clip.mp4?token=1"),
        "clip"
    );
    assert_eq!(get_filename_from_url("https://example.com/v.webm"), "v");
    assert_eq!(get_filename_from_url("plain"), "plain");
    assert_eq!(get_filename_from_url("https://example.com/"), "");
}

#[test]
fn sanitize_replaces_refused_characters() {
    assert_eq!(
        sanitize_filename("a<b>c:d\"e/f\\g|h?i*j"),
        "a_b_c_d_e_f_g_h_i_j"
    );
    assert_eq!(sanitize_filename("Plain Title 7"), "Plain Title 7");
}

#[test]
fn sanitize_cuts_to_fifty_characters() {
    let long: String = "x".repeat(80);
    let out = sanitize_filename(&long);
    assert_eq!(out.chars().count(), 50);
}

#[test]
fn timestamps_render_as_minutes_and_seconds() {
    assert_eq!(format_timestamp(90_500), "1m30s");
    assert_eq!(format_timestamp(0), "0m0s");
    assert_eq!(format_timestamp(125_000), "2m5s");
    assert_eq!(format_timestamp(3_599_999), "59m59s");
}

#[test]
fn subtitle_filter_escapes_the_path() {
    let r = build_subtitle_filter(&Some(String::from("a:b'c\\d"))).unwrap();
    assert_eq!(r, "subtitles='a\\:b\\'c\\\\d'");
    let plain = build_subtitle_filter(&Some(String::from("subs/movie.srt"))).unwrap();
    assert_eq!(plain, "subtitles='subs/movie.srt'");
}

#[test]
fn no_subtitles_means_no_filter() {
    assert!(build_subtitle_filter(&None).is_none());
}

#[test]
fn subtitle_pick_prefers_shortest_matching_srt() {
    let paths = vec![
        String::from("tmp/video.en-long-name.srt"),
        String::from("tmp/video.en.srt"),
        String::from("tmp/video.de.srt"),
        String::from("tmp/readme.txt"),
    ];
    assert_eq!(gifclip::names::pick_subtitle_file(&paths, "en"), Some(1));
}

#[test]
fn subtitle_pick_ties_go_to_the_earliest() {
    let paths = vec![String::from("a.en.srt"), String::from("b.en.srt")];
    assert_eq!(gifclip::names::pick_subtitle_file(&paths, "en"), Some(0));
}

#[test]
fn subtitle_pick_needs_extension_and_language() {
    let paths = vec![
        String::from("video.en.sub"),
        String::from("video.de.srt"),
        String::from(".srt"),
    ];
    assert_eq!(gifclip::names::pick_subtitle_file(&paths, "en"), None);
}

#[test]
fn filter_chain_orders_sub_fps_scale() {
    let with_sub = gifclip::names::video_filter_chain(
        &Some(String::from("subtitles='s.srt'")),
        15,
        480,
        true,
    );
    assert_eq!(with_sub, "subtitles='s.srt',fps=15,scale=480:-1:flags=lanczos");
    let plain = gifclip::names::video_filter_chain(&None, 24, 720, false);
    assert_eq!(plain, "fps=24,scale=720:-1");
}
