use episode_matcher::subtitles::clean_subtitle_text;
use episode_matcher::subtitles::find_best_subtitle_track;
use episode_matcher::subtitles::pgs_display_line;
use episode_matcher::subtitles::rgba_to_rgb_over_black;
use episode_matcher::subtitles::subtitle_output_name;
use episode_matcher::subtitles::StreamInfo;
use episode_matcher::subtitles::SubtitleCodec;
use episode_matcher::subtitles::SubtitleTrack;

#[test]
fn test_subtitle_text_cleaning() {
    let input = "Hello | World! @#$%^&*()";
    // | -> I
    // @#$%^&*() are allowed punctuation
    let expected = "Hello I World! @#$%^&*()";

    let cleaned_text = clean_subtitle_text(input);

    assert_eq!(cleaned_text, expected);

    let input_with_invalid = "Hello \u{0000} World \u{001F}"; // Null and Unit Separator
    let expected_cleaned = "Hello  World ";

    let cleaned_invalid = clean_subtitle_text(input_with_invalid);

    // The whitespace check allows spaces, so the control characters are
    // removed but spaces remain.
    assert_eq!(cleaned_invalid.trim(), expected_cleaned.trim());
}

fn stream(index: u32, codec_name: &str, language: Option<&str>) -> StreamInfo {
    StreamInfo {
        index,
        codec_name: codec_name.to_string(),
        language: language.map(|l| l.to_string()),
    }
}

#[test]
fn test_track_selection_prefers_text_over_image() {
    let streams = vec![
        stream(2, "hdmv_pgs_subtitle", Some("eng")),
        stream(3, "subrip", Some("eng")),
    ];
    assert_eq!(
        find_best_subtitle_track(&streams),
        Some(SubtitleTrack {
            index: 3,
            codec: SubtitleCodec::Srt
        })
    );
}

#[test]
fn test_track_selection_requires_english() {
    let streams = vec![
        stream(2, "subrip", Some("deu")),
        stream(3, "hdmv_pgs_subtitle", Some("eng")),
        stream(4, "hdmv_pgs_subtitle", Some("eng")),
    ];
    assert_eq!(
        find_best_subtitle_track(&streams),
        Some(SubtitleTrack {
            index: 3,
            codec: SubtitleCodec::Pgs
        })
    );
    assert_eq!(
        find_best_subtitle_track(&vec![stream(1, "subrip", None)]),
        None
    );
    assert_eq!(find_best_subtitle_track(&Vec::new()), None);
}

#[test]
fn test_track_selection_ignores_unknown_codecs() {
    let streams = vec![
        stream(1, "dvd_subtitle", Some("eng")),
        stream(2, "subrip", Some("eng")),
    ];
    assert_eq!(
        find_best_subtitle_track(&streams),
        Some(SubtitleTrack {
            index: 2,
            codec: SubtitleCodec::Srt
        })
    );
}

#[test]
fn test_subtitle_output_names() {
    assert_eq!(subtitle_output_name(&SubtitleCodec::Srt), "extracted.srt");
    assert_eq!(subtitle_output_name(&SubtitleCodec::Pgs), "extracted.sup");
}

#[test]
fn test_rgba_compositing_over_black() {
    // Full alpha keeps the color, zero alpha blacks it out, half alpha
    // scales it.
    let rgba = vec![200, 100, 50, 255, 200, 100, 50, 0, 200, 100, 50, 128];
    let rgb = rgba_to_rgb_over_black(&rgba);
    assert_eq!(rgb, vec![200, 100, 50, 0, 0, 0, 100, 50, 25]);
}

#[test]
fn test_pgs_display_line() {
    assert_eq!(
        pgs_display_line("  Some | line  "),
        Some("Some I line".to_string())
    );
    assert_eq!(pgs_display_line("   "), None);
    assert_eq!(pgs_display_line("\u{0000}\u{001F}"), None);
}
