//! Subtitle track selection and subtitle text preparation.
//!
//! Probing a file's streams, demuxing a track and recognizing image
//! subtitles happen outside the library; this module selects the best
//! track from the probed stream descriptions, names the demux output file,
//! converts rendered subtitle images for recognition, and cleans
//! recognized subtitle text for display.

use vstd::prelude::*;

use crate::text;
use crate::text::char_is_alphanumeric;
use crate::text::is_space_char;
use crate::text::trim_spec;

verus! {

use vstd::string::StrSliceExecFns;

/// The two subtitle codecs the matcher understands: text-based SubRip and
/// image-based HDMV PGS.
#[derive(Debug, Clone, Copy, PartialEq, Eq, Structural)]
pub enum SubtitleCodec {
    Srt,
    Pgs,
}

/// One selectable subtitle track of a video file.
#[derive(Debug, Clone, Copy, PartialEq, Eq, Structural)]
pub struct SubtitleTrack {
    pub index: u32,
    pub codec: SubtitleCodec,
}

/// What stream probing reports about one subtitle stream: its index, its
/// codec name, and its language tag if any.
#[derive(Debug)]
pub struct StreamInfo {
    pub index: u32,
    pub codec_name: String,
    pub language: Option<String>,
}

/// Whether the stream is tagged as English.
pub open spec fn stream_is_eng(s: StreamInfo) -> bool {
    match s.language {
        Some(l) => l@ == "eng"@,
        None => false,
    }
}

/// An English text-based (SubRip) subtitle stream.
pub open spec fn is_srt_stream(s: StreamInfo) -> bool {
    stream_is_eng(s) && s.codec_name@ == "subrip"@
}

/// An English image-based (PGS) subtitle stream.
pub open spec fn is_pgs_stream(s: StreamInfo) -> bool {
    stream_is_eng(s) && s.codec_name@ == "hdmv_pgs_subtitle"@
}

/// The selected track: the first English SubRip stream if any exists,
/// else the first English PGS stream, else nothing.
pub open spec fn best_track_spec(ss: Seq<StreamInfo>) -> Option<SubtitleTrack>
    decreases ss.len(),
{
    if ss.len() == 0 {
        None
    } else if is_srt_stream(ss.first()) {
        Some(SubtitleTrack { index: ss.first().index, codec: SubtitleCodec::Srt })
    } else {
        let rest = best_track_spec(ss.drop_first());
        if is_pgs_stream(ss.first()) {
            match rest {
                Some(t) => if t.codec == SubtitleCodec::Srt {
                    rest
                } else {
                    Some(SubtitleTrack { index: ss.first().index, codec: SubtitleCodec::Pgs })
                },
                None => Some(
                    SubtitleTrack { index: ss.first().index, codec: SubtitleCodec::Pgs },
                ),
            }
        } else {
            rest
        }
    }
}

fn best_from(streams: &Vec<StreamInfo>, i: usize) -> (r: Option<SubtitleTrack>)
    requires
        i <= streams@.len(),
    ensures
        r == best_track_spec(streams@.skip(i as int)),
    decreases streams@.len() - i,
{
    if i == streams.len() {
        proof {
            assert(streams@.skip(i as int) =~= Seq::<StreamInfo>::empty());
        }
        return None;
    }
    proof {
        assert(streams@.skip(i as int).first() == streams@[i as int]);
        assert(streams@.skip(i as int).drop_first() =~= streams@.skip(i + 1 as int));
    }
    let s = &streams[i];
    let eng = match &s.language {
        Some(l) => text::str_eq(l.as_str(), "eng"),
        None => false,
    };
    if eng && text::str_eq(s.codec_name.as_str(), "subrip") {
        return Some(SubtitleTrack { index: s.index, codec: SubtitleCodec::Srt });
    }
    let rest = best_from(streams, i + 1);
    if eng && text::str_eq(s.codec_name.as_str(), "hdmv_pgs_subtitle") {
        match rest {
            Some(t) => if t.codec == SubtitleCodec::Srt {
                Some(t)
            } else {
                Some(SubtitleTrack { index: s.index, codec: SubtitleCodec::Pgs })
            },
            None => Some(SubtitleTrack { index: s.index, codec: SubtitleCodec::Pgs }),
        }
    } else {
        rest
    }
}

/// The selection prefers text over image and accepts only English: some
/// English SubRip stream makes the result a SubRip track, an English PGS
/// stream is chosen only when no English SubRip stream exists, and without
/// either there is no track.
pub proof fn lemma_best_track_preference(ss: Seq<StreamInfo>)
    ensures
        (exists|i: int| 0 <= i < ss.len() && is_srt_stream(#[trigger] ss[i])) <==> (
        best_track_spec(ss) matches Some(t) && t.codec == SubtitleCodec::Srt),
        !(exists|i: int| 0 <= i < ss.len() && is_srt_stream(#[trigger] ss[i])) && (exists|i: int|
            0 <= i < ss.len() && is_pgs_stream(#[trigger] ss[i])) ==> (best_track_spec(ss) matches
            Some(t) && t.codec == SubtitleCodec::Pgs),
        best_track_spec(ss) is None ==> !(exists|i: int|
            0 <= i < ss.len() && (is_srt_stream(#[trigger] ss[i]) || is_pgs_stream(ss[i]))),
    decreases ss.len(),
{
    if ss.len() > 0 {
        let rest = ss.drop_first();
        lemma_best_track_preference(rest);
        assert(forall|j: int| 0 <= j < rest.len() ==> #[trigger] rest[j] == ss[j + 1]);
        assert forall|i: int|
            0 < i < ss.len() && is_srt_stream(#[trigger] ss[i]) implies exists|j: int|
            0 <= j < rest.len() && is_srt_stream(#[trigger] rest[j]) by {
            assert(is_srt_stream(rest[i - 1]));
        }
        assert forall|i: int|
            0 < i < ss.len() && is_pgs_stream(#[trigger] ss[i]) implies exists|j: int|
            0 <= j < rest.len() && is_pgs_stream(#[trigger] rest[j]) by {
            assert(is_pgs_stream(rest[i - 1]));
        }
        reveal_strlit("subrip");
        reveal_strlit("hdmv_pgs_subtitle");
        assert("subrip"@.len() != "hdmv_pgs_subtitle"@.len());
        assert(!(is_srt_stream(ss[0]) && is_pgs_stream(ss[0])));
    }
}

/// Selects the subtitle track to use for a file from its probed subtitle
/// streams: English is required, and a text-based track is preferred over
/// an image-based one; `None` when no suitable track exists.
pub fn find_best_subtitle_track(streams: &Vec<StreamInfo>) -> (r: Option<SubtitleTrack>)
    ensures
        r == best_track_spec(streams@),
{
    proof {
        assert(streams@.skip(0) =~= streams@);
    }
    best_from(streams, 0)
}

/// The file name a demuxed subtitle track is written to, by codec.
pub fn subtitle_output_name(codec: &SubtitleCodec) -> (r: String)
    ensures
        r@ == (match codec {
            SubtitleCodec::Srt => "extracted.srt"@,
            SubtitleCodec::Pgs => "extracted.sup"@,
        }),
{
    match codec {
        SubtitleCodec::Srt => "extracted.srt".to_owned(),
        SubtitleCodec::Pgs => "extracted.sup".to_owned(),
    }
}

// ---------------------------------------------------------------------------
// Subtitle image conversion
// ---------------------------------------------------------------------------

/// One color channel composited over a black background: the channel value
/// scaled by the alpha value.
pub open spec fn over_black(c: u8, a: u8) -> u8 {
    ((c as int * a as int) / 255) as u8
}

/// The three output channels of pixel `p` are its input channels
/// composited over black.
pub open spec fn pixel_over_black(rgb: Seq<u8>, rgba: Seq<u8>, p: int) -> bool {
    rgb[3 * p] == over_black(rgba[4 * p], rgba[4 * p + 3]) && rgb[3 * p + 1] == over_black(
        rgba[4 * p + 1],
        rgba[4 * p + 3],
    ) && rgb[3 * p + 2] == over_black(rgba[4 * p + 2], rgba[4 * p + 3])
}

/// Converts a rendered RGBA subtitle image to RGB by compositing each
/// pixel over a black background. The buffer holds whole four-byte pixels.
pub fn rgba_to_rgb_over_black(rgba: &Vec<u8>) -> (r: Vec<u8>)
    requires
        rgba@.len() % 4 == 0,
    ensures
        r@.len() == rgba@.len() / 4 * 3,
        forall|p: int| 0 <= p < rgba@.len() / 4 ==> #[trigger] pixel_over_black(r@, rgba@, p),
{
    proof {
        vstd::arithmetic::div_mod::lemma_fundamental_div_mod(rgba@.len() as int, 4);
    }
    let len = rgba.len();
    let pixels = len / 4;
    let mut r: Vec<u8> = Vec::new();
    let mut p: usize = 0;
    while p < pixels
        invariant
            p <= pixels,
            pixels == rgba@.len() / 4,
            rgba@.len() == 4 * pixels,
            rgba@.len() <= usize::MAX,
            r@.len() == 3 * p,
            forall|q: int| 0 <= q < p ==> #[trigger] pixel_over_black(r@, rgba@, q),
        decreases pixels - p,
    {
        let base = 4 * p;
        let red = rgba[base] as u16;
        let green = rgba[base + 1] as u16;
        let blue = rgba[base + 2] as u16;
        let alpha = rgba[base + 3] as u16;
        proof {
            assert(red * alpha <= 255 * 255) by (nonlinear_arith)
                requires
                    red <= 255,
                    alpha <= 255,
            ;
            assert(green * alpha <= 255 * 255) by (nonlinear_arith)
                requires
                    green <= 255,
                    alpha <= 255,
            ;
            assert(blue * alpha <= 255 * 255) by (nonlinear_arith)
                requires
                    blue <= 255,
                    alpha <= 255,
            ;
        }
        let ghost pre = r@;
        r.push(((red * alpha) / 255) as u8);
        r.push(((green * alpha) / 255) as u8);
        r.push(((blue * alpha) / 255) as u8);
        proof {
            assert(pixel_over_black(r@, rgba@, p as int));
            assert(forall|q: int| 0 <= q < p ==> pixel_over_black(pre, rgba@, q));
            assert forall|q: int| 0 <= q < p + 1 implies #[trigger] pixel_over_black(
                r@,
                rgba@,
                q,
            ) by {
                if q < p {
                    assert(pixel_over_black(pre, rgba@, q));
                    assert(r@[3 * q] == pre[3 * q]);
                    assert(r@[3 * q + 1] == pre[3 * q + 1]);
                    assert(r@[3 * q + 2] == pre[3 * q + 2]);
                }
            }
        }
        p += 1;
    }
    r
}

// ---------------------------------------------------------------------------
// Recognized subtitle text cleaning
// ---------------------------------------------------------------------------

/// ASCII punctuation, the printable characters kept besides letters,
/// digits and whitespace.
pub open spec fn is_allowed_punct(c: char) -> bool {
    (33 <= c as u32 && c as u32 <= 47) || (58 <= c as u32 && c as u32 <= 64) || (91 <= c as u32
        && c as u32 <= 96) || (123 <= c as u32 && c as u32 <= 126)
}

/// Recognition of image subtitles tends to read `I` as `|`; turn it back.
pub open spec fn pipe_to_i(c: char) -> char {
    if c == '|' {
        'I'
    } else {
        c
    }
}

/// Whether a (substituted) character survives cleaning.
pub open spec fn keep_char(c: char) -> bool {
    char_is_alphanumeric(c) || is_space_char(c) || is_allowed_punct(c)
}

/// Recognized subtitle text after cleaning: `|` becomes `I`, then only
/// alphanumeric characters, whitespace and ASCII punctuation are kept.
pub open spec fn clean_spec(s: Seq<char>) -> Seq<char>
    decreases s.len(),
{
    if s.len() == 0 {
        Seq::empty()
    } else {
        let rest = clean_spec(s.drop_last());
        let c = pipe_to_i(s.last());
        if keep_char(c) {
            rest.push(c)
        } else {
            rest
        }
    }
}

fn exec_pipe_to_i(c: char) -> (r: char)
    ensures
        r == pipe_to_i(c),
{
    if c == '|' {
        'I'
    } else {
        c
    }
}

fn exec_allowed_punct(c: char) -> (r: bool)
    ensures
        r == is_allowed_punct(c),
{
    let u: u32 = c as u32;
    (33 <= u && u <= 47) || (58 <= u && u <= 64) || (91 <= u && u <= 96) || (123 <= u && u <= 126)
}

/// Cleans one chunk of recognized subtitle text for display.
pub fn clean_subtitle_text(recognized: &str) -> (r: String)
    ensures
        r@ == clean_spec(recognized@),
{
    let chars = text::chars_of(recognized);
    let mut kept: Vec<char> = Vec::new();
    let mut i: usize = 0;
    while i < chars.len()
        invariant
            i <= chars@.len(),
            chars@ == recognized@,
            kept@ == clean_spec(recognized@.take(i as int)),
        decreases chars@.len() - i,
    {
        proof {
            assert(recognized@.take(i + 1 as int).drop_last() =~= recognized@.take(i as int));
            assert(recognized@.take(i + 1 as int).last() == recognized@[i as int]);
        }
        let c = exec_pipe_to_i(chars[i]);
        if text::alphanumeric_char(c) || text::space_char(c) || exec_allowed_punct(c) {
            kept.push(c);
        }
        i += 1;
    }
    proof {
        assert(recognized@.take(recognized@.len() as int) =~= recognized@);
    }
    text::string_of(&kept)
}

/// What one rendered display set contributes to the operator's view: its
/// recognized text, cleaned and trimmed; nothing when that leaves an empty
/// line.
pub fn pgs_display_line(recognized: &str) -> (r: Option<String>)
    ensures
        match r {
            Some(line) => trim_spec(clean_spec(recognized@)).len() > 0 && line@ == trim_spec(
                clean_spec(recognized@),
            ),
            None => trim_spec(clean_spec(recognized@)).len() == 0,
        },
{
    let cleaned = clean_subtitle_text(recognized);
    let cleaned_chars = text::chars_of(cleaned.as_str());
    let trimmed = text::trim_chars(&cleaned_chars);
    if trimmed.len() == 0 {
        None
    } else {
        Some(text::string_of(&trimmed))
    }
}

} // verus!
