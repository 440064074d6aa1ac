//! Which paths count as videos, and the reading of ffprobe's report.

use vstd::prelude::*;
use crate::text::{
    ascii_upper, char_at, char_len, eq_ignore_ascii_case, find_char, first_index_of,
    last_index_of, lemma_first_index_of, lemma_last_index_of, owned, rfind_char, slice_chars,
    spec_trim, split_once, str_eq, str_eq_ignore_ascii_case, to_ascii_uppercase, trim,
};

verus! {

// ---------------------------------------------------------------- paths

/// `Path::file_name` on a Unix path: the last component when it is a normal one.
pub open spec fn spec_file_name(p: Seq<char>) -> Option<Seq<char>>
    decreases p.len(),
{
    if p.len() == 0 {
        None
    } else if p.last() == '/' {
        spec_file_name(p.drop_last())
    } else {
        let k = last_index_of(p, '/');
        let seg = p.subrange(k + 1, p.len() as int);
        if seg == seq!['.'] {
            if k < 0 {
                None
            } else {
                proof {
                    lemma_last_index_of(p, '/');
                }
                spec_file_name(p.subrange(0, k))
            }
        } else if seg == seq!['.', '.'] {
            None
        } else {
            Some(seg)
        }
    }
}

/// `Path::extension` of a file name: the text after the last dot, when that dot is not
/// the first character.
pub open spec fn spec_extension(name: Seq<char>) -> Option<Seq<char>> {
    let d = last_index_of(name, '.');
    if name == seq!['.', '.'] || d <= 0 {
        None
    } else {
        Some(name.subrange(d + 1, name.len() as int))
    }
}

/// The last normal component of a path.
pub fn file_name(p: &str) -> (r: Option<&str>)
    ensures
        match r {
            Some(n) => spec_file_name(p@) == Some(n@),
            None => spec_file_name(p@) is None,
        },
{
    let mut end = char_len(p);
    assert(p@.subrange(0, end as int) == p@);
    loop
        invariant
            end <= p@.len(),
            spec_file_name(p@.subrange(0, end as int)) == spec_file_name(p@),
        decreases end,
    {
        let q = slice_chars(p, 0, end);
        if end == 0 {
            return None;
        }
        if char_at(q, end - 1) == '/' {
            assert(q@.drop_last() == p@.subrange(0, end - 1));
            end = end - 1;
            continue;
        }
        proof {
            lemma_last_index_of(q@, '/');
        }
        let start = match rfind_char(q, '/') {
            Some(k) => k + 1,
            None => 0,
        };
        let seg = slice_chars(q, start, end);
        let is_dot = str_eq(seg, ".");
        let is_dot_dot = str_eq(seg, "..");
        proof {
            reveal_strlit(".");
            reveal_strlit("..");
            assert("."@ == seq!['.']);
            assert(".."@ == seq!['.', '.']);
        }
        if is_dot {
            if start == 0 {
                return None;
            }
            assert(q@.subrange(0, start - 1) == p@.subrange(0, start - 1));
            end = start - 1;
            continue;
        }
        if is_dot_dot {
            return None;
        }
        return Some(seg);
    }
}

/// The extension of a file name.
pub fn extension(name: &str) -> (r: Option<&str>)
    ensures
        match r {
            Some(e) => spec_extension(name@) == Some(e@),
            None => spec_extension(name@) is None,
        },
{
    proof {
        reveal_strlit("..");
        assert(".."@ == seq!['.', '.']);
    }
    if str_eq(name, "..") {
        return None;
    }
    let n = char_len(name);
    proof {
        lemma_last_index_of(name@, '.');
    }
    match rfind_char(name, '.') {
        Some(d) => {
            if d == 0 {
                None
            } else {
                Some(slice_chars(name, d + 1, n))
            }
        },
        None => None,
    }
}

/// A macOS AppleDouble sidecar name (`._name`).
pub open spec fn spec_is_apple_double_name(name: Seq<char>) -> bool {
    name.len() >= 2 && name[0] == '.' && name[1] == '_'
}

/// Dot-prefixed names and AppleDouble sidecars are skipped by library scans.
pub open spec fn spec_should_ignore_entry_name(name: Seq<char>) -> bool {
    (name.len() >= 1 && name[0] == '.') || spec_is_apple_double_name(name)
}

/// macOS AppleDouble sidecar (resource fork / metadata on exFAT, FAT, etc.).
pub fn is_apple_double_name(name: &str) -> (r: bool)
    ensures
        r == spec_is_apple_double_name(name@),
{
    char_len(name) >= 2 && char_at(name, 0) == '.' && char_at(name, 1) == '_'
}

/// Dot-prefixed names and AppleDouble sidecars — skipped during library scans.
pub fn should_ignore_entry_name(name: &str) -> (r: bool)
    ensures
        r == spec_should_ignore_entry_name(name@),
{
    (char_len(name) >= 1 && char_at(name, 0) == '.') || is_apple_double_name(name)
}

/// The extensions treated as video, compared without regard to ASCII case.
pub open spec fn spec_is_video_extension(e: Seq<char>) -> bool {
    ||| eq_ignore_ascii_case(e, "mkv"@)
    ||| eq_ignore_ascii_case(e, "mp4"@)
    ||| eq_ignore_ascii_case(e, "avi"@)
    ||| eq_ignore_ascii_case(e, "mov"@)
    ||| eq_ignore_ascii_case(e, "webm"@)
    ||| eq_ignore_ascii_case(e, "m4v"@)
    ||| eq_ignore_ascii_case(e, "wmv"@)
    ||| eq_ignore_ascii_case(e, "flv"@)
    ||| eq_ignore_ascii_case(e, "mpg"@)
    ||| eq_ignore_ascii_case(e, "mpeg"@)
    ||| eq_ignore_ascii_case(e, "ts"@)
    ||| eq_ignore_ascii_case(e, "m2ts"@)
    ||| eq_ignore_ascii_case(e, "vob"@)
    ||| eq_ignore_ascii_case(e, "ogv"@)
    ||| eq_ignore_ascii_case(e, "3gp"@)
}

pub fn is_video_extension(e: &str) -> (r: bool)
    ensures
        r == spec_is_video_extension(e@),
{
    str_eq_ignore_ascii_case(e, "mkv") || str_eq_ignore_ascii_case(e, "mp4")
        || str_eq_ignore_ascii_case(e, "avi") || str_eq_ignore_ascii_case(e, "mov")
        || str_eq_ignore_ascii_case(e, "webm") || str_eq_ignore_ascii_case(e, "m4v")
        || str_eq_ignore_ascii_case(e, "wmv") || str_eq_ignore_ascii_case(e, "flv")
        || str_eq_ignore_ascii_case(e, "mpg") || str_eq_ignore_ascii_case(e, "mpeg")
        || str_eq_ignore_ascii_case(e, "ts") || str_eq_ignore_ascii_case(e, "m2ts")
        || str_eq_ignore_ascii_case(e, "vob") || str_eq_ignore_ascii_case(e, "ogv")
        || str_eq_ignore_ascii_case(e, "3gp")
}

/// A path is a video when its file name is not hidden and has a video extension.
pub open spec fn spec_is_video_path(p: Seq<char>) -> bool {
    match spec_file_name(p) {
        None => false,
        Some(name) => !spec_should_ignore_entry_name(name) && match spec_extension(name) {
            Some(e) => spec_is_video_extension(e),
            None => false,
        },
    }
}

pub fn is_video_path(path: &str) -> (r: bool)
    ensures
        r == spec_is_video_path(path@),
{
    let name = match file_name(path) {
        Some(n) => n,
        None => {
            return false;
        },
    };
    if should_ignore_entry_name(name) {
        return false;
    }
    match extension(name) {
        Some(e) => is_video_extension(e),
        None => false,
    }
}

/// The documented video extensions, in any ASCII case: mkv, mp4, avi, mov, webm, m4v,
/// wmv, flv, mpg, mpeg, ts, m2ts, vob, ogv, 3gp. A file is a video exactly when its
/// extension is one of them.
pub proof fn law_video_extensions_are_the_documented_ones(e: Seq<char>)
    ensures
        spec_is_video_extension(e) <==> (eq_ignore_ascii_case(e, "mkv"@) || eq_ignore_ascii_case(e, "mp4"@)
            || eq_ignore_ascii_case(e, "avi"@) || eq_ignore_ascii_case(e, "mov"@) || eq_ignore_ascii_case(
            e,
            "webm"@,
        ) || eq_ignore_ascii_case(e, "m4v"@) || eq_ignore_ascii_case(e, "wmv"@) || eq_ignore_ascii_case(
            e,
            "flv"@,
        ) || eq_ignore_ascii_case(e, "mpg"@) || eq_ignore_ascii_case(e, "mpeg"@) || eq_ignore_ascii_case(
            e,
            "ts"@,
        ) || eq_ignore_ascii_case(e, "m2ts"@) || eq_ignore_ascii_case(e, "vob"@) || eq_ignore_ascii_case(
            e,
            "ogv"@,
        ) || eq_ignore_ascii_case(e, "3gp"@)),
{
}

proof fn lemma_last_index_at(s: Seq<char>, c: char, k: int)
    requires
        0 <= k < s.len(),
        s[k] == c,
        forall|j: int| k < j < s.len() ==> s[j] != c,
    ensures
        last_index_of(s, c) == k,
{
    lemma_last_index_of(s, c);
}

/// A file in any directory, whose name does not start with a dot and ends with one of the
/// documented video extensions (mkv, mp4, avi, mov, webm, m4v, wmv, flv, mpg, mpeg, ts,
/// m2ts, vob, ogv, 3gp, in any ASCII case) after its last dot, is a video.
pub proof fn law_files_with_a_documented_extension_are_videos(dir: Seq<char>, stem: Seq<char>, ext: Seq<char>)
    requires
        stem.len() > 0,
        stem[0] != '.',
        forall|i: int| 0 <= i < stem.len() ==> stem[i] != '/',
        forall|i: int| 0 <= i < ext.len() ==> ext[i] != '/' && ext[i] != '.',
        eq_ignore_ascii_case(ext, "mkv"@) || eq_ignore_ascii_case(ext, "mp4"@) || eq_ignore_ascii_case(
            ext,
            "avi"@,
        ) || eq_ignore_ascii_case(ext, "mov"@) || eq_ignore_ascii_case(ext, "webm"@) || eq_ignore_ascii_case(
            ext,
            "m4v"@,
        ) || eq_ignore_ascii_case(ext, "wmv"@) || eq_ignore_ascii_case(ext, "flv"@) || eq_ignore_ascii_case(
            ext,
            "mpg"@,
        ) || eq_ignore_ascii_case(ext, "mpeg"@) || eq_ignore_ascii_case(ext, "ts"@) || eq_ignore_ascii_case(
            ext,
            "m2ts"@,
        ) || eq_ignore_ascii_case(ext, "vob"@) || eq_ignore_ascii_case(ext, "ogv"@) || eq_ignore_ascii_case(
            ext,
            "3gp"@,
        ),
    ensures
        spec_is_video_path(dir + seq!['/'] + stem + seq!['.'] + ext),
{
    reveal_strlit("mkv");
    reveal_strlit("mp4");
    reveal_strlit("avi");
    reveal_strlit("mov");
    reveal_strlit("webm");
    reveal_strlit("m4v");
    reveal_strlit("wmv");
    reveal_strlit("flv");
    reveal_strlit("mpg");
    reveal_strlit("mpeg");
    reveal_strlit("ts");
    reveal_strlit("m2ts");
    reveal_strlit("vob");
    reveal_strlit("ogv");
    reveal_strlit("3gp");
    law_video_extensions_are_the_documented_ones(ext);
    assert(ext.len() > 0);
    let name = stem + seq!['.'] + ext;
    let p = dir + seq!['/'] + name;
    assert(p =~= dir + seq!['/'] + stem + seq!['.'] + ext);
    let k = dir.len() as int;
    assert(p[k] == '/');
    assert forall|j: int| k < j < p.len() implies p[j] != '/' by {
        assert(p[j] == name[j - k - 1]);
        if j - k - 1 < stem.len() {
            assert(name[j - k - 1] == stem[j - k - 1]);
        } else if j - k - 1 > stem.len() {
            assert(name[j - k - 1] == ext[j - k - 2 - stem.len()]);
        }
    }
    lemma_last_index_at(p, '/', k);
    assert(p.last() == ext.last());
    assert(p.subrange(k + 1, p.len() as int) =~= name);
    assert(name.len() >= 3);
    assert(name != seq!['.']);
    assert(name != seq!['.', '.']);
    assert(spec_file_name(p) == Some(name));
    assert(name[0] == stem[0]);
    let d = stem.len() as int;
    assert(name[d] == '.');
    assert forall|j: int| d < j < name.len() implies name[j] != '.' by {
        assert(name[j] == ext[j - d - 1]);
    }
    lemma_last_index_at(name, '.', d);
    assert(name.subrange(d + 1, name.len() as int) =~= ext);
    assert(spec_extension(name) == Some(ext));
}

/// A file whose name starts with a dot (hidden files and AppleDouble `._` sidecars) is
/// never a video, whatever its extension.
pub proof fn law_hidden_files_are_not_videos(p: Seq<char>)
    requires
        spec_file_name(p) is Some,
        spec_file_name(p)->0.len() > 0,
        spec_file_name(p)->0[0] == '.',
    ensures
        !spec_is_video_path(p),
{
}

// ---------------------------------------------------------------- numbers

pub open spec fn is_digit(c: char) -> bool {
    '0' <= c && c <= '9'
}

pub open spec fn all_digits(s: Seq<char>) -> bool {
    forall|i: int| 0 <= i < s.len() ==> is_digit(#[trigger] s[i])
}

/// Value of a string of decimal digits.
pub open spec fn digits_value(s: Seq<char>) -> nat
    decreases s.len(),
{
    if s.len() == 0 {
        0
    } else {
        10 * digits_value(s.drop_last()) + ((s.last() as u32) - 48) as nat
    }
}

/// The digits of an unsigned number, after an optional leading `+`.
pub open spec fn unsigned_digits_part(s: Seq<char>) -> Seq<char> {
    if s.len() > 0 && s[0] == '+' {
        s.subrange(1, s.len() as int)
    } else {
        s
    }
}

/// `str::parse` of an unsigned integer: an optional `+`, then at least one digit.
/// The result is the value, before any range check.
pub open spec fn spec_parse_unsigned(s: Seq<char>) -> Option<nat> {
    let body = unsigned_digits_part(s);
    if body.len() > 0 && all_digits(body) {
        Some(digits_value(body))
    } else {
        None
    }
}

proof fn lemma_digits_value_prefix(s: Seq<char>, i: int)
    requires
        0 <= i <= s.len(),
        all_digits(s),
    ensures
        digits_value(s.subrange(0, i)) <= digits_value(s),
    decreases s.len() - i,
{
    if i < s.len() {
        lemma_digits_value_prefix(s, i + 1);
        assert(s.subrange(0, i + 1).drop_last() == s.subrange(0, i));
        assert(is_digit(s[i]));
        assert(s.subrange(0, i + 1).last() == s[i]);
    } else {
        assert(s.subrange(0, i) == s);
    }
}

/// `str::parse::<u64>`.
pub fn parse_u64(s: &str) -> (r: Option<u64>)
    ensures
        match r {
            Some(v) => spec_parse_unsigned(s@) == Some(v as nat),
            None => spec_parse_unsigned(s@) is None || spec_parse_unsigned(s@)->0 > u64::MAX,
        },
{
    let n = char_len(s);
    let start: usize = if n > 0 && char_at(s, 0) == '+' {
        1
    } else {
        0
    };
    let body = slice_chars(s, start, n);
    let ghost b = body@;
    assert(b == unsigned_digits_part(s@));
    let m = char_len(body);
    if m == 0 {
        assert(spec_parse_unsigned(s@) is None);
        return None;
    }
    let mut acc: u128 = 0;
    let mut i: usize = 0;
    while i < m
        invariant
            m == b.len(),
            body@ == b,
            b == unsigned_digits_part(s@),
            0 <= i <= m,
            all_digits(b.subrange(0, i as int)),
            acc == digits_value(b.subrange(0, i as int)),
            acc <= u64::MAX,
        decreases m - i,
    {
        let c = char_at(body, i);
        if !('0' <= c && c <= '9') {
            assert(!all_digits(b));
            assert(spec_parse_unsigned(s@) is None);
            return None;
        }
        let d: u32 = (c as u32) - 48;
        assert(b.subrange(0, i + 1).drop_last() == b.subrange(0, i as int));
        acc = acc * 10 + d as u128;
        i = i + 1;
        if acc > 0xffff_ffff_ffff_ffffu128 {
            proof {
                if all_digits(b) {
                    lemma_digits_value_prefix(b, i as int);
                    assert(spec_parse_unsigned(s@) == Some(digits_value(b)));
                } else {
                    assert(spec_parse_unsigned(s@) is None);
                }
            }
            return None;
        }
    }
    assert(b.subrange(0, m as int) == b);
    assert(spec_parse_unsigned(s@) == Some(digits_value(b)));
    Some(acc as u64)
}

/// ffprobe bit rates: `N/A` or an integer that fits in `u32`.
pub open spec fn spec_parse_bitrate(value: Seq<char>) -> Option<u32> {
    if eq_ignore_ascii_case(value, "N/A"@) {
        None
    } else {
        match spec_parse_unsigned(value) {
            Some(v) => if v <= u32::MAX {
                Some(v as u32)
            } else {
                None
            },
            None => None,
        }
    }
}

/// ffprobe dimensions: `N/A` or a positive integer that fits in `u32`.
pub open spec fn spec_parse_dimension(value: Seq<char>) -> Option<u32> {
    if eq_ignore_ascii_case(value, "N/A"@) {
        None
    } else {
        match spec_parse_unsigned(value) {
            Some(v) => if 0 < v <= u32::MAX {
                Some(v as u32)
            } else {
                None
            },
            None => None,
        }
    }
}

pub fn parse_bitrate(value: &str) -> (r: Option<u32>)
    ensures
        r == spec_parse_bitrate(value@),
{
    if str_eq_ignore_ascii_case(value, "N/A") {
        return None;
    }
    match parse_u64(value) {
        Some(v) => if v <= 0xffff_ffffu64 {
            Some(v as u32)
        } else {
            None
        },
        None => None,
    }
}

pub fn parse_dimension(value: &str) -> (r: Option<u32>)
    ensures
        r == spec_parse_dimension(value@),
{
    if str_eq_ignore_ascii_case(value, "N/A") {
        return None;
    }
    match parse_u64(value) {
        Some(v) => if 0 < v && v <= 0xffff_ffffu64 {
            Some(v as u32)
        } else {
            None
        },
        None => None,
    }
}

// ---------------------------------------------------------------- ffprobe report

/// Metadata read from one ffprobe run.
#[derive(Debug, Clone, PartialEq, Eq)]
pub struct VideoProbe {
    pub duration_ms: Option<u64>,
    pub bitrate: Option<u32>,
    pub codec: Option<String>,
    pub width: Option<u32>,
    pub height: Option<u32>,
    pub audio_track_count: Option<u32>,
    pub subtitle_track_count: Option<u32>,
}

impl VideoProbe {
    /// All fields unknown.
    pub fn empty() -> (r: VideoProbe)
        ensures
            probe_is_empty(r),
    {
        VideoProbe {
            duration_ms: None,
            bitrate: None,
            codec: None,
            width: None,
            height: None,
            audio_track_count: None,
            subtitle_track_count: None,
        }
    }
}

/// The result of probing one path.
#[derive(Debug, Clone, PartialEq, Eq)]
pub enum VideoProbeOutcome {
    Probed(VideoProbe),
    Failed,
}

/// The results of probing many paths.
#[derive(Debug, Clone, PartialEq, Eq)]
pub struct ProbeBatchResult {
    pub ffprobe_available: bool,
    pub results: Vec<(String, VideoProbeOutcome)>,
}

/// The probe of an outcome, or empty metadata when the probe failed.
pub fn probe_or_default(outcome: VideoProbeOutcome) -> (r: VideoProbe)
    ensures
        match outcome {
            VideoProbeOutcome::Probed(p) => r == p,
            VideoProbeOutcome::Failed => probe_is_empty(r),
        },
{
    match outcome {
        VideoProbeOutcome::Probed(p) => p,
        VideoProbeOutcome::Failed => VideoProbe::empty(),
    }
}

/// A probe with every field unknown.
pub open spec fn probe_is_empty(p: VideoProbe) -> bool {
    &&& p.duration_ms is None
    &&& p.bitrate is None
    &&& p.codec is None
    &&& p.width is None
    &&& p.height is None
    &&& p.audio_track_count is None
    &&& p.subtitle_track_count is None
}

/// The state of a scan over ffprobe's `key=value` lines.
pub struct FfprobeScan {
    pub stream_type: Option<Seq<char>>,
    pub audio: nat,
    pub subtitle: nat,
    pub codec: Option<Seq<char>>,
    pub width: Option<u32>,
    pub height: Option<u32>,
    pub bitrates: Seq<u32>,
    pub durations: Seq<Seq<char>>,
}

pub open spec fn scan_start() -> FfprobeScan {
    FfprobeScan {
        stream_type: None,
        audio: 0,
        subtitle: 0,
        codec: None,
        width: None,
        height: None,
        bitrates: seq![],
        durations: seq![],
    }
}

/// One trimmed, non-empty line of the report.
pub open spec fn scan_line(st: FfprobeScan, line: Seq<char>) -> FfprobeScan {
    let k = first_index_of(line, '=');
    if k < 0 {
        st
    } else {
        let key = line.subrange(0, k);
        let value = line.subrange(k + 1, line.len() as int);
        if key == "codec_type"@ {
            FfprobeScan {
                stream_type: Some(value),
                audio: st.audio + if value == "audio"@ {
                    1nat
                } else {
                    0nat
                },
                subtitle: st.subtitle + if value == "subtitle"@ {
                    1nat
                } else {
                    0nat
                },
                ..st
            }
        } else if key == "codec_name"@ && value.len() > 0 {
            if st.stream_type == Some("video"@) && st.codec is None {
                FfprobeScan { codec: Some(value.map_values(|c: char| ascii_upper(c))), ..st }
            } else {
                st
            }
        } else if key == "duration"@ {
            FfprobeScan { durations: st.durations.push(value), ..st }
        } else if key == "bit_rate"@ {
            match spec_parse_bitrate(value) {
                Some(b) => FfprobeScan { bitrates: st.bitrates.push(b), ..st },
                None => st,
            }
        } else if key == "width"@ && st.stream_type == Some("video"@) && st.width is None {
            FfprobeScan { width: spec_parse_dimension(value), ..st }
        } else if key == "height"@ && st.stream_type == Some("video"@) && st.height is None {
            FfprobeScan { height: spec_parse_dimension(value), ..st }
        } else {
            st
        }
    }
}

/// One raw line: trimmed, and skipped when empty.
pub open spec fn scan_raw_line(st: FfprobeScan, raw: Seq<char>) -> FfprobeScan {
    let t = spec_trim(raw);
    if t.len() == 0 {
        st
    } else {
        scan_line(st, t)
    }
}

/// The scan of every line of `text`.
pub open spec fn scan_text(st: FfprobeScan, text: Seq<char>) -> FfprobeScan
    decreases text.len(),
{
    let k = first_index_of(text, '\n');
    if k < 0 {
        scan_raw_line(st, text)
    } else {
        proof {
            lemma_first_index_of(text, '\n');
        }
        scan_text(scan_raw_line(st, text.subrange(0, k)), text.subrange(k + 1, text.len() as int))
    }
}

/// Once the codec, width or height of a video stream has been read, no later line of the
/// report changes it.
pub proof fn law_first_video_stream_fields_stay(st: FfprobeScan, text: Seq<char>)
    ensures
        st.codec is Some ==> scan_text(st, text).codec == st.codec,
        st.width is Some ==> scan_text(st, text).width == st.width,
        st.height is Some ==> scan_text(st, text).height == st.height,
    decreases text.len(),
{
    let k = first_index_of(text, '\n');
    if k >= 0 {
        lemma_first_index_of(text, '\n');
        law_first_video_stream_fields_stay(
            scan_raw_line(st, text.subrange(0, k)),
            text.subrange(k + 1, text.len() as int),
        );
    }
}

proof fn lemma_first_index_of_concat(a: Seq<char>, b: Seq<char>, c: char)
    ensures
        first_index_of(a, c) >= 0 ==> first_index_of(a + b, c) == first_index_of(a, c),
        first_index_of(a, c) < 0 && first_index_of(b, c) >= 0 ==> first_index_of(a + b, c) == a.len()
            + first_index_of(b, c),
    decreases a.len(),
{
    if a.len() > 0 {
        let ab = a + b;
        assert(ab[0] == a[0]);
        assert(ab.subrange(1, ab.len() as int) =~= a.subrange(1, a.len() as int) + b);
        lemma_first_index_of_concat(a.subrange(1, a.len() as int), b, c);
    } else {
        assert(a + b =~= b);
    }
}

/// Reading two reports one after the other, the second starting on a line of its own,
/// is reading the first and then the second.
pub proof fn law_reports_read_in_sequence(st: FfprobeScan, a: Seq<char>, b: Seq<char>)
    ensures
        scan_text(st, a + seq!['\n'] + b) == scan_text(scan_text(st, a), b),
    decreases a.len(),
{
    let whole = a + seq!['\n'] + b;
    lemma_first_index_of(a, '\n');
    lemma_first_index_of_concat(a, seq!['\n'] + b, '\n');
    assert(whole =~= a + (seq!['\n'] + b));
    let k = first_index_of(a, '\n');
    if k < 0 {
        assert((seq!['\n'] + b)[0] == '\n');
        assert(first_index_of(seq!['\n'] + b, '\n') == 0);
        assert(first_index_of(whole, '\n') == a.len());
        assert(whole.subrange(0, a.len() as int) =~= a);
        assert(whole.subrange(a.len() as int + 1, whole.len() as int) =~= b);
    } else {
        assert(first_index_of(whole, '\n') == k);
        assert(whole.subrange(0, k) =~= a.subrange(0, k));
        let rest = a.subrange(k + 1, a.len() as int);
        assert(whole.subrange(k + 1, whole.len() as int) =~= rest + seq!['\n'] + b);
        law_reports_read_in_sequence(scan_raw_line(st, a.subrange(0, k)), rest, b);
    }
}

/// The codec, width and height a report gives are those of its first video stream: a
/// report that already gives them gives the same ones with anything read after it.
pub proof fn law_report_keeps_first_video_stream(first: Seq<char>, more: Seq<char>)
    ensures
        scan_text(scan_start(), first).codec is Some ==> scan_text(scan_start(), first + seq!['\n'] + more).codec
            == scan_text(scan_start(), first).codec,
        scan_text(scan_start(), first).width is Some ==> scan_text(scan_start(), first + seq!['\n'] + more).width
            == scan_text(scan_start(), first).width,
        scan_text(scan_start(), first).height is Some ==> scan_text(scan_start(), first + seq!['\n'] + more).height
            == scan_text(scan_start(), first).height,
{
    law_reports_read_in_sequence(scan_start(), first, more);
    law_first_video_stream_fields_stay(scan_text(scan_start(), first), more);
}

/// The bit rate that the report gives: the last one listed.
pub open spec fn scan_bitrate(st: FfprobeScan) -> Option<u32> {
    if st.bitrates.len() > 0 {
        Some(st.bitrates.last())
    } else {
        None
    }
}

pub open spec fn count_or_none(n: nat) -> Option<u32> {
    if n > 0 {
        Some(n as u32)
    } else {
        None
    }
}

/// What a report says, except its duration: the duration values are returned as
/// written, since turning them into milliseconds takes floating point.
pub struct FfprobeFields {
    pub probe: VideoProbe,
    pub duration_values: Vec<String>,
}

pub open spec fn fields_match_scan(f: FfprobeFields, st: FfprobeScan) -> bool {
    &&& f.probe.duration_ms is None
    &&& f.probe.bitrate == scan_bitrate(st)
    &&& match f.probe.codec {
        Some(c) => st.codec == Some(c@),
        None => st.codec is None,
    }
    &&& f.probe.width == st.width
    &&& f.probe.height == st.height
    &&& f.probe.audio_track_count == count_or_none(st.audio)
    &&& f.probe.subtitle_track_count == count_or_none(st.subtitle)
    &&& f.duration_values@.len() == st.durations.len()
    &&& forall|i: int|
        0 <= i < st.durations.len() ==> #[trigger] f.duration_values@[i]@ == st.durations[i]
}

/// The values kept while the report is read.
struct ScanState<'a> {
    stream_type: Option<&'a str>,
    audio: u64,
    subtitle: u64,
    codec: Option<String>,
    width: Option<u32>,
    height: Option<u32>,
    last_bitrate: Option<u32>,
    durations: Vec<String>,
}

spec fn state_matches(s: ScanState, st: FfprobeScan) -> bool {
    &&& match s.stream_type {
        Some(t) => st.stream_type == Some(t@),
        None => st.stream_type is None,
    }
    &&& s.audio == st.audio
    &&& s.subtitle == st.subtitle
    &&& match s.codec {
        Some(c) => st.codec == Some(c@),
        None => st.codec is None,
    }
    &&& s.width == st.width
    &&& s.height == st.height
    &&& s.last_bitrate == scan_bitrate(st)
    &&& s.durations@.len() == st.durations.len()
    &&& forall|i: int| 0 <= i < st.durations.len() ==> #[trigger] s.durations@[i]@ == st.durations[i]
}

fn is_video_stream(t: Option<&str>) -> (r: bool)
    ensures
        r == match t {
            Some(t) => t@ == "video"@,
            None => false,
        },
{
    match t {
        Some(t) => str_eq(t, "video"),
        None => false,
    }
}

fn scan_one_line<'a>(s: &mut ScanState<'a>, line: &'a str, Ghost(st): Ghost<FfprobeScan>) -> (r: Ghost<FfprobeScan>)
    requires
        state_matches(*old(s), st),
        old(s).audio < u64::MAX,
        old(s).subtitle < u64::MAX,
    ensures
        r@ == scan_line(st, line@),
        state_matches(*final(s), r@),
        final(s).audio <= old(s).audio + 1,
        final(s).subtitle <= old(s).subtitle + 1,
{
    let (key, value) = match split_once(line, '=') {
        Some(kv) => kv,
        None => {
            return Ghost(st);
        },
    };
    if str_eq(key, "codec_type") {
        let is_audio = str_eq(value, "audio");
        let is_sub = str_eq(value, "subtitle");
        s.stream_type = Some(value);
        if is_audio {
            s.audio = s.audio + 1;
        }
        if is_sub {
            s.subtitle = s.subtitle + 1;
        }
        Ghost(
            FfprobeScan {
                stream_type: Some(value@),
                audio: st.audio + if value@ == "audio"@ {
                    1nat
                } else {
                    0nat
                },
                subtitle: st.subtitle + if value@ == "subtitle"@ {
                    1nat
                } else {
                    0nat
                },
                ..st
            },
        )
    } else if str_eq(key, "codec_name") && char_len(value) > 0 {
        if is_video_stream(s.stream_type) && s.codec.is_none() {
            s.codec = Some(to_ascii_uppercase(value));
            Ghost(FfprobeScan { codec: Some(value@.map_values(|c: char| ascii_upper(c))), ..st })
        } else {
            Ghost(st)
        }
    } else if str_eq(key, "duration") {
        s.durations.push(owned(value));
        let ghost nst = FfprobeScan { durations: st.durations.push(value@), ..st };
        assert(forall|i: int| 0 <= i < nst.durations.len() ==> #[trigger] s.durations@[i]@ == nst.durations[i]);
        Ghost(nst)
    } else if str_eq(key, "bit_rate") {
        match parse_bitrate(value) {
            Some(b) => {
                s.last_bitrate = Some(b);
                Ghost(FfprobeScan { bitrates: st.bitrates.push(b), ..st })
            },
            None => Ghost(st),
        }
    } else if str_eq(key, "width") && is_video_stream(s.stream_type) && s.width.is_none() {
        s.width = parse_dimension(value);
        Ghost(FfprobeScan { width: spec_parse_dimension(value@), ..st })
    } else if str_eq(key, "height") && is_video_stream(s.stream_type) && s.height.is_none() {
        s.height = parse_dimension(value);
        Ghost(FfprobeScan { height: spec_parse_dimension(value@), ..st })
    } else {
        Ghost(st)
    }
}

/// Reads `key=value` lines printed by
/// `ffprobe -show_entries stream=codec_name,codec_type,bit_rate,width,height
/// -show_entries format=duration,bit_rate -of default=noprint_wrappers=1`.
///
/// The codec, width and height are those of the first video stream; the bit rate is the
/// last one listed (the container's, when present); the track counts count the audio and
/// subtitle streams.
pub fn parse_ffprobe_output(output: &str) -> (r: FfprobeFields)
    requires
        scan_text(scan_start(), output@).audio <= u32::MAX,
        scan_text(scan_start(), output@).subtitle <= u32::MAX,
    ensures
        fields_match_scan(r, scan_text(scan_start(), output@)),
{
    let ghost fin = scan_text(scan_start(), output@);
    let n = char_len(output);
    let mut pos: usize = 0;
    let mut s = ScanState {
        stream_type: None,
        audio: 0,
        subtitle: 0,
        codec: None,
        width: None,
        height: None,
        last_bitrate: None,
        durations: Vec::new(),
    };
    let ghost mut st = scan_start();
    let mut done = false;
    assert(output@.subrange(0, n as int) == output@);
    while !done
        invariant
            n == output@.len(),
            pos <= n,
            !done ==> scan_text(st, output@.subrange(pos as int, n as int)) == fin,
            done ==> st == fin,
            fin == scan_text(scan_start(), output@),
            state_matches(s, st),
            s.audio <= pos,
            s.subtitle <= pos,
        decreases n - pos, if done { 0int } else { 1int },
    {
        let rest = slice_chars(output, pos, n);
        let ghost text = rest@;
        proof {
            lemma_first_index_of(text, '\n');
        }
        let (raw, next, last) = match find_char(rest, '\n') {
            Some(k) => (slice_chars(rest, 0, k), pos + k + 1, false),
            None => (rest, n, true),
        };
        let line = trim(raw);
        if char_len(line) > 0 {
            let Ghost(nst) = scan_one_line(&mut s, line, Ghost(st));
            proof {
                st = nst;
            }
        }
        pos = next;
        if last {
            done = true;
        } else {
            assert(text.subrange(first_index_of(text, '\n') + 1, text.len() as int)
                == output@.subrange(pos as int, n as int));
        }
    }
    FfprobeFields {
        probe: VideoProbe {
            duration_ms: None,
            bitrate: s.last_bitrate,
            codec: s.codec,
            width: s.width,
            height: s.height,
            audio_track_count: if s.audio > 0 {
                Some(s.audio as u32)
            } else {
                None
            },
            subtitle_track_count: if s.subtitle > 0 {
                Some(s.subtitle as u32)
            } else {
                None
            },
        },
        duration_values: s.durations,
    }
}

// ---------------------------------------------------------------- probing many files

/// The video paths among `s`, in order.
pub open spec fn video_paths_of(s: Seq<Seq<char>>) -> Seq<Seq<char>>
    decreases s.len(),
{
    if s.len() == 0 {
        seq![]
    } else if spec_is_video_path(s.last()) {
        video_paths_of(s.drop_last()).push(s.last())
    } else {
        video_paths_of(s.drop_last())
    }
}

/// `s` cut into consecutive pieces of `c` items, the last one possibly shorter.
pub open spec fn chunks_of(s: Seq<Seq<char>>, c: nat) -> Seq<Seq<Seq<char>>>
    decreases s.len(),
{
    if s.len() == 0 || c == 0 {
        seq![]
    } else if s.len() <= c {
        seq![s]
    } else {
        seq![s.subrange(0, c as int)] + chunks_of(s.subrange(c as int, s.len() as int), c)
    }
}

/// How many files each worker takes: the files shared as evenly as possible among at
/// most `workers` workers, at least one each.
pub open spec fn chunk_size(n: nat, workers: nat) -> nat {
    let w = if workers <= n {
        workers
    } else {
        n
    };
    if w == 0 {
        1
    } else {
        let c = ((n + w - 1) as nat) / w;
        if c == 0 {
            1
        } else {
            c
        }
    }
}

pub open spec fn string_views(s: Seq<String>) -> Seq<Seq<char>> {
    s.map_values(|p: String| p@)
}

pub open spec fn chunk_views(s: Seq<Vec<String>>) -> Seq<Seq<Seq<char>>> {
    s.map_values(|c: Vec<String>| string_views(c@))
}

/// The work of a parallel probe: the video paths among `paths`, cut into one piece per
/// worker, for at most `worker_count` workers.
pub fn plan_probe_chunks(paths: &Vec<String>, worker_count: usize) -> (r: Vec<Vec<String>>)
    ensures
        chunk_views(r@) == chunks_of(
            video_paths_of(string_views(paths@)),
            chunk_size(video_paths_of(string_views(paths@)).len(), worker_count as nat),
        ),
{
    let ghost pv = string_views(paths@);
    let mut videos: Vec<String> = Vec::new();
    let mut i: usize = 0;
    while i < paths.len()
        invariant
            pv == string_views(paths@),
            0 <= i <= paths@.len(),
            string_views(videos@) == video_paths_of(pv.subrange(0, i as int)),
        decreases paths@.len() - i,
    {
        assert(pv.subrange(0, i + 1).drop_last() == pv.subrange(0, i as int));
        assert(pv.subrange(0, i + 1).last() == paths@[i as int]@);
        if is_video_path(paths[i].as_str()) {
            let ghost before = videos@;
            videos.push(paths[i].clone());
            assert(string_views(videos@) == string_views(before).push(paths@[i as int]@));
        }
        i = i + 1;
    }
    assert(pv.subrange(0, pv.len() as int) == pv);
    let ghost vv = string_views(videos@);
    let n = videos.len();
    let w = if worker_count <= n {
        worker_count
    } else {
        n
    };
    let c: usize = if w == 0 {
        1
    } else {
        if n % w != 0 {
            assert(n / w < n) by (nonlinear_arith)
                requires
                    w >= 2 || n % w == 0,
                    n % w != 0,
                    w > 0,
            ;
        }
        let q = if n % w == 0 {
            n / w
        } else {
            n / w + 1
        };
        if q == 0 {
            1
        } else {
            q
        }
    };
    proof {
        if w > 0 {
            assert(((n + w - 1) as nat) / (w as nat) == (n as int) / (w as int) + if (n as int) % (w as int) == 0 {
                0int
            } else {
                1int
            }) by (nonlinear_arith)
                requires
                    w > 0,
                    n >= 0,
            ;
        }
    }
    let mut out: Vec<Vec<String>> = Vec::new();
    let mut pending: Vec<String> = Vec::new();
    std::mem::swap(&mut pending, &mut videos);
    let mut k: usize = 0;
    assert(vv.subrange(0, n as int) == vv);
    assert(chunk_views(out@) + chunks_of(vv.subrange(0, n as int), c as nat) =~= chunks_of(vv, c as nat));
    while pending.len() > 0
        invariant
            c > 0,
            n == vv.len(),
            0 <= k <= n,
            string_views(pending@) == vv.subrange(k as int, n as int),
            chunk_views(out@) + chunks_of(vv.subrange(k as int, n as int), c as nat) == chunks_of(vv, c as nat),
        decreases pending@.len(),
    {
        let ghost rest = vv.subrange(k as int, n as int);
        let mut chunk: Vec<String> = Vec::new();
        let mut j: usize = 0;
        while j < c && pending.len() > 0
            invariant
                c > 0,
                n == vv.len(),
                0 <= j <= c,
                k + j <= n,
                rest == vv.subrange(k as int, n as int),
                string_views(chunk@) == vv.subrange(k as int, k + j),
                string_views(pending@) == vv.subrange(k + j, n as int),
            decreases c - j,
        {
            let ghost pv0 = pending@;
            assert(string_views(pv0).len() == pv0.len());
            assert(k + j < n);
            let x = pending.remove(0);
            assert(x@ == string_views(pv0)[0]);
            let ghost before = chunk@;
            chunk.push(x);
            assert(string_views(chunk@) == string_views(before).push(x@));
            assert(vv.subrange(k as int, k + j + 1) == vv.subrange(k as int, k + j).push(vv[k + j]));
            assert(string_views(pending@) == string_views(pv0).subrange(1, pv0.len() as int));
            assert(vv.subrange(k + j, n as int).subrange(1, n - k - j) =~= vv.subrange(k + j + 1, n as int));
            j = j + 1;
        }
        proof {
            if rest.len() <= c {
                assert(chunks_of(rest, c as nat) == seq![rest]);
                assert(vv.subrange(k + j, n as int).len() == 0);
            } else {
                assert(rest.subrange(0, c as int) == vv.subrange(k as int, k + j));
                assert(rest.subrange(c as int, rest.len() as int) == vv.subrange(k + j, n as int));
            }
        }
        let ghost before_out = out@;
        out.push(chunk);
        assert(chunk_views(out@) == chunk_views(before_out).push(vv.subrange(k as int, k + j)));
        k = k + j;
        proof {
            if vv.subrange(k as int, n as int).len() == 0 {
                assert(chunks_of(vv.subrange(k as int, n as int), c as nat).len() == 0);
            }
        }
    }
    assert(chunks_of(vv.subrange(n as int, n as int), c as nat).len() == 0);
    assert(chunk_views(out@) =~= chunks_of(vv, c as nat));
    out
}

/// Cutting the work into pieces loses and repeats nothing: the pieces, put back
/// together, are the list of videos.
pub proof fn law_chunks_cover_each_path_once(s: Seq<Seq<char>>, c: nat)
    requires
        c > 0,
    ensures
        chunks_of(s, c).flatten() == s,
    decreases s.len(),
{
    if s.len() == 0 {
        assert(chunks_of(s, c) == Seq::<Seq<Seq<char>>>::empty());
        assert(s == Seq::<Seq<char>>::empty());
    } else if s.len() <= c {
        assert(seq![s].flatten() == s + Seq::<Seq<Seq<char>>>::empty().flatten()) by {
            assert(seq![s].drop_first() == Seq::<Seq<Seq<char>>>::empty());
        }
        assert(s + Seq::<Seq<char>>::empty() == s);
    } else {
        let rest = s.subrange(c as int, s.len() as int);
        law_chunks_cover_each_path_once(rest, c);
        let cs = seq![s.subrange(0, c as int)] + chunks_of(rest, c);
        assert(cs.drop_first() == chunks_of(rest, c));
        assert(cs.flatten() == s.subrange(0, c as int) + chunks_of(rest, c).flatten());
        assert(s.subrange(0, c as int) + rest == s);
    }
}

/// Each worker's part pairs each path of its piece of the plan, in order, with the
/// outcome that `outcome` gives for that path.
pub open spec fn parts_pair_chunks(
    parts: Seq<Seq<(String, VideoProbeOutcome)>>,
    chunks: Seq<Seq<Seq<char>>>,
    outcome: spec_fn(Seq<char>) -> VideoProbeOutcome,
) -> bool {
    &&& parts.len() == chunks.len()
    &&& forall|i: int|
        0 <= i < parts.len() ==> (#[trigger] parts[i]).len() == chunks[i].len() && forall|j: int|
            0 <= j < parts[i].len() ==> (#[trigger] parts[i][j]).0@ == chunks[i][j] && parts[i][j].1 == outcome(
                chunks[i][j],
            )
}

proof fn lemma_flatten_pairs(
    parts: Seq<Seq<(String, VideoProbeOutcome)>>,
    chunks: Seq<Seq<Seq<char>>>,
    outcome: spec_fn(Seq<char>) -> VideoProbeOutcome,
)
    requires
        parts_pair_chunks(parts, chunks, outcome),
    ensures
        parts.flatten().len() == chunks.flatten().len(),
        forall|k: int|
            0 <= k < parts.flatten().len() ==> (#[trigger] parts.flatten()[k]).0@ == chunks.flatten()[k]
                && parts.flatten()[k].1 == outcome(chunks.flatten()[k]),
    decreases parts.len(),
{
    if parts.len() > 0 {
        let pt = parts.drop_first();
        let ct = chunks.drop_first();
        assert forall|i: int| 0 <= i < pt.len() implies (#[trigger] pt[i]).len() == ct[i].len() && forall|j: int|
            0 <= j < pt[i].len() ==> (#[trigger] pt[i][j]).0@ == ct[i][j] && pt[i][j].1 == outcome(ct[i][j]) by {
            assert(pt[i] == parts[i + 1] && ct[i] == chunks[i + 1]);
        }
        lemma_flatten_pairs(pt, ct, outcome);
        let p0 = parts[0];
        let c0 = chunks[0];
        assert(parts.flatten() == p0 + pt.flatten());
        assert(chunks.flatten() == c0 + ct.flatten());
        assert forall|k: int| 0 <= k < parts.flatten().len() implies (#[trigger] parts.flatten()[k]).0@
            == chunks.flatten()[k] && parts.flatten()[k].1 == outcome(chunks.flatten()[k]) by {
            if k < p0.len() {
                assert(parts.flatten()[k] == p0[k]);
                assert(chunks.flatten()[k] == c0[k]);
                assert(p0[k] == parts[0][k]);
            } else {
                assert(parts.flatten()[k] == pt.flatten()[k - p0.len()]);
                assert(chunks.flatten()[k] == ct.flatten()[k - c0.len()]);
            }
        }
    }
}

/// When each worker returns the piece of the plan it was given, each path paired with
/// its outcome, the batch lists every video path of the request exactly once, in the
/// order requested, each with its own outcome, whatever the number of workers: the
/// result of probing the videos one after the other.
pub proof fn law_batch_pairs_each_video_with_its_outcome(
    paths: Seq<Seq<char>>,
    worker_count: nat,
    parts: Seq<Seq<(String, VideoProbeOutcome)>>,
    outcome: spec_fn(Seq<char>) -> VideoProbeOutcome,
)
    requires
        parts_pair_chunks(
            parts,
            chunks_of(video_paths_of(paths), chunk_size(video_paths_of(paths).len(), worker_count)),
            outcome,
        ),
    ensures
        parts.flatten().len() == video_paths_of(paths).len(),
        forall|k: int|
            0 <= k < parts.flatten().len() ==> (#[trigger] parts.flatten()[k]).0@ == video_paths_of(paths)[k]
                && parts.flatten()[k].1 == outcome(video_paths_of(paths)[k]),
{
    let vp = video_paths_of(paths);
    let c = chunk_size(vp.len(), worker_count);
    assert(c > 0);
    law_chunks_cover_each_path_once(vp, c);
    lemma_flatten_pairs(parts, chunks_of(vp, c), outcome);
}

/// The probes that succeeded, by path, in the order of the batch.
pub open spec fn probed_of(results: Seq<(String, VideoProbeOutcome)>) -> Seq<(Seq<char>, VideoProbe)>
    decreases results.len(),
{
    if results.len() == 0 {
        seq![]
    } else {
        match results.last().1 {
            VideoProbeOutcome::Probed(p) => probed_of(results.drop_last()).push((results.last().0@, p)),
            VideoProbeOutcome::Failed => probed_of(results.drop_last()),
        }
    }
}

pub open spec fn probe_views(s: Seq<(String, VideoProbe)>) -> Seq<(Seq<char>, VideoProbe)> {
    s.map_values(|e: (String, VideoProbe)| (e.0@, e.1))
}

/// The metadata to apply to the library from a batch of probes: the successful probes,
/// by path. A failed probe gives no metadata.
pub fn probes_from_batch(batch: ProbeBatchResult) -> (r: Vec<(String, VideoProbe)>)
    ensures
        probe_views(r@) == probed_of(batch.results@),
{
    let ghost s0 = batch.results@;
    let mut results = batch.results;
    let mut out: Vec<(String, VideoProbe)> = Vec::new();
    let mut pending: Vec<(String, VideoProbeOutcome)> = Vec::new();
    std::mem::swap(&mut pending, &mut results);
    let n = pending.len();
    let mut k: usize = 0;
    while pending.len() > 0
        invariant
            n == s0.len(),
            0 <= k <= n,
            pending@ == s0.subrange(k as int, n as int),
            probe_views(out@) == probed_of(s0.subrange(0, k as int)),
        decreases pending@.len(),
    {
        let e = pending.remove(0);
        assert(e == s0[k as int]);
        assert(s0.subrange(0, k + 1).drop_last() == s0.subrange(0, k as int));
        let ghost before = out@;
        match e.1 {
            VideoProbeOutcome::Probed(p) => {
                out.push((e.0, p));
                assert(probe_views(out@) == probe_views(before).push((s0[k as int].0@, p)));
            },
            VideoProbeOutcome::Failed => {},
        }
        k = k + 1;
        assert(pending@ == s0.subrange(k as int, n as int));
    }
    assert(s0.subrange(0, n as int) == s0);
    out
}

/// The result of a parallel probe: empty when there was no video to probe or no
/// ffprobe, else the results of every worker in worker order.
pub fn finish_probe_batch(ffprobe_available: bool, parts: Vec<Vec<(String, VideoProbeOutcome)>>) -> (r: ProbeBatchResult)
    ensures
        r.ffprobe_available == ffprobe_available,
        !ffprobe_available ==> r.results@.len() == 0,
        ffprobe_available ==> r.results@ == parts@.map_values(|p: Vec<(String, VideoProbeOutcome)>| p@).flatten(),
{
    let mut merged: Vec<(String, VideoProbeOutcome)> = Vec::new();
    if !ffprobe_available {
        return ProbeBatchResult { ffprobe_available: false, results: merged };
    }
    let ghost pv = parts@.map_values(|p: Vec<(String, VideoProbeOutcome)>| p@);
    let mut parts = parts;
    let mut pending: Vec<Vec<(String, VideoProbeOutcome)>> = Vec::new();
    std::mem::swap(&mut pending, &mut parts);
    let n = pending.len();
    let mut k: usize = 0;
    while pending.len() > 0
        invariant
            n == pv.len(),
            0 <= k <= n,
            pending@.map_values(|p: Vec<(String, VideoProbeOutcome)>| p@) == pv.subrange(k as int, n as int),
            merged@ == pv.subrange(0, k as int).flatten(),
        decreases pending@.len(),
    {
        let ghost pend0 = pending@;
        assert(pend0.map_values(|p: Vec<(String, VideoProbeOutcome)>| p@).len() == pend0.len());
        assert(k < n);
        let mut part = pending.remove(0);
        assert(pend0.map_values(|p: Vec<(String, VideoProbeOutcome)>| p@)[0] == pend0[0]@);
        assert(part@ == pv[k as int]);
        assert(pv.subrange(0, k + 1) == pv.subrange(0, k as int).push(pv[k as int]));
        proof {
            pv.subrange(0, k as int).lemma_flatten_push(pv[k as int]);
        }
        merged.append(&mut part);
        assert(pending@.map_values(|p: Vec<(String, VideoProbeOutcome)>| p@) =~= pend0.map_values(
            |p: Vec<(String, VideoProbeOutcome)>| p@,
        ).subrange(1, pend0.len() as int));
        assert(pv.subrange(k as int, n as int).subrange(1, n - k) =~= pv.subrange(k + 1, n as int));
        k = k + 1;
        assert(pending@.map_values(|p: Vec<(String, VideoProbeOutcome)>| p@) == pv.subrange(k as int, n as int));
    }
    assert(pv.subrange(0, n as int) == pv);
    ProbeBatchResult { ffprobe_available: true, results: merged }
}

/// The first known value among `ms`.
pub open spec fn first_known(ms: Seq<Option<u64>>) -> Option<u64>
    decreases ms.len(),
{
    if ms.len() == 0 {
        None
    } else if ms[0] is Some {
        ms[0]
    } else {
        first_known(ms.subrange(1, ms.len() as int))
    }
}

/// Completes the fields read from a report with the duration: `durations_ms` holds, for
/// each duration value in order, its milliseconds when it reads as a positive number of
/// seconds; the first such value is the duration.
pub fn with_duration(fields: FfprobeFields, durations_ms: &Vec<Option<u64>>) -> (r: VideoProbe)
    ensures
        r == (VideoProbe { duration_ms: first_known(durations_ms@), ..fields.probe }),
{
    let mut i: usize = 0;
    let mut probe = fields.probe;
    assert(durations_ms@.subrange(0, durations_ms@.len() as int) == durations_ms@);
    while i < durations_ms.len()
        invariant
            0 <= i <= durations_ms@.len(),
            probe == fields.probe,
            first_known(durations_ms@.subrange(i as int, durations_ms@.len() as int)) == first_known(durations_ms@),
        decreases durations_ms@.len() - i,
    {
        let ghost rest = durations_ms@.subrange(i as int, durations_ms@.len() as int);
        assert(rest[0] == durations_ms@[i as int]);
        if durations_ms[i].is_some() {
            probe.duration_ms = durations_ms[i];
            return probe;
        }
        assert(rest.subrange(1, rest.len() as int) == durations_ms@.subrange(i + 1, durations_ms@.len() as int));
        i = i + 1;
    }
    probe.duration_ms = None;
    probe
}

} // verus!
