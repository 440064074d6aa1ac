use media_center::probe::{
    finish_probe_batch, is_video_path, parse_ffprobe_output, plan_probe_chunks, probes_from_batch,
    should_ignore_entry_name, with_duration, VideoProbe, VideoProbeOutcome,
};
use media_center::stream_probe;

/// Seconds as ffprobe prints them, in milliseconds, when positive.
fn duration_ms(value: &str) -> Option<u64> {
    let secs: f64 = value.parse().ok()?;
    if !secs.is_finite() || secs <= 0.0 {
        return None;
    }
    Some((secs * 1000.0).round() as u64)
}

fn probe(output: &str) -> VideoProbe {
    let fields = parse_ffprobe_output(output);
    let ms: Vec<Option<u64>> = fields.duration_values.iter().map(|v| duration_ms(v)).collect();
    with_duration(fields, &ms)
}

fn stream(output: &str) -> stream_probe::VideoProbe {
    let fields = stream_probe::parse_ffprobe_output(output);
    let ms: Vec<Option<u64>> = fields.duration_values.iter().map(|v| duration_ms(v)).collect();
    stream_probe::with_duration(fields, &ms)
}

#[test]
fn is_video_path_matches_known_extensions() {
    assert!(is_video_path("/a/file.mkv"));
    assert!(is_video_path("/a/file.MP4"));
    assert!(!is_video_path("/a/file.jpg"));
    assert!(!is_video_path("/a/noext"));
}

#[test]
fn is_video_path_rejects_hidden_and_apple_double_sidecars() {
    assert!(!is_video_path("/a/._film.mkv"));
    assert!(!is_video_path("/a/.hidden.mkv"));
    assert!(should_ignore_entry_name(".Spotlight-V100"));
    assert!(should_ignore_entry_name("._film.mkv"));
    assert!(should_ignore_entry_name(".DS_Store"));
    assert!(!should_ignore_entry_name("film.mkv"));
}

#[test]
fn parse_ffprobe_output_reads_codec_duration_and_format_bitrate() {
    let probe = probe(
        "codec_type=video\n\
         codec_name=hevc\n\
         width=3840\n\
         height=2160\n\
         bit_rate=8500000\n\
         codec_type=audio\n\
         codec_type=subtitle\n\
         duration=5432.100000\n\
         bit_rate=9200000\n",
    );

    assert_eq!(
        probe,
        VideoProbe {
            duration_ms: Some(5_432_100),
            bitrate: Some(9_200_000),
            codec: Some("HEVC".to_string()),
            width: Some(3840),
            height: Some(2160),
            audio_track_count: Some(1),
            subtitle_track_count: Some(1),
        }
    );
}

#[test]
fn parse_ffprobe_output_falls_back_to_stream_bitrate() {
    let probe = probe("codec_type=video\ncodec_name=h264\nbit_rate=4500000\n");

    assert_eq!(
        probe,
        VideoProbe {
            duration_ms: None,
            bitrate: Some(4_500_000),
            codec: Some("H264".to_string()),
            width: None,
            height: None,
            audio_track_count: None,
            subtitle_track_count: None,
        }
    );
}

#[test]
fn parse_ffprobe_output_ignores_invalid_values() {
    let probe = probe("codec_type=video\ncodec_name=\nduration=not-a-number\nbit_rate=N/A\n");

    assert_eq!(probe, VideoProbe::empty());
}

#[test]
fn mod_parse_ffprobe_output_reads_codec_duration_and_format_bitrate() {
    let probe = stream("codec_name=hevc\nbit_rate=8500000\nduration=5432.100000\nbit_rate=9200000\n");

    assert_eq!(
        probe,
        stream_probe::VideoProbe {
            duration_ms: Some(5_432_100),
            bitrate: Some(9_200_000),
            codec: Some("HEVC".to_string()),
        }
    );
}

#[test]
fn mod_parse_ffprobe_output_falls_back_to_stream_bitrate() {
    let probe = stream("codec_name=h264\nbit_rate=4500000\n");

    assert_eq!(
        probe,
        stream_probe::VideoProbe { duration_ms: None, bitrate: Some(4_500_000), codec: Some("H264".to_string()) }
    );
}

#[test]
fn mod_parse_ffprobe_output_ignores_invalid_values() {
    let probe = stream("codec_name=\nduration=not-a-number\nbit_rate=N/A\n");

    assert_eq!(probe, stream_probe::VideoProbe::empty());
}

#[test]
fn the_first_readable_duration_wins() {
    let probe = probe("duration=N/A\nduration=12.5\nduration=99\n");
    assert_eq!(probe.duration_ms, Some(12_500));
}

#[test]
fn video_codec_is_that_of_the_first_video_stream() {
    let probe = probe("codec_type=audio\ncodec_name=aac\ncodec_type=video\ncodec_name=vp9\ncodec_type=video\ncodec_name=h264\n");
    assert_eq!(probe.codec, Some("VP9".to_string()));
    assert_eq!(probe.audio_track_count, Some(1));
}

#[test]
fn probe_work_is_cut_per_worker() {
    let paths: Vec<String> = vec!["/a/1.mkv", "/a/readme.txt", "/a/2.mkv", "/a/3.mp4", "/a/4.avi", "/a/5.mov"]
        .into_iter()
        .map(String::from)
        .collect();
    let chunks = plan_probe_chunks(&paths, 2);
    assert_eq!(chunks.len(), 2);
    assert_eq!(chunks[0], vec!["/a/1.mkv".to_string(), "/a/2.mkv".to_string(), "/a/3.mp4".to_string()]);
    assert_eq!(chunks[1], vec!["/a/4.avi".to_string(), "/a/5.mov".to_string()]);
    let chunks = plan_probe_chunks(&paths, 16);
    assert_eq!(chunks.len(), 5);
    assert!(plan_probe_chunks(&vec!["/a/readme.txt".to_string()], 4).is_empty());
}

fn probe_each(chunks: Vec<Vec<String>>) -> Vec<Vec<(String, VideoProbeOutcome)>> {
    chunks
        .into_iter()
        .map(|chunk| {
            chunk
                .into_iter()
                .map(|path| {
                    let outcome = if path.ends_with(".avi") {
                        VideoProbeOutcome::Failed
                    } else {
                        VideoProbeOutcome::Probed(VideoProbe { codec: Some(path.clone()), ..VideoProbe::empty() })
                    };
                    (path, outcome)
                })
                .collect()
        })
        .collect()
}

#[test]
fn batch_pairs_each_video_with_its_own_outcome_whatever_the_workers() {
    let paths: Vec<String> =
        ["/v/a.mkv", "/v/notes.txt", "/v/b.mp4", "/v/c.avi", "/v/d.mkv"].iter().map(|p| p.to_string()).collect();
    let mut seen = Vec::new();
    for workers in [1usize, 2, 3, 8] {
        let batch = finish_probe_batch(true, probe_each(plan_probe_chunks(&paths, workers)));
        let keys: Vec<String> = batch.results.iter().map(|(p, _)| p.clone()).collect();
        assert_eq!(keys, vec!["/v/a.mkv", "/v/b.mp4", "/v/c.avi", "/v/d.mkv"]);
        for (path, outcome) in &batch.results {
            match outcome {
                VideoProbeOutcome::Probed(p) => assert_eq!(p.codec.as_deref(), Some(path.as_str())),
                VideoProbeOutcome::Failed => assert!(path.ends_with(".avi")),
            }
        }
        let probes = probes_from_batch(batch);
        seen.push(probes.iter().map(|(p, _)| p.clone()).collect::<Vec<_>>());
    }
    assert!(seen.iter().all(|s| s == &seen[0]));
    assert_eq!(seen[0], vec!["/v/a.mkv", "/v/b.mp4", "/v/d.mkv"]);
}
