//! Reading of an ffprobe report restricted to the first video stream
//! (`-select_streams v:0`): codec, bit rate and duration only.

use vstd::prelude::*;
use crate::text::{
    char_len, find_char, first_index_of, lemma_first_index_of, owned, slice_chars, spec_trim,
    split_once, str_eq, to_ascii_uppercase, trim, ascii_upper,
};
use crate::probe::{parse_bitrate, spec_parse_bitrate};

verus! {

/// Codec, bit rate and duration of a video.
#[derive(Debug, Clone, PartialEq, Eq)]
pub struct VideoProbe {
    pub duration_ms: Option<u64>,
    pub bitrate: Option<u32>,
    pub codec: Option<String>,
}

impl VideoProbe {
    /// A probe with every field unknown.
    pub fn empty() -> (r: VideoProbe)
        ensures
            r.duration_ms is None,
            r.bitrate is None,
            r.codec is None,
    {
        VideoProbe { duration_ms: None, bitrate: None, codec: None }
    }
}

/// The state of a scan over the report's `key=value` lines.
pub struct StreamScan {
    pub codec: Option<Seq<char>>,
    pub bitrates: Seq<u32>,
    pub durations: Seq<Seq<char>>,
}

pub open spec fn stream_scan_start() -> StreamScan {
    StreamScan { codec: None, bitrates: seq![], durations: seq![] }
}

/// One trimmed, non-empty line: the first non-empty codec name is kept in upper case,
/// every readable bit rate and every duration value is collected.
pub open spec fn stream_scan_line(st: StreamScan, line: Seq<char>) -> StreamScan {
    let k = first_index_of(line, '=');
    if k < 0 {
        st
    } else {
        let key = line.subrange(0, k);
        let value = line.subrange(k + 1, line.len() as int);
        if key == "codec_name"@ && value.len() > 0 && st.codec is None {
            StreamScan { codec: Some(value.map_values(|c: char| ascii_upper(c))), ..st }
        } else if key == "duration"@ {
            StreamScan { durations: st.durations.push(value), ..st }
        } else if key == "bit_rate"@ {
            match spec_parse_bitrate(value) {
                Some(b) => StreamScan { bitrates: st.bitrates.push(b), ..st },
                None => st,
            }
        } else {
            st
        }
    }
}

/// The scan of every line of `text`, each trimmed and skipped when empty.
pub open spec fn stream_scan_text(st: StreamScan, text: Seq<char>) -> StreamScan
    decreases text.len(),
{
    let k = first_index_of(text, '\n');
    let first = if k < 0 {
        text
    } else {
        text.subrange(0, k)
    };
    let t = spec_trim(first);
    let st1 = if t.len() == 0 {
        st
    } else {
        stream_scan_line(st, t)
    };
    if k < 0 {
        st1
    } else {
        proof {
            lemma_first_index_of(text, '\n');
        }
        stream_scan_text(st1, text.subrange(k + 1, text.len() as int))
    }
}

/// What the report says, except its duration: the duration values are returned as
/// written, since turning them into milliseconds takes floating point; the first of
/// them that reads as a positive number of seconds is the duration.
pub struct StreamFields {
    pub probe: VideoProbe,
    pub duration_values: Vec<String>,
}

/// The fields read agree with a scan: the bit rate is the last one listed (the
/// container's, when present), the codec the first named.
pub open spec fn stream_fields_match(f: StreamFields, st: StreamScan) -> bool {
    &&& f.probe.duration_ms is None
    &&& f.probe.bitrate == if st.bitrates.len() > 0 {
        Some(st.bitrates.last())
    } else {
        None::<u32>
    }
    &&& match f.probe.codec {
        Some(c) => st.codec == Some(c@),
        None => st.codec is None,
    }
    &&& f.duration_values@.len() == st.durations.len()
    &&& forall|i: int|
        0 <= i < st.durations.len() ==> #[trigger] f.duration_values@[i]@ == st.durations[i]
}

struct StreamState {
    codec: Option<String>,
    last_bitrate: Option<u32>,
    durations: Vec<String>,
}

spec fn stream_state_matches(s: StreamState, st: StreamScan) -> bool {
    &&& match s.codec {
        Some(c) => st.codec == Some(c@),
        None => st.codec is None,
    }
    &&& s.last_bitrate == if st.bitrates.len() > 0 {
        Some(st.bitrates.last())
    } else {
        None::<u32>
    }
    &&& s.durations@.len() == st.durations.len()
    &&& forall|i: int| 0 <= i < st.durations.len() ==> #[trigger] s.durations@[i]@ == st.durations[i]
}

fn stream_one_line(s: &mut StreamState, line: &str, Ghost(st): Ghost<StreamScan>) -> (r: Ghost<StreamScan>)
    requires
        stream_state_matches(*old(s), st),
    ensures
        r@ == stream_scan_line(st, line@),
        stream_state_matches(*final(s), r@),
{
    proof {
        lemma_first_index_of(line@, '=');
    }
    let (key, value) = match split_once(line, '=') {
        Some(kv) => kv,
        None => {
            return Ghost(st);
        },
    };
    if str_eq(key, "codec_name") && char_len(value) > 0 && s.codec.is_none() {
        s.codec = Some(to_ascii_uppercase(value));
        Ghost(StreamScan { codec: Some(value@.map_values(|c: char| ascii_upper(c))), ..st })
    } else if str_eq(key, "duration") {
        s.durations.push(owned(value));
        let ghost nst = StreamScan { durations: st.durations.push(value@), ..st };
        assert(forall|i: int| 0 <= i < nst.durations.len() ==> #[trigger] s.durations@[i]@ == nst.durations[i]);
        Ghost(nst)
    } else if str_eq(key, "bit_rate") {
        match parse_bitrate(value) {
            Some(b) => {
                s.last_bitrate = Some(b);
                Ghost(StreamScan { bitrates: st.bitrates.push(b), ..st })
            },
            None => Ghost(st),
        }
    } else {
        Ghost(st)
    }
}

/// Reads the `key=value` lines printed by
/// `ffprobe -select_streams v:0 -show_entries stream=codec_name,bit_rate
/// -show_entries format=duration,bit_rate -of default=noprint_wrappers=1`.
pub fn parse_ffprobe_output(output: &str) -> (r: StreamFields)
    ensures
        stream_fields_match(r, stream_scan_text(stream_scan_start(), output@)),
{
    let ghost fin = stream_scan_text(stream_scan_start(), output@);
    let n = char_len(output);
    let mut pos: usize = 0;
    let mut s = StreamState { codec: None, last_bitrate: None, durations: Vec::new() };
    let ghost mut st = stream_scan_start();
    let mut done = false;
    assert(output@.subrange(0, n as int) == output@);
    while !done
        invariant
            n == output@.len(),
            pos <= n,
            !done ==> stream_scan_text(st, output@.subrange(pos as int, n as int)) == fin,
            done ==> st == fin,
            fin == stream_scan_text(stream_scan_start(), output@),
            stream_state_matches(s, st),
        decreases n - pos, if done {
            0int
        } else {
            1int
        },
    {
        let rest = slice_chars(output, pos, n);
        let ghost text = rest@;
        proof {
            lemma_first_index_of(text, '\n');
        }
        let (raw, next, last) = match find_char(rest, '\n') {
            Some(k) => (slice_chars(rest, 0, k), pos + k + 1, false),
            None => (rest, n, true),
        };
        let line = trim(raw);
        if char_len(line) > 0 {
            let Ghost(nst) = stream_one_line(&mut s, line, Ghost(st));
            proof {
                st = nst;
            }
        }
        pos = next;
        if last {
            done = true;
        } else {
            assert(text.subrange(first_index_of(text, '\n') + 1, text.len() as int)
                == output@.subrange(pos as int, n as int));
        }
    }
    StreamFields {
        probe: VideoProbe { duration_ms: None, bitrate: s.last_bitrate, codec: s.codec },
        duration_values: s.durations,
    }
}

/// The first known value among `ms`.
pub open spec fn first_known(ms: Seq<Option<u64>>) -> Option<u64>
    decreases ms.len(),
{
    if ms.len() == 0 {
        None
    } else if ms[0] is Some {
        ms[0]
    } else {
        first_known(ms.subrange(1, ms.len() as int))
    }
}

/// Completes the fields read from a report with the duration: `durations_ms` holds, for
/// each duration value in order, its milliseconds when it reads as a positive number of
/// seconds; the first such value is the duration.
pub fn with_duration(fields: StreamFields, durations_ms: &Vec<Option<u64>>) -> (r: VideoProbe)
    ensures
        r == (VideoProbe { duration_ms: first_known(durations_ms@), ..fields.probe }),
{
    let mut i: usize = 0;
    let mut probe = fields.probe;
    assert(durations_ms@.subrange(0, durations_ms@.len() as int) == durations_ms@);
    while i < durations_ms.len()
        invariant
            0 <= i <= durations_ms@.len(),
            probe == fields.probe,
            first_known(durations_ms@.subrange(i as int, durations_ms@.len() as int)) == first_known(durations_ms@),
        decreases durations_ms@.len() - i,
    {
        let ghost rest = durations_ms@.subrange(i as int, durations_ms@.len() as int);
        assert(rest[0] == durations_ms@[i as int]);
        if durations_ms[i].is_some() {
            probe.duration_ms = durations_ms[i];
            return probe;
        }
        assert(rest.subrange(1, rest.len() as int) == durations_ms@.subrange(i + 1, durations_ms@.len() as int));
        i = i + 1;
    }
    probe.duration_ms = None;
    probe
}

} // verus!
