//! Behavior of the library's parts on concrete values: routing, the upload
//! body protocol, listing filters, response framing and duration inspection.
use audio_store::ceiling::parse_ceiling;
use audio_store::duration::{audio_duration, AudioDuration};
use audio_store::listing::{list_response, StoreEntry};
use audio_store::query::percent_decode;
use audio_store::response::{
    content_ok_response, content_response, file_not_found_response, metadata_response,
    not_found_header, root_header, upload_ok_response, upload_response,
};
use audio_store::route::{route, RouteDecision};
use audio_store::upload::{upload_step, ChunkStep};

fn line(s: &[u8]) -> Vec<u8> {
    s.to_vec()
}

fn entry(name: &[u8], size: u64, duration: Option<(u64, u64)>) -> StoreEntry {
    StoreEntry {
        name: name.to_vec(),
        size,
        duration: duration.map(|(num, den)| AudioDuration { num, den }),
    }
}

fn body_of(response: &[u8]) -> &[u8] {
    let pos = response
        .windows(4)
        .position(|w| w == b"\r\n\r\n")
        .expect("header terminator");
    &response[pos + 4..]
}

#[test]
fn test_route_table() {
    assert!(matches!(
        route(&line(b"POST /files/a.wav HTTP/1.1")),
        RouteDecision::Upload { filename: Some(n) } if n == b"a.wav"
    ));
    assert!(matches!(
        route(&line(b"GET /files?filter=x HTTP/1.1")),
        RouteDecision::List { raw } if raw == b"GET /files?filter=x"
    ));
    assert!(matches!(
        route(&line(b"GET /content/a.wav HTTP/1.1")),
        RouteDecision::Content { filename: Some(n) } if n == b"a.wav"
    ));
    assert!(matches!(
        route(&line(b"GET /metadata/a.wav HTTP/1.1")),
        RouteDecision::Metadata { filename: Some(n) } if n == b"a.wav"
    ));
    assert!(matches!(route(&line(b"GET / HTTP/1.1")), RouteDecision::Root));
    assert!(matches!(
        route(&line(b"DELETE /files/a HTTP/1.1")),
        RouteDecision::NotFound
    ));
    assert!(matches!(route(&line(b"")), RouteDecision::NotFound));
    // A prefix match whose capture fails carries no name.
    assert!(matches!(
        route(&line(b"POST /files/a.wav")),
        RouteDecision::Upload { filename: None }
    ));
    assert!(matches!(
        route(&line(b"GET /content/ HTTP/1.1")),
        RouteDecision::Content { filename: None }
    ));
    // The capture runs to the last ` HTTP` token.
    assert!(matches!(
        route(&line(b"POST /files/a HTTP b HTTP/1.1")),
        RouteDecision::Upload { filename: Some(n) } if n == b"a HTTP b"
    ));
}

#[test]
fn test_upload_round_trip() {
    // 1500 bytes: one full read, one short read.
    let payload: Vec<u8> = (0..1500u32).map(|i| (i % 251) as u8).collect();
    let mut stored: Vec<u8> = Vec::new();
    let mut offset = 0usize;
    loop {
        let n = (payload.len() - offset).min(1024);
        let chunk = &payload[offset..offset + n];
        match upload_step(n) {
            ChunkStep::Discard => break,
            ChunkStep::AppendLast => {
                stored.extend_from_slice(chunk);
                break;
            },
            ChunkStep::AppendMore => {
                stored.extend_from_slice(chunk);
                offset += n;
            },
        }
    }
    assert_eq!(stored, payload);
    let response = content_ok_response(&b"blob.bin".to_vec(), &stored);
    assert_eq!(body_of(&response), payload.as_slice());
}

#[test]
fn test_upload_boundary_behavior() {
    // An exact multiple of 1024 needs a trailing empty read.
    assert!(matches!(upload_step(1024), ChunkStep::AppendMore));
    assert!(matches!(upload_step(0), ChunkStep::Discard));
    // Any short intermediate read ends the body early: 500 + 500 stores 500.
    assert!(matches!(upload_step(500), ChunkStep::AppendLast));
}

#[test]
fn test_list_no_filter_lists_everything() {
    let entries = vec![
        entry(b"a.wav", 10, Some((88200, 44100))),
        entry(b"b.mp3", 5, None),
    ];
    let response = list_response(&line(b"GET /files"), &entries);
    let expected = b"[{\"name\":\"a.wav\",\"size\":10,\"duration\":2.0},{\"name\":\"b.mp3\",\"size\":5,\"duration\":null}]\r\n";
    assert_eq!(body_of(&response), expected.as_slice());
    // The body parses as JSON with the exact sizes.
    let parsed: serde_json::Value = serde_json::from_slice(&body_of(&response)[..expected.len() - 2]).unwrap();
    assert_eq!(parsed[0]["size"], serde_json::Value::from(10u64));
    assert_eq!(parsed[1]["size"], serde_json::Value::from(5u64));
}

#[test]
fn test_list_filter_is_case_insensitive() {
    let entries = vec![
        entry(b"Hello.WAV", 1, None),
        entry(b"other.mp3", 2, None),
    ];
    let response = list_response(&line(b"GET /files?filter=HELLO"), &entries);
    let body = body_of(&response);
    let text = String::from_utf8_lossy(body);
    assert!(text.contains("Hello.WAV"));
    assert!(!text.contains("other.mp3"));
    // A bare query without key=value form filters all the same.
    let response2 = list_response(&line(b"GET /files?hello"), &entries);
    let text2 = String::from_utf8_lossy(body_of(&response2)).into_owned();
    assert!(text2.contains("Hello.WAV"));
    assert!(!text2.contains("other.mp3"));
}

#[test]
fn test_list_max_duration_excludes_unknown_and_long() {
    let entries = vec![
        entry(b"short.wav", 1, Some((2, 1))),
        entry(b"long.wav", 2, Some((6, 1))),
        entry(b"unknown.bin", 3, None),
    ];
    // Without a `filter` key the whole query string itself becomes the name
    // filter, so one is given empty to exercise the ceiling alone.
    let response = list_response(&line(b"GET /files?filter=&maxduration=5.0"), &entries);
    let text = String::from_utf8_lossy(body_of(&response)).into_owned();
    assert!(text.contains("short.wav"));
    assert!(!text.contains("long.wav"));
    assert!(!text.contains("unknown.bin"));
    // The boundary itself is kept.
    let response2 = list_response(&line(b"GET /files?filter=&maxduration=6"), &entries);
    let text2 = String::from_utf8_lossy(body_of(&response2)).into_owned();
    assert!(text2.contains("long.wav"));
}

#[test]
fn test_missing_file_and_bad_capture_responses() {
    assert_eq!(
        file_not_found_response(),
        b"HTTP/1.1 404 NOT FOUND\r\n\r\nFile not found".to_vec()
    );
    // A name that resolves to no stored file gets the 404 outcome, for
    // content and for metadata alike.
    let name = b"ghost.wav".to_vec();
    assert_eq!(content_response(&name, None), file_not_found_response());
    assert_eq!(metadata_response(&name, None), file_not_found_response());
    assert!(content_response(&name, Some(&b"x".to_vec())).starts_with(b"HTTP/1.1 200 OK\r\n"));
    // A route that matches a handler prefix without a name capture is a
    // client error.
    assert!(matches!(
        route(&line(b"GET /metadata/ HTTP/1.1")),
        RouteDecision::Metadata { filename: None }
    ));
    assert_eq!(
        upload_response(&None),
        b"HTTP/1.1 400 BAD REQUEST\r\n\r\nInvalid request".to_vec()
    );
}

#[test]
fn test_status_lines_are_exact() {
    assert_eq!(
        root_header(),
        b"HTTP/1.1 200 OK\r\nContent-Type: text/html\r\n\r\n".to_vec()
    );
    assert_eq!(
        not_found_header(),
        b"HTTP/1.1 404 NOT FOUND\r\nContent-Type: text/html\r\n\r\n".to_vec()
    );
}

#[test]
fn test_wav_duration_is_frames_over_rate() {
    let spec = hound::WavSpec {
        channels: 1,
        sample_rate: 44100,
        bits_per_sample: 16,
        sample_format: hound::SampleFormat::Int,
    };
    let mut cursor = std::io::Cursor::new(Vec::new());
    {
        let mut writer = hound::WavWriter::new(&mut cursor, spec).unwrap();
        for i in 0..22050u32 {
            writer.write_sample((i % 100) as i16).unwrap();
        }
        writer.finalize().unwrap();
    }
    let bytes = cursor.into_inner();
    let d = audio_duration(&bytes, &b"tone.wav".to_vec()).expect("wav duration");
    let seconds = d.num as f32 / d.den as f32;
    assert!((seconds - 0.5).abs() < 1e-6);
    assert_eq!(d.num, 22050);
    assert_eq!(d.den, 44100);
}

#[test]
fn test_malformed_audio_has_no_duration() {
    let junk = b"this is not audio at all".to_vec();
    assert!(audio_duration(&junk, &b"x.wav".to_vec()).is_none());
    assert!(audio_duration(&junk, &b"x.mp3".to_vec()).is_none());
    // Other or missing extensions are never inspected.
    assert!(audio_duration(&junk, &b"x.txt".to_vec()).is_none());
    assert!(audio_duration(&junk, &b"noext".to_vec()).is_none());
}

/// An MPEG1 Layer 3 frame at 44100 Hz whose Xing header declares the given
/// big-endian frame count: the 4-byte frame header, 32 bytes of side
/// information, the tag, a flags word announcing a count, and the count.
fn xing_stream(count: [u8; 4]) -> Vec<u8> {
    let mut v = vec![0xFFu8, 0xFB, 0x90, 0x00];
    v.resize(4 + 32, 0);
    v.extend_from_slice(b"Xing");
    v.extend_from_slice(&[0, 0, 0, 1]);
    v.extend_from_slice(&count);
    v
}

#[test]
fn test_mp3_xing_duration_is_exact() {
    // 100 frames of 1152 samples at 44100 Hz: 115200/44100 seconds, which
    // the scanner reports as whole seconds plus truncated nanoseconds.
    let bytes = xing_stream([0, 0, 0, 100]);
    let d = audio_duration(&bytes, &b"tone.mp3".to_vec()).expect("xing duration");
    assert_eq!(d.num, 2_612_244_897);
    assert_eq!(d.den, 1_000_000_000);
}

#[test]
fn test_mp3_overlong_frame_count_has_no_duration() {
    // A declared count of 2^24 frames would overflow the scanner's 64-bit
    // nanosecond product; such bytes are screened off and get no duration,
    // wherever they surface.
    let bytes = xing_stream([1, 0, 0, 0]);
    assert!(audio_duration(&bytes, &b"evil.mp3".to_vec()).is_none());
    let response = metadata_response(&b"evil.mp3".to_vec(), Some((bytes.len() as u64, None)));
    assert!(response.starts_with(b"HTTP/1.1 200 OK\r\n"));
    let entries = vec![StoreEntry {
        name: b"evil.mp3".to_vec(),
        size: bytes.len() as u64,
        duration: audio_duration(&bytes, &b"evil.mp3".to_vec()),
    }];
    let listed = list_response(&b"GET /files".to_vec(), &entries);
    let text = String::from_utf8_lossy(&listed).into_owned();
    assert!(text.contains("\"duration\":null"));
}

#[test]
fn test_upload_ack_escapes_name() {
    let name = b"a\"b.wav".to_vec();
    let response = upload_ok_response(&name);
    let body = body_of(&response);
    let parsed: serde_json::Value = serde_json::from_slice(body).unwrap();
    assert_eq!(parsed["filename"], serde_json::Value::from("a\"b.wav"));
    assert_eq!(
        parsed["message"],
        serde_json::Value::from("File uploaded successfully")
    );
}

#[test]
fn test_route_edges() {
    // An empty read buffer holds no line feed: the whole zero-filled buffer
    // is the line, and it matches nothing.
    let blank = vec![0u8; 1024];
    assert!(matches!(
        audio_store::route::route_request(&blank),
        RouteDecision::NotFound
    ));
    // The root route is the exact line, nothing longer.
    assert!(matches!(
        route(&line(b"GET / HTTP/1.1 extra")),
        RouteDecision::NotFound
    ));
}

#[test]
fn test_list_filter_is_percent_decoded() {
    let entries = vec![
        entry(b"a b.wav", 1, None),
        entry(b"ab.wav", 2, None),
    ];
    let response = list_response(&line(b"GET /files?filter=a%20b"), &entries);
    let text = String::from_utf8_lossy(body_of(&response)).into_owned();
    assert!(text.contains("a b.wav"));
    assert!(!text.contains("ab.wav"));
}

#[test]
fn test_bare_max_duration_query_filters_names_too() {
    // Without a `filter` key, the raw query string itself is the name
    // filter, so a lone `maxduration` pair excludes names that lack it.
    let entries = vec![entry(b"short.wav", 1, Some((2, 1)))];
    let response = list_response(&line(b"GET /files?maxduration=5.0"), &entries);
    assert_eq!(body_of(&response), b"[]\r\n".as_slice());
}

#[test]
fn test_duration_text_fractions() {
    let entries = vec![entry(b"half.wav", 1, Some((1, 2)))];
    let response = list_response(&line(b"GET /files"), &entries);
    let text = String::from_utf8_lossy(body_of(&response)).into_owned();
    assert!(text.contains("\"duration\":0.5}"));
}

#[test]
fn test_percent_decoding() {
    assert_eq!(percent_decode(&b"a%20b+c".to_vec()), b"a b c".to_vec());
    assert_eq!(percent_decode(&b"%2B".to_vec()), b"+".to_vec());
    assert_eq!(percent_decode(&b"%zz".to_vec()), b"%zz".to_vec());
}

#[test]
fn test_max_duration_parsing() {
    let c = parse_ceiling(&b"5.0".to_vec()).expect("plain decimal");
    assert!(!c.neg);
    assert_eq!(c.num, 50);
    assert_eq!(c.den, 10);
    let c2 = parse_ceiling(&b"-1".to_vec()).expect("negative");
    assert!(c2.neg);
    assert_eq!(c2.num, 1);
    assert!(parse_ceiling(&b"".to_vec()).is_none());
    assert!(parse_ceiling(&b"abc".to_vec()).is_none());
    assert!(parse_ceiling(&b"1.2.3".to_vec()).is_none());
}
