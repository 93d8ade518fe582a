//! The audio duration inspector.
//!
//! A file's playback length is determined from its raw bytes and the
//! extension of its name: WAV containers through `hound`, MP3 streams through
//! `mp3-duration`, anything else has no duration.  Durations are held exactly,
//! as a non-negative rational number of seconds, so that the listing filter
//! can compare them without rounding.
use vstd::prelude::*;
use crate::bytes::ascii_seq;

verus! {

/// What `hound` reads out of a WAV container: the frame count (samples per
/// channel) and the declared sample rate.  `None` when the bytes are not a
/// well-formed WAV file.  A function of the bytes alone.
pub uninterp spec fn wav_info_of(b: Seq<u8>) -> Option<(u32, u32)>;

/// What `mp3-duration` computes from an MP3 stream, as whole seconds and the
/// sub-second nanoseconds.  `None` when the bytes cannot be parsed.  A
/// function of the bytes alone.
pub uninterp spec fn mp3_time_of(b: Seq<u8>) -> Option<(u64, u32)>;

/// Relies on `hound::WavReader::new` to parse the WAV header, and on its
/// `duration` (frame count) and `spec` (sample rate) accessors.
#[verifier::external_body]
fn wav_info(bytes: &Vec<u8>) -> (r: Option<(u32, u32)>)
    ensures
        r == wav_info_of(bytes@),
{
    match hound::WavReader::new(std::io::Cursor::new(bytes)) {
        Ok(reader) => Some((reader.duration(), reader.spec().sample_rate)),
        Err(_) => None,
    }
}

/// A 12-byte `Xing`/`Info` window at position `p`: the four tag bytes, a
/// flags word whose low bit announces a frame count, and a big-endian count
/// so large that the scanner's 64-bit product of count, samples per frame
/// (at most 1152) and one billion nanoseconds would not fit.
pub open spec fn mp3_overflow_tag_at(b: Seq<u8>, p: int) -> bool {
    &&& 0 <= p
    &&& p + 12 <= b.len()
    &&& ((b[p] == 88 && b[p + 1] == 105 && b[p + 2] == 110 && b[p + 3] == 103) || (b[p] == 73
        && b[p + 1] == 110 && b[p + 2] == 102 && b[p + 3] == 111))
    &&& b[p + 7] % 2 == 1
    &&& (b[p + 8] * 0x1000000 + b[p + 9] * 0x10000 + b[p + 10] * 0x100 + b[p + 11]) * 1152
        > 18_446_744_073
}

/// No window of the bytes could drive the scanner's frame-count arithmetic
/// past 64 bits.  Every input on which `mp3_duration::from_read` multiplies
/// a declared frame count reads that count from twelve consecutive bytes
/// shaped as above, so bytes without such a window are handled without
/// overflow throughout.
pub open spec fn mp3_safe(b: Seq<u8>) -> bool {
    forall|p: int| !mp3_overflow_tag_at(b, p)
}

/// Whether the bytes are `mp3_safe`: scans every 12-byte window.
fn mp3_tag_guard(bytes: &Vec<u8>) -> (r: bool)
    ensures
        r == mp3_safe(bytes@),
{
    let n = bytes.len();
    if n < 12 {
        proof {
            assert forall|k: int| !mp3_overflow_tag_at(bytes@, k) by {}
        }
        return true;
    }
    let last = n - 12;
    let mut p: usize = 0;
    loop
        invariant
            n == bytes@.len(),
            12 <= n,
            last == n - 12,
            p <= last,
            forall|k: int| 0 <= k < p ==> !mp3_overflow_tag_at(bytes@, k),
        decreases last - p,
    {
        let tagged = (bytes[p] == 88 && bytes[p + 1] == 105 && bytes[p + 2] == 110 && bytes[p + 3]
            == 103) || (bytes[p] == 73 && bytes[p + 1] == 110 && bytes[p + 2] == 102 && bytes[p
            + 3] == 111);
        if tagged && bytes[p + 7] % 2 == 1 {
            let count: u64 = (bytes[p + 8] as u64) * 0x1000000 + (bytes[p + 9] as u64) * 0x10000
                + (bytes[p + 10] as u64) * 0x100 + (bytes[p + 11] as u64);
            if count * 1152 > 18_446_744_073 {
                proof {
                    assert(mp3_overflow_tag_at(bytes@, p as int));
                }
                return false;
            }
        }
        if p == last {
            proof {
                assert forall|k: int| !mp3_overflow_tag_at(bytes@, k) by {
                    if 0 <= k <= last {
                    }
                }
            }
            return true;
        }
        p += 1;
    }
}

/// Relies on `mp3_duration::from_read` to walk the MP3 frame headers; the
/// sub-second part of a `std::time::Duration` is below one billion
/// nanoseconds.  The scanner multiplies a `Xing`/`Info` frame count by the
/// samples per frame and by a billion in 64 bits, so bytes holding a count
/// large enough to overflow that product are left out by `requires`; the
/// inspector screens them off with `mp3_tag_guard` first.
#[verifier::external_body]
fn mp3_time(bytes: &Vec<u8>) -> (r: Option<(u64, u32)>)
    requires
        mp3_safe(bytes@),
    ensures
        r == mp3_time_of(bytes@),
        r matches Some(t) ==> t.1 < 1000000000,
{
    match mp3_duration::from_read(&mut std::io::Cursor::new(bytes)) {
        Ok(d) => Some((d.as_secs(), d.subsec_nanos())),
        Err(_) => None,
    }
}

/// A duration in seconds, as the exact rational `num / den`.
pub struct AudioDuration {
    pub num: u64,
    pub den: u64,
}

impl AudioDuration {
    /// Durations coming out of the inspector: a positive denominator no
    /// larger than a sample rate or one billion, and a numerator bounded so
    /// that comparisons against a parsed ceiling fit in 128 bits.
    pub open spec fn wf(self) -> bool {
        1 <= self.den <= 5_000_000_000u64 && self.num <= 10_000_000_001_000_000_000u64
    }
}

/// The extension of a stored file's name: what follows the last `.` of the
/// part after the last `/`, absent when there is no `.` or when the only `.`
/// leads the name.
pub open spec fn extension_spec(name: Seq<u8>) -> Option<Seq<u8>> {
    let base = match crate::route::last_match_before(name, seq![47u8], name.len() + 1) {
        Some(p) => name.subrange(p + 1, name.len() as int),
        None => name,
    };
    match crate::route::last_match_before(base, seq![46u8], base.len() + 1) {
        Some(q) => if q >= 1 {
            Some(base.subrange(q + 1, base.len() as int))
        } else {
            None
        },
        None => None,
    }
}

/// The duration assigned to a file with the given bytes and name: frames over
/// sample rate for `wav` (none when the declared rate is zero), exact seconds
/// for `mp3` with the whole-second part capped at ten billion, absent for any
/// other extension or unparsable bytes.  Bytes that fail the `mp3_safe`
/// screen also count as unparsable: they declare a frame count beyond any
/// playable stream.
pub open spec fn spec_duration(bytes: Seq<u8>, name: Seq<u8>) -> Option<(int, int)> {
    match extension_spec(name) {
        Some(e) => if e == ascii_seq("wav"@) {
            match wav_info_of(bytes) {
                Some(fr) => if fr.1 > 0 {
                    Some((fr.0 as int, fr.1 as int))
                } else {
                    None
                },
                None => None,
            }
        } else if e == ascii_seq("mp3"@) {
            if !mp3_safe(bytes) {
                None
            } else {
                match mp3_time_of(bytes) {
                    Some(sn) => Some(
                        (
                            (if sn.0 <= 10_000_000_000u64 {
                                sn.0 as int
                            } else {
                                10_000_000_000int
                            }) * 1_000_000_000 + sn.1,
                            1_000_000_000int,
                        ),
                    ),
                    None => None,
                }
            }
        } else {
            None
        },
        None => None,
    }
}

/// The view of an inspector result.
pub open spec fn opt_duration_model(o: Option<AudioDuration>) -> Option<(int, int)> {
    match o {
        Some(d) => Some((d.num as int, d.den as int)),
        None => None,
    }
}

/// Extracts the extension of a name, per `extension_spec`.
fn extension_of(name: &Vec<u8>) -> (r: Option<Vec<u8>>)
    ensures
        crate::route::opt_bytes(r) == extension_spec(name@),
{
    proof {
        crate::route::lemma_last_match_before(name@, seq![47u8], name@.len() + 1);
    }
    let n = name.len();
    let slash = crate::bytes::byte_vec(47u8);
    let dot = crate::bytes::byte_vec(46u8);
    let start: usize = match crate::bytes::find_last_from(name, &slash, 0) {
        Some(p) => {
            proof {
                lemma_byte_last_match(name@, 47u8, p as int);
            }
            p + 1
        },
        None => {
            proof {
                lemma_byte_no_match(name@, 47u8);
            }
            0
        },
    };
    let base = crate::bytes::sub_bytes(name, start, n);
    proof {
        if start == 0 {
            assert(base@ =~= name@);
        }
        crate::route::lemma_last_match_before(base@, seq![46u8], base@.len() + 1);
    }
    match crate::bytes::find_last_from(&base, &dot, 0) {
        Some(q) => {
            proof {
                lemma_byte_last_match(base@, 46u8, q as int);
            }
            if q >= 1 {
                Some(crate::bytes::sub_bytes(&base, q + 1, base.len()))
            } else {
                None
            }
        },
        None => {
            proof {
                lemma_byte_no_match(base@, 46u8);
            }
            None
        },
    }
}

/// A byte-search hit that nothing follows is the last match of the
/// one-byte pattern.
proof fn lemma_byte_last_match(s: Seq<u8>, b: u8, p: int)
    requires
        0 <= p,
        p + 1 <= s.len(),
        crate::bytes::match_at(s, seq![b], p),
        forall|k: int| p < k ==> !crate::bytes::match_at(s, seq![b], k),
    ensures
        crate::route::last_match_before(s, seq![b], s.len() + 1) == Some(p),
{
    crate::route::lemma_last_match_before(s, seq![b], s.len() + 1);
    let m = crate::route::last_match_before(s, seq![b], s.len() + 1);
    if m is Some {
        let k = m.unwrap();
        if k < p {
            assert(false);
        }
        if k > p {
            assert(false);
        }
    } else {
        assert(false);
    }
}

/// Without a hit anywhere, the one-byte pattern has no last match.
proof fn lemma_byte_no_match(s: Seq<u8>, b: u8)
    requires
        forall|k: int| !crate::bytes::match_at(s, seq![b], k),
    ensures
        crate::route::last_match_before(s, seq![b], s.len() + 1) is None,
{
    crate::route::lemma_last_match_before(s, seq![b], s.len() + 1);
    let m = crate::route::last_match_before(s, seq![b], s.len() + 1);
    if m is Some {
        assert(crate::bytes::match_at(s, seq![b], m.unwrap()));
        assert(false);
    }
}

/// Computes the duration of a stored file from its bytes and its name.
pub fn audio_duration(bytes: &Vec<u8>, name: &Vec<u8>) -> (r: Option<AudioDuration>)
    ensures
        opt_duration_model(r) == spec_duration(bytes@, name@),
        r matches Some(d) ==> d.wf(),
{
    let lw = "wav";
    let lm = "mp3";
    proof {
        reveal_strlit("wav");
        reveal_strlit("mp3");
        assert(vstd::string::is_ascii(lw));
        assert(vstd::string::is_ascii(lm));
    }
    let wav = crate::bytes::lit_vec(lw);
    let mp3 = crate::bytes::lit_vec(lm);
    match extension_of(name) {
        Some(e) => {
            if crate::bytes::eq_bytes(&e, &wav) {
                match wav_info(bytes) {
                    Some((frames, rate)) => {
                        if rate > 0 {
                            Some(AudioDuration { num: frames as u64, den: rate as u64 })
                        } else {
                            None
                        }
                    },
                    None => None,
                }
            } else if crate::bytes::eq_bytes(&e, &mp3) {
                if !mp3_tag_guard(bytes) {
                    None
                } else {
                    match mp3_time(bytes) {
                        Some((secs, nanos)) => {
                            let whole = if secs <= 10_000_000_000u64 {
                                secs
                            } else {
                                10_000_000_000u64
                            };
                            Some(
                                AudioDuration {
                                    num: whole * 1_000_000_000u64 + nanos as u64,
                                    den: 1_000_000_000u64,
                                },
                            )
                        },
                        None => None,
                    }
                }
            } else {
                None
            }
        },
        None => None,
    }
}

} // verus!
