//! Request-line extraction and routing.
//!
//! The first line of the bytes read from a connection is classified into one
//! of six decisions by literal verb+path-prefix matching, in a fixed order.
//! Name captures follow the shape `<prefix>(.+) HTTP`: the capture runs from
//! the end of the prefix to the last occurrence of ` HTTP` and must be
//! non-empty; a line that matches the prefix but not the full shape carries no
//! capture and is answered as a client error by the handlers.
//!
//! Routing works on the raw bytes; captured names are read as text (with
//! lossy replacement of invalid sequences) only where they are shown or
//! compared.  Since every delimiter here is ASCII, and lossy decoding maps
//! ASCII bytes to themselves and nothing else to ASCII, line splitting,
//! prefix tests and capture bounds land on the same positions as they would
//! on the decoded text.
use vstd::prelude::*;
use crate::bytes::{
    ascii_seq, match_at, is_prefix, lit_vec, sub_bytes, starts_with_bytes, eq_bytes,
    find_first, find_last_from, find_byte,
};

verus! {

/// The classification of one request line, with its captured parameters.
pub enum RouteDecision {
    /// `POST /files/<name> HTTP...`; `None` when the name capture failed.
    Upload { filename: Option<Vec<u8>> },
    /// `GET /files...`, with the part of the line before the first ` HTTP/1.1`.
    List { raw: Vec<u8> },
    /// `GET /content/<name> HTTP...`; `None` when the name capture failed.
    Content { filename: Option<Vec<u8>> },
    /// `GET /metadata/<name> HTTP...`; `None` when the name capture failed.
    Metadata { filename: Option<Vec<u8>> },
    /// Exactly `GET / HTTP/1.1`.
    Root,
    /// Any other line.
    NotFound,
}

/// The mathematical shadow of a `RouteDecision`.
pub enum RouteModel {
    Upload { filename: Option<Seq<u8>> },
    List { raw: Seq<u8> },
    Content { filename: Option<Seq<u8>> },
    Metadata { filename: Option<Seq<u8>> },
    Root,
    NotFound,
}

/// The sequence view of an optional byte vector.
pub open spec fn opt_bytes(o: Option<Vec<u8>>) -> Option<Seq<u8>> {
    match o {
        Some(v) => Some(v@),
        None => None,
    }
}

impl RouteDecision {
    pub open spec fn model(self) -> RouteModel {
        match self {
            RouteDecision::Upload { filename } => RouteModel::Upload {
                filename: opt_bytes(filename),
            },
            RouteDecision::List { raw } => RouteModel::List { raw: raw@ },
            RouteDecision::Content { filename } => RouteModel::Content {
                filename: opt_bytes(filename),
            },
            RouteDecision::Metadata { filename } => RouteModel::Metadata {
                filename: opt_bytes(filename),
            },
            RouteDecision::Root => RouteModel::Root,
            RouteDecision::NotFound => RouteModel::NotFound,
        }
    }
}

/// The position of the last occurrence of `pat` in `s` below position `j`.
pub open spec fn last_match_before(s: Seq<u8>, pat: Seq<u8>, j: nat) -> Option<int>
    decreases j,
{
    if j == 0 {
        None
    } else if match_at(s, pat, j - 1) {
        Some(j - 1)
    } else {
        last_match_before(s, pat, (j - 1) as nat)
    }
}

/// The position of the first occurrence of `pat` in `s` at or after position `j`.
pub open spec fn first_match_from(s: Seq<u8>, pat: Seq<u8>, j: nat) -> Option<int>
    decreases s.len() - j,
        when j <= s.len()
{
    if j >= s.len() || j + pat.len() > s.len() {
        None
    } else if match_at(s, pat, j as int) {
        Some(j as int)
    } else {
        first_match_from(s, pat, j + 1)
    }
}

pub proof fn lemma_last_match_before(s: Seq<u8>, pat: Seq<u8>, j: nat)
    ensures
        match last_match_before(s, pat, j) {
            Some(m) => 0 <= m < j && match_at(s, pat, m) && forall|k: int|
                m < k < j ==> !match_at(s, pat, k),
            None => forall|k: int| 0 <= k < j ==> !match_at(s, pat, k),
        },
    decreases j,
{
    if j != 0 && !match_at(s, pat, j - 1) {
        lemma_last_match_before(s, pat, (j - 1) as nat);
    }
}

pub proof fn lemma_first_match_from(s: Seq<u8>, pat: Seq<u8>, j: nat)
    requires
        j <= s.len(),
        pat.len() >= 1,
    ensures
        match first_match_from(s, pat, j) {
            Some(m) => j <= m && match_at(s, pat, m) && forall|k: int|
                j <= k < m ==> !match_at(s, pat, k),
            None => forall|k: int| j <= k ==> !match_at(s, pat, k),
        },
    decreases s.len() - j,
{
    if j < s.len() && j + pat.len() <= s.len() && !match_at(s, pat, j as int) {
        lemma_first_match_from(s, pat, j + 1);
    }
}

/// A byte-search hit that nothing precedes is the first match of the
/// one-byte pattern.
pub proof fn lemma_byte_first_match(s: Seq<u8>, b: u8, p: int)
    requires
        0 <= p < s.len(),
        s[p] == b,
        forall|k: int| 0 <= k < p ==> s[k] != b,
    ensures
        first_match_from(s, seq![b], 0) == Some(p),
{
    lemma_first_match_from(s, seq![b], 0);
    assert(match_at(s, seq![b], p)) by {
        assert(s.subrange(p, p + 1) =~= seq![b]);
    }
    let m = first_match_from(s, seq![b], 0);
    if m is Some {
        let k = m.unwrap();
        assert(match_at(s, seq![b], k));
        assert(s.subrange(k, k + 1)[0] == b);
        if k < p {
            assert(false);
        }
        if k > p {
            assert(false);
        }
    } else {
        assert(false);
    }
}

/// Without a hit anywhere, the one-byte pattern has no first match.
pub proof fn lemma_byte_first_none(s: Seq<u8>, b: u8)
    requires
        forall|k: int| 0 <= k < s.len() ==> s[k] != b,
    ensures
        first_match_from(s, seq![b], 0) is None,
{
    lemma_first_match_from(s, seq![b], 0);
    let m = first_match_from(s, seq![b], 0);
    if m is Some {
        let k = m.unwrap();
        assert(match_at(s, seq![b], k));
        assert(s.subrange(k, k + 1)[0] == b);
        assert(false);
    }
}

/// The ` HTTP` token that ends a name capture.
pub open spec fn http_tok() -> Seq<u8> {
    ascii_seq(" HTTP"@)
}

/// The name captured between a prefix of length `plen` and the last ` HTTP`
/// token of the line, when it is non-empty.
pub open spec fn capture_spec(line: Seq<u8>, plen: int) -> Option<Seq<u8>> {
    match last_match_before(line, http_tok(), (line.len() + 1) as nat) {
        Some(j) => if j >= plen + 1 {
            Some(line.subrange(plen, j))
        } else {
            None
        },
        None => None,
    }
}

/// The line up to its first ` HTTP/1.1` marker, or the whole line without one.
pub open spec fn strip_marker_spec(line: Seq<u8>) -> Seq<u8> {
    match first_match_from(line, ascii_seq(" HTTP/1.1"@), 0) {
        Some(i) => line.subrange(0, i),
        None => line,
    }
}

/// The request line held in a raw read buffer: the bytes up to the first line
/// feed, less one trailing carriage return.
pub open spec fn line_spec(buf: Seq<u8>) -> Seq<u8> {
    let cut = match first_match_from(buf, seq![10u8], 0) {
        Some(p) => buf.subrange(0, p),
        None => buf,
    };
    if cut.len() > 0 && cut.last() == 13u8 {
        cut.drop_last()
    } else {
        cut
    }
}

/// The routing function itself, over byte sequences: the classification order
/// is upload, list, content, metadata, root, not-found, first match winning.
pub open spec fn spec_route(line: Seq<u8>) -> RouteModel {
    if is_prefix(ascii_seq("POST /files/"@), line) {
        RouteModel::Upload { filename: capture_spec(line, 12) }
    } else if is_prefix(ascii_seq("GET /files"@), line) {
        RouteModel::List { raw: strip_marker_spec(line) }
    } else if is_prefix(ascii_seq("GET /content/"@), line) {
        RouteModel::Content { filename: capture_spec(line, 13) }
    } else if is_prefix(ascii_seq("GET /metadata/"@), line) {
        RouteModel::Metadata { filename: capture_spec(line, 14) }
    } else if line == ascii_seq("GET / HTTP/1.1"@) {
        RouteModel::Root
    } else {
        RouteModel::NotFound
    }
}

fn http_tok_vec() -> (r: Vec<u8>)
    ensures
        r@ == http_tok(),
{
    let l = " HTTP";
    proof {
        reveal_strlit(" HTTP");
        assert(vstd::string::is_ascii(l));
    }
    lit_vec(l)
}

/// Extracts the capture of `<prefix>(.+) HTTP` from a line that begins with a
/// prefix of length `plen`.
fn capture(line: &Vec<u8>, plen: usize) -> (r: Option<Vec<u8>>)
    requires
        plen <= line@.len(),
    ensures
        match r {
            Some(v) => capture_spec(line@, plen as int) == Some(v@),
            None => capture_spec(line@, plen as int) is None,
        },
{
    let tok = http_tok_vec();
    proof {
        lemma_last_match_before(line@, http_tok(), (line@.len() + 1) as nat);
    }
    match find_last_from(line, &tok, plen) {
        Some(j) => {
            if j > plen {
                proof {
                    let m = last_match_before(line@, http_tok(), (line@.len() + 1) as nat);
                    assert(m == Some(j as int));
                }
                Some(sub_bytes(line, plen, j))
            } else {
                proof {
                    let m = last_match_before(line@, http_tok(), (line@.len() + 1) as nat);
                    if m is Some {
                        assert(m == Some(j as int));
                    }
                }
                None
            }
        },
        None => {
            proof {
                let m = last_match_before(line@, http_tok(), (line@.len() + 1) as nat);
                if m is Some {
                    let k = m.unwrap();
                    assert(match_at(line@, http_tok(), k));
                    assert(k < plen);
                }
            }
            None
        },
    }
}

/// Cuts the line at its first ` HTTP/1.1` marker.
fn strip_marker(line: &Vec<u8>) -> (r: Vec<u8>)
    ensures
        r@ == strip_marker_spec(line@),
{
    let l = " HTTP/1.1";
    proof {
        reveal_strlit(" HTTP/1.1");
        assert(vstd::string::is_ascii(l));
    }
    let marker = lit_vec(l);
    proof {
        lemma_first_match_from(line@, marker@, 0);
    }
    match find_first(line, &marker) {
        Some(i) => {
            proof {
                let m = first_match_from(line@, marker@, 0);
                assert(m == Some(i as int));
            }
            sub_bytes(line, 0, i)
        },
        None => {
            proof {
                let m = first_match_from(line@, marker@, 0);
                if m is Some {
                    assert(!match_at(line@, marker@, m.unwrap()));
                }
            }
            let mut r: Vec<u8> = Vec::new();
            crate::bytes::push_all(&mut r, line);
            proof {
                assert(r@ =~= line@);
            }
            r
        },
    }
}

/// Extracts the request line from the raw bytes of the first read.
pub fn first_line(buf: &Vec<u8>) -> (r: Vec<u8>)
    ensures
        r@ == line_spec(buf@),
{
    proof {
        lemma_first_match_from(buf@, seq![10u8], 0);
    }
    let cut_end: usize = match find_byte(buf, 10u8) {
        Some(p) => {
            proof {
                let m = first_match_from(buf@, seq![10u8], 0);
                assert(match_at(buf@, seq![10u8], p as int)) by {
                    assert(buf@.subrange(p as int, p + 1) =~= seq![10u8]);
                }
                assert forall|k2: int| 0 <= k2 < p implies !match_at(
                    buf@,
                    seq![10u8],
                    k2,
                ) by {
                    if match_at(buf@, seq![10u8], k2) {
                        assert(buf@.subrange(k2, k2 + 1)[0] == 10u8);
                        assert(buf@[k2] == 10u8);
                    }
                }
                if m is Some {
                    let k = m.unwrap();
                    assert(match_at(buf@, seq![10u8], k));
                    if k < p {
                        assert(false);
                    }
                    if k > p {
                        assert(false);
                    }
                } else {
                    assert(false);
                }
                assert(m == Some(p as int));
            }
            p
        },
        None => {
            proof {
                let m = first_match_from(buf@, seq![10u8], 0);
                if m is Some {
                    let k = m.unwrap();
                    assert(match_at(buf@, seq![10u8], k));
                    assert(buf@.subrange(k, k + 1)[0] == 10u8);
                    assert(buf@[k] == 10u8);
                    assert(false);
                }
            }
            buf.len()
        },
    };
    let mut cut = sub_bytes(buf, 0, cut_end);
    proof {
        assert(buf@.subrange(0, buf@.len() as int) =~= buf@);
    }
    if cut.len() > 0 && cut[cut.len() - 1] == 13u8 {
        cut.pop();
        proof {
            assert(cut@ =~= line_spec(buf@));
        }
    }
    cut
}

/// Classifies one request line.
pub fn route(line: &Vec<u8>) -> (r: RouteDecision)
    ensures
        r.model() == spec_route(line@),
{
    let lu = "POST /files/";
    let ll = "GET /files";
    let lc = "GET /content/";
    let lm = "GET /metadata/";
    let lr = "GET / HTTP/1.1";
    proof {
        reveal_strlit("POST /files/");
        reveal_strlit("GET /files");
        reveal_strlit("GET /content/");
        reveal_strlit("GET /metadata/");
        reveal_strlit("GET / HTTP/1.1");
        assert(vstd::string::is_ascii(lu));
        assert(vstd::string::is_ascii(ll));
        assert(vstd::string::is_ascii(lc));
        assert(vstd::string::is_ascii(lm));
        assert(vstd::string::is_ascii(lr));
    }
    let p_upload = lit_vec(lu);
    let p_list = lit_vec(ll);
    let p_content = lit_vec(lc);
    let p_metadata = lit_vec(lm);
    let p_root = lit_vec(lr);
    if starts_with_bytes(line, &p_upload) {
        RouteDecision::Upload { filename: capture(line, 12) }
    } else if starts_with_bytes(line, &p_list) {
        RouteDecision::List { raw: strip_marker(line) }
    } else if starts_with_bytes(line, &p_content) {
        RouteDecision::Content { filename: capture(line, 13) }
    } else if starts_with_bytes(line, &p_metadata) {
        RouteDecision::Metadata { filename: capture(line, 14) }
    } else if eq_bytes(line, &p_root) {
        RouteDecision::Root
    } else {
        RouteDecision::NotFound
    }
}

/// Classifies the raw bytes of a connection's first read: the request line
/// is extracted and routed.
pub fn route_request(buf: &Vec<u8>) -> (r: RouteDecision)
    ensures
        r.model() == spec_route(line_spec(buf@)),
{
    let line = first_line(buf);
    route(&line)
}

} // verus!
