//! Response construction.
//!
//! Every response the daemon writes is built here, byte for byte: status
//! line and headers, a blank line, then the body.  No `Content-Length` is
//! emitted; bodies are delimited by connection close.
use vstd::prelude::*;
use crate::bytes::{ascii_seq, is_prefix, lit_vec, push_lit, push_all};
use crate::duration::AudioDuration;
use crate::json::{dec_seq, json_escaped, dur_text, push_u64_dec, push_escaped, push_duration_text};
use crate::text::{lossy_of, lossy_utf8};

verus! {

/// The status line of a success response.
pub open spec fn status_200() -> Seq<u8> {
    ascii_seq("HTTP/1.1 200 OK\r\n"@)
}

/// The status line of a not-found response.
pub open spec fn status_404() -> Seq<u8> {
    ascii_seq("HTTP/1.1 404 NOT FOUND\r\n"@)
}

/// The header block of a JSON success response.
pub open spec fn h200_json() -> Seq<u8> {
    ascii_seq("HTTP/1.1 200 OK\r\nContent-Type: application/json\r\n\r\n"@)
}

/// The header block before a static HTML page.
pub open spec fn h200_html() -> Seq<u8> {
    ascii_seq("HTTP/1.1 200 OK\r\nContent-Type: text/html\r\n\r\n"@)
}

/// The header block before the not-found HTML page.
pub open spec fn h404_html() -> Seq<u8> {
    ascii_seq("HTTP/1.1 404 NOT FOUND\r\nContent-Type: text/html\r\n\r\n"@)
}

/// The whole client-error response for a request whose capture failed.
pub open spec fn invalid_request_spec() -> Seq<u8> {
    ascii_seq("HTTP/1.1 400 BAD REQUEST\r\n\r\nInvalid request"@)
}

/// The whole response for a filename that resolves to no stored file.
pub open spec fn file_not_found_spec() -> Seq<u8> {
    ascii_seq("HTTP/1.1 404 NOT FOUND\r\n\r\nFile not found"@)
}

/// The download response: octet-stream and attachment headers naming the
/// file, then the raw content.
pub open spec fn content_ok_spec(name: Seq<u8>, content: Seq<u8>) -> Seq<u8> {
    content_header_spec(name) + content
}

/// The headers of a download response.
pub open spec fn content_header_spec(name: Seq<u8>) -> Seq<u8> {
    ascii_seq(
        "HTTP/1.1 200 OK\r\nContent-Type: application/octet-stream\r\nContent-Disposition: attachment; filename=\""@,
    ) + lossy_of(name) + ascii_seq("\"\r\n\r\n"@)
}

/// The upload acknowledgement: a JSON object holding the filename and a
/// fixed message, keys in lexicographic order.
pub open spec fn upload_ok_spec(name: Seq<u8>) -> Seq<u8> {
    h200_json() + ascii_seq("{\"filename\":\""@) + json_escaped(lossy_of(name)) + ascii_seq(
        "\",\"message\":\"File uploaded successfully\"}"@,
    )
}

/// One file-entry JSON object: name, size in bytes, duration in seconds or
/// `null`.
pub open spec fn entry_json_spec(name: Seq<u8>, size: nat, dur: Option<(int, int)>) -> Seq<u8> {
    ascii_seq("{\"name\":\""@) + json_escaped(lossy_of(name)) + ascii_seq("\",\"size\":"@)
        + dec_seq(size) + ascii_seq(",\"duration\":"@) + (match dur {
        Some(p) => dur_text(p.0 as nat, p.1 as nat),
        None => ascii_seq("null"@),
    }) + ascii_seq("}"@)
}

/// The metadata response: the entry object as the JSON body.
pub open spec fn metadata_ok_spec(name: Seq<u8>, size: nat, dur: Option<(int, int)>) -> Seq<u8> {
    h200_json() + entry_json_spec(name, size, dur)
}

/// The client-error response.
pub fn invalid_request_response() -> (r: Vec<u8>)
    ensures
        r@ == invalid_request_spec(),
{
    let l = "HTTP/1.1 400 BAD REQUEST\r\n\r\nInvalid request";
    proof {
        reveal_strlit("HTTP/1.1 400 BAD REQUEST\r\n\r\nInvalid request");
        assert(vstd::string::is_ascii(l));
    }
    lit_vec(l)
}

/// The missing-file response.
pub fn file_not_found_response() -> (r: Vec<u8>)
    ensures
        r@ == file_not_found_spec(),
        is_prefix(status_404(), r@),
{
    let l = "HTTP/1.1 404 NOT FOUND\r\n\r\nFile not found";
    proof {
        reveal_strlit("HTTP/1.1 404 NOT FOUND\r\n\r\nFile not found");
        reveal_strlit("HTTP/1.1 404 NOT FOUND\r\n");
        assert(vstd::string::is_ascii(l));
    }
    let r = lit_vec(l);
    proof {
        assert(r@.subrange(0, status_404().len() as int) =~= status_404());
    }
    r
}

/// The headers written before the `hello.html` page.
pub fn root_header() -> (r: Vec<u8>)
    ensures
        r@ == h200_html(),
        is_prefix(status_200(), r@),
{
    let l = "HTTP/1.1 200 OK\r\nContent-Type: text/html\r\n\r\n";
    proof {
        reveal_strlit("HTTP/1.1 200 OK\r\nContent-Type: text/html\r\n\r\n");
        reveal_strlit("HTTP/1.1 200 OK\r\n");
        assert(vstd::string::is_ascii(l));
    }
    let r = lit_vec(l);
    proof {
        assert(r@.subrange(0, status_200().len() as int) =~= status_200());
    }
    r
}

/// The headers written before the `404.html` page.
pub fn not_found_header() -> (r: Vec<u8>)
    ensures
        r@ == h404_html(),
        is_prefix(status_404(), r@),
{
    let l = "HTTP/1.1 404 NOT FOUND\r\nContent-Type: text/html\r\n\r\n";
    proof {
        reveal_strlit("HTTP/1.1 404 NOT FOUND\r\nContent-Type: text/html\r\n\r\n");
        reveal_strlit("HTTP/1.1 404 NOT FOUND\r\n");
        assert(vstd::string::is_ascii(l));
    }
    let r = lit_vec(l);
    proof {
        assert(r@.subrange(0, status_404().len() as int) =~= status_404());
    }
    r
}

/// The full download response for a stored file.
pub fn content_ok_response(name: &Vec<u8>, content: &Vec<u8>) -> (r: Vec<u8>)
    ensures
        r@ == content_ok_spec(name@, content@),
        is_prefix(status_200(), r@),
{
    let l1 =
        "HTTP/1.1 200 OK\r\nContent-Type: application/octet-stream\r\nContent-Disposition: attachment; filename=\"";
    let l2 = "\"\r\n\r\n";
    proof {
        reveal_strlit(
            "HTTP/1.1 200 OK\r\nContent-Type: application/octet-stream\r\nContent-Disposition: attachment; filename=\"",
        );
        reveal_strlit("\"\r\n\r\n");
        reveal_strlit("HTTP/1.1 200 OK\r\n");
        assert(vstd::string::is_ascii(l1));
        assert(vstd::string::is_ascii(l2));
    }
    let mut r: Vec<u8> = Vec::new();
    push_lit(&mut r, l1);
    let shown = lossy_utf8(name);
    push_all(&mut r, &shown);
    push_lit(&mut r, l2);
    push_all(&mut r, content);
    proof {
        assert(r@ =~= content_ok_spec(name@, content@));
        assert(r@.subrange(0, status_200().len() as int) =~= status_200());
    }
    r
}

/// The upload acknowledgement for a stored filename.
pub fn upload_ok_response(name: &Vec<u8>) -> (r: Vec<u8>)
    ensures
        r@ == upload_ok_spec(name@),
        is_prefix(status_200(), r@),
{
    let l0 = "HTTP/1.1 200 OK\r\nContent-Type: application/json\r\n\r\n";
    let l1 = "{\"filename\":\"";
    let l2 = "\",\"message\":\"File uploaded successfully\"}";
    proof {
        reveal_strlit("HTTP/1.1 200 OK\r\nContent-Type: application/json\r\n\r\n");
        reveal_strlit("{\"filename\":\"");
        reveal_strlit("\",\"message\":\"File uploaded successfully\"}");
        reveal_strlit("HTTP/1.1 200 OK\r\n");
        assert(vstd::string::is_ascii(l0));
        assert(vstd::string::is_ascii(l1));
        assert(vstd::string::is_ascii(l2));
    }
    let mut r: Vec<u8> = Vec::new();
    push_lit(&mut r, l0);
    push_lit(&mut r, l1);
    let shown = lossy_utf8(name);
    push_escaped(&mut r, &shown);
    push_lit(&mut r, l2);
    proof {
        assert(r@ =~= upload_ok_spec(name@));
        assert(r@.subrange(0, status_200().len() as int) =~= status_200());
    }
    r
}

/// Appends one file-entry JSON object to `out`.
pub fn push_entry_json(out: &mut Vec<u8>, name: &Vec<u8>, size: u64, dur: &Option<AudioDuration>)
    requires
        match dur {
            Some(d) => d.wf(),
            None => true,
        },
    ensures
        final(out)@ == old(out)@ + entry_json_spec(
            name@,
            size as nat,
            crate::duration::opt_duration_model(*dur),
        ),
{
    let l1 = "{\"name\":\"";
    let l2 = "\",\"size\":";
    let l3 = ",\"duration\":";
    let l4 = "null";
    let l5 = "}";
    proof {
        reveal_strlit("{\"name\":\"");
        reveal_strlit("\",\"size\":");
        reveal_strlit(",\"duration\":");
        reveal_strlit("null");
        reveal_strlit("}");
        assert(vstd::string::is_ascii(l1));
        assert(vstd::string::is_ascii(l2));
        assert(vstd::string::is_ascii(l3));
        assert(vstd::string::is_ascii(l4));
        assert(vstd::string::is_ascii(l5));
    }
    push_lit(out, l1);
    let shown = lossy_utf8(name);
    push_escaped(out, &shown);
    push_lit(out, l2);
    push_u64_dec(out, size);
    push_lit(out, l3);
    match dur {
        Some(d) => push_duration_text(out, d),
        None => push_lit(out, l4),
    }
    push_lit(out, l5);
    proof {
        assert(out@ =~= old(out)@ + entry_json_spec(
            name@,
            size as nat,
            crate::duration::opt_duration_model(*dur),
        ));
    }
}

/// The metadata response for a stored file.
pub fn metadata_ok_response(name: &Vec<u8>, size: u64, dur: &Option<AudioDuration>) -> (r: Vec<u8>)
    requires
        match dur {
            Some(d) => d.wf(),
            None => true,
        },
    ensures
        r@ == metadata_ok_spec(name@, size as nat, crate::duration::opt_duration_model(*dur)),
        is_prefix(status_200(), r@),
{
    let l0 = "HTTP/1.1 200 OK\r\nContent-Type: application/json\r\n\r\n";
    proof {
        reveal_strlit("HTTP/1.1 200 OK\r\nContent-Type: application/json\r\n\r\n");
        reveal_strlit("HTTP/1.1 200 OK\r\n");
        assert(vstd::string::is_ascii(l0));
    }
    let mut r: Vec<u8> = Vec::new();
    push_lit(&mut r, l0);
    push_entry_json(&mut r, name, size, dur);
    proof {
        assert(r@ =~= metadata_ok_spec(
            name@,
            size as nat,
            crate::duration::opt_duration_model(*dur),
        ));
        assert(r@.subrange(0, status_200().len() as int) =~= status_200());
    }
    r
}

/// The download outcome: the stored bytes when the name resolves, the
/// missing-file error exactly when it does not.
pub open spec fn content_response_spec(name: Seq<u8>, file: Option<Seq<u8>>) -> Seq<u8> {
    match file {
        Some(b) => content_ok_spec(name, b),
        None => file_not_found_spec(),
    }
}

/// The view of an optional borrowed byte vector.
pub open spec fn opt_ref_bytes(o: Option<&Vec<u8>>) -> Option<Seq<u8>> {
    match o {
        Some(v) => Some(v@),
        None => None,
    }
}

/// Answers a download request: 200 with the content when the store holds the
/// file, 404 if and only if it does not.
pub fn content_response(name: &Vec<u8>, file: Option<&Vec<u8>>) -> (r: Vec<u8>)
    ensures
        r@ == content_response_spec(name@, opt_ref_bytes(file)),
        file is Some ==> is_prefix(status_200(), r@),
        file is None ==> is_prefix(status_404(), r@),
{
    match file {
        Some(content) => content_ok_response(name, content),
        None => file_not_found_response(),
    }
}

/// The metadata outcome: the entry object when the name resolves, the
/// missing-file error exactly when it does not.
pub open spec fn metadata_response_spec(
    name: Seq<u8>,
    meta: Option<(nat, Option<(int, int)>)>,
) -> Seq<u8> {
    match meta {
        Some(m) => metadata_ok_spec(name, m.0, m.1),
        None => file_not_found_spec(),
    }
}

/// Answers a metadata request: 200 with the entry object when the store
/// holds the file, 404 if and only if it does not.
pub fn metadata_response(name: &Vec<u8>, meta: Option<(u64, Option<AudioDuration>)>) -> (r: Vec<
    u8,
>)
    requires
        match meta {
            Some(m) => match m.1 {
                Some(d) => d.wf(),
                None => true,
            },
            None => true,
        },
    ensures
        r@ == metadata_response_spec(
            name@,
            match meta {
                Some(m) => Some(
                    (m.0 as nat, crate::duration::opt_duration_model(m.1)),
                ),
                None => None,
            },
        ),
        meta is Some ==> is_prefix(status_200(), r@),
        meta is None ==> is_prefix(status_404(), r@),
{
    match meta {
        Some((size, dur)) => metadata_ok_response(name, size, &dur),
        None => file_not_found_response(),
    }
}

/// The upload outcome: the acknowledgement for a captured name, the
/// client error exactly when the capture failed.
pub open spec fn upload_response_spec(filename: Option<Seq<u8>>) -> Seq<u8> {
    match filename {
        Some(n) => upload_ok_spec(n),
        None => invalid_request_spec(),
    }
}

/// Acknowledges an upload: 200 with the stored name, 400 if and only if the
/// request line carried no name.
pub fn upload_response(filename: &Option<Vec<u8>>) -> (r: Vec<u8>)
    ensures
        r@ == upload_response_spec(crate::route::opt_bytes(*filename)),
        filename is Some ==> is_prefix(status_200(), r@),
{
    match filename {
        Some(name) => upload_ok_response(name),
        None => invalid_request_response(),
    }
}

} // verus!
