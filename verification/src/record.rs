//! Requests and responses as they are recorded: the first line, a line for each header
//! field, an empty line, then the body as text.
use vstd::prelude::*;
use crate::evaluate::{lossy_text, utf8_lossy, all_ascii, ascii_text};

verus! {

/// The lines of the header fields: each name, `: `, the value as shown, and a line break.
pub open spec fn header_lines(h: Seq<(Seq<char>, Seq<char>)>) -> Seq<char>
    decreases h.len(),
{
    if h.len() == 0 {
        Seq::empty()
    } else {
        header_lines(h.drop_last()) + h.last().0 + ": "@ + h.last().1 + "\n"@
    }
}

/// The views of pairs of strings.
pub open spec fn pair_views(v: Seq<(String, String)>) -> Seq<(Seq<char>, Seq<char>)> {
    v.map_values(|p: (String, String)| (p.0@, p.1@))
}

/// The body as recorded: its text when it could be collected, else nothing.
pub open spec fn body_text(body: Option<Seq<u8>>) -> Seq<char> {
    match body {
        Some(b) => utf8_lossy(b),
        None => Seq::empty(),
    }
}

/// Appends the header lines and the empty line after them.
fn append_header_lines(out: &mut String, headers: &Vec<(String, String)>)
    ensures
        final(out)@ == old(out)@ + header_lines(pair_views(headers@)) + "\n"@,
{
    let ghost start = out@;
    let mut i: usize = 0;
    while i < headers.len()
        invariant
            i <= headers@.len(),
            out@ == start + header_lines(pair_views(headers@.take(i as int))),
        decreases headers@.len() - i,
    {
        out.append(headers[i].0.as_str());
        out.append(": ");
        out.append(headers[i].1.as_str());
        out.append("\n");
        proof {
            let t = headers@.take(i + 1);
            assert(pair_views(t).drop_last() =~= pair_views(headers@.take(i as int)));
            assert(pair_views(t).last() == (headers@[i as int].0@, headers@[i as int].1@));
        }
        i = i + 1;
    }
    out.append("\n");
    proof { assert(headers@.take(headers@.len() as int) =~= headers@); }
}

/// The text of a body whose bytes are all ASCII is those bytes as characters.
pub open spec fn ascii_body_text(body: Option<Seq<u8>>) -> bool {
    match body {
        Some(b) => all_ascii(b) ==> utf8_lossy(b) == ascii_text(b),
        None => true,
    }
}

/// Appends the body as text, when it could be collected.
fn append_body(out: &mut String, body: Option<&[u8]>)
    ensures
        final(out)@ == old(out)@ + body_text(match body {
            Some(b) => Some(b@),
            None => None,
        }),
        ascii_body_text(match body {
            Some(b) => Some(b@),
            None => None,
        }),
{
    match body {
        Some(b) => {
            let text = lossy_text(b);
            out.append(text.as_str());
        },
        None => {
            proof { assert(out@ + Seq::<char>::empty() =~= out@); }
        },
    }
}

/// A request as recorded: method, URI and version on the first line, a line for each
/// header field with its value as shown, an empty line, then the body as text.
pub fn raw_request(method: &str, uri: &str, version: &str, headers: &Vec<(String, String)>, body: Option<&[u8]>) -> (res: String)
    ensures
        res@ == method@ + " "@ + uri@ + " "@ + version@ + "\n"@ + header_lines(pair_views(headers@)) + "\n"@
            + body_text(match body {
                Some(b) => Some(b@),
                None => None,
            }),
        ascii_body_text(match body {
            Some(b) => Some(b@),
            None => None,
        }),
{
    let mut out = String::from_str(method);
    out.append(" ");
    out.append(uri);
    out.append(" ");
    out.append(version);
    out.append("\n");
    append_header_lines(&mut out, headers);
    append_body(&mut out, body);
    out
}

/// A response as recorded: version and status on the first line, a line for each header
/// field with its value as shown, an empty line, then the body as text.
pub fn raw_response(version: &str, status: &str, headers: &Vec<(String, String)>, body: Option<&[u8]>) -> (res: String)
    ensures
        res@ == version@ + " "@ + status@ + "\n"@ + header_lines(pair_views(headers@)) + "\n"@
            + body_text(match body {
                Some(b) => Some(b@),
                None => None,
            }),
        ascii_body_text(match body {
            Some(b) => Some(b@),
            None => None,
        }),
{
    let mut out = String::from_str(version);
    out.append(" ");
    out.append(status);
    out.append("\n");
    append_header_lines(&mut out, headers);
    append_body(&mut out, body);
    out
}

/// The media type of a content type: what stands before its first `;`, or all of it.
pub open spec fn media_type_of(content_type: Seq<char>) -> Seq<char> {
    match crate::text::split_at_first(content_type, ';') {
        Some((m, _)) => m,
        None => content_type,
    }
}

/// A body of the content type `content_type` is JSON: its media type is
/// `application/json`, whatever the case of its letters.
pub open spec fn is_json_content(content_type: Option<Seq<char>>) -> bool {
    match content_type {
        Some(t) => crate::router::ascii_lower(media_type_of(t)) == "application/json"@,
        None => false,
    }
}

/// The extension of the file a body is recorded in: `json` for a JSON body, else `txt`.
pub fn record_extension(content_type: Option<&str>) -> (ext: String)
    ensures
        ext@ == (if is_json_content(match content_type {
            Some(t) => Some(t@),
            None => None,
        }) { "json"@ } else { "txt"@ }),
{
    let json = match content_type {
        Some(t) => {
            let media = match crate::text::split_once(t, ';') {
                Some((m, _)) => m,
                None => crate::text::owned(t),
            };
            crate::router::eq_ignore_ascii_case(media.as_str(), "application/json")
        },
        None => false,
    };
    proof {
        reveal_strlit("application/json");
        let a = "application/json"@;
        assert(crate::router::ascii_lower(a) =~= a) by {
            assert forall|i: int| 0 <= i < a.len() implies crate::router::ascii_lower_char(a[i]) == a[i] by {}
        }
    }
    if json { String::from_str("json") } else { String::from_str("txt") }
}

} // verus!
