//! The head of a reply: status line and headers. The headers are kept in a
//! `http::HeaderMap` and written in the order in which it yields them.

use vstd::prelude::*;
use vstd::string::*;
use crate::reply::{ContentType, Status};
use crate::text::decimal;

verus! {

/// The header map of the `http` crate. Nothing of its inside is known here.
#[verifier::external_type_specification]
#[verifier::external_body]
#[verifier::reject_recursive_types(T)]
pub struct ExHeaderMap<T>(http::HeaderMap<T>);

/// The header value of the `http` crate. Nothing of its inside is known here.
#[verifier::external_type_specification]
#[verifier::external_body]
pub struct ExHeaderValue(http::HeaderValue);

/// The headers that `map` holds, in the order in which `HeaderMap::iter`
/// yields them: each name as `HeaderName::as_str` gives it, each value as
/// `HeaderValue::to_str` gives it (the empty text where `to_str` refuses).
pub uninterp spec fn header_entries(map: http::HeaderMap<http::HeaderValue>) -> Seq<
    (Seq<char>, Seq<char>),
>;

/// One of `entries` goes by `name`.
pub open spec fn has_header(entries: Seq<(Seq<char>, Seq<char>)>, name: Seq<char>) -> bool {
    exists|i: int| 0 <= i < entries.len() && (#[trigger] entries[i]).0 == name
}

/// A character that this library puts into a header name: a lower-case
/// letter or a hyphen.
pub open spec fn is_name_char(c: char) -> bool {
    ('a' <= c && c <= 'z') || c == '-'
}

/// A header name as this library writes it: one to sixty-four lower-case
/// letters and hyphens.
pub open spec fn is_header_name(name: Seq<char>) -> bool {
    &&& 0 < name.len() <= 64
    &&& forall|i: int| 0 <= i < name.len() ==> is_name_char(#[trigger] name[i])
}

/// A header value of visible ASCII characters: from the space to the tilde.
pub open spec fn is_header_text(value: Seq<char>) -> bool {
    forall|i: int| 0 <= i < value.len() ==> ' ' <= #[trigger] value[i] <= '~'
}

/// `HeaderMap::new`: a map that holds no header.
#[verifier::external_body]
fn header_map_new() -> (map: http::HeaderMap<http::HeaderValue>)
    ensures
        header_entries(map) == Seq::<(Seq<char>, Seq<char>)>::empty(),
{
    http::HeaderMap::new()
}

/// `HeaderMap::insert` with a name from `HeaderName::from_static` and a
/// value from `HeaderValue::from_static`. Claimed of a name that the map
/// lacks: the header comes to stand behind those that the map held, which
/// stay as they were. The two `from_static` panic on characters outside
/// their alphabets, and `insert` on a map of tens of thousands of headers:
/// the conditions keep well inside both.
#[verifier::external_body]
fn header_map_insert(
    map: &mut http::HeaderMap<http::HeaderValue>,
    name: &'static str,
    value: &'static str,
)
    requires
        is_header_name(name@),
        is_header_text(value@),
        !has_header(header_entries(*old(map)), name@),
        header_entries(*old(map)).len() < 64,
    ensures
        header_entries(*final(map)) == header_entries(*old(map)).push((name@, value@)),
{
    map.insert(http::HeaderName::from_static(name), http::HeaderValue::from_static(value));
}

/// `HeaderMap::insert` with a name from `HeaderName::from_static` and a
/// value from `HeaderValue::from(usize)`, which writes the number as a
/// decimal numeral. Claimed of a name that the map lacks, as above.
#[verifier::external_body]
fn header_map_insert_number(
    map: &mut http::HeaderMap<http::HeaderValue>,
    name: &'static str,
    value: usize,
)
    requires
        is_header_name(name@),
        !has_header(header_entries(*old(map)), name@),
        header_entries(*old(map)).len() < 64,
    ensures
        header_entries(*final(map)) == header_entries(*old(map)).push(
            (name@, decimal(value as nat)),
        ),
{
    map.insert(http::HeaderName::from_static(name), http::HeaderValue::from(value));
}

/// `HeaderMap::iter`, each header handed out as a pair of texts.
#[verifier::external_body]
fn header_map_pairs(map: &http::HeaderMap<http::HeaderValue>) -> (pairs: Vec<(String, String)>)
    ensures
        pairs@.len() == header_entries(*map).len(),
        forall|i: int|
            0 <= i < pairs@.len() ==> (#[trigger] pairs@[i]).0@ == header_entries(*map)[i].0
                && pairs@[i].1@ == header_entries(*map)[i].1,
{
    map.iter().map(
        |(name, value)| (name.as_str().to_owned(), value.to_str().unwrap_or_default().to_owned()),
    ).collect()
}

/// One header as it is written: name, colon, space, value, line end.
pub open spec fn header_line(name: Seq<char>, value: Seq<char>) -> Seq<char> {
    name + ": "@ + value + "\r\n"@
}

/// The head of a reply: the status line; the two headers that let any
/// origin read the reply; content type and content length; a blank line.
pub open spec fn head_text(status: Status, content_type: ContentType, length: nat) -> Seq<char> {
    status.text() + "\r\n"@ + header_line("access-control-allow-origin"@, "*"@) + header_line(
        "access-control-allow-headers"@,
        "Origin, X-Requested-With, Content-Type, Accept"@,
    ) + header_line("content-type"@, content_type.text()) + header_line(
        "content-length"@,
        decimal(length),
    ) + "\r\n"@
}

/// The headers of `entries` from `from` on, as they are written.
pub open spec fn header_lines(entries: Seq<(Seq<char>, Seq<char>)>, from: int) -> Seq<char>
    decreases entries.len() - from,
{
    if from < 0 || from >= entries.len() {
        Seq::empty()
    } else {
        header_line(entries[from].0, entries[from].1) + header_lines(entries, from + 1)
    }
}

/// The head of a reply with `status` whose content has the type
/// `content_type` and is `length` bytes long.
pub fn response_head(status: Status, content_type: ContentType, length: usize) -> (head: String)
    ensures
        head@ == head_text(status, content_type, length as nat),
{
    let mut headers = header_map_new();
    proof {
        reveal_strlit("access-control-allow-origin");
        reveal_strlit("access-control-allow-headers");
        reveal_strlit("content-type");
        reveal_strlit("content-length");
        reveal_strlit("*");
        reveal_strlit("Origin, X-Requested-With, Content-Type, Accept");
        reveal_strlit("text/html");
        reveal_strlit("text/javascript");
        reveal_strlit("application/wasm");
        reveal_strlit("application/json");
    }
    header_map_insert(&mut headers, "access-control-allow-origin", "*");
    assert(!has_header(header_entries(headers), "access-control-allow-headers"@)) by {
        assert(header_entries(headers)[0].0.len() == 27);
    }
    header_map_insert(
        &mut headers,
        "access-control-allow-headers",
        "Origin, X-Requested-With, Content-Type, Accept",
    );
    assert(!has_header(header_entries(headers), "content-type"@)) by {
        assert(header_entries(headers)[0].0.len() == 27);
        assert(header_entries(headers)[1].0.len() == 28);
    }
    header_map_insert(&mut headers, "content-type", content_type.name());
    assert(!has_header(header_entries(headers), "content-length"@)) by {
        assert(header_entries(headers)[0].0.len() == 27);
        assert(header_entries(headers)[1].0.len() == 28);
        assert(header_entries(headers)[2].0.len() == 12);
    }
    header_map_insert_number(&mut headers, "content-length", length);
    let pairs = header_map_pairs(&headers);
    let ghost entries = header_entries(headers);
    let mut head = String::from_str(status.line());
    head.append("\r\n");
    let mut at: usize = 0;
    while at < pairs.len()
        invariant
            at <= pairs@.len(),
            pairs@.len() == entries.len(),
            forall|i: int|
                0 <= i < pairs@.len() ==> (#[trigger] pairs@[i]).0@ == entries[i].0 && pairs@[i].1@
                    == entries[i].1,
            head@ + header_lines(entries, at as int) == status.text() + "\r\n"@ + header_lines(
                entries,
                0,
            ),
        decreases pairs.len() - at,
    {
        let ghost before = head@;
        head.append(pairs[at].0.as_str());
        head.append(": ");
        head.append(pairs[at].1.as_str());
        head.append("\r\n");
        proof {
            assert(head@ =~= before + header_line(entries[at as int].0, entries[at as int].1));
            assert(head@ + header_lines(entries, at + 1) =~= before + header_lines(
                entries,
                at as int,
            ));
        }
        at += 1;
    }
    head.append("\r\n");
    proof {
        reveal_with_fuel(header_lines, 5);
        assert(head@ =~= head_text(status, content_type, length as nat));
    }
    head
}

} // verus!
