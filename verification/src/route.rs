//! The route dispatcher: the parts of a request line, the handler that
//! they name, and what the request is answered with.

use vstd::prelude::*;
use vstd::string::*;
use crate::framer::{is_write_line, request_of, Request, RequestText};
use crate::model::Error;
use crate::text::{
    chars_of, find_char, first_index_of, lemma_first_index_is, lemma_first_index_of, occurs_at,
    same_text,
};

verus! {

/// The parts of a request line, as text.
pub struct Parts {
    pub method: Seq<char>,
    pub path: Seq<char>,
    pub version: Seq<char>,
}

/// The parts of a request line: the method ends at the first space, the
/// path at the second, and the rest is the version. A line with fewer than
/// two spaces has no parts.
pub open spec fn parts_of(line: Seq<char>) -> Option<Parts> {
    let first = first_index_of(line, ' ');
    if first >= line.len() {
        None
    } else {
        let rest = line.skip(first + 1);
        let second = first_index_of(rest, ' ');
        if second >= rest.len() {
            None
        } else {
            Some(
                Parts {
                    method: line.take(first),
                    path: rest.take(second),
                    version: rest.skip(second + 1),
                },
            )
        }
    }
}

/// The parts of a request line.
#[derive(Debug, PartialEq, Eq)]
pub struct RequestLine {
    pub method: String,
    pub path: String,
    pub version: String,
}

impl View for RequestLine {
    type V = Parts;

    open spec fn view(&self) -> Parts {
        Parts { method: self.method@, path: self.path@, version: self.version@ }
    }
}

/// The parts of the request line `line`.
pub fn split_request_line(line: &str) -> (parts: Option<RequestLine>)
    ensures
        match parts {
            Some(parts) => parts_of(line@) == Some(parts@),
            None => parts_of(line@) is None,
        },
{
    let chars = chars_of(line);
    let first = find_char(&chars, ' ');
    proof {
        lemma_first_index_of(line@, ' ');
    }
    if first >= chars.len() {
        return None;
    }
    let rest = line.substring_char(first + 1, chars.len());
    let rest_chars = chars_of(rest);
    let second = find_char(&rest_chars, ' ');
    proof {
        assert(rest@ =~= line@.skip(first + 1));
        lemma_first_index_of(rest@, ' ');
    }
    if second >= rest_chars.len() {
        return None;
    }
    let method = line.substring_char(0, first).to_owned();
    let path = rest.substring_char(0, second).to_owned();
    let version = rest.substring_char(second + 1, rest_chars.len()).to_owned();
    Some(RequestLine { method, path, version })
}

/// A line is its parts with one space between them.
pub proof fn lemma_parts_join(line: Seq<char>)
    ensures
        parts_of(line) matches Some(parts) ==> {
            &&& line == parts.method + seq![' '] + parts.path + seq![' '] + parts.version
            &&& !parts.method.contains(' ')
            &&& !parts.path.contains(' ')
        },
{
    lemma_first_index_of(line, ' ');
    let first = first_index_of(line, ' ');
    if first < line.len() {
        let rest = line.skip(first + 1);
        lemma_first_index_of(rest, ' ');
        let second = first_index_of(rest, ' ');
        if second < rest.len() {
            let parts = parts_of(line).unwrap();
            assert(line =~= parts.method + seq![' '] + parts.path + seq![' '] + parts.version);
            assert(!parts.method.contains(' ')) by {
                if parts.method.contains(' ') {
                    let i = choose|i: int| 0 <= i < parts.method.len() && parts.method[i] == ' ';
                    assert(line[i] == ' ');
                }
            }
            assert(!parts.path.contains(' ')) by {
                if parts.path.contains(' ') {
                    let i = choose|i: int| 0 <= i < parts.path.len() && parts.path[i] == ' ';
                    assert(rest[i] == ' ');
                }
            }
        }
    }
}

/// Method and path without a space, joined with a version by one space
/// each, make a line with just these parts.
pub proof fn lemma_parts_of_joined(method: Seq<char>, path: Seq<char>, version: Seq<char>)
    requires
        !method.contains(' '),
        !path.contains(' '),
    ensures
        parts_of(method + seq![' '] + path + seq![' '] + version) == Some(
            Parts { method, path, version },
        ),
{
    let line = method + seq![' '] + path + seq![' '] + version;
    let first = method.len() as int;
    assert(line[first] == ' ');
    assert forall|j: int| 0 <= j < first implies line[j] != ' ' by {
        assert(line[j] == method[j]);
        assert(method.contains(method[j]));
    }
    lemma_first_index_is(line, ' ', first);
    let rest = line.skip(first + 1);
    assert(rest =~= path + seq![' '] + version);
    let second = path.len() as int;
    assert(rest[second] == ' ');
    assert forall|j: int| 0 <= j < second implies rest[j] != ' ' by {
        assert(rest[j] == path[j]);
        assert(path.contains(path[j]));
    }
    lemma_first_index_is(rest, ' ', second);
    assert(line.take(first) =~= method);
    assert(rest.take(second) =~= path);
    assert(rest.skip(second + 1) =~= version);
}

/// The handlers of the server.
#[derive(Debug, Clone, Copy, PartialEq, Eq, Structural)]
pub enum Route {
    /// `GET /`: the page of the drawing client.
    Index,
    /// `GET /wasm/frontend.js`: the client's script.
    Script,
    /// `GET /wasm/frontend_bg.wasm`: the client's program.
    Wasm,
    /// `POST /hello`: a client greets with its id.
    Hello,
    /// `POST /send_lines`: a client submits strokes.
    SendLines,
    /// `GET /get_lines`: a client asks for the state.
    GetLines,
    /// `POST /clear_lines`: a client asks for a reset.
    ClearLines,
    /// Anything else.
    NotFound,
}

/// The route that method and path name, under the version `HTTP/1.1`.
pub open spec fn route_for(parts: Parts) -> Route {
    if parts.version != "HTTP/1.1"@ {
        Route::NotFound
    } else if parts.method == "GET"@ && parts.path == "/"@ {
        Route::Index
    } else if parts.method == "GET"@ && parts.path == "/wasm/frontend.js"@ {
        Route::Script
    } else if parts.method == "GET"@ && parts.path == "/wasm/frontend_bg.wasm"@ {
        Route::Wasm
    } else if parts.method == "POST"@ && parts.path == "/hello"@ {
        Route::Hello
    } else if parts.method == "POST"@ && parts.path == "/send_lines"@ {
        Route::SendLines
    } else if parts.method == "GET"@ && parts.path == "/get_lines"@ {
        Route::GetLines
    } else if parts.method == "POST"@ && parts.path == "/clear_lines"@ {
        Route::ClearLines
    } else {
        Route::NotFound
    }
}

/// The route that a request line names: that of its parts, and `NotFound`
/// where it has none.
pub open spec fn route_of(request_line: Seq<char>) -> Route {
    match parts_of(request_line) {
        Some(parts) => route_for(parts),
        None => Route::NotFound,
    }
}

/// The route that a request line names, read off the whole line.
pub open spec fn route_of_line(request_line: Seq<char>) -> Route {
    if request_line == "GET / HTTP/1.1"@ {
        Route::Index
    } else if request_line == "GET /wasm/frontend.js HTTP/1.1"@ {
        Route::Script
    } else if request_line == "GET /wasm/frontend_bg.wasm HTTP/1.1"@ {
        Route::Wasm
    } else if request_line == "POST /hello HTTP/1.1"@ {
        Route::Hello
    } else if request_line == "POST /send_lines HTTP/1.1"@ {
        Route::SendLines
    } else if request_line == "GET /get_lines HTTP/1.1"@ {
        Route::GetLines
    } else if request_line == "POST /clear_lines HTTP/1.1"@ {
        Route::ClearLines
    } else {
        Route::NotFound
    }
}

/// The route of `parts`.
pub fn route_by_parts(parts: &RequestLine) -> (route: Route)
    ensures
        route == route_for(parts@),
{
    let method = parts.method.as_str();
    let path = parts.path.as_str();
    if !same_text(parts.version.as_str(), "HTTP/1.1") {
        Route::NotFound
    } else if same_text(method, "GET") && same_text(path, "/") {
        Route::Index
    } else if same_text(method, "GET") && same_text(path, "/wasm/frontend.js") {
        Route::Script
    } else if same_text(method, "GET") && same_text(path, "/wasm/frontend_bg.wasm") {
        Route::Wasm
    } else if same_text(method, "POST") && same_text(path, "/hello") {
        Route::Hello
    } else if same_text(method, "POST") && same_text(path, "/send_lines") {
        Route::SendLines
    } else if same_text(method, "GET") && same_text(path, "/get_lines") {
        Route::GetLines
    } else if same_text(method, "POST") && same_text(path, "/clear_lines") {
        Route::ClearLines
    } else {
        Route::NotFound
    }
}

/// The route that `request_line` names.
pub fn route(request_line: &str) -> (route: Route)
    ensures
        route == route_of(request_line@),
{
    match split_request_line(request_line) {
        Some(parts) => route_by_parts(&parts),
        None => Route::NotFound,
    }
}

impl Request {
    /// Method, path and version of the request, where its request line has
    /// these parts.
    pub fn parts(&self) -> (parts: Option<RequestLine>)
        ensures
            match parts {
                Some(parts) => parts_of(self@.request_line) == Some(parts@),
                None => parts_of(self@.request_line) is None,
            },
    {
        split_request_line(self.request_line.as_str())
    }

    /// The route that the request names.
    pub fn route(&self) -> (route: Route)
        ensures
            route == route_of(self@.request_line),
    {
        route(self.request_line.as_str())
    }
}

/// The line that method, path and version make.
pub open spec fn joined(method: Seq<char>, path: Seq<char>, version: Seq<char>) -> Seq<char> {
    method + seq![' '] + path + seq![' '] + version
}

/// Routing by parts is routing by whole lines: a line names a handler
/// exactly if it is the handler's method, its path and `HTTP/1.1` with one
/// space between them.
pub proof fn lemma_route_by_line(request_line: Seq<char>)
    ensures
        route_of(request_line) == route_of_line(request_line),
{
    reveal_strlit("HTTP/1.1");
    reveal_strlit("GET");
    reveal_strlit("POST");
    reveal_strlit("/");
    reveal_strlit("/wasm/frontend.js");
    reveal_strlit("/wasm/frontend_bg.wasm");
    reveal_strlit("/hello");
    reveal_strlit("/send_lines");
    reveal_strlit("/get_lines");
    reveal_strlit("/clear_lines");
    reveal_strlit("GET / HTTP/1.1");
    reveal_strlit("GET /wasm/frontend.js HTTP/1.1");
    reveal_strlit("GET /wasm/frontend_bg.wasm HTTP/1.1");
    reveal_strlit("POST /hello HTTP/1.1");
    reveal_strlit("POST /send_lines HTTP/1.1");
    reveal_strlit("GET /get_lines HTTP/1.1");
    reveal_strlit("POST /clear_lines HTTP/1.1");
    let version = "HTTP/1.1"@;
    assert(joined("GET"@, "/"@, version) =~= "GET / HTTP/1.1"@);
    assert(joined("GET"@, "/wasm/frontend.js"@, version) =~= "GET /wasm/frontend.js HTTP/1.1"@);
    assert(joined("GET"@, "/wasm/frontend_bg.wasm"@, version)
        =~= "GET /wasm/frontend_bg.wasm HTTP/1.1"@);
    assert(joined("POST"@, "/hello"@, version) =~= "POST /hello HTTP/1.1"@);
    assert(joined("POST"@, "/send_lines"@, version) =~= "POST /send_lines HTTP/1.1"@);
    assert(joined("GET"@, "/get_lines"@, version) =~= "GET /get_lines HTTP/1.1"@);
    assert(joined("POST"@, "/clear_lines"@, version) =~= "POST /clear_lines HTTP/1.1"@);
    lemma_parts_join(request_line);
    if route_of_line(request_line) != Route::NotFound {
        // The line is one of the seven: its parts are those it was joined from.
        lemma_parts_of_joined("GET"@, "/"@, version);
        lemma_parts_of_joined("GET"@, "/wasm/frontend.js"@, version);
        lemma_parts_of_joined("GET"@, "/wasm/frontend_bg.wasm"@, version);
        lemma_parts_of_joined("POST"@, "/hello"@, version);
        lemma_parts_of_joined("POST"@, "/send_lines"@, version);
        lemma_parts_of_joined("GET"@, "/get_lines"@, version);
        lemma_parts_of_joined("POST"@, "/clear_lines"@, version);
    } else if route_of(request_line) != Route::NotFound {
        // The parts are those of a handler: the line is what they join to.
        let parts = parts_of(request_line).unwrap();
        assert(request_line == joined(parts.method, parts.path, parts.version));
    }
}

impl Route {
    /// The route reads the content of its request.
    pub open spec fn reads_content(self) -> bool {
        self == Route::Hello || self == Route::SendLines
    }

    /// Whether the route reads the content of its request.
    pub fn takes_content(self) -> (takes: bool)
        ensures
            takes == self.reads_content(),
    {
        match self {
            Route::Hello | Route::SendLines => true,
            _ => false,
        }
    }
}

/// The request line of a route that reads content makes the request a write
/// request.
pub proof fn lemma_content_route_is_write(request_line: Seq<char>)
    requires
        route_of(request_line).reads_content(),
    ensures
        is_write_line(request_line),
{
    lemma_route_by_line(request_line);
    reveal_strlit("POST");
    reveal_strlit("/hello");
    reveal_strlit("/send_lines");
    reveal_strlit("POST /hello HTTP/1.1");
    reveal_strlit("POST /send_lines HTTP/1.1");
    reveal_strlit("GET / HTTP/1.1");
    reveal_strlit("GET /wasm/frontend.js HTTP/1.1");
    reveal_strlit("GET /wasm/frontend_bg.wasm HTTP/1.1");
    assert(request_line.subrange(0, 4) =~= "POST"@);
    if route_of(request_line) == Route::Hello {
        assert(request_line.subrange(5, 11) =~= "/hello"@);
        assert(occurs_at(request_line, "/hello"@, 5));
    } else {
        assert(request_line.subrange(5, 16) =~= "/send_lines"@);
        assert(occurs_at(request_line, "/send_lines"@, 5));
    }
}

/// A framed request whose route reads content has its content.
pub proof fn lemma_content_route_has_content(lines: Seq<Seq<char>>)
    ensures
        request_of(lines) matches Ok(Some(request)) ==> (route_of(
            request.request_line,
        ).reads_content() ==> request.content is Some),
{
    if lines.len() > 0 && route_of(lines[0]).reads_content() {
        lemma_content_route_is_write(lines[0]);
        assert(is_write_line(lines[0]));
    }
}

/// The content that the handler of `route` reads from `request`: none for a
/// route that reads no content; for one that does, the request's content,
/// which may be missing.
pub open spec fn payload_of(request: RequestText, route: Route) -> Result<
    Option<Seq<char>>,
    Error,
> {
    if !route.reads_content() {
        Ok(None)
    } else {
        match request.content {
            Some(content) => Ok(Some(content)),
            None => Err(Error::MissingContent),
        }
    }
}

/// The content that the handler of `route` reads from `request`.
pub fn payload<'a>(request: &'a Request, route: Route) -> (content: Result<Option<&'a str>, Error>)
    ensures
        match (content, payload_of(request@, route)) {
            (Ok(None), Ok(None)) => true,
            (Ok(Some(text)), Ok(Some(expected))) => text@ == expected,
            (Err(e), Err(f)) => e == f,
            _ => false,
        },
{
    if route.takes_content() {
        match &request.content {
            Some(content) => Ok(Some(content.as_str())),
            None => Err(Error::MissingContent),
        }
    } else {
        Ok(None)
    }
}

} // verus!
