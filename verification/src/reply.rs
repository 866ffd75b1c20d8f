//! What a request is answered with: the status, the content type and the
//! content of the reply to each route.

use vstd::prelude::*;
use vstd::string::*;
use crate::route::Route;
use crate::text::{decimal, decimal_string, replace_all, replaced, same_text};

verus! {

/// The status of a reply.
#[derive(Debug, Clone, Copy, PartialEq, Eq, Structural)]
pub enum Status {
    /// `200 OK`
    Success,
    /// `404 NOT FOUND`
    NotFound,
}

/// The content type of a reply.
#[derive(Debug, Clone, Copy, PartialEq, Eq, Structural)]
pub enum ContentType {
    /// `text/html`
    Html,
    /// `text/javascript`
    JavaScript,
    /// `application/wasm`
    Wasm,
    /// `application/json`
    Json,
}

/// A file that is served.
#[derive(Debug, Clone, Copy, PartialEq, Eq, Structural)]
pub enum Asset {
    /// `public/index.html`
    Index,
    /// `public/wasm/frontend.js`
    Script,
    /// `public/wasm/frontend_bg.wasm`
    Wasm,
    /// `public/404.html`
    NotFound,
}

/// Where the content of a reply comes from.
#[derive(Debug, Clone, Copy, PartialEq, Eq, Structural)]
pub enum Body {
    /// The reply has no content.
    Empty,
    /// The content is the state, as the handler for `GET /get_lines` returned it.
    State,
    /// The content is made from a file.
    File(Asset),
}

/// A reply: its status, its content type, and where its content comes from.
#[derive(Debug, Clone, Copy, PartialEq, Eq, Structural)]
pub struct Reply {
    pub status: Status,
    pub content_type: ContentType,
    pub body: Body,
}

impl Status {
    /// The status line.
    pub open spec fn text(self) -> Seq<char> {
        match self {
            Status::Success => "HTTP/1.1 200 OK"@,
            Status::NotFound => "HTTP/1.1 404 NOT FOUND"@,
        }
    }

    /// The status line.
    pub fn line(self) -> (line: &'static str)
        ensures
            line@ == self.text(),
    {
        match self {
            Status::Success => "HTTP/1.1 200 OK",
            Status::NotFound => "HTTP/1.1 404 NOT FOUND",
        }
    }
}

impl ContentType {
    /// The content type as a header value.
    pub open spec fn text(self) -> Seq<char> {
        match self {
            ContentType::Html => "text/html"@,
            ContentType::JavaScript => "text/javascript"@,
            ContentType::Wasm => "application/wasm"@,
            ContentType::Json => "application/json"@,
        }
    }

    /// The content type as a header value.
    pub fn name(self) -> (name: &'static str)
        ensures
            name@ == self.text(),
    {
        match self {
            ContentType::Html => "text/html",
            ContentType::JavaScript => "text/javascript",
            ContentType::Wasm => "application/wasm",
            ContentType::Json => "application/json",
        }
    }

    /// A file of this type is read as text. (The program is read as bytes.)
    pub fn is_text(self) -> (text: bool)
        ensures
            text == (self != ContentType::Wasm),
    {
        match self {
            ContentType::Wasm => false,
            _ => true,
        }
    }
}

impl Asset {
    /// The file's name.
    pub open spec fn text(self) -> Seq<char> {
        match self {
            Asset::Index => "public/index.html"@,
            Asset::Script => "public/wasm/frontend.js"@,
            Asset::Wasm => "public/wasm/frontend_bg.wasm"@,
            Asset::NotFound => "public/404.html"@,
        }
    }

    /// The file's name.
    pub fn filename(self) -> (name: &'static str)
        ensures
            name@ == self.text(),
    {
        match self {
            Asset::Index => "public/index.html",
            Asset::Script => "public/wasm/frontend.js",
            Asset::Wasm => "public/wasm/frontend_bg.wasm",
            Asset::NotFound => "public/404.html",
        }
    }
}

impl Route {
    /// The reply to the route. The three files are served with their types,
    /// any other path with the not-found page. A greeting is answered with an
    /// empty reply and the request for the state with the state. Nothing is
    /// written back to a submission or to a request for a reset.
    pub open spec fn reply_of(self) -> Option<Reply> {
        match self {
            Route::Index => Some(
                Reply {
                    status: Status::Success,
                    content_type: ContentType::Html,
                    body: Body::File(Asset::Index),
                },
            ),
            Route::Script => Some(
                Reply {
                    status: Status::Success,
                    content_type: ContentType::JavaScript,
                    body: Body::File(Asset::Script),
                },
            ),
            Route::Wasm => Some(
                Reply {
                    status: Status::Success,
                    content_type: ContentType::Wasm,
                    body: Body::File(Asset::Wasm),
                },
            ),
            Route::Hello => Some(
                Reply { status: Status::Success, content_type: ContentType::Json, body: Body::Empty },
            ),
            Route::GetLines => Some(
                Reply { status: Status::Success, content_type: ContentType::Json, body: Body::State },
            ),
            Route::SendLines => None,
            Route::ClearLines => None,
            Route::NotFound => Some(
                Reply {
                    status: Status::NotFound,
                    content_type: ContentType::Html,
                    body: Body::File(Asset::NotFound),
                },
            ),
        }
    }

    /// The reply to the route.
    pub fn reply(self) -> (reply: Option<Reply>)
        ensures
            reply == self.reply_of(),
    {
        match self {
            Route::Index => Some(
                Reply {
                    status: Status::Success,
                    content_type: ContentType::Html,
                    body: Body::File(Asset::Index),
                },
            ),
            Route::Script => Some(
                Reply {
                    status: Status::Success,
                    content_type: ContentType::JavaScript,
                    body: Body::File(Asset::Script),
                },
            ),
            Route::Wasm => Some(
                Reply {
                    status: Status::Success,
                    content_type: ContentType::Wasm,
                    body: Body::File(Asset::Wasm),
                },
            ),
            Route::Hello => Some(
                Reply { status: Status::Success, content_type: ContentType::Json, body: Body::Empty },
            ),
            Route::GetLines => Some(
                Reply { status: Status::Success, content_type: ContentType::Json, body: Body::State },
            ),
            Route::SendLines => None,
            Route::ClearLines => None,
            Route::NotFound => Some(
                Reply {
                    status: Status::NotFound,
                    content_type: ContentType::Html,
                    body: Body::File(Asset::NotFound),
                },
            ),
        }
    }
}

/// Where the server is reached: the IP it is known under, and its port.
#[derive(Debug)]
pub struct Host {
    pub ip: String,
    pub port: u16,
}

/// The server's configuration.
#[derive(Debug)]
pub struct Config {
    pub host: Host,
}

/// The host that a client from `peer_ip` is told to draw on: the loopback
/// address for a client on it, else the configured IP; a colon; the port.
pub open spec fn advertised(peer_ip: Seq<char>, host_ip: Seq<char>, port: nat) -> Seq<char> {
    (if peer_ip == "127.0.0.1"@ {
        "127.0.0.1"@
    } else {
        host_ip
    }) + ":"@ + decimal(port)
}

/// The host that a client from `peer_ip` is told to draw on.
pub fn advertised_host(peer_ip: &str, config: &Config) -> (host: String)
    ensures
        host@ == advertised(peer_ip@, config.host.ip@, config.host.port as nat),
{
    let mut host = if same_text(peer_ip, "127.0.0.1") {
        String::from_str("127.0.0.1")
    } else {
        config.host.ip.clone()
    };
    host.append(":");
    let port = decimal_string(config.host.port as usize);
    host.append(port.as_str());
    host
}

impl Asset {
    /// The text that is served for a text file: in the index page every
    /// `#host` gives way to the advertised host; the other files are served
    /// as they stand.
    pub open spec fn rendered(self, file: Seq<char>, host: Seq<char>) -> Seq<char> {
        if self == Asset::Index {
            replaced(file, "#host"@, host)
        } else {
            file
        }
    }

    /// The text that is served for the file whose text is `file`, to a
    /// client from `peer_ip`.
    pub fn render(self, file: String, peer_ip: &str, config: &Config) -> (text: String)
        ensures
            text@ == self.rendered(
                file@,
                advertised(peer_ip@, config.host.ip@, config.host.port as nat),
            ),
    {
        match self {
            Asset::Index => {
                let host = advertised_host(peer_ip, config);
                replace_all(file.as_str(), "#host", host.as_str())
            },
            _ => file,
        }
    }
}

/// The content of the reply that carries the state: the state's JSON text
/// and two line ends.
pub fn state_body(json: String) -> (body: String)
    ensures
        body@ == json@ + "\r\n\r\n"@,
{
    let mut body = json;
    body.append("\r\n\r\n");
    body
}

} // verus!
