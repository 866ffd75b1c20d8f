//! The connection framer: which lines of a connection make up its request,
//! and what the request is.
//!
//! A connection is read line by line. A line that begins with `POST` and
//! names one of the write paths makes the request a write request. A read
//! request ends before its first blank line. A write request ends before its
//! second blank line: the first one parts headers and content, and the
//! content is the last line that was read behind it. A write request with
//! no line behind its first blank line lacks its content.

use vstd::prelude::*;
use vstd::string::*;
use crate::model::Error;
use crate::text::{chars_of, contains, occurs_at, occurs_in, starts_with};

verus! {

/// A line that makes the request a write request.
pub open spec fn is_write_line(line: Seq<char>) -> bool {
    &&& occurs_at(line, "POST"@, 0)
    &&& (occurs_in(line, "/send_lines"@) || occurs_in(line, "/hello"@))
}

/// One of `lines` makes the request a write request.
pub open spec fn write_seen(lines: Seq<Seq<char>>) -> bool {
    exists|i: int| 0 <= i < lines.len() && is_write_line(#[trigger] lines[i])
}

/// The number of blank lines among `lines`.
pub open spec fn blank_count(lines: Seq<Seq<char>>) -> nat
    decreases lines.len(),
{
    if lines.len() == 0 {
        0
    } else {
        blank_count(lines.drop_last()) + if lines.last().len() == 0 {
            1nat
        } else {
            0nat
        }
    }
}

/// The lines hold fewer blank lines than end a request of their kind: one
/// ends a read request, two end a write request.
pub open spec fn within_limit(lines: Seq<Seq<char>>) -> bool {
    blank_count(lines) < if write_seen(lines) {
        2nat
    } else {
        1nat
    }
}

/// The position of the first blank line of `stream` at or behind `from`, or
/// the length of the stream where there is none.
pub open spec fn next_blank(stream: Seq<Seq<char>>, from: int) -> int
    decreases stream.len() - from,
{
    if from >= stream.len() {
        stream.len() as int
    } else if from >= 0 && stream[from].len() == 0 {
        from
    } else {
        next_blank(stream, from + 1)
    }
}

/// Where the request of `stream` ends. A read request ends at the first
/// blank line. A request that a line before its first blank line makes a
/// write request ends at the second blank line. Either ends with the stream
/// where that blank line does not come.
pub open spec fn frame_end(stream: Seq<Seq<char>>) -> int {
    let first = next_blank(stream, 0);
    if write_seen(stream.take(first)) {
        next_blank(stream, first + 1)
    } else {
        first
    }
}

/// The lines of `stream` that make up the request: those before its end.
pub open spec fn framed(stream: Seq<Seq<char>>) -> Seq<Seq<char>> {
    stream.take(frame_end(stream))
}

/// A request as text: its first line, and the content of a write request.
pub struct RequestText {
    pub request_line: Seq<char>,
    pub content: Option<Seq<char>>,
}

/// The request that the framed lines `lines` make up. No line is no request.
/// The first line is the request line. A read request has no content. The
/// content of a write request stands behind the first blank line, which
/// ends the headers: it is the last of the lines there. A write request
/// lacks its content where no line stands behind a first blank line, be it
/// that the blank line is the last line or that there is none.
pub open spec fn request_of(lines: Seq<Seq<char>>) -> Result<Option<RequestText>, Error> {
    if lines.len() == 0 {
        Ok(None)
    } else if !write_seen(lines) {
        Ok(Some(RequestText { request_line: lines[0], content: None }))
    } else if next_blank(lines, 0) + 1 >= lines.len() {
        Err(Error::MissingContent)
    } else {
        Ok(Some(RequestText { request_line: lines[0], content: Some(lines.last()) }))
    }
}

/// The texts of `lines`.
pub open spec fn texts(lines: Seq<String>) -> Seq<Seq<char>> {
    lines.map_values(|line: String| line@)
}

/// A request: its first line, and the content of a write request.
#[derive(Debug)]
pub struct Request {
    pub request_line: String,
    pub content: Option<String>,
}

impl View for Request {
    type V = RequestText;

    open spec fn view(&self) -> RequestText {
        RequestText {
            request_line: self.request_line@,
            content: match self.content {
                Some(content) => Some(content@),
                None => None,
            },
        }
    }
}

/// `outcome` is what `expected` says, as text.
pub open spec fn reads_as(
    outcome: Result<Option<Request>, Error>,
    expected: Result<Option<RequestText>, Error>,
) -> bool {
    match (outcome, expected) {
        (Ok(None), Ok(None)) => true,
        (Ok(Some(request)), Ok(Some(text))) => request@ == text,
        (Err(e), Err(f)) => e == f,
        _ => false,
    }
}

/// A write line is not blank.
pub proof fn lemma_write_line_not_blank(line: Seq<char>)
    requires
        is_write_line(line),
    ensures
        line.len() >= 4,
{
    reveal_strlit("POST");
}

/// One more line: what it does to the two counts.
pub proof fn lemma_counts_step(lines: Seq<Seq<char>>, line: Seq<char>)
    ensures
        write_seen(lines.push(line)) == (write_seen(lines) || is_write_line(line)),
        blank_count(lines.push(line)) == blank_count(lines) + if line.len() == 0 {
            1nat
        } else {
            0nat
        },
{
    let longer = lines.push(line);
    assert(longer.drop_last() =~= lines);
    if write_seen(lines) {
        let i = choose|i: int| 0 <= i < lines.len() && is_write_line(#[trigger] lines[i]);
        assert(is_write_line(longer[i]));
    }
    if is_write_line(line) {
        assert(is_write_line(longer[lines.len() as int]));
    }
    if write_seen(longer) {
        let i = choose|i: int| 0 <= i < longer.len() && is_write_line(#[trigger] longer[i]);
        if i < lines.len() {
            assert(is_write_line(lines[i]));
        }
    }
}

/// The framer of one connection. It is handed the lines as they are read
/// and says after each whether the next one is to be read.
#[derive(Debug)]
pub struct Framer {
    lines: Vec<String>,
    is_post: bool,
    empty_line_counter: usize,
    closed: bool,
}

impl Framer {
    /// The lines taken so far.
    pub closed spec fn accepted(&self) -> Seq<Seq<char>> {
        texts(self.lines@)
    }

    /// A line was refused: the request has ended.
    pub closed spec fn is_closed(&self) -> bool {
        self.closed
    }

    /// The counts are those of the lines taken, and these are within the limit.
    pub closed spec fn wf(&self) -> bool {
        &&& self.is_post == write_seen(self.accepted())
        &&& self.empty_line_counter == blank_count(self.accepted())
        &&& self.accepted().len() > 0 ==> within_limit(self.accepted())
    }

    /// A framer that has seen no line.
    pub fn new() -> (framer: Framer)
        ensures
            framer.wf(),
            framer.accepted() == Seq::<Seq<char>>::empty(),
            !framer.is_closed(),
    {
        let framer = Framer {
            lines: Vec::new(),
            is_post: false,
            empty_line_counter: 0,
            closed: false,
        };
        assert(framer.accepted() =~= Seq::<Seq<char>>::empty());
        framer
    }

    /// Whether `line` makes the request a write request.
    pub fn classify(line: &str) -> (write: bool)
        ensures
            write == is_write_line(line@),
    {
        let chars = chars_of(line);
        starts_with(&chars, &chars_of("POST")) && (contains(&chars, &chars_of("/send_lines"))
            || contains(&chars, &chars_of("/hello")))
    }

    /// Hands the framer the next line of the connection. The line is taken
    /// if the request has not ended and, with it, the lines are still within
    /// the limit of blank lines; otherwise the request has ended, with the
    /// lines taken before. Returns whether the next line is to be read.
    pub fn push(&mut self, line: String) -> (more: bool)
        requires
            old(self).wf(),
        ensures
            final(self).wf(),
            more == !final(self).is_closed(),
            more == (!old(self).is_closed() && within_limit(old(self).accepted().push(line@))),
            final(self).accepted() == if more {
                old(self).accepted().push(line@)
            } else {
                old(self).accepted()
            },
    {
        if self.closed {
            return false;
        }
        proof {
            lemma_counts_step(self.accepted(), line@);
        }
        let is_post = self.is_post || Self::classify(line.as_str());
        let blank = line.as_str().is_empty();
        let count: usize = if blank {
            self.empty_line_counter + 1
        } else {
            self.empty_line_counter
        };
        let keep = if is_post {
            count < 2
        } else {
            count < 1
        };
        if keep {
            assert(texts(self.lines@.push(line)) =~= self.accepted().push(line@));
            self.is_post = is_post;
            self.empty_line_counter = count;
            self.lines.push(line);
            true
        } else {
            self.closed = true;
            false
        }
    }

    /// The request that the lines taken make up.
    pub fn finish(self) -> (outcome: Result<Option<Request>, Error>)
        requires
            self.wf(),
        ensures
            reads_as(outcome, request_of(self.accepted())),
    {
        let mut lines = self.lines;
        let ghost taken = lines@;
        if lines.len() == 0 {
            return Ok(None);
        }
        let content = if self.is_post {
            let first = first_blank(&lines);
            if first >= lines.len() - 1 {
                return Err(Error::MissingContent);
            }
            lines.pop()
        } else {
            None
        };
        let request_line = lines.swap_remove(0);
        assert(request_line == taken[0]);
        Ok(Some(Request { request_line, content }))
    }
}

/// The position of the first blank line among `lines`, or their number
/// where none is blank.
fn first_blank(lines: &Vec<String>) -> (at: usize)
    ensures
        at == next_blank(texts(lines@), 0),
{
    let ghost all = texts(lines@);
    let mut at: usize = 0;
    while at < lines.len()
        invariant
            at <= lines.len(),
            all == texts(lines@),
            forall|j: int| 0 <= j < at ==> (#[trigger] all[j]).len() > 0,
        decreases lines.len() - at,
    {
        if lines[at].as_str().is_empty() {
            proof {
                lemma_next_blank_is(all, 0, at as int);
            }
            return at;
        }
        at += 1;
    }
    proof {
        lemma_next_blank(all, 0);
    }
    at
}

/// `next_blank` gives a position at or behind `from` where a blank line
/// stands, if it lies inside the stream, with no blank line between.
pub proof fn lemma_next_blank(stream: Seq<Seq<char>>, from: int)
    requires
        0 <= from <= stream.len(),
    ensures
        from <= next_blank(stream, from) <= stream.len(),
        next_blank(stream, from) < stream.len() ==> stream[next_blank(stream, from)].len() == 0,
        forall|j: int| from <= j < next_blank(stream, from) ==> (#[trigger] stream[j]).len() > 0,
    decreases stream.len() - from,
{
    if from < stream.len() && stream[from].len() != 0 {
        lemma_next_blank(stream, from + 1);
    }
}

/// Lines without a blank one add nothing to the count of blank lines, and
/// a write line that was seen before them is still seen after them.
proof fn lemma_counts_over(stream: Seq<Seq<char>>, from: int, to: int)
    requires
        0 <= from <= to <= stream.len(),
        forall|j: int| from <= j < to ==> (#[trigger] stream[j]).len() > 0,
    ensures
        blank_count(stream.take(to)) == blank_count(stream.take(from)),
        write_seen(stream.take(from)) ==> write_seen(stream.take(to)),
    decreases to - from,
{
    if from < to {
        lemma_counts_over(stream, from, to - 1);
        lemma_counts_step(stream.take(to - 1), stream[to - 1]);
        assert(stream.take(to - 1).push(stream[to - 1]) =~= stream.take(to));
    }
}

/// The lines up to the end of the request are within the limit of blank
/// lines, and with the line at the end they are not.
pub proof fn lemma_frame_end(stream: Seq<Seq<char>>)
    ensures
        0 <= frame_end(stream) <= stream.len(),
        forall|n: int| 1 <= n <= frame_end(stream) ==> within_limit(#[trigger] stream.take(n)),
        frame_end(stream) < stream.len() ==> !within_limit(stream.take(frame_end(stream) + 1)),
{
    let first = next_blank(stream, 0);
    lemma_next_blank(stream, 0);
    assert(stream.take(0) =~= Seq::<Seq<char>>::empty());
    assert(blank_count(stream.take(0)) == 0);
    assert(!write_seen(stream.take(0)));
    let end = frame_end(stream);
    if first < stream.len() {
        lemma_next_blank(stream, first + 1);
        lemma_counts_over(stream, 0, first);
        lemma_counts_step(stream.take(first), stream[first]);
        assert(stream.take(first).push(stream[first]) =~= stream.take(first + 1));
        assert(!is_write_line(stream[first])) by {
            if is_write_line(stream[first]) {
                lemma_write_line_not_blank(stream[first]);
            }
        }
        assert(blank_count(stream.take(first + 1)) == 1);
        if write_seen(stream.take(first)) {
            lemma_counts_over(stream, first + 1, end);
            if end < stream.len() {
                lemma_counts_step(stream.take(end), stream[end]);
                assert(stream.take(end).push(stream[end]) =~= stream.take(end + 1));
            }
        }
    }
    assert forall|n: int| 1 <= n <= end implies within_limit(#[trigger] stream.take(n)) by {
        if n <= first {
            lemma_counts_over(stream, 0, n);
        } else {
            lemma_counts_over(stream, first + 1, n);
            assert(write_seen(stream.take(first + 1)));
        }
    }
}

/// A blank line with no blank line between `from` and it is the next one.
pub proof fn lemma_next_blank_is(stream: Seq<Seq<char>>, from: int, at: int)
    requires
        0 <= from <= at < stream.len(),
        stream[at].len() == 0,
        forall|j: int| from <= j < at ==> (#[trigger] stream[j]).len() > 0,
    ensures
        next_blank(stream, from) == at,
    decreases at - from,
{
    if from < at {
        lemma_next_blank_is(stream, from + 1, at);
    }
}

/// A write request as a client sends it is read back as it was sent: after
/// the request line come headers, none of them blank, then a blank line,
/// the content on one line that is not blank, and a blank line. Whatever
/// follows, the request that is framed has that request line and that
/// content.
pub proof fn lemma_write_request_read_back(
    request_line: Seq<char>,
    headers: Seq<Seq<char>>,
    content: Seq<char>,
    rest: Seq<Seq<char>>,
)
    requires
        is_write_line(request_line),
        forall|i: int| 0 <= i < headers.len() ==> (#[trigger] headers[i]).len() > 0,
        content.len() > 0,
    ensures
        request_of(
            framed(
                seq![request_line] + headers + seq![Seq::<char>::empty(), content, Seq::<char>::empty()]
                    + rest,
            ),
        ) == Ok::<Option<RequestText>, Error>(
            Some(RequestText { request_line, content: Some(content) }),
        ),
{
    let blank = Seq::<char>::empty();
    let stream = seq![request_line] + headers + seq![blank, content, blank] + rest;
    let first = 1 + headers.len() as int;
    lemma_write_line_not_blank(request_line);
    assert(stream[0] == request_line);
    assert forall|j: int| 0 <= j < first implies (#[trigger] stream[j]).len() > 0 by {
        if j > 0 {
            assert(stream[j] == headers[j - 1]);
        }
    }
    assert(stream[first] == blank);
    assert(stream[first + 1] == content);
    assert(stream[first + 2] == blank);
    lemma_next_blank_is(stream, 0, first);
    assert(is_write_line(stream.take(first)[0]));
    assert(write_seen(stream.take(first)));
    lemma_next_blank_is(stream, first + 1, first + 2);
    let lines = framed(stream);
    assert(lines == stream.take(first + 2));
    assert(is_write_line(lines[0]));
    assert forall|j: int| 0 <= j < first implies (#[trigger] lines[j]).len() > 0 by {
        assert(lines[j] == stream[j]);
    }
    lemma_next_blank_is(lines, 0, first);
    assert(lines.last() == content);
}

/// A write request whose headers are followed by no content lacks its
/// content: after the request line come headers, none of them blank, and
/// then the stream ends, at once or behind one blank line, or a second
/// blank line follows the first.
pub proof fn lemma_write_request_without_content(
    request_line: Seq<char>,
    headers: Seq<Seq<char>>,
    rest: Seq<Seq<char>>,
)
    requires
        is_write_line(request_line),
        forall|i: int| 0 <= i < headers.len() ==> (#[trigger] headers[i]).len() > 0,
    ensures
        request_of(framed(seq![request_line] + headers)) == Err::<Option<RequestText>, Error>(
            Error::MissingContent,
        ),
        request_of(framed(seq![request_line] + headers + seq![Seq::<char>::empty()])) == Err::<
            Option<RequestText>,
            Error,
        >(Error::MissingContent),
        request_of(
            framed(
                seq![request_line] + headers + seq![Seq::<char>::empty(), Seq::<char>::empty()]
                    + rest,
            ),
        ) == Err::<Option<RequestText>, Error>(Error::MissingContent),
{
    let blank = Seq::<char>::empty();
    let first = 1 + headers.len() as int;
    lemma_write_line_not_blank(request_line);
    let bare = seq![request_line] + headers;
    let parted = bare + seq![blank];
    let ended = bare + seq![blank, blank] + rest;
    assert forall|j: int| 0 <= j < first implies (#[trigger] bare[j]).len() > 0 && parted[j]
        == bare[j] && ended[j] == bare[j] by {
        if j > 0 {
            assert(bare[j] == headers[j - 1]);
        }
    }
    assert(bare[0] == request_line);

    // The stream ends with the headers.
    lemma_next_blank(bare, 0);
    assert(next_blank(bare, 0) == first);
    assert(bare.take(first) =~= bare);
    assert(is_write_line(bare[0]));
    assert(write_seen(bare));
    assert(framed(bare) == bare);

    // The stream ends with the blank line behind the headers.
    assert(parted[first] == blank);
    assert forall|j: int| 0 <= j < first implies (#[trigger] parted[j]).len() > 0 by {
        assert(parted[j] == bare[j]);
    }
    lemma_next_blank_is(parted, 0, first);
    assert(parted.take(first) =~= bare);
    assert(next_blank(parted, first + 1) == first + 1);
    assert(parted.take(first + 1) =~= parted);
    assert(is_write_line(parted[0]));
    assert(write_seen(parted));
    assert(framed(parted) == parted);

    // A second blank line follows the first.
    assert(ended[first] == blank);
    assert(ended[first + 1] == blank);
    assert forall|j: int| 0 <= j < first implies (#[trigger] ended[j]).len() > 0 by {
        assert(ended[j] == bare[j]);
    }
    lemma_next_blank_is(ended, 0, first);
    assert(ended.take(first) =~= bare);
    lemma_next_blank_is(ended, first + 1, first + 1);
    assert(ended.take(first + 1) =~= parted);
    assert(framed(ended) == parted);
}

/// A read request as a client sends it is read back as it was sent: after
/// the request line come headers, none of them blank, and a blank line. No
/// line before the blank line is a write line. Whatever follows, the
/// request that is framed has that request line and no content.
pub proof fn lemma_read_request_read_back(
    request_line: Seq<char>,
    headers: Seq<Seq<char>>,
    rest: Seq<Seq<char>>,
)
    requires
        request_line.len() > 0,
        !is_write_line(request_line),
        forall|i: int|
            0 <= i < headers.len() ==> (#[trigger] headers[i]).len() > 0 && !is_write_line(
                headers[i],
            ),
    ensures
        request_of(framed(seq![request_line] + headers + seq![Seq::<char>::empty()] + rest)) == Ok::<
            Option<RequestText>,
            Error,
        >(Some(RequestText { request_line, content: None })),
{
    let blank = Seq::<char>::empty();
    let stream = seq![request_line] + headers + seq![blank] + rest;
    let first = 1 + headers.len() as int;
    assert(stream[0] == request_line);
    assert forall|j: int| 0 <= j < first implies (#[trigger] stream[j]).len() > 0 by {
        if j > 0 {
            assert(stream[j] == headers[j - 1]);
        }
    }
    assert(stream[first] == blank);
    lemma_next_blank_is(stream, 0, first);
    let lines = stream.take(first);
    assert(!write_seen(lines)) by {
        if write_seen(lines) {
            let i = choose|i: int| 0 <= i < lines.len() && is_write_line(#[trigger] lines[i]);
            if i > 0 {
                assert(lines[i] == headers[i - 1]);
            }
        }
    }
    assert(framed(stream) == lines);
    assert(lines[0] == request_line);
}

/// The content of a write request as a client sends it: the JSON text on
/// one line, and the blank line that ends the request.
pub fn request_body(json: String) -> (body: String)
    ensures
        body@ == json@ + "\r\n\r\n"@,
{
    let mut body = json;
    body.append("\r\n\r\n");
    body
}

/// The request of a connection whose lines are `stream`: the request that
/// its framed lines make up.
pub fn read_request(stream: &Vec<String>) -> (outcome: Result<Option<Request>, Error>)
    ensures
        reads_as(outcome, request_of(framed(texts(stream@)))),
{
    let mut framer = Framer::new();
    let mut at: usize = 0;
    let ghost all = texts(stream@);
    let ghost end = frame_end(all);
    proof {
        lemma_frame_end(all);
        assert(all.take(0) =~= Seq::<Seq<char>>::empty());
    }
    while at < stream.len()
        invariant
            at <= stream.len(),
            all == texts(stream@),
            end == frame_end(all),
            0 <= end <= all.len(),
            forall|n: int| 1 <= n <= end ==> within_limit(#[trigger] all.take(n)),
            end < all.len() ==> !within_limit(all.take(end + 1)),
            framer.wf(),
            framer.accepted() == all.take(if at <= end {
                at as int
            } else {
                end
            }),
            framer.is_closed() == (end < at),
        decreases stream.len() - at,
    {
        let line = stream[at].clone();
        proof {
            assert(line@ == all[at as int]);
            assert(all.take(at as int).push(all[at as int]) =~= all.take(at + 1));
        }
        framer.push(line);
        at += 1;
    }
    assert(at == all.len());
    framer.finish()
}

} // verus!
