//! As much of HTTP/1.1 as the admin server speaks: one request on a connection,
//! and its answer.
use vstd::prelude::*;
use vstd::string::StringExecFns;
use vstd::slice::{slice_subrange, slice_to_vec};
use crate::text;
use crate::text::{
    chars_are, chars_of, decimal, is_white, lower, lower_chars, parse_number, parsed_number,
    push_decimal, split_once, split_once_chars, split_text, split_text_chars, starts_with,
    string_of, trim, trim_chars, trim_start,
};

verus! {

/// Most bytes that a request may have before the end of its head, and as many
/// again after it.
pub const MAX_REQUEST: usize = 1_048_576;

/// Seconds that a client has to send its request.
pub const ADMIN_REQUEST_TIMEOUT: u64 = 15;

/// Bytes as text, with replacements for what is not UTF-8.
pub uninterp spec fn lossy_text(bytes: Seq<u8>) -> Seq<char>;

/// Reads bytes as text by `String::from_utf8_lossy`. Bytes that are UTF-8 are
/// kept; what stands for others depends on the bytes and on nothing else.
#[verifier::external_body]
fn text_of(bytes: &[u8]) -> (r: String)
    ensures
        r@ == lossy_text(bytes@),
        vstd::utf8::valid_utf8(bytes@) ==> vstd::utf8::encode_utf8(r@) == bytes@,
{
    String::from_utf8_lossy(bytes).into_owned()
}

/// The bytes of a text.
pub(crate) fn bytes_of(s: &str) -> (r: Vec<u8>)
    ensures
        r@ == vstd::utf8::encode_utf8(s@),
{
    slice_to_vec(s.as_bytes())
}

/// Whether the bytes that end the head of a request stand at a place.
pub open spec fn ends_head(s: Seq<u8>, i: int) -> bool {
    0 <= i && i + 4 <= s.len() && s[i] == 13 && s[i + 1] == 10 && s[i + 2] == 13 && s[i + 3] == 10
}

/// Whether a place is where the head of a request ends.
pub open spec fn is_head_end(s: Seq<u8>, i: int) -> bool {
    ends_head(s, i) && forall|j: int| 0 <= j < i ==> !#[trigger] ends_head(s, j)
}

/// Where the head of a request ends, if it does.
pub fn find_crlf_crlf(buf: &[u8]) -> (r: Option<usize>)
    ensures
        match r {
            Some(i) => is_head_end(buf@, i as int),
            None => forall|j: int| !#[trigger] ends_head(buf@, j),
        },
{
    let mut i: usize = 0;
    if buf.len() < 4 {
        return None;
    }
    let last: usize = buf.len() - 4;
    while i <= last
        invariant
            last + 4 == buf@.len(),
            i <= last + 1,
            forall|j: int| 0 <= j < i ==> !#[trigger] ends_head(buf@, j),
        decreases last + 1 - i,
    {
        if buf[i] == 13 && buf[i + 1] == 10 && buf[i + 2] == 13 && buf[i + 3] == 10 {
            return Some(i);
        }
        i = i + 1;
    }
    None
}

/// A request.
#[derive(Debug)]
pub struct Request {
    pub method: String,
    pub path: String,
    pub body: Vec<u8>,
    /// The token of the request, if it carries one.
    pub bearer: Option<String>,
}

/// A request.
pub struct RequestView {
    pub method: Seq<char>,
    pub path: Seq<char>,
    pub body: Seq<u8>,
    pub bearer: Option<Seq<char>>,
}

impl View for Request {
    type V = RequestView;

    open spec fn view(&self) -> RequestView {
        RequestView {
            method: self.method@,
            path: self.path@,
            body: self.body@,
            bearer: text::opt_view(self.bearer),
        }
    }
}

/// The characters of a text before the first white space.
pub open spec fn word(s: Seq<char>) -> Seq<char>
    decreases s.len(),
{
    if s.len() == 0 || is_white(s[0]) {
        Seq::empty()
    } else {
        seq![s[0]] + word(s.skip(1))
    }
}

/// The first word of a text, and what follows it.
pub open spec fn first_word(s: Seq<char>) -> (Seq<char>, Seq<char>) {
    let t = trim_start(s);
    (word(t), t.skip(word(t).len() as int))
}

/// The lines of a text.
pub open spec fn crlf_lines(s: Seq<char>) -> Seq<Seq<char>>
    decreases s.len(),
{
    match split_text(s, seq!['\r', '\n']) {
        None => seq![s],
        Some((line, rest)) => if rest.len() < s.len() {
            seq![line] + crlf_lines(rest)
        } else {
            seq![s]
        },
    }
}

/// What the headers of a request say: the length of its body, and its token.
pub struct HeadersView {
    pub content_length: nat,
    pub bearer: Option<Seq<char>>,
}

/// The token of an authorization, where it carries one.
pub open spec fn bearer_token(value: Seq<char>) -> Option<Seq<char>> {
    match split_once(value, ' ') {
        Some((scheme, token)) => if lower(scheme) == "bearer"@ {
            Some(trim(token))
        } else {
            None
        },
        None => None,
    }
}

impl HeadersView {
    /// What the headers say after one more line. A length that is no number is
    /// 0; of two lines with one name the later counts.
    pub open spec fn with_line(self, line: Seq<char>) -> HeadersView {
        match split_once(line, ':') {
            None => self,
            Some((name, value)) => if lower(trim(name)) == "content-length"@ {
                HeadersView {
                    content_length: match parsed_number(trim(value), usize::MAX as nat) {
                        Some(n) => n,
                        None => 0,
                    },
                    ..self
                }
            } else if lower(trim(name)) == "authorization"@ && bearer_token(trim(value)) is Some {
                HeadersView { bearer: bearer_token(trim(value)), ..self }
            } else {
                self
            },
        }
    }

    /// What lines of headers say.
    pub open spec fn of(lines: Seq<Seq<char>>) -> HeadersView
        decreases lines.len(),
    {
        if lines.len() == 0 {
            HeadersView { content_length: 0, bearer: None }
        } else {
            HeadersView::of(lines.drop_last()).with_line(lines.last())
        }
    }
}

struct Head {
    method: String,
    path: String,
    content_length: usize,
    bearer: Option<String>,
}

/// The request that a head and the bytes after it are, once there are enough of
/// them.
pub open spec fn request_of(head: Seq<char>, rest: Seq<u8>) -> RequestView {
    let lines = crlf_lines(head);
    let h = HeadersView::of(lines.skip(1));
    let (method, after) = first_word(lines[0]);
    RequestView {
        method,
        path: first_word(after).0,
        body: if rest.len() < h.content_length {
            rest
        } else {
            rest.take(h.content_length as int)
        },
        bearer: h.bearer,
    }
}

fn take_word(s: &[char], from: usize) -> (r: (Vec<char>, usize))
    requires
        from <= s@.len(),
    ensures
        r.1 <= s@.len(),
        first_word(s@.skip(from as int)) == (r.0@, s@.skip(r.1 as int)),
{
    let mut a: usize = from;
    while a < s.len() && text::white(s[a])
        invariant
            from <= a <= s@.len(),
            trim_start(s@.skip(from as int)) == trim_start(s@.skip(a as int)),
        decreases s.len() - a,
    {
        assert(s@.skip(a as int).skip(1) =~= s@.skip(a + 1));
        a = a + 1;
    }
    let ghost t = s@.skip(a as int);
    assert(trim_start(s@.skip(from as int)) == t);
    let mut b: usize = a;
    let mut out: Vec<char> = Vec::new();
    assert(out@ + word(t) =~= word(t));
    while b < s.len() && !text::white(s[b])
        invariant
            a <= b <= s@.len(),
            t == s@.skip(a as int),
            out@.len() == b - a,
            word(t) == out@ + word(s@.skip(b as int)),
        decreases s.len() - b,
    {
        let ghost u = s@.skip(b as int);
        assert(u[0] == s@[b as int]);
        assert(u.skip(1) =~= s@.skip(b + 1));
        let ghost before = out@;
        out.push(s[b]);
        assert(before + (seq![u[0]] + word(u.skip(1))) =~= out@ + word(s@.skip(b + 1)));
        b = b + 1;
    }
    assert(word(s@.skip(b as int)) =~= Seq::empty());
    assert(word(t) =~= out@);
    assert(t.skip(out@.len() as int) =~= s@.skip(b as int));
    (out, b)
}

fn lines_of(s: &[char]) -> (r: Vec<Vec<char>>)
    ensures
        text::views(r@) == crlf_lines(s@),
        r@.len() > 0,
{
    let mut crlf: Vec<char> = Vec::new();
    crlf.push('\r');
    crlf.push('\n');
    assert(crlf@ =~= seq!['\r', '\n']);
    let mut out: Vec<Vec<char>> = Vec::new();
    let mut rest: Vec<char> = slice_to_vec(s);
    assert(rest@ == s@);
    assert(text::views(out@) + crlf_lines(rest@) =~= crlf_lines(s@));
    loop
        invariant
            crlf@ == seq!['\r', '\n'],
            text::views(out@) + crlf_lines(rest@) == crlf_lines(s@),
        decreases rest@.len(),
    {
        match split_text_chars(rest.as_slice(), crlf.as_slice()) {
            None => {
                let ghost before = out@;
                out.push(rest);
                assert(text::views(out@) =~= text::views(before) + seq![rest@]);
                return out;
            },
            Some((line, tail)) => {
                proof {
                    text::lemma_find_text(rest@, crlf@);
                }
                let ghost before = out@;
                let ghost l = line@;
                out.push(line);
                assert(text::views(out@) =~= text::views(before).push(l));
                assert(text::views(before) + (seq![l] + crlf_lines(tail@)) =~= text::views(out@)
                    + crlf_lines(tail@));
                rest = tail;
            },
        }
    }
}

fn token_of(value: &[char]) -> (r: Option<String>)
    ensures
        text::opt_view(r) == bearer_token(value@),
{
    match split_once_chars(value, ' ') {
        Some((scheme, token)) => {
            let l: Vec<char> = lower_chars(scheme.as_slice());
            if chars_are(l.as_slice(), "bearer") {
                let t: Vec<char> = trim_chars(token.as_slice());
                Some(string_of(t.as_slice()))
            } else {
                None
            }
        },
        None => None,
    }
}

impl Head {
    spec fn headers(self) -> HeadersView {
        HeadersView {
            content_length: self.content_length as nat,
            bearer: text::opt_view(self.bearer),
        }
    }

    fn read_line(&mut self, line: &[char])
        ensures
            final(self).headers() == old(self).headers().with_line(line@),
            final(self).method == old(self).method,
            final(self).path == old(self).path,
    {
        if let Some((name, value)) = split_once_chars(line, ':') {
            let n: Vec<char> = trim_chars(name.as_slice());
            let n: Vec<char> = lower_chars(n.as_slice());
            let v: Vec<char> = trim_chars(value.as_slice());
            if chars_are(n.as_slice(), "content-length") {
                self.content_length = match parse_number(v.as_slice(), usize::MAX as u64) {
                    Some(k) => k as usize,
                    None => 0,
                };
            } else if chars_are(n.as_slice(), "authorization") {
                if let Some(t) = token_of(v.as_slice()) {
                    self.bearer = Some(t);
                }
            }
        }
    }

    fn parse(head: &str) -> (r: Head)
        ensures
            ({
                let lines = crlf_lines(head@);
                &&& r.headers() == HeadersView::of(lines.skip(1))
                &&& r.method@ == first_word(lines[0]).0
                &&& r.path@ == first_word(first_word(lines[0]).1).0
            }),
    {
        let c: Vec<char> = chars_of(head);
        let lines: Vec<Vec<char>> = lines_of(c.as_slice());
        let ghost all = crlf_lines(head@);
        assert(text::views(lines@).len() == lines@.len());
        assert(all[0] == lines@[0]@);
        let first: &Vec<char> = &lines[0];
        assert(first@.skip(0) =~= first@);
        let (method, at): (Vec<char>, usize) = take_word(first.as_slice(), 0);
        let (path, end): (Vec<char>, usize) = take_word(first.as_slice(), at);
        let mut r: Head = Head {
            method: string_of(method.as_slice()),
            path: string_of(path.as_slice()),
            content_length: 0,
            bearer: None,
        };
        let ghost headers = all.skip(1);
        let mut i: usize = 1;
        assert(headers.take(0) =~= Seq::empty());
        while i < lines.len()
            invariant
                1 <= i <= lines@.len(),
                all == text::views(lines@),
                all.len() == lines@.len(),
                headers == all.skip(1),
                r.headers() == HeadersView::of(headers.take(i - 1)),
                r.method@ == first_word(all[0]).0,
                r.path@ == first_word(first_word(all[0]).1).0,
            decreases lines.len() - i,
        {
            assert(headers.take(i as int).drop_last() =~= headers.take(i - 1));
            assert(headers.take(i as int).last() == lines@[i as int]@);
            r.read_line(lines[i].as_slice());
            i = i + 1;
        }
        assert(headers.take(headers.len() as int) =~= headers);
        r
    }
}

/// How far the reading of a request has come.
pub enum Reading {
    /// More bytes are needed.
    More,
    /// The request is whole.
    Whole(Request),
    /// It will not become one: it is too long, or the client has closed before
    /// the end of its head.
    Drop,
}

/// How far the reading of a request has come.
pub enum ReadingView {
    More,
    Whole(RequestView),
    Drop,
}

impl View for Reading {
    type V = ReadingView;

    open spec fn view(&self) -> ReadingView {
        match self {
            Reading::More => ReadingView::More,
            Reading::Whole(r) => ReadingView::Whole(r@),
            Reading::Drop => ReadingView::Drop,
        }
    }
}

/// How far the reading of a request has come whose head has ended at a place.
/// A client that closes early has a shorter body.
pub open spec fn body_reading(buf: Seq<u8>, at: int, ended: bool) -> ReadingView {
    let head = lossy_text(buf.take(at));
    let rest = buf.skip(at + 4);
    let wanted = HeadersView::of(crlf_lines(head).skip(1)).content_length;
    if rest.len() >= wanted {
        ReadingView::Whole(request_of(head, rest))
    } else if rest.len() > MAX_REQUEST {
        ReadingView::Drop
    } else if ended {
        ReadingView::Whole(request_of(head, rest))
    } else {
        ReadingView::More
    }
}

/// Whether reading has come so far with these bytes; `ended` tells that the
/// client sends no more.
pub open spec fn reading(buf: Seq<u8>, ended: bool, r: ReadingView) -> bool {
    ||| exists|at: int| #[trigger] is_head_end(buf, at) && r == body_reading(buf, at, ended)
    ||| (forall|j: int| !#[trigger] ends_head(buf, j)) && r == if buf.len() > MAX_REQUEST || ended {
        ReadingView::Drop
    } else {
        ReadingView::More
    }
}

/// Reads a request from the bytes that have come so far; `ended` tells that the
/// client sends no more.
pub fn read_request(buf: &[u8], ended: bool) -> (r: Reading)
    ensures
        reading(buf@, ended, r@),
{
    let at: usize = match find_crlf_crlf(buf) {
        Some(i) => i,
        None => {
            return if buf.len() > MAX_REQUEST || ended {
                Reading::Drop
            } else {
                Reading::More
            };
        },
    };
    assert(is_head_end(buf@, at as int));
    let head_bytes: &[u8] = slice_subrange(buf, 0, at);
    assert(head_bytes@ =~= buf@.take(at as int));
    let head: Head = Head::parse(text_of(head_bytes).as_str());
    let size: usize = buf.len();
    let body: &[u8] = slice_subrange(buf, at + 4, size);
    assert(body@ =~= buf@.skip(at + 4));
    if body.len() < head.content_length && body.len() > MAX_REQUEST {
        return Reading::Drop;
    }
    if body.len() < head.content_length && !ended {
        return Reading::More;
    }
    let n: usize = if body.len() < head.content_length {
        body.len()
    } else {
        head.content_length
    };
    let kept: Vec<u8> = slice_to_vec(slice_subrange(body, 0, n));
    assert(kept@ =~= body@.take(n as int));
    assert(body@.take(body@.len() as int) =~= body@);
    Reading::Whole(
        Request { method: head.method, path: head.path, body: kept, bearer: head.bearer },
    )
}

/// An answer.
#[derive(Debug)]
pub struct Response {
    pub status: &'static str,
    pub content_type: &'static str,
    pub body: Vec<u8>,
}

/// An answer.
pub struct ResponseView {
    pub status: Seq<char>,
    pub content_type: Seq<char>,
    pub body: Seq<u8>,
}

impl View for Response {
    type V = ResponseView;

    open spec fn view(&self) -> ResponseView {
        ResponseView {
            status: self.status@,
            content_type: self.content_type@,
            body: self.body@,
        }
    }
}

/// The head of an answer. A request that was not let in is told how to be.
pub open spec fn response_head(r: ResponseView) -> Seq<char> {
    "HTTP/1.1 "@ + r.status + "\r\nContent-Type: "@ + r.content_type + "\r\nContent-Length: "@
        + decimal(r.body.len())
        + "\r\nAccess-Control-Allow-Origin: *\r\nAccess-Control-Allow-Methods: GET, POST, OPTIONS\r\nAccess-Control-Allow-Headers: Authorization, Content-Type\r\n"@
        + (if text::has_prefix(r.status, "401"@) {
        "WWW-Authenticate: Bearer\r\n"@
    } else {
        ""@
    }) + "Connection: close\r\n\r\n"@
}

/// The bytes of an answer.
pub fn respond(r: &Response) -> (out: Vec<u8>)
    ensures
        out@ == vstd::utf8::encode_utf8(response_head(r@)) + r@.body,
{
    let mut head: String = String::new();
    head.append("HTTP/1.1 ");
    head.append(r.status);
    head.append("\r\nContent-Type: ");
    head.append(r.content_type);
    head.append("\r\nContent-Length: ");
    push_decimal(&mut head, r.body.len() as u64);
    head.append(
        "\r\nAccess-Control-Allow-Origin: *\r\nAccess-Control-Allow-Methods: GET, POST, OPTIONS\r\nAccess-Control-Allow-Headers: Authorization, Content-Type\r\n",
    );
    if starts_with(r.status, "401") {
        head.append("WWW-Authenticate: Bearer\r\n");
    } else {
        head.append("");
    }
    head.append("Connection: close\r\n\r\n");
    assert(head@ =~= response_head(r@));
    let mut out: Vec<u8> = bytes_of(head.as_str());
    out.extend_from_slice(r.body.as_slice());
    out
}

/// What was read does not change when the client sends more after a request
/// that was whole, as long as its head ended.
pub proof fn whole_requests_stay(buf: Seq<u8>, at: int, more: Seq<u8>)
    requires
        is_head_end(buf, at),
        body_reading(buf, at, false) is Whole,
    ensures
        is_head_end(buf + more, at),
        body_reading(buf + more, at, false) == body_reading(buf, at, false),
{
    let b = buf + more;
    assert(ends_head(b, at));
    assert forall|j: int| 0 <= j < at implies !#[trigger] ends_head(b, j) by {
        assert(!ends_head(buf, j));
    }
    assert(b.take(at) =~= buf.take(at));
    let head = lossy_text(buf.take(at));
    let n = HeadersView::of(crlf_lines(head).skip(1)).content_length;
    assert(b.skip(at + 4).take(n as int) =~= buf.skip(at + 4).take(n as int));
}

} // verus!
