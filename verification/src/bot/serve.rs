//! The daemon's answers to HTTP requests.
//!
//! `GET /metrics`, `GET /metrics-multi` and `GET /healthz` are answered;
//! every answer closes the connection. Sockets are the caller's.
use vstd::prelude::*;
use vstd::utf8::*;

use crate::bot::metrics;
use crate::bot::metrics::KeeperMetrics;
use crate::text;

verus! {

/// A request may take this many bytes at most.
pub const MAX_REQUEST_BYTES: usize = 4096;

/// The bytes `pattern` stand in `buf` at the position `i`.
pub open spec fn bytes_at(buf: Seq<u8>, pattern: Seq<u8>, i: int) -> bool {
    0 <= i && i + pattern.len() <= buf.len() && buf.subrange(i, i + pattern.len()) == pattern
}

/// The end of the headers: an empty line.
pub open spec fn crlf_crlf() -> Seq<u8> {
    Seq::<u8>::empty().push(13).push(10).push(13).push(10)
}

/// An empty line without carriage returns.
pub open spec fn lf_lf() -> Seq<u8> {
    Seq::<u8>::empty().push(10).push(10)
}

/// The headers of the request have been read.
pub open spec fn headers_read(buf: Seq<u8>) -> bool {
    ||| exists|i: int| bytes_at(buf, crlf_crlf(), i)
    ||| exists|i: int| bytes_at(buf, lf_lf(), i)
}

/// Whether the headers of a request have been read.
pub fn request_complete(buf: &[u8]) -> (r: bool)
    ensures
        r == headers_read(buf@),
{
    let n: usize = buf.len();
    let mut i: usize = 0;
    while i < n
        invariant
            i <= n,
            n == buf@.len(),
            forall|k: int| 0 <= k < i ==> !#[trigger] bytes_at(buf@, crlf_crlf(), k),
            forall|k: int| 0 <= k < i ==> !#[trigger] bytes_at(buf@, lf_lf(), k),
        decreases n - i,
    {
        if n - i >= 2 && buf[i] == 10 && buf[i + 1] == 10 {
            proof {
                assert(buf@.subrange(i as int, i + 2) =~= lf_lf());
                assert(bytes_at(buf@, lf_lf(), i as int));
            }
            return true;
        }
        if n - i >= 4 && buf[i] == 13 && buf[i + 1] == 10 && buf[i + 2] == 13 && buf[i + 3] == 10 {
            proof {
                assert(buf@.subrange(i as int, i + 4) =~= crlf_crlf());
                assert(bytes_at(buf@, crlf_crlf(), i as int));
            }
            return true;
        }
        proof {
            if bytes_at(buf@, lf_lf(), i as int) {
                let w = buf@.subrange(i as int, i + 2);
                assert(w[0] == 10 && w[1] == 10);
                assert(buf@[i as int] == w[0] && buf@[i + 1] == w[1]);
                assert(false);
            }
            if bytes_at(buf@, crlf_crlf(), i as int) {
                let w = buf@.subrange(i as int, i + 4);
                assert(w[0] == 13 && w[1] == 10 && w[2] == 13 && w[3] == 10);
                assert(buf@[i as int] == w[0] && buf@[i + 1] == w[1] && buf@[i + 2] == w[2] && buf@[
                i + 3] == w[3]);
                assert(false);
            }
            assert(!bytes_at(buf@, crlf_crlf(), i as int) && !bytes_at(buf@, lf_lf(), i as int));
        }
        i = i + 1;
    }
    proof {
        assert forall|k: int| !bytes_at(buf@, crlf_crlf(), k) by {
            if 0 <= k < n {
                assert(!bytes_at(buf@, crlf_crlf(), k));
            }
        }
        assert forall|k: int| !bytes_at(buf@, lf_lf(), k) by {
            if 0 <= k < n {
                assert(!bytes_at(buf@, lf_lf(), k));
            }
        }
    }
    false
}

/// Whether a request has grown too large to read on.
pub fn request_too_large(len: usize) -> (r: bool)
    ensures
        r == (len >= MAX_REQUEST_BYTES),
{
    len >= MAX_REQUEST_BYTES
}

/// The first line of a request; an empty request has none.
pub fn first_request_line(request: &str) -> (r: Option<String>)
    ensures
        match r {
            Some(line) => text::lines_from(request@, 0).len() > 0 && line@ == text::lines_from(
                request@,
                0,
            )[0],
            None => text::lines_from(request@, 0).len() == 0,
        },
{
    let chars: Vec<char> = text::chars_of(request);
    let lines: Vec<Vec<char>> = text::lines(&chars);
    if lines.len() == 0 {
        return None;
    }
    let line: String = text::string_of(&lines[0], 0, lines[0].len());
    proof {
        assert(text::texts(lines@)[0] == lines@[0]@);
        assert(line@ =~= lines@[0]@);
    }
    Some(line)
}

/// The text that `String::from_utf8_lossy` makes of bytes.
pub uninterp spec fn lossy_text(bytes: Seq<u8>) -> Seq<char>;

/// `String::from_utf8_lossy`: bytes as text. Bytes that are valid UTF-8 become
/// the text they encode; what is invalid gives way to replacement characters,
/// whose number and places are not stated.
#[verifier::external_body]
fn decode_lossy(bytes: &[u8]) -> (r: String)
    ensures
        r@ == lossy_text(bytes@),
        valid_utf8(bytes@) ==> r@ == decode_utf8(bytes@),
{
    String::from_utf8_lossy(bytes).into_owned()
}

/// The first line of the bytes of a request, whether or not they are valid
/// UTF-8; an empty request has none.
pub fn request_line(bytes: &[u8]) -> (r: Option<String>)
    ensures
        match r {
            Some(line) => text::lines_from(lossy_text(bytes@), 0).len() > 0 && line@
                == text::lines_from(lossy_text(bytes@), 0)[0],
            None => text::lines_from(lossy_text(bytes@), 0).len() == 0,
        },
        valid_utf8(bytes@) ==> lossy_text(bytes@) == decode_utf8(bytes@),
{
    let request: String = decode_lossy(bytes);
    first_request_line(request.as_str())
}

/// Where the next word begins, at or after `i`.
pub open spec fn word_start(s: Seq<char>, i: int) -> int
    decreases s.len() - i,
{
    if i < 0 || i >= s.len() {
        s.len() as int
    } else if text::whitespace(s[i]) {
        word_start(s, i + 1)
    } else {
        i
    }
}

/// Where the word that contains `i` ends.
pub open spec fn word_end(s: Seq<char>, i: int) -> int
    decreases s.len() - i,
{
    if i < 0 || i >= s.len() {
        s.len() as int
    } else if text::whitespace(s[i]) {
        i
    } else {
        word_end(s, i + 1)
    }
}

/// The first word at or after `i`; empty where there is none.
pub open spec fn word_from(s: Seq<char>, i: int) -> Seq<char> {
    s.subrange(word_start(s, i), word_end(s, word_start(s, i)))
}

/// The method of a request line: its first word.
pub open spec fn method_of(line: Seq<char>) -> Seq<char> {
    word_from(line, 0)
}

/// The target of a request line: its second word.
pub open spec fn target_of(line: Seq<char>) -> Seq<char> {
    word_from(line, word_end(line, word_start(line, 0)))
}

/// The path of a target: what comes before a question mark.
pub open spec fn path_of(target: Seq<char>) -> Seq<char> {
    target.subrange(0, text::find_from(target, '?', 0))
}

/// Finds the word at or after a position.
fn find_word(chars: &Vec<char>, from: usize) -> (r: (usize, usize))
    requires
        from <= chars.len(),
    ensures
        r.0 == word_start(chars@, from as int),
        r.1 == word_end(chars@, r.0 as int),
        from <= r.0 <= r.1 <= chars.len(),
{
    let mut a: usize = from;
    while a < chars.len() && text::is_whitespace(chars[a])
        invariant
            from <= a <= chars.len(),
            word_start(chars@, a as int) == word_start(chars@, from as int),
        decreases chars.len() - a,
    {
        a = a + 1;
    }
    let mut b: usize = a;
    while b < chars.len() && !text::is_whitespace(chars[b])
        invariant
            a <= b <= chars.len(),
            word_end(chars@, b as int) == word_end(chars@, a as int),
        decreases chars.len() - b,
    {
        b = b + 1;
    }
    (a, b)
}

/// What a request asks for.
#[derive(Debug, Clone, Copy, PartialEq, Eq, Structural)]
pub enum Route {
    /// The method is not `GET`.
    MethodNotAllowed,
    /// The register.
    Metrics,
    /// The registers of all markets.
    MetricsMulti,
    /// Whether the daemon is up.
    Healthz,
    /// Anything else.
    NotFound,
}

/// What a request line asks for.
pub open spec fn route_of(line: Seq<char>) -> Route {
    let path = path_of(target_of(line));
    if method_of(line) != "GET"@ {
        Route::MethodNotAllowed
    } else if path == "/metrics"@ {
        Route::Metrics
    } else if path == "/metrics-multi"@ {
        Route::MetricsMulti
    } else if path == "/healthz"@ {
        Route::Healthz
    } else {
        Route::NotFound
    }
}

/// Finds out what a request line asks for.
pub fn route(request_line: &str) -> (r: Route)
    ensures
        r == route_of(request_line@),
{
    let chars: Vec<char> = text::chars_of(request_line);
    let (a, b): (usize, usize) = find_word(&chars, 0);
    let method: String = text::string_of(&chars, a, b);
    if !text::same_text(method.as_str(), "GET") {
        return Route::MethodNotAllowed;
    }
    let (c, d): (usize, usize) = find_word(&chars, b);
    let target: Vec<char> = text::part(&chars, c, d);
    let cut: usize = text::find_char(&target, '?', 0);
    let path: String = text::string_of(&target, 0, cut);
    if text::same_text(path.as_str(), "/metrics") {
        Route::Metrics
    } else if text::same_text(path.as_str(), "/metrics-multi") {
        Route::MetricsMulti
    } else if text::same_text(path.as_str(), "/healthz") {
        Route::Healthz
    } else {
        Route::NotFound
    }
}

/// A response.
pub open spec fn response_text(
    status: Seq<char>,
    content_type: Seq<char>,
    body: Seq<char>,
) -> Seq<char> {
    status + "Content-Type: "@ + content_type + "\r\nContent-Length: "@ + text::decimal(
        encode_utf8(body).len(),
    ) + "\r\nConnection: close\r\n\r\n"@ + body
}

/// Renders a response.
fn canned_response(status: &str, content_type: &str, body: &str) -> (r: String)
    ensures
        r@ == response_text(status@, content_type@, body@),
{
    let mut out = String::from_str(status);
    out.append("Content-Type: ");
    out.append(content_type);
    out.append("\r\nContent-Length: ");
    text::push_decimal(&mut out, body.as_bytes().len() as u128);
    out.append("\r\nConnection: close\r\n\r\n");
    out.append(body);
    out
}

/// The response to a request that no registers of other markets are needed for.
pub open spec fn fixed_response(route: Route, m: KeeperMetrics) -> Seq<char> {
    match route {
        Route::MethodNotAllowed => response_text(
            "HTTP/1.1 405 Method Not Allowed\r\n"@,
            "text/plain; charset=utf-8"@,
            "method not allowed\n"@,
        ),
        Route::Metrics => response_text(
            "HTTP/1.1 200 OK\r\n"@,
            "text/plain; version=0.0.4; charset=utf-8"@,
            metrics::prometheus_text(m, Seq::empty()),
        ),
        Route::MetricsMulti => response_text(
            "HTTP/1.1 404 Not Found\r\n"@,
            "text/plain; charset=utf-8"@,
            "/metrics-multi not configured (single-market deployment)\n"@,
        ),
        Route::Healthz => if m.up_since_unix_secs != 0 {
            response_text(
                "HTTP/1.1 200 OK\r\n"@,
                "application/json"@,
                "{\"status\":\"ok\"}\n"@,
            )
        } else {
            response_text(
                "HTTP/1.1 503 Service Unavailable\r\n"@,
                "application/json"@,
                "{\"status\":\"booting\"}\n"@,
            )
        },
        Route::NotFound => response_text(
            "HTTP/1.1 404 Not Found\r\n"@,
            "text/plain; charset=utf-8"@,
            "not found\n"@,
        ),
    }
}

/// The response with the registers of all markets.
pub open spec fn multi_response(body: Seq<char>) -> Seq<char> {
    response_text("HTTP/1.1 200 OK\r\n"@, "application/json; charset=utf-8"@, body)
}

/// Renders the response to a request, where there is one market.
pub fn render_response(request_line: &str, m: &KeeperMetrics) -> (r: String)
    ensures
        r@ == fixed_response(route_of(request_line@), *m),
{
    respond(route(request_line), m)
}

/// Renders the response to what a request asks for, where there is one market.
fn respond(asked: Route, m: &KeeperMetrics) -> (r: String)
    ensures
        r@ == fixed_response(asked, *m),
{
    match asked {
        Route::MethodNotAllowed => canned_response(
            "HTTP/1.1 405 Method Not Allowed\r\n",
            "text/plain; charset=utf-8",
            "method not allowed\n",
        ),
        Route::Metrics => {
            let body: String = m.render_prometheus();
            canned_response(
                "HTTP/1.1 200 OK\r\n",
                "text/plain; version=0.0.4; charset=utf-8",
                body.as_str(),
            )
        },
        Route::MetricsMulti => canned_response(
            "HTTP/1.1 404 Not Found\r\n",
            "text/plain; charset=utf-8",
            "/metrics-multi not configured (single-market deployment)\n",
        ),
        Route::Healthz => {
            if m.up_since_unix_secs != 0 {
                canned_response(
                    "HTTP/1.1 200 OK\r\n",
                    "application/json",
                    "{\"status\":\"ok\"}\n",
                )
            } else {
                canned_response(
                    "HTTP/1.1 503 Service Unavailable\r\n",
                    "application/json",
                    "{\"status\":\"booting\"}\n",
                )
            }
        },
        Route::NotFound => canned_response(
            "HTTP/1.1 404 Not Found\r\n",
            "text/plain; charset=utf-8",
            "not found\n",
        ),
    }
}

/// `r` is the response to what a request asks for: the provider's text where
/// all markets are asked for and there is a provider.
pub open spec fn answers<P: Fn() -> String>(
    asked: Route,
    m: KeeperMetrics,
    multi: Option<&P>,
    r: Seq<char>,
) -> bool {
    match multi {
        Some(provider) => if asked == Route::MetricsMulti {
            exists|body: String| #[trigger] provider.ensures((), body) && r == multi_response(body@)
        } else {
            r == fixed_response(asked, m)
        },
        None => r == fixed_response(asked, m),
    }
}

/// Renders the response to a request. The provider gives the registers of
/// all markets; it is asked only where the request asks for them.
pub fn render_response_with_multi<P: Fn() -> String>(
    request_line: &str,
    m: &KeeperMetrics,
    multi: Option<&P>,
) -> (r: String)
    requires
        multi matches Some(provider) ==> provider.requires(()),
    ensures
        answers(route_of(request_line@), *m, multi, r@),
{
    let asked: Route = route(request_line);
    if let Some(provider) = multi {
        if asked == Route::MetricsMulti {
            let body: String = provider();
            return canned_response(
                "HTTP/1.1 200 OK\r\n",
                "application/json; charset=utf-8",
                body.as_str(),
            );
        }
    }
    respond(asked, m)
}

/// Only `GET` requests see the register: to any other the answer is the
/// same whatever has been counted.
pub proof fn law_other_methods_see_nothing(line: Seq<char>, a: KeeperMetrics, b: KeeperMetrics)
    requires
        method_of(line) != "GET"@,
    ensures
        fixed_response(route_of(line), a) == fixed_response(route_of(line), b),
{
}

/// A daemon is up from the moment its boot has been recorded at a time other
/// than zero, and only then.
pub proof fn law_health_follows_boot(m: KeeperMetrics)
    ensures
        m.up_since_unix_secs == 0 ==> fixed_response(Route::Healthz, m) == response_text(
            "HTTP/1.1 503 Service Unavailable\r\n"@,
            "application/json"@,
            "{\"status\":\"booting\"}\n"@,
        ),
        m.up_since_unix_secs != 0 ==> fixed_response(Route::Healthz, m) == response_text(
            "HTTP/1.1 200 OK\r\n"@,
            "application/json"@,
            "{\"status\":\"ok\"}\n"@,
        ),
{
}

} // verus!
