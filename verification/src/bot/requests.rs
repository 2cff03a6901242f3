//! What holds of requests and responses, character by character.
use vstd::prelude::*;
use vstd::utf8::*;

use crate::bot::metrics;
use crate::bot::metrics::KeeperMetrics;
use crate::bot::serve;
use crate::bot::serve::Route;
use crate::text;

verus! {

/// The text holds no white space.
pub open spec fn one_word(s: Seq<char>) -> bool {
    forall|i: int| 0 <= i < s.len() ==> !text::whitespace(#[trigger] s[i])
}

/// The headers have been read if and only if there is an empty line, with or
/// without carriage returns.
pub proof fn law_headers_end_with_an_empty_line(buf: Seq<u8>)
    ensures
        serve::headers_read(buf) <==> exists|i: int|
            #![trigger buf[i]]
            0 <= i < buf.len() && ((i + 1 < buf.len() && buf[i] == 10 && buf[i + 1] == 10) || (i + 3
                < buf.len() && buf[i] == 13 && buf[i + 1] == 10 && buf[i + 2] == 13 && buf[i + 3]
                == 10)),
{
    if exists|i: int| serve::bytes_at(buf, serve::lf_lf(), i) {
        let i = choose|i: int| serve::bytes_at(buf, serve::lf_lf(), i);
        let w = buf.subrange(i, i + 2);
        assert(w[0] == 10 && w[1] == 10);
        assert(buf[i] == w[0] && buf[i + 1] == w[1]);
    }
    if exists|i: int| serve::bytes_at(buf, serve::crlf_crlf(), i) {
        let i = choose|i: int| serve::bytes_at(buf, serve::crlf_crlf(), i);
        let w = buf.subrange(i, i + 4);
        assert(w[0] == 13 && w[1] == 10 && w[2] == 13 && w[3] == 10);
        assert(buf[i] == w[0] && buf[i + 1] == w[1] && buf[i + 2] == w[2] && buf[i + 3] == w[3]);
    }
    if exists|i: int|
        #![trigger buf[i]]
        0 <= i < buf.len() && ((i + 1 < buf.len() && buf[i] == 10 && buf[i + 1] == 10) || (i + 3
            < buf.len() && buf[i] == 13 && buf[i + 1] == 10 && buf[i + 2] == 13 && buf[i + 3]
            == 10)) {
        let i = choose|i: int|
            #![trigger buf[i]]
            0 <= i < buf.len() && ((i + 1 < buf.len() && buf[i] == 10 && buf[i + 1] == 10) || (i + 3
                < buf.len() && buf[i] == 13 && buf[i + 1] == 10 && buf[i + 2] == 13 && buf[i + 3]
                == 10));
        if i + 1 < buf.len() && buf[i] == 10 && buf[i + 1] == 10 {
            assert(buf.subrange(i, i + 2) =~= serve::lf_lf());
            assert(serve::bytes_at(buf, serve::lf_lf(), i));
        } else {
            assert(buf.subrange(i, i + 4) =~= serve::crlf_crlf());
            assert(serve::bytes_at(buf, serve::crlf_crlf(), i));
        }
    }
}

/// White space before a word is passed over.
proof fn lemma_word_start(s: Seq<char>, i: int, k: int)
    requires
        0 <= i <= k <= s.len(),
        forall|j: int| i <= j < k ==> text::whitespace(#[trigger] s[j]),
        k < s.len() ==> !text::whitespace(s[k]),
    ensures
        serve::word_start(s, i) == k,
    decreases k - i,
{
    if i < k {
        assert(text::whitespace(s[i]));
        lemma_word_start(s, i + 1, k);
    }
}

/// A word goes on up to white space or the end.
proof fn lemma_word_end(s: Seq<char>, i: int, k: int)
    requires
        0 <= i <= k <= s.len(),
        forall|j: int| i <= j < k ==> !text::whitespace(#[trigger] s[j]),
        k < s.len() ==> text::whitespace(s[k]),
    ensures
        serve::word_end(s, i) == k,
    decreases k - i,
{
    if i < k {
        assert(!text::whitespace(s[i]));
        lemma_word_end(s, i + 1, k);
    }
}

/// Of a line made of a method, a space, a target and more behind a space, the
/// two words are the method and the target.
pub proof fn law_request_line_is_method_and_target(
    method: Seq<char>,
    target: Seq<char>,
    rest: Seq<char>,
)
    requires
        method.len() > 0,
        target.len() > 0,
        one_word(method),
        one_word(target),
    ensures
        serve::method_of(method.push(' ') + target.push(' ') + rest) == method,
        serve::target_of(method.push(' ') + target.push(' ') + rest) == target,
{
    let line = method.push(' ') + target.push(' ') + rest;
    let m = method.len() as int;
    let t = target.len() as int;
    assert(forall|j: int| 0 <= j < m ==> #[trigger] line[j] == method[j]);
    assert(line[m] == ' ');
    assert(forall|j: int| m < j <= m + t ==> #[trigger] line[j] == target[j - m - 1]);
    assert(line[m + t + 1] == ' ');
    assert(line[0] == method[0]);
    lemma_word_start(line, 0, 0);
    lemma_word_end(line, 0, m);
    assert(line[m + 1] == target[0]);
    lemma_word_start(line, m, m + 1);
    lemma_word_end(line, m + 1, m + t + 1);
    assert(line.subrange(0, m) =~= method);
    assert(line.subrange(m + 1, m + t + 1) =~= target);
}

/// The path of a target is what stands before the first question mark, and
/// all of it where there is none.
pub proof fn law_path_stands_before_the_query(path: Seq<char>, query: Seq<char>)
    requires
        !path.contains('?'),
    ensures
        serve::path_of(path) == path,
        serve::path_of(path.push('?') + query) == path,
{
    text::lemma_find_from(path, '?', 0);
    if text::find_from(path, '?', 0) < path.len() {
        assert(path[text::find_from(path, '?', 0)] == '?');
    }
    assert(path.subrange(0, path.len() as int) =~= path);
    let target = path.push('?') + query;
    text::lemma_find_from(target, '?', 0);
    let k = text::find_from(target, '?', 0);
    assert(target[path.len() as int] == '?');
    if k < path.len() {
        assert(target[k] == path[k]);
        assert(path[k] == '?');
    }
    assert(k == path.len());
    assert(target.subrange(0, k) =~= path);
}

/// What is asked for goes by the method and the path alone: three paths are
/// known, to `GET` only.
pub proof fn law_routes_go_by_method_and_path(
    method: Seq<char>,
    path: Seq<char>,
    query: Seq<char>,
    rest: Seq<char>,
)
    requires
        method.len() > 0,
        one_word(method),
        one_word(path),
        one_word(query),
        !path.contains('?'),
    ensures
        ({
            let asked = serve::route_of(
                method.push(' ') + (path.push('?') + query).push(' ') + rest,
            );
            &&& asked is MethodNotAllowed <==> method != "GET"@
            &&& asked is Metrics <==> method == "GET"@ && path == "/metrics"@
            &&& asked is MetricsMulti <==> method == "GET"@ && path == "/metrics-multi"@
            &&& asked is Healthz <==> method == "GET"@ && path == "/healthz"@
        }),
{
    let target = path.push('?') + query;
    assert forall|i: int| 0 <= i < target.len() implies !text::whitespace(#[trigger] target[i]) by {
        if i < path.len() {
            assert(target[i] == path[i]);
        } else if i > path.len() {
            assert(target[i] == query[i - path.len() - 1]);
        }
    }
    law_request_line_is_method_and_target(method, target, rest);
    law_path_stands_before_the_query(path, query);
    reveal_strlit("/metrics");
    reveal_strlit("/metrics-multi");
    reveal_strlit("/healthz");
    assert("/metrics"@.len() != "/metrics-multi"@.len());
    assert("/metrics"@[1] != "/healthz"@[1]);
    assert("/metrics-multi"@.len() != "/healthz"@.len());
}

/// A response is its status, its headers and its body; the length it gives is
/// the number of bytes of the body in UTF-8, and it says that the connection
/// closes.
pub proof fn law_response_gives_the_length_of_its_body(
    status: Seq<char>,
    content_type: Seq<char>,
    body: Seq<char>,
) -> (digits: Seq<char>)
    ensures
        text::number_in(digits) == encode_utf8(body).len(),
        digits.len() > 0,
        forall|i: int| 0 <= i < digits.len() ==> '0' <= #[trigger] digits[i] && digits[i] <= '9',
        serve::response_text(status, content_type, body) == status + "Content-Type: "@
            + content_type + "\r\nContent-Length: "@ + digits + "\r\nConnection: close\r\n\r\n"@
            + body,
{
    text::law_decimal_reads_as_its_number(encode_utf8(body).len());
    text::decimal(encode_utf8(body).len())
}

/// The register is handed out as Prometheus reads it, without labels; a
/// daemon with one market has nothing under the path of several.
pub proof fn law_responses_by_route(m: KeeperMetrics)
    ensures
        serve::fixed_response(Route::Metrics, m) == serve::response_text(
            "HTTP/1.1 200 OK\r\n"@,
            "text/plain; version=0.0.4; charset=utf-8"@,
            metrics::prometheus_text(m, Seq::empty()),
        ),
        serve::fixed_response(Route::MetricsMulti, m) == serve::response_text(
            "HTTP/1.1 404 Not Found\r\n"@,
            "text/plain; charset=utf-8"@,
            "/metrics-multi not configured (single-market deployment)\n"@,
        ),
        serve::fixed_response(Route::NotFound, m) == serve::response_text(
            "HTTP/1.1 404 Not Found\r\n"@,
            "text/plain; charset=utf-8"@,
            "not found\n"@,
        ),
        serve::fixed_response(Route::MethodNotAllowed, m) == serve::response_text(
            "HTTP/1.1 405 Method Not Allowed\r\n"@,
            "text/plain; charset=utf-8"@,
            "method not allowed\n"@,
        ),
{
}

/// With a provider, the registers of all markets are what it gave, and
/// everything else is as without one.
pub proof fn law_provider_is_asked_for_all_markets<P: Fn() -> String>(
    asked: Route,
    m: KeeperMetrics,
    provider: &P,
    r: Seq<char>,
)
    requires
        serve::answers(asked, m, Some(provider), r),
    ensures
        !(asked is MetricsMulti) ==> r == serve::fixed_response(asked, m),
        asked is MetricsMulti ==> exists|body: String| #[trigger]
            provider.ensures((), body) && r == serve::response_text(
                "HTTP/1.1 200 OK\r\n"@,
                "application/json; charset=utf-8"@,
                body@,
            ),
{
}

} // verus!
