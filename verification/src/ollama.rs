//! The pure parts of the local Ollama client: where to connect, how to find
//! the body of the HTTP reply, whether the daemon answered 200, and how the
//! model's answer is cleaned before the editor offers it.

use crate::text::{
    back_run, chars_of, decimal, find_char_in, first_index, is_back_run, is_first_index, is_front_run,
    lemma_back_run_unique, lemma_front_run_unique, push_decimal, trim_back_by, trim_both_by,
};
use vstd::prelude::*;
use vstd::string::StrSliceExecFns;
use vstd::string::StringExecFns;
use vstd::string::StringSliceAdditionalSpecFns;

verus! {

/// Where the Ollama daemon is and which model it runs.
pub struct OllamaConfig<'a> {
    pub url: &'a str,
    pub model: &'a str,
}

/// The padding that surrounds a fenced answer.
pub open spec fn is_fence_pad(c: char) -> bool {
    c == '\n' || c == '\r' || c == ' ' || c == '\t'
}

pub open spec fn fence_pad() -> spec_fn(char) -> bool {
    |c: char| is_fence_pad(c)
}

pub open spec fn newline() -> spec_fn(char) -> bool {
    |c: char| c == '\n'
}

/// Three backticks start at position `k` of `s`.
pub open spec fn has_fence_at(s: Seq<char>, k: int) -> bool {
    &&& 0 <= k
    &&& k + 3 <= s.len()
    &&& s[k] == '`'
    &&& s[k + 1] == '`'
    &&& s[k + 2] == '`'
}

/// `k` is where the last three backticks of `s` start.
pub open spec fn is_last_fence(s: Seq<char>, k: int) -> bool {
    &&& has_fence_at(s, k)
    &&& forall|j: int| k < j ==> !#[trigger] has_fence_at(s, j)
}

pub open spec fn last_fence(s: Seq<char>) -> Option<int> {
    if exists|k: int| is_last_fence(s, k) {
        Some(choose|k: int| is_last_fence(s, k))
    } else {
        None
    }
}

/// What the editor is offered for a model answer `s`: when `s`, without
/// surrounding blanks, opens with three backticks, a language line and is
/// closed by three more backticks, the text between the language line and
/// the last closing backticks, without its trailing newlines; else `s`.
pub open spec fn strip_code_fence_spec(s: Seq<char>) -> Seq<char> {
    let t = trim_both_by(s, fence_pad());
    if !has_fence_at(t, 0) {
        s
    } else {
        let after = t.skip(3);
        match first_index(after, '\n') {
            None => s,
            Some(i) => {
                let inner = after.skip(i + 1);
                match last_fence(inner) {
                    None => s,
                    Some(k) => trim_back_by(inner.take(k), newline()),
                }
            },
        }
    }
}

proof fn lemma_last_fence_found(s: Seq<char>, k: int)
    requires
        is_last_fence(s, k),
    ensures
        last_fence(s) == Some(k),
{
    let k2 = choose|k: int| is_last_fence(s, k);
    assert(is_last_fence(s, k2));
    if k2 < k {
        assert(has_fence_at(s, k));
    } else if k < k2 {
        assert(has_fence_at(s, k2));
    }
}

fn is_pad_char(c: char) -> (r: bool)
    ensures
        r == is_fence_pad(c),
{
    c == '\n' || c == '\r' || c == ' ' || c == '\t'
}

fn fence_at(v: &Vec<char>, k: usize) -> (r: bool)
    requires
        k + 3 <= v.len(),
    ensures
        r == has_fence_at(v@, k as int),
{
    v[k] == '`' && v[k + 1] == '`' && v[k + 2] == '`'
}

/// Bounds of `v` without its padding at both ends.
fn pad_bounds(v: &Vec<char>) -> (r: (usize, usize))
    ensures
        r.0 <= r.1 <= v.len(),
        v@.subrange(r.0 as int, r.1 as int) == trim_both_by(v@, fence_pad()),
{
    let n = v.len();
    let mut a: usize = 0;
    while a < n && is_pad_char(v[a])
        invariant
            a <= n,
            n == v@.len(),
            forall|j: int| 0 <= j < a ==> is_fence_pad(v@[j]),
        decreases n - a,
    {
        a += 1;
    }
    let mut e: usize = n;
    while e > a && is_pad_char(v[e - 1])
        invariant
            a <= e <= n,
            n == v@.len(),
            forall|j: int| e <= j < n ==> is_fence_pad(v@[j]),
        decreases e,
    {
        e -= 1;
    }
    let ghost vs = v@;
    let ghost t1 = vs.skip(a as int);
    proof {
        assert(is_front_run(vs, fence_pad(), a as int));
        lemma_front_run_unique(vs, fence_pad(), a as int);
        assert(is_back_run(t1, fence_pad(), n - e)) by {
            if n - e != t1.len() {
                assert(t1[t1.len() - 1 - (n - e)] == vs[e - 1]);
            }
            assert forall|j: int| t1.len() - (n - e) <= j < t1.len() implies #[trigger] fence_pad()(
                t1[j],
            ) by {
                assert(t1[j] == vs[a + j]);
            }
        }
        lemma_back_run_unique(t1, fence_pad(), n - e);
        assert(t1.take(t1.len() - (n - e)) =~= vs.subrange(a as int, e as int));
    }
    (a, e)
}

/// Where the last three backticks of `v[lo..e]` start, relative to `lo`.
fn find_last_fence(v: &Vec<char>, lo: usize, e: usize) -> (r: Option<usize>)
    requires
        lo <= e <= v.len(),
    ensures
        last_fence(v@.subrange(lo as int, e as int)) == match r {
            Some(k) => Some(k as int),
            None => None::<int>,
        },
{
    let ghost vs = v@;
    let ghost inner = vs.subrange(lo as int, e as int);
    proof {
        assert forall|m: int| has_fence_at(inner, m) implies has_fence_at(vs, m + lo) by {
            assert(inner[m] == vs[m + lo]);
            assert(inner[m + 1] == vs[m + 1 + lo]);
            assert(inner[m + 2] == vs[m + 2 + lo]);
        }
    }
    if e - lo < 3 {
        proof {
            assert forall|k: int| !is_last_fence(inner, k) by {}
        }
        return None;
    }
    let mut j: usize = e;
    while j - lo >= 3 && !fence_at(v, j - 3)
        invariant
            lo <= j <= e <= v.len(),
            vs == v@,
            forall|m: int| j - 3 < m && m + 3 <= e ==> !has_fence_at(vs, m),
        decreases j,
    {
        j -= 1;
    }
    if j - lo < 3 {
        proof {
            assert forall|k: int| !is_last_fence(inner, k) by {
                if has_fence_at(inner, k) {
                    assert(has_fence_at(vs, k + lo));
                }
            }
        }
        return None;
    }
    let k: usize = j - 3 - lo;
    proof {
        assert(has_fence_at(inner, k as int)) by {
            assert(inner[k as int] == vs[k + lo]);
            assert(inner[k + 1] == vs[k + 1 + lo]);
            assert(inner[k + 2] == vs[k + 2 + lo]);
        }
        assert forall|m: int| k < m implies !#[trigger] has_fence_at(inner, m) by {
            if has_fence_at(inner, m) {
                assert(has_fence_at(vs, m + lo));
            }
        }
        lemma_last_fence_found(inner, k as int);
    }
    Some(k)
}

/// End of `v[lo..k]` without its trailing newlines.
fn trim_newlines_end(v: &Vec<char>, lo: usize, k: usize) -> (f: usize)
    requires
        lo <= k <= v.len(),
    ensures
        lo <= f <= k,
        v@.subrange(lo as int, f as int) == trim_back_by(v@.subrange(lo as int, k as int), newline()),
{
    let ghost vs = v@;
    let ghost b = vs.subrange(lo as int, k as int);
    let mut f: usize = k;
    while f > lo && v[f - 1] == '\n'
        invariant
            lo <= f <= k <= v.len(),
            vs == v@,
            forall|m: int| f <= m < k ==> vs[m] == '\n',
        decreases f,
    {
        f -= 1;
    }
    proof {
        assert(is_back_run(b, newline(), k - f)) by {
            if k - f != b.len() {
                assert(b[b.len() - 1 - (k - f)] == vs[f - 1]);
            }
            assert forall|m: int| b.len() - (k - f) <= m < b.len() implies #[trigger] newline()(
                b[m],
            ) by {
                assert(b[m] == vs[lo + m]);
            }
        }
        lemma_back_run_unique(b, newline(), k - f);
        assert(b.take(b.len() - (k - f)) =~= vs.subrange(lo as int, f as int));
    }
    f
}

/// Coding models often wrap their answer in a single fence of three
/// backticks: one matched pair is removed so that the editor can apply the
/// result verbatim. Bare backticks inside the file are left alone.
pub fn strip_code_fence(s: &str) -> (r: String)
    ensures
        r@ == strip_code_fence_spec(s@),
{
    let v = chars_of(s);
    let ghost vs = v@;
    let (a, e) = pad_bounds(&v);
    let ghost t = vs.subrange(a as int, e as int);
    if e - a < 3 || !fence_at(&v, a) {
        return String::from_str(s);
    }
    assert(has_fence_at(t, 0));
    let ghost after = t.skip(3);
    assert(after =~= vs.subrange(a + 3, e as int));
    let i = find_char_in(&v, a + 3, e, '\n');
    if i == e {
        return String::from_str(s);
    }
    let lo: usize = i + 1;
    let ghost inner = after.skip(i - (a + 3) + 1);
    assert(inner =~= vs.subrange(lo as int, e as int));
    match find_last_fence(&v, lo, e) {
        None => String::from_str(s),
        Some(k) => {
            let ghost b = inner.take(k as int);
            assert(b =~= vs.subrange(lo as int, lo + k));
            let f = trim_newlines_end(&v, lo, lo + k);
            String::from_str(s.substring_char(lo, f))
        },
    }
}

/// An answer wrapped in one fence (three backticks, a language line, the
/// body, a newline and three closing backticks) gives back its body, without
/// trailing newlines, whatever the body holds, backticks included.
pub proof fn lemma_fenced_answer_gives_body(lang: Seq<char>, body: Seq<char>)
    requires
        forall|j: int| 0 <= j < lang.len() ==> lang[j] != '\n',
    ensures
        strip_code_fence_spec(
            seq!['`', '`', '`'] + lang + seq!['\n'] + body + seq!['\n'] + seq!['`', '`', '`'],
        ) == trim_back_by(body, newline()),
{
    let fence = seq!['`', '`', '`'];
    let s = fence + lang + seq!['\n'] + body + seq!['\n'] + fence;
    let n = s.len();
    assert(s[0] == '`');
    assert(s[n - 1] == '`');
    assert(is_front_run(s, fence_pad(), 0));
    lemma_front_run_unique(s, fence_pad(), 0);
    assert(s.skip(0) =~= s);
    assert(is_back_run(s, fence_pad(), 0));
    lemma_back_run_unique(s, fence_pad(), 0);
    assert(s.take(n as int) =~= s);
    let t = trim_both_by(s, fence_pad());
    assert(t == s);
    assert(s[1] == '`' && s[2] == '`');
    assert(has_fence_at(t, 0));
    let after = t.skip(3);
    assert(after =~= lang + seq!['\n'] + body + seq!['\n'] + fence);
    let i = lang.len() as int;
    assert(after[i] == '\n');
    assert forall|j: int| 0 <= j < i implies after[j] != '\n' by {
        assert(after[j] == lang[j]);
    }
    assert(is_first_index(after, '\n', i));
    crate::text::lemma_first_index_found(after, '\n', i);
    let inner = after.skip(i + 1);
    assert(inner =~= body + seq!['\n'] + fence);
    let k = body.len() as int + 1;
    assert(inner[k] == '`' && inner[k + 1] == '`' && inner[k + 2] == '`');
    assert(is_last_fence(inner, k));
    lemma_last_fence_found(inner, k);
    let b = inner.take(k);
    assert(b =~= body.push('\n'));
    crate::text::lemma_back_run_exists(body, newline());
    let r = back_run(body, newline());
    assert(is_back_run(body, newline(), r));
    assert(is_back_run(b, newline(), r + 1)) by {
        assert forall|j: int| b.len() - (r + 1) <= j < b.len() implies #[trigger] newline()(b[j]) by {
            if j < body.len() {
                assert(b[j] == body[j]);
            }
        }
        if r + 1 != b.len() {
            assert(b[b.len() - 1 - (r + 1)] == body[body.len() - 1 - r]);
        }
    }
    lemma_back_run_unique(b, newline(), r + 1);
    assert(b.take(b.len() - (r + 1)) =~= body.take(body.len() - r));
}

/// What `url::Url::parse` makes of a text: `None` when it is refused, else
/// the URL's scheme, its host (`Url::host_str`) and its explicit port
/// (`Url::port`, `None` when the URL names none or names the scheme's
/// default).
pub uninterp spec fn url_components(input: Seq<char>) -> Option<(Seq<char>, Option<Seq<char>>, Option<u16>)>;

pub open spec fn components_view(c: Option<(String, Option<String>, Option<u16>)>) -> Option<
    (Seq<char>, Option<Seq<char>>, Option<u16>),
> {
    match c {
        None => None,
        Some((scheme, host, port)) => Some(
            (
                scheme@,
                match host {
                    Some(h) => Some(h@),
                    None => None,
                },
                port,
            ),
        ),
    }
}

/// Parses `input` with `url::Url::parse` and hands back, on success, the
/// scheme, host and port of the URL as plain values. Claimed: the result is
/// the function `url_components` of the input text; nothing is claimed of
/// what that function is.
#[verifier::external_body]
fn parse_url_components(input: &str) -> (r: Option<(String, Option<String>, Option<u16>)>)
    ensures
        components_view(r) == url_components(input@),
{
    match url::Url::parse(input) {
        Ok(u) => Some((u.scheme().to_string(), u.host_str().map(|h| h.to_string()), u.port())),
        Err(_) => None,
    }
}

/// Why an Ollama URL cannot be used.
#[derive(Debug)]
pub enum EndpointError {
    /// The URL does not parse.
    InvalidUrl,
    /// Only plain `http://` is spoken; holds the scheme that was given.
    UnsupportedScheme(String),
    /// The URL names no host.
    NoHost,
    /// The host is not this machine; holds the host that was given. The
    /// prompt carries the file being edited, so it is only ever sent to a
    /// daemon on this machine.
    NotLocal(String),
}

/// An ASCII decimal digit.
pub open spec fn is_ascii_digit(c: char) -> bool {
    '0' <= c && c <= '9'
}

/// A host of the IPv4 loopback network `127.0.0.0/8`, as `Url::host_str`
/// writes it: `127.` followed by digits and dots only. (The URL parser turns
/// any host whose last label is numeric into a dotted IPv4 address or
/// refuses it, so such a host is never a domain name.)
pub open spec fn is_loopback_v4(h: Seq<char>) -> bool {
    &&& h.len() > 4
    &&& h[0] == '1'
    &&& h[1] == '2'
    &&& h[2] == '7'
    &&& h[3] == '.'
    &&& forall|i: int| 4 <= i < h.len() ==> is_ascii_digit(#[trigger] h[i]) || h[i] == '.'
}

/// A host that is this machine: `localhost`, an IPv4 loopback address, or
/// the IPv6 loopback address (written `[::1]` by `Url::host_str`).
pub open spec fn is_local_host(h: Seq<char>) -> bool {
    h == "localhost"@ || h == "[::1]"@ || is_loopback_v4(h)
}

/// Whether `host` names this machine.
pub fn is_local_host_exec(host: &String) -> (r: bool)
    ensures
        r == is_local_host(host@),
{
    let localhost = String::from_str("localhost");
    let v6 = String::from_str("[::1]");
    if *host == localhost || *host == v6 {
        return true;
    }
    let v = chars_of(host.as_str());
    let n = v.len();
    if n <= 4 || !(v[0] == '1' && v[1] == '2' && v[2] == '7' && v[3] == '.') {
        return false;
    }
    let mut i: usize = 4;
    while i < n
        invariant
            4 <= i <= n,
            n == v@.len(),
            v@ == host@,
            host@ != "localhost"@,
            host@ != "[::1]"@,
            forall|j: int| 4 <= j < i ==> is_ascii_digit(#[trigger] v@[j]) || v@[j] == '.',
        decreases n - i,
    {
        if !(('0' <= v[i] && v[i] <= '9') || v[i] == '.') {
            return false;
        }
        i += 1;
    }
    true
}

/// The port of a local Ollama daemon when the URL names none.
pub const DEFAULT_OLLAMA_PORT: u16 = 11434;

/// The host and port to connect to for the URL components `c`.
pub open spec fn endpoint_spec(c: Option<(Seq<char>, Option<Seq<char>>, Option<u16>)>) -> Option<
    (Seq<char>, u16),
> {
    match c {
        Some((scheme, Some(host), port)) => if scheme == "http"@ && is_local_host(host) {
            Some(
                (
                    host,
                    match port {
                        Some(p) => p,
                        None => DEFAULT_OLLAMA_PORT,
                    },
                ),
            )
        } else {
            None
        },
        _ => None,
    }
}

/// An endpoint is only ever this machine over plain HTTP: whatever the URL,
/// an accepted one names a local host, keeps the URL's host and port, and
/// falls back to the default port only when the URL names none.
pub proof fn lemma_endpoint_is_local(c: Option<(Seq<char>, Option<Seq<char>>, Option<u16>)>)
    ensures
        endpoint_spec(c) matches Some((host, port)) ==> ({
            &&& is_local_host(host)
            &&& c matches Some((scheme, Some(h), p)) && scheme == "http"@ && h == host
            &&& (c matches Some((_, _, Some(q))) ==> port == q)
            &&& (c matches Some((_, _, None)) ==> port == DEFAULT_OLLAMA_PORT)
        }),
        (c matches Some((scheme, Some(h), _)) && scheme == "http"@ && is_local_host(h))
            ==> endpoint_spec(c) is Some,
{
}

/// Decides where to connect from the parsed components of an Ollama URL.
pub fn endpoint_from_components(c: Option<(String, Option<String>, Option<u16>)>) -> (r: Result<
    (String, u16),
    EndpointError,
>)
    ensures
        r matches Ok((host, port)) ==> endpoint_spec(components_view(c)) == Some((host@, port)),
        r is Ok <==> endpoint_spec(components_view(c)) is Some,
        r matches Err(EndpointError::InvalidUrl) <==> c is None,
        (r matches Err(EndpointError::UnsupportedScheme(_))) <==> (c matches Some((scheme, _, _))
            && scheme@ != "http"@),
        r matches Err(EndpointError::UnsupportedScheme(got)) ==> (c matches Some((scheme, _, _))
            && got@ == scheme@),
        r matches Err(EndpointError::NoHost) <==> (c matches Some((scheme, None, _)) && scheme@
            == "http"@),
        (r matches Err(EndpointError::NotLocal(_))) <==> (c matches Some((scheme, Some(h), _))
            && scheme@ == "http"@ && !is_local_host(h@)),
        r matches Err(EndpointError::NotLocal(got)) ==> (c matches Some((_, Some(h), _)) && got@
            == h@),
{
    match c {
        None => Err(EndpointError::InvalidUrl),
        Some((scheme, host, port)) => {
            let http = String::from_str("http");
            if !(scheme == http) {
                return Err(EndpointError::UnsupportedScheme(scheme));
            }
            match host {
                None => Err(EndpointError::NoHost),
                Some(h) => {
                    if !is_local_host_exec(&h) {
                        return Err(EndpointError::NotLocal(h));
                    }
                    let p = match port {
                        Some(p) => p,
                        None => DEFAULT_OLLAMA_PORT,
                    };
                    Ok((h, p))
                },
            }
        },
    }
}

/// Where the Ollama daemon behind `url` listens: only `http://` URLs naming
/// this machine are accepted, and the port defaults to 11434.
pub fn ollama_endpoint(url: &str) -> (r: Result<(String, u16), EndpointError>)
    ensures
        r matches Ok((host, port)) ==> endpoint_spec(url_components(url@)) == Some((host@, port)),
        r is Ok <==> endpoint_spec(url_components(url@)) is Some,
        r matches Err(EndpointError::InvalidUrl) <==> url_components(url@) is None,
        (r matches Err(EndpointError::UnsupportedScheme(_))) <==> (url_components(url@) matches Some(
            (scheme, _, _),
        ) && scheme != "http"@),
        r matches Err(EndpointError::UnsupportedScheme(got)) ==> (url_components(url@) matches Some(
            (scheme, _, _),
        ) && got@ == scheme),
        r matches Err(EndpointError::NoHost) <==> (url_components(url@) matches Some(
            (scheme, None, _),
        ) && scheme == "http"@),
        (r matches Err(EndpointError::NotLocal(_))) <==> (url_components(url@) matches Some(
            (scheme, Some(h), _),
        ) && scheme == "http"@ && !is_local_host(h)),
        r matches Err(EndpointError::NotLocal(got)) ==> (url_components(url@) matches Some(
            (_, Some(h), _),
        ) && got@ == h),
{
    let c = parse_url_components(url);
    endpoint_from_components(c)
}

/// The blank line that ends the head of an HTTP reply.
pub open spec fn has_head_end_at(b: Seq<u8>, k: int) -> bool {
    &&& 0 <= k
    &&& k + 4 <= b.len()
    &&& b[k] == 13u8
    &&& b[k + 1] == 10u8
    &&& b[k + 2] == 13u8
    &&& b[k + 3] == 10u8
}

pub open spec fn is_first_head_end(b: Seq<u8>, k: int) -> bool {
    &&& has_head_end_at(b, k)
    &&& forall|j: int| 0 <= j < k ==> !#[trigger] has_head_end_at(b, j)
}

/// Where the first `\r\n\r\n` of `buf` starts: the reply's head is what
/// stands before it, its body what follows it.
pub fn find_header_end(buf: &[u8]) -> (r: Option<usize>)
    ensures
        r matches Some(k) ==> is_first_head_end(buf@, k as int),
        r is None ==> forall|j: int| !#[trigger] has_head_end_at(buf@, j),
{
    let n = buf.len();
    if n < 4 {
        return None;
    }
    let mut k: usize = 0;
    while k <= n - 4
        invariant
            n == buf@.len(),
            n >= 4,
            k <= n - 3,
            forall|j: int| 0 <= j < k ==> !#[trigger] has_head_end_at(buf@, j),
        decreases n - k,
    {
        if buf[k] == 13u8 && buf[k + 1] == 10u8 && buf[k + 2] == 13u8 && buf[k + 3] == 10u8 {
            return Some(k);
        }
        k += 1;
    }
    None
}

/// The first line of `s` as `str::lines` gives it: up to the first newline,
/// without the carriage return before it; empty when `s` is.
pub open spec fn first_line(s: Seq<char>) -> Seq<char> {
    match first_index(s, '\n') {
        None => s,
        Some(i) => if i > 0 && s[i - 1] == '\r' {
            s.take(i - 1)
        } else {
            s.take(i)
        },
    }
}

/// The status line of an HTTP reply whose head is `head`.
pub fn status_line(head: &str) -> (r: String)
    ensures
        r@ == first_line(head@),
{
    let v = chars_of(head);
    let n = v.len();
    let i = find_char_in(&v, 0, n, '\n');
    assert(v@.subrange(0, n as int) =~= v@);
    if i == n {
        return String::from_str(head);
    }
    if i > 0 && v[i - 1] == '\r' {
        String::from_str(head.substring_char(0, i - 1))
    } else {
        String::from_str(head.substring_char(0, i))
    }
}

/// `pat` occurs in `s` starting at position `k`.
pub open spec fn occurs_at(s: Seq<char>, pat: Seq<char>, k: int) -> bool {
    0 <= k && k + pat.len() <= s.len() && s.subrange(k, k + pat.len()) == pat
}

/// The reply is a success when its status line holds ` 200 `.
pub open spec fn is_ok_status_spec(line: Seq<char>) -> bool {
    exists|k: int| occurs_at(line, " 200 "@, k)
}

/// Whether the status line `line` reports success.
pub fn is_ok_status(line: &str) -> (r: bool)
    ensures
        r == is_ok_status_spec(line@),
{
    let v = chars_of(line);
    let n = v.len();
    let ghost pat = " 200 "@;
    proof {
        reveal_strlit(" 200 ");
    }
    if n < 5 {
        proof {
            assert forall|k: int| !occurs_at(v@, pat, k) by {}
        }
        return false;
    }
    let mut k: usize = 0;
    while k <= n - 5
        invariant
            n == v@.len(),
            n >= 5,
            k <= n - 4,
            v@ == line@,
            pat == " 200 "@,
            pat.len() == 5,
            pat[0] == ' ',
            pat[1] == '2',
            pat[2] == '0',
            pat[3] == '0',
            pat[4] == ' ',
            forall|j: int| 0 <= j < k ==> !#[trigger] occurs_at(v@, pat, j),
        decreases n - k,
    {
        if v[k] == ' ' && v[k + 1] == '2' && v[k + 2] == '0' && v[k + 3] == '0' && v[k + 4] == ' ' {
            proof {
                assert(v@.subrange(k as int, k + 5) =~= pat);
                assert(occurs_at(line@, " 200 "@, k as int));
                assert(is_ok_status_spec(line@));
            }
            return true;
        }
        proof {
            if occurs_at(v@, pat, k as int) {
                assert(v@.subrange(k as int, k + 5)[0] == v@[k as int]);
                assert(v@.subrange(k as int, k + 5)[1] == v@[k + 1]);
                assert(v@.subrange(k as int, k + 5)[2] == v@[k + 2]);
                assert(v@.subrange(k as int, k + 5)[3] == v@[k + 3]);
                assert(v@.subrange(k as int, k + 5)[4] == v@[k + 4]);
            }
        }
        k += 1;
    }
    false
}

/// The head of the `/api/generate` request sent to the daemon at
/// `host:port` for a JSON body of `body_len` bytes.
pub open spec fn request_head_spec(host: Seq<char>, port: u16, body_len: nat) -> Seq<char> {
    "POST /api/generate HTTP/1.1\r\nHost: "@ + host + ":"@ + decimal(port as nat)
        + "\r\nUser-Agent: samari-catcher\r\nAccept: application/json\r\nContent-Type: application/json\r\nContent-Length: "@
        + decimal(body_len) + "\r\nConnection: close\r\n\r\n"@
}

/// Builds the head of the `/api/generate` request.
pub fn request_head(host: &str, port: u16, body_len: usize) -> (r: String)
    ensures
        r@ == request_head_spec(host@, port, body_len as nat),
{
    let mut s = String::from_str("POST /api/generate HTTP/1.1\r\nHost: ");
    s.append(host);
    s.append(":");
    push_decimal(&mut s, port as u64);
    s.append(
        "\r\nUser-Agent: samari-catcher\r\nAccept: application/json\r\nContent-Type: application/json\r\nContent-Length: ",
    );
    push_decimal(&mut s, body_len as u64);
    s.append("\r\nConnection: close\r\n\r\n");
    s
}

} // verus!

verus! {

/// Reads `bytes` as text with `std::str::from_utf8`, which the standard
/// library documents as failing exactly when the bytes are not UTF-8 and
/// otherwise giving the text they encode.
#[verifier::external_body]
fn str_from_utf8(bytes: &[u8]) -> (r: Option<&str>)
    ensures
        r is Some <==> vstd::utf8::valid_utf8(bytes@),
        r matches Some(s) ==> s.spec_bytes() == bytes@,
{
    std::str::from_utf8(bytes).ok()
}

/// The text of a reply head: its UTF-8 decoding, or nothing when the head
/// is not UTF-8.
pub open spec fn head_text(head: Seq<u8>) -> Seq<char> {
    if vstd::utf8::valid_utf8(head) {
        vstd::utf8::decode_utf8(head)
    } else {
        Seq::empty()
    }
}

/// Why a reply of the daemon is refused.
#[derive(Debug)]
pub enum ReplyError {
    /// No blank line ends the head.
    MalformedReply,
    /// The status is not 200; holds the status line.
    HttpStatus(String),
}

/// Checks the head of the daemon's reply `buf` and gives where its body
/// starts: after the first blank line, when the status line holds ` 200 `.
pub fn check_reply(buf: &[u8]) -> (r: Result<usize, ReplyError>)
    ensures
        r matches Ok(start) ==> start >= 4 && is_first_head_end(buf@, start - 4)
            && is_ok_status_spec(first_line(head_text(buf@.take(start - 4)))),
        r matches Err(ReplyError::HttpStatus(line)) ==> exists|k: int|
            is_first_head_end(buf@, k) && line@ == first_line(head_text(buf@.take(k)))
                && !is_ok_status_spec(line@),
        r matches Err(ReplyError::MalformedReply) <==> forall|j: int| !#[trigger] has_head_end_at(buf@, j),
{
    let k = match find_header_end(buf) {
        Some(k) => k,
        None => return Err(ReplyError::MalformedReply),
    };
    let head = vstd::slice::slice_subrange(buf, 0, k);
    assert(head@ == buf@.take(k as int));
    let text: &str = match str_from_utf8(head) {
        Some(t) => {
            proof {
                broadcast use vstd::utf8::encode_utf8_decode_utf8;
            }
            t
        },
        None => "",
    };
    proof {
        if !vstd::utf8::valid_utf8(head@) {
            reveal_strlit("");
            assert(text@ =~= Seq::<char>::empty());
        }
    }
    assert(text@ == head_text(buf@.take(k as int)));
    let line = status_line(text);
    let n = buf.len();
    assert(k + 4 <= n);
    if is_ok_status(line.as_str()) {
        Ok(k + 4)
    } else {
        Err(ReplyError::HttpStatus(line))
    }
}

} // verus!
