//! Where embeddings may be asked for: this machine, unless remote servers are allowed.

use crate::error::Error;
use crate::text::split::{
    after_prefix, first_at, first_index, last_before, last_index, lemma_first_at,
    lemma_last_before, starts_with,
};
use crate::text::trim::copy_range;
use crate::text::{chars_of, same, string_of};
use vstd::prelude::*;

verus! {

/// What follows the scheme of an address, where that is HTTP.
pub open spec fn after_scheme(url: Seq<char>) -> Option<Seq<char>> {
    if starts_with(url, "http://"@) {
        Some(url.skip("http://"@.len() as int))
    } else if starts_with(url, "https://"@) {
        Some(url.skip("https://"@.len() as int))
    } else {
        None
    }
}

/// The part before the first `c`.
pub open spec fn before_first(s: Seq<char>, c: char) -> Seq<char> {
    s.take(first_at(s, c, 0))
}

/// The part behind the last `c`, or all where there is none.
pub open spec fn after_last(s: Seq<char>, c: char) -> Seq<char> {
    s.skip(last_before(s, c, s.len() as int) + 1)
}

/// The host of an authority: what stands in square brackets at its start, or
/// what stands before the first colon.
pub open spec fn authority_host(authority: Seq<char>) -> Seq<char> {
    if authority.len() > 0 && authority[0] == '[' && first_at(authority.drop_first(), ']', 0)
        < authority.len() - 1 {
        before_first(authority.drop_first(), ']')
    } else {
        before_first(authority, ':')
    }
}

/// The host of an address: user information, port and path do not belong to it.
pub open spec fn host_of(url: Seq<char>) -> Option<Seq<char>> {
    match after_scheme(url) {
        None => None,
        Some(rest) => Some(authority_host(after_last(before_first(rest, '/'), '@'))),
    }
}

/// Exec form of [`before_first`].
fn head(chars: &[char], c: char) -> (r: Vec<char>)
    ensures
        r@ == before_first(chars@, c),
{
    let end: usize = first_index(chars, c, 0);
    let r = copy_range(chars, 0, end);
    proof {
        assert(r@ =~= before_first(chars@, c));
    }
    r
}

/// Exec form of [`after_last`].
fn tail(chars: &[char], c: char) -> (r: Vec<char>)
    ensures
        r@ == after_last(chars@, c),
{
    let total: usize = chars.len();
    match last_index(chars, c) {
        Some(at) => {
            let r = copy_range(chars, at + 1, total);
            proof {
                assert(r@ =~= after_last(chars@, c));
            }
            r
        },
        None => {
            let r = copy_range(chars, 0, total);
            proof {
                assert(r@ =~= after_last(chars@, c));
            }
            r
        },
    }
}

/// The host of an HTTP address.
pub fn url_host(url: &str) -> (r: Option<String>)
    ensures
        match r {
            Some(host) => host_of(url@) == Some(host@),
            None => host_of(url@) is None,
        },
{
    let rest = match after_prefix(url, "http://") {
        Some(rest) => rest,
        None => match after_prefix(url, "https://") {
            Some(rest) => rest,
            None => return None,
        },
    };
    let chars = chars_of(rest.as_str());
    let full = head(chars.as_slice(), '/');
    let authority = tail(full.as_slice(), '@');
    if authority.len() > 0 && authority[0] == '[' {
        let inner = copy_range(authority.as_slice(), 1, authority.len());
        proof {
            assert(inner@ =~= authority@.drop_first());
        }
        let close: usize = first_index(inner.as_slice(), ']', 0);
        if close < inner.len() {
            let host = head(inner.as_slice(), ']');
            return Some(string_of(host.as_slice()));
        }
    }
    let host = head(authority.as_slice(), ':');
    Some(string_of(host.as_slice()))
}

/// Whether an address is on this machine: its host is `localhost`, or an IP
/// address of which `is_loopback_ip` says that it is a loopback address.
pub fn is_loopback_url<F: Fn(&str) -> bool>(url: &str, is_loopback_ip: F) -> (r: bool)
    requires
        forall|host: &str| call_requires(is_loopback_ip, (host,)),
    ensures
        r ==> host_of(url@) is Some,
        host_of(url@) == Some("localhost"@) ==> r,
        host_of(url@) matches Some(host) ==> host != "localhost"@ ==> exists|text: &str|
            text@ == host && #[trigger] call_ensures(is_loopback_ip, (text,), r),
{
    match url_host(url) {
        None => false,
        Some(host) => if same(host.as_str(), "localhost") {
            true
        } else {
            is_loopback_ip(host.as_str())
        },
    }
}

/// The embedding server that is configured.
#[derive(Debug, Clone)]
pub struct EmbeddingServer {
    pub base_url: String,
    /// Whether a server on another machine may be used.
    pub allow_remote: bool,
}

/// Refuses an embedding server on another machine, unless that is allowed.
pub fn validate_embedding_endpoint<F: Fn(&str) -> bool>(
    server: &EmbeddingServer,
    is_loopback_ip: F,
) -> (r: Result<(), Error>)
    requires
        forall|host: &str| call_requires(is_loopback_ip, (host,)),
    ensures
        server.allow_remote ==> r is Ok,
        host_of(server.base_url@) == Some("localhost"@) ==> r is Ok,
        !server.allow_remote && host_of(server.base_url@) is None ==> r is Err,
        !server.allow_remote ==> (host_of(server.base_url@) matches Some(host) ==> host
            != "localhost"@ ==> exists|text: &str|
            text@ == host && #[trigger] call_ensures(is_loopback_ip, (text,), r is Ok)),
        r matches Err(error) ==> error is RemoteEmbeddingEndpoint,
{
    if server.allow_remote || is_loopback_url(server.base_url.as_str(), is_loopback_ip) {
        Ok(())
    } else {
        Err(Error::RemoteEmbeddingEndpoint)
    }
}

// ---------------------------------------------------------------------------
// Laws
// ---------------------------------------------------------------------------

/// Whether a text can be a host: it has none of the marks that end one.
pub open spec fn plain_host(host: Seq<char>) -> bool {
    &&& host.len() > 0
    &&& !host.contains('/')
    &&& !host.contains(':')
    &&& !host.contains('@')
    &&& !host.contains('[')
}

/// The host of an address is what stands between the scheme, or the last at sign
/// before the path, and the port: whatever the user information, the port and the
/// path say.
pub proof fn law_the_host_is_read_as_written(
    host: Seq<char>,
    user: Seq<char>,
    port: Seq<char>,
    path: Seq<char>,
)
    requires
        plain_host(host),
        !user.contains('/'),
        !port.contains('/') && !port.contains('@'),
    ensures
        host_of("http://"@ + host + seq!['/'] + path) == Some(host),
        host_of("http://"@ + host) == Some(host),
        host_of("https://"@ + host + seq!['/'] + path) == Some(host),
        host_of("http://"@ + host + seq![':'] + port + seq!['/'] + path) == Some(host),
        host_of("http://"@ + user + seq!['@'] + host + seq![':'] + port + seq!['/'] + path) == Some(
            host,
        ),
{
    reveal_strlit("http://");
    reveal_strlit("https://");
    let none = Seq::<char>::empty();
    let slash = seq!['/'] + path;
    lemma_host("http://"@, none, host, none, slash);
    assert("http://"@ + (none + host + none + slash) =~= "http://"@ + host + seq!['/'] + path);
    lemma_host("http://"@, none, host, none, none);
    assert("http://"@ + (none + host + none + none) =~= "http://"@ + host);
    lemma_host("https://"@, none, host, none, slash);
    assert("https://"@ + (none + host + none + slash) =~= "https://"@ + host + seq!['/'] + path);
    let tail = seq![':'] + port;
    assert(!tail.contains('/') && !tail.contains('@')) by {
        if tail.contains('/') {
            let i = choose|i: int| 0 <= i < tail.len() && tail[i] == '/';
            assert(port[i - 1] == '/');
        }
        if tail.contains('@') {
            let i = choose|i: int| 0 <= i < tail.len() && tail[i] == '@';
            assert(port[i - 1] == '@');
        }
    }
    lemma_host("http://"@, none, host, tail, slash);
    assert("http://"@ + (none + host + tail + slash) =~= "http://"@ + host + seq![':'] + port
        + seq!['/'] + path);
    let lead = user + seq!['@'];
    assert(!lead.contains('/')) by {
        if lead.contains('/') {
            let i = choose|i: int| 0 <= i < lead.len() && lead[i] == '/';
            if i < user.len() {
                assert(user[i] == '/');
            }
        }
    }
    lemma_host("http://"@, lead, host, tail, slash);
    assert("http://"@ + (lead + host + tail + slash) =~= "http://"@ + user + seq!['@'] + host
        + seq![':'] + port + seq!['/'] + path);
}

/// The host behind a scheme and user information, before a port and a path.
proof fn lemma_host(
    scheme: Seq<char>,
    lead: Seq<char>,
    host: Seq<char>,
    tail: Seq<char>,
    path: Seq<char>,
)
    requires
        scheme == "http://"@ || scheme == "https://"@,
        plain_host(host),
        !lead.contains('/'),
        lead.len() > 0 ==> lead.last() == '@',
        !tail.contains('/') && !tail.contains('@'),
        tail.len() > 0 ==> tail[0] == ':',
        path.len() > 0 ==> path[0] == '/',
    ensures
        host_of(scheme + (lead + host + tail + path)) == Some(host),
{
    let rest = lead + host + tail + path;
    lemma_scheme(scheme, rest);
    let full = lead + host + tail;
    lemma_joined_without(lead, host, '/');
    lemma_joined_without(lead + host, tail, '/');
    lemma_before(full, path, '/');
    assert(full + path =~= rest);
    let authority = host + tail;
    lemma_joined_without(host, tail, '@');
    lemma_behind(lead, authority, '@');
    assert(lead + authority =~= full);
    assert(authority[0] == host[0]);
    assert(host.contains(host[0]));
    lemma_before(host, tail, ':');
}

/// What follows the scheme.
proof fn lemma_scheme(scheme: Seq<char>, rest: Seq<char>)
    requires
        scheme == "http://"@ || scheme == "https://"@,
    ensures
        after_scheme(scheme + rest) == Some(rest),
{
    reveal_strlit("http://");
    reveal_strlit("https://");
    let url = scheme + rest;
    assert(url.skip(scheme.len() as int) =~= rest);
    assert(url.subrange(0, scheme.len() as int) =~= scheme);
    if scheme == "https://"@ {
        assert(url[4] == 's');
        assert("http://"@[4] == ':');
        if starts_with(url, "http://"@) {
            assert(url.subrange(0, 7)[4] == url[4]);
        }
    }
}

/// Two texts without a character make one without it.
proof fn lemma_joined_without(a: Seq<char>, b: Seq<char>, c: char)
    requires
        !a.contains(c),
        !b.contains(c),
    ensures
        !(a + b).contains(c),
{
    let s = a + b;
    if s.contains(c) {
        let i = choose|i: int| 0 <= i < s.len() && s[i] == c;
        if i < a.len() {
            assert(a[i] == c);
        } else {
            assert(b[i - a.len()] == c);
        }
    }
}

/// What stands before the first occurrence of a character.
proof fn lemma_before(a: Seq<char>, b: Seq<char>, c: char)
    requires
        !a.contains(c),
        b.len() > 0 ==> b[0] == c,
    ensures
        before_first(a + b, c) == a,
{
    let s = a + b;
    let n = a.len() as int;
    lemma_first_at(s, c, 0);
    let at = first_at(s, c, 0);
    if at < n {
        assert(a[at] == c);
    }
    if b.len() > 0 {
        assert(s[n] == c);
    }
    assert(at == n);
    assert(s.take(n) =~= a);
}

/// What stands behind the last occurrence of a character.
proof fn lemma_behind(a: Seq<char>, b: Seq<char>, c: char)
    requires
        !b.contains(c),
        a.len() > 0 ==> a.last() == c,
    ensures
        after_last(a + b, c) == b,
{
    let s = a + b;
    let n = s.len() as int;
    let m = a.len() as int;
    lemma_last_before(s, c, n);
    let at = last_before(s, c, n);
    if at >= m {
        assert(b[at - m] == c);
    }
    if m > 0 {
        assert(s[m - 1] == c);
    }
    assert(at == m - 1);
    assert(s.skip(m) =~= b);
}

/// What is no address over HTTP has no host.
pub proof fn law_only_http_has_a_host(url: Seq<char>)
    ensures
        host_of(url) is Some ==> url.len() >= 7 && url[0] == 'h' && url[1] == 't' && url[2] == 't'
            && url[3] == 'p',
{
    reveal_strlit("http://");
    reveal_strlit("https://");
    if starts_with(url, "http://"@) {
        let p = url.subrange(0, 7);
        assert(p[0] == url[0] && p[1] == url[1] && p[2] == url[2] && p[3] == url[3]);
    } else if starts_with(url, "https://"@) {
        let p = url.subrange(0, 8);
        assert(p[0] == url[0] && p[1] == url[1] && p[2] == url[2] && p[3] == url[3]);
    }
}

} // verus!
