//! Decisions on the configuration that the process reads at startup.

use vstd::prelude::*;
use vstd::string::StringExecFns;
use crate::access::opt_str_view;
use crate::text::{chars_of, same_text, string_push};

verus! {

/// The port to listen on where none is configured.
pub const DEFAULT_PORT: u16 = 5038;

/// The front end's address where none is configured.
pub open spec fn default_frontend_url() -> Seq<char> {
    "http://localhost:5173"@
}

/// The address under which the front end runs in production.
pub open spec fn production_url() -> Seq<char> {
    "https://voideid.scetrov.live"@
}

/// `needle` occurs somewhere in `haystack`.
pub open spec fn occurs_in(needle: Seq<char>, haystack: Seq<char>) -> bool {
    exists|i: int|
        0 <= i <= haystack.len() - needle.len() && #[trigger] haystack.subrange(
            i,
            i + needle.len(),
        ) == needle
}

/// Calls `str::contains` with a string pattern. Trusted: the result says
/// whether the pattern occurs in the text.
#[verifier::external_body]
fn str_contains(haystack: &str, needle: &str) -> (r: bool)
    ensures
        r == occurs_in(needle@, haystack@),
{
    haystack.contains(needle)
}

/// The address of the database with the mode that creates the file where
/// it is missing: the configured address as it is where it names that mode,
/// else with the mode appended.
pub open spec fn database_url_text(configured: Seq<char>) -> Seq<char> {
    if occurs_in("mode=rwc"@, configured) {
        configured
    } else {
        configured + "?mode=rwc"@
    }
}

/// The address to open the database under.
pub fn database_url(configured: &str) -> (r: String)
    ensures
        r@ == database_url_text(configured@),
{
    if str_contains(configured, "mode=rwc") {
        configured.to_owned()
    } else {
        let mut out = configured.to_owned();
        out.append("?mode=rwc");
        out
    }
}

/// A text without the slashes at its end.
pub open spec fn without_trailing_slashes(text: Seq<char>) -> Seq<char>
    decreases text.len(),
{
    if text.len() > 0 && text.last() == '/' {
        without_trailing_slashes(text.drop_last())
    } else {
        text
    }
}

proof fn lemma_without_trailing_slashes(text: Seq<char>, end: int)
    requires
        0 <= end <= text.len(),
        forall|j: int| end <= j < text.len() ==> text[j] == '/',
        end > 0 ==> text[end - 1] != '/',
    ensures
        without_trailing_slashes(text) == text.take(end),
    decreases text.len() - end,
{
    if end == text.len() {
        assert(text.take(end) =~= text);
    } else {
        assert(text[text.len() - 1] == '/');
        lemma_without_trailing_slashes(text.drop_last(), end);
        assert(text.drop_last().take(end) =~= text.take(end));
    }
}

/// An origin as browsers send it: the address without slashes at its end.
pub fn origin_of(url: &str) -> (r: String)
    ensures
        r@ == without_trailing_slashes(url@),
{
    let chars = chars_of(url);
    let mut end: usize = chars.len();
    while end > 0 && chars[end - 1] == '/'
        invariant
            end <= chars.len(),
            forall|j: int| end <= j < chars.len() ==> chars@[j] == '/',
        decreases end,
    {
        end = end - 1;
    }
    proof {
        lemma_without_trailing_slashes(chars@, end as int);
    }
    let mut out = String::new();
    let mut i: usize = 0;
    while i < end
        invariant
            i <= end <= chars.len(),
            out@ == chars@.take(i as int),
        decreases end - i,
    {
        string_push(&mut out, chars[i]);
        assert(chars@.take(i as int).push(chars@[i as int]) =~= chars@.take(i + 1));
        i = i + 1;
    }
    out
}

/// The origins that may call the service from a browser: the configured
/// front end and the production front end.
pub fn allowed_origins(frontend_url: &str) -> (r: Vec<String>)
    ensures
        r.len() == 2,
        r@[0]@ == without_trailing_slashes(frontend_url@),
        r@[1]@ == without_trailing_slashes(production_url()),
{
    let mut out: Vec<String> = Vec::new();
    out.push(origin_of(frontend_url));
    out.push(origin_of("https://voideid.scetrov.live"));
    out
}

/// Whether a login is that of the configured initial admin.
pub fn is_initial_admin(configured: Option<&str>, discord_id: &str) -> (r: bool)
    ensures
        r == (opt_str_view(configured) == Some(discord_id@)),
{
    match configured {
        Some(id) => same_text(id, discord_id),
        None => false,
    }
}

/// The key under which a request counts against the rate limit: the
/// client's address as proxies report it, else the peer's address, else one
/// key shared by all requests of unknown origin.
pub fn rate_limit_key(forwarded: Option<String>, peer: Option<String>) -> (r: String)
    ensures
        r@ == match forwarded {
            Some(ip) => ip@,
            None => match peer {
                Some(ip) => ip@,
                None => "fallback-internal"@,
            },
        },
{
    match forwarded {
        Some(ip) => ip,
        None => match peer {
            Some(ip) => ip,
            None => "fallback-internal".to_owned(),
        },
    }
}

/// The answer to a health check.
pub fn ping() -> (r: (u16, &'static str))
    ensures
        r.0 == 200,
        r.1@ == "pong"@,
{
    (200, "pong")
}

} // verus!
