//! URLs and the per-host rate-limit key.
//!
//! A URL is carried as its normalized absolute string; equality is
//! byte-exact on that form. The `url` crate does the parsing, resolving
//! and host extraction behind trusted wrappers; the suffix rule that
//! turns a host into its rate-limit key is the library's own logic and
//! is verified here.

use vstd::prelude::*;
use vstd::string::StrSliceExecFns;

verus! {

/// The view of an optional owned string.
pub open spec fn opt_string_view(r: Option<String>) -> Option<Seq<char>> {
    match r {
        Some(s) => Some(s@),
        None => None,
    }
}

/// The view of an optional host: the flag says whether the host is a
/// registrable domain (as opposed to an IP literal).
pub open spec fn opt_host_view(r: Option<(bool, String)>) -> Option<(bool, Seq<char>)> {
    match r {
        Some((d, s)) => Some((d, s@)),
        None => None,
    }
}

/// What resolving `href` against the absolute URL `base` yields: the
/// normalized absolute URL, or nothing when the reference cannot be
/// resolved. A function of the two strings alone.
pub uninterp spec fn join_of(base: Seq<char>, href: Seq<char>) -> Option<Seq<char>>;

/// Relies on url::Url::parse and url::Url::join: resolving a reference
/// against an absolute base URL is deterministic in the two strings, and
/// the resolved URL serializes to its normalized absolute form.
#[verifier::external_body]
pub(crate) fn join_url(base: &str, href: &str) -> (r: Option<String>)
    ensures
        opt_string_view(r) == join_of(base@, href@),
{
    url::Url::parse(base).ok().and_then(|b| b.join(href).ok()).map(String::from)
}

/// The host of a URL string: `Some((true, domain))` for a domain host,
/// `Some((false, literal))` for an IPv4 or IPv6 literal, `None` for a
/// hostless or unparseable string. A function of the string alone.
pub uninterp spec fn host_of(u: Seq<char>) -> Option<(bool, Seq<char>)>;

/// Relies on url::Url::parse and url::Url::host: the host of an absolute
/// URL string is deterministic in the string; `Host::Domain` carries the
/// domain text, and `host_str` gives an IP literal its textual form.
#[verifier::external_body]
fn url_host(u: &str) -> (r: Option<(bool, String)>)
    ensures
        opt_host_view(r) == host_of(u@),
{
    match url::Url::parse(u) {
        Ok(p) => match p.host() {
            Some(url::Host::Domain(d)) => Some((true, d.to_string())),
            Some(_) => Some((false, p.host_str().unwrap_or("").to_string())),
            None => None,
        },
        Err(_) => None,
    }
}

/// The index of the `remaining + 1`-th `.` in `d` at or left of position
/// `j`, scanning right to left.
pub open spec fn spec_find_dot(d: Seq<char>, j: int, remaining: nat) -> Option<int>
    decreases j + 1,
{
    if j < 0 || j >= d.len() {
        None
    } else if d[j] == '.' {
        if remaining == 0 {
            Some(j)
        } else {
            spec_find_dot(d, j - 1, (remaining - 1) as nat)
        }
    } else {
        spec_find_dot(d, j - 1, remaining)
    }
}

/// A found dot lies within the scanned range.
proof fn lemma_find_dot_in_range(d: Seq<char>, j: int, remaining: nat)
    ensures
        spec_find_dot(d, j, remaining) matches Some(i) ==> 0 <= i <= j && i < d.len(),
    decreases j + 1,
{
    if j >= 0 && j < d.len() && !(d[j] == '.' && remaining == 0) {
        if d[j] == '.' {
            lemma_find_dot_in_range(d, j - 1, (remaining - 1) as nat);
        } else {
            lemma_find_dot_in_range(d, j - 1, remaining);
        }
    }
}

/// The rate-limit key of a domain host: the suffix that begins after the
/// second-rightmost `.`, or the whole host when it has fewer than two
/// dots.
pub open spec fn spec_domain_key(d: Seq<char>) -> Seq<char> {
    match spec_find_dot(d, d.len() - 1, 1) {
        Some(i) => d.subrange(i + 1, d.len() as int),
        None => d,
    }
}

/// The rate-limit key of a URL's host: the registrable-domain-ish suffix
/// for a domain, the literal itself for an IP, the empty string for a
/// hostless URL.
pub open spec fn spec_small_host_name(h: Option<(bool, Seq<char>)>) -> Seq<char> {
    match h {
        Some((true, d)) => spec_domain_key(d),
        Some((false, s)) => s,
        None => Seq::<char>::empty(),
    }
}

/// The index of the `remaining + 1`-th `.` at or left of position
/// `jj - 1`, scanning right to left; `jj == 0` means the scan is done.
fn find_dot_from_right(s: &str, jj: usize, remaining: u32) -> (r: Option<usize>)
    requires
        jj <= s@.len(),
    ensures
        (match r {
            Some(i) => Some(i as int),
            None => None,
        }) == spec_find_dot(s@, jj - 1, remaining as nat),
    decreases jj,
{
    if jj == 0 {
        None
    } else {
        let j = jj - 1;
        let c = s.get_char(j);
        if c == '.' {
            if remaining == 0 {
                Some(j)
            } else {
                find_dot_from_right(s, j, remaining - 1)
            }
        } else {
            find_dot_from_right(s, j, remaining)
        }
    }
}

/// The suffix of the domain `h` after its second-rightmost dot.
fn domain_key(h: String) -> (k: String)
    ensures
        k@ == spec_domain_key(h@),
{
    let n = h.as_str().unicode_len();
    match find_dot_from_right(h.as_str(), n, 1) {
        Some(i) => {
            proof {
                lemma_find_dot_in_range(h@, h@.len() - 1, 1);
            }
            h.as_str().substring_char(i + 1, n).to_owned()
        },
        None => h,
    }
}

/// The rate-limit bucket of a URL. Most sites share a rate-limit policy
/// across subdomains, so requests are keyed by the domain suffix rather
/// than the full host.
pub fn small_host_name(u: &str) -> (k: String)
    ensures
        k@ == spec_small_host_name(host_of(u@)),
{
    match url_host(u) {
        Some((is_domain, h)) => {
            if is_domain {
                domain_key(h)
            } else {
                h
            }
        },
        None => String::new(),
    }
}

} // verus!
