use vstd::prelude::*;

verus! {

/// Whether the bytes parse as a URI authority, as the `http` crate decides.
pub uninterp spec fn valid_authority(s: Seq<u8>) -> bool;

/// Relies on `http::uri::Authority::try_from(&[u8])`: it accepts or rejects
/// the bytes from their content alone, and rejects an empty input.
#[verifier::external_body]
fn authority_parses(s: &[u8]) -> (r: bool)
    ensures
        r == valid_authority(s@),
        s@.len() == 0 ==> !r,
{
    http::uri::Authority::try_from(s).is_ok()
}

/// `k` is the first position of `b` in `a`.
pub open spec fn first_at(a: Seq<u8>, b: u8, k: int) -> bool {
    0 <= k < a.len() && a[k] == b && forall|j: int| 0 <= j < k ==> a[j] != b
}

/// The first position of `b` in `a`, or the length when it does not occur.
pub open spec fn find_byte(a: Seq<u8>, b: u8) -> int {
    if exists|k: int| first_at(a, b, k) {
        choose|k: int| first_at(a, b, k)
    } else {
        a.len() as int
    }
}

pub fn find(a: &[u8], b: u8) -> (r: usize)
    ensures
        r as int == find_byte(a@, b),
{
    let mut i: usize = 0;
    while i < a.len()
        invariant
            i <= a@.len(),
            forall|j: int| 0 <= j < i ==> a@[j] != b,
        decreases a@.len() - i,
    {
        if a[i] == b {
            assert(first_at(a@, b, i as int));
            let ghost k = choose|k: int| first_at(a@, b, k);
            assert(k == i as int) by {
                if k < i as int {
                    assert(a@[k] != b);
                } else if k > i as int {
                    assert(a@[i as int] != b);
                }
            }
            return i;
        }
        i = i + 1;
    }
    assert(!exists|k: int| first_at(a@, b, k));
    i
}

/// The host of an authority `host[:port]`: a bracketed IPv6 literal with
/// its brackets, or everything before the first colon.
pub open spec fn host_of(a: Seq<u8>) -> Seq<u8> {
    if a.len() > 0 && a[0] == 91u8 && find_byte(a, 93u8) < a.len() {
        a.subrange(0, find_byte(a, 93u8) + 1)
    } else {
        a.subrange(0, find_byte(a, 58u8))
    }
}

/// The host that a leaf certificate for `authority` names.
pub fn leaf_host(authority: &[u8]) -> (r: Vec<u8>)
    ensures
        r@ == host_of(authority@),
{
    if authority.len() > 0 && authority[0] == 91u8 {
        let k = find(authority, 93u8);
        if k < authority.len() {
            return vstd::slice::slice_to_vec(vstd::slice::slice_subrange(authority, 0, k + 1));
        }
    }
    let k = find(authority, 58u8);
    vstd::slice::slice_to_vec(vstd::slice::slice_subrange(authority, 0, k))
}

/// Why the absolute URI of an inner request could not be built.
#[derive(Debug, PartialEq, Eq, Clone, Copy)]
pub enum UriError {
    /// The request has no `Host` header.
    MissingHost,
    /// The `Host` header is not a valid authority.
    InvalidHost,
}

pub open spec fn https_prefix() -> Seq<u8> {
    seq![104u8, 116u8, 116u8, 112u8, 115u8, 58u8, 47u8, 47u8]
}

/// `https://<host><path?query>`, with `/` for an empty path.
pub open spec fn absolute_uri(host: Seq<u8>, path_and_query: Seq<u8>) -> Seq<u8> {
    https_prefix() + host + if path_and_query.len() == 0 { seq![47u8] } else { path_and_query }
}

/// Builds the absolute URI of a request that arrived inside an intercepted
/// TLS session, given whether the `Host` value parses as an authority.
pub fn build_inner_uri(host: Option<&[u8]>, path_and_query: &[u8], host_ok: bool) -> (r: Result<Vec<u8>, UriError>)
    ensures
        match host {
            None => r == Err::<Vec<u8>, UriError>(UriError::MissingHost),
            Some(h) => if host_ok {
                r.is_ok() && r.unwrap()@ == absolute_uri(h@, path_and_query@)
            } else {
                r == Err::<Vec<u8>, UriError>(UriError::InvalidHost)
            },
        },
{
    match host {
        None => Err(UriError::MissingHost),
        Some(h) => {
            if !host_ok {
                return Err(UriError::InvalidHost);
            }
            let mut out: Vec<u8> = vec![104u8, 116u8, 116u8, 112u8, 115u8, 58u8, 47u8, 47u8];
            let ghost pre = out@;
            out.extend_from_slice(h);
            assert(out@ =~= pre + h@);
            let ghost mid = out@;
            if path_and_query.len() == 0 {
                out.push(47u8);
                assert(out@ =~= mid + seq![47u8]);
            } else {
                out.extend_from_slice(path_and_query);
                assert(out@ =~= mid + path_and_query@);
            }
            Ok(out)
        },
    }
}

/// The absolute URI of an inner request, from its `Host` header and its
/// origin-form path and query.
pub fn inner_request_uri(host: Option<&[u8]>, path_and_query: &[u8]) -> (r: Result<Vec<u8>, UriError>)
    ensures
        match host {
            None => r == Err::<Vec<u8>, UriError>(UriError::MissingHost),
            Some(h) => if valid_authority(h@) {
                r.is_ok() && r.unwrap()@ == absolute_uri(h@, path_and_query@)
            } else {
                r == Err::<Vec<u8>, UriError>(UriError::InvalidHost)
            },
        },
{
    let ok = match host {
        Some(h) => authority_parses(h),
        None => false,
    };
    build_inner_uri(host, path_and_query, ok)
}

} // verus!
