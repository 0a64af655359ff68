//! The set of hostnames under which the proxy is reachable, and the
//! lookup that maps an incoming `Host` header to the proxy hostname it
//! ends with.

use vstd::prelude::*;

use crate::error::ParserError;
use crate::strutil::{concat2, str_ends_with};

verus! {

/// Shifts an optional index by `k`.
pub open spec fn opt_shift(o: Option<int>, k: int) -> Option<int> {
    match o {
        None => None,
        Some(j) => Some(j + k),
    }
}

/// The index of the first element of `domains` that is a suffix of `host`.
pub open spec fn first_match(domains: Seq<String>, host: Seq<char>) -> Option<int>
    decreases domains.len(),
{
    if domains.len() == 0 {
        None
    } else if domains[0]@.is_suffix_of(host) {
        Some(0)
    } else {
        opt_shift(first_match(domains.skip(1), host), 1)
    }
}

/// The proxy hostname found for `host`, when there is one.
pub open spec fn matched_host(domains: Seq<String>, host: Seq<char>) -> Seq<char> {
    domains[first_match(domains, host)->0]@
}

pub proof fn lemma_first_match_bounds(domains: Seq<String>, host: Seq<char>)
    ensures
        match first_match(domains, host) {
            Some(i) => 0 <= i < domains.len() && domains[i]@.is_suffix_of(host) && forall|j: int|
                0 <= j < i ==> !(#[trigger] domains[j]@).is_suffix_of(host),
            None => forall|j: int|
                0 <= j < domains.len() ==> !(#[trigger] domains[j]@).is_suffix_of(host),
        },
    decreases domains.len(),
{
    if domains.len() > 0 && !domains[0]@.is_suffix_of(host) {
        lemma_first_match_bounds(domains.skip(1), host);
        match first_match(domains.skip(1), host) {
            Some(i) => {
                assert forall|j: int| 0 <= j < i + 1 implies !(
                #[trigger] domains[j]@).is_suffix_of(host) by {
                    if j > 0 {
                        assert(domains.skip(1)[j - 1] == domains[j]);
                    }
                }
                assert(domains.skip(1)[i] == domains[i + 1]);
            },
            None => {
                assert forall|j: int| 0 <= j < domains.len() implies !(
                #[trigger] domains[j]@).is_suffix_of(host) by {
                    if j > 0 {
                        assert(domains.skip(1)[j - 1] == domains[j]);
                    }
                }
            },
        }
    }
}

/// Well-formedness of a set of hostnames given by their views: no element
/// is a suffix of another.
pub open spec fn views_wf(domains: Seq<Seq<char>>) -> bool {
    forall|i: int, j: int|
        0 <= i < domains.len() && 0 <= j < domains.len() && i != j ==> !(
        #[trigger] domains[i]).is_suffix_of(#[trigger] domains[j])
}

/// The fully-qualified hostnames the proxy answers under.
#[derive(Debug)]
pub struct HostDomains {
    pub domains: Vec<String>,
}

/// Law: a host set is well-formed exactly when its element views are.
pub proof fn lemma_wf_is_views_wf(hosts: &HostDomains)
    ensures
        hosts.wf() <==> views_wf(hosts.domains@.map_values(|s: String| s@)),
{
    let vs = hosts.domains@.map_values(|s: String| s@);
    if hosts.wf() {
        assert forall|i: int, j: int|
            0 <= i < vs.len() && 0 <= j < vs.len() && i != j implies !(
        #[trigger] vs[i]).is_suffix_of(#[trigger] vs[j]) by {
            assert(vs[i] == hosts.domains@[i]@);
            assert(vs[j] == hosts.domains@[j]@);
        }
    }
    if views_wf(vs) {
        assert forall|i: int, j: int|
            0 <= i < hosts.domains@.len() && 0 <= j < hosts.domains@.len() && i != j implies !(
        #[trigger] hosts.domains@[i]@).is_suffix_of(#[trigger] hosts.domains@[j]@) by {
            assert(vs[i] == hosts.domains@[i]@);
            assert(vs[j] == hosts.domains@[j]@);
        }
    }
}

impl HostDomains {
    /// Well-formedness: no element is a suffix of another (in particular
    /// there are no duplicates), so suffix lookup is unambiguous.
    pub open spec fn wf(&self) -> bool {
        forall|i: int, j: int|
            0 <= i < self.domains@.len() && 0 <= j < self.domains@.len() && i != j
                ==> !(#[trigger] self.domains@[i]@).is_suffix_of(#[trigger] self.domains@[j]@)
    }

    /// Whether the set is well-formed: no element a suffix of another.
    pub fn check_wf(&self) -> (r: bool)
        ensures
            r == self.wf(),
    {
        let n = self.domains.len();
        let mut i: usize = 0;
        while i < n
            invariant
                n == self.domains@.len(),
                i <= n,
                forall|a: int, b: int|
                    0 <= a < i && 0 <= b < n && a != b ==> !(
                    #[trigger] self.domains@[a]@).is_suffix_of(#[trigger] self.domains@[b]@),
            decreases n - i,
        {
            let mut j: usize = 0;
            while j < n
                invariant
                    n == self.domains@.len(),
                    i < n,
                    j <= n,
                    forall|a: int, b: int|
                        0 <= a < i && 0 <= b < n && a != b ==> !(
                        #[trigger] self.domains@[a]@).is_suffix_of(#[trigger] self.domains@[b]@),
                    forall|b: int|
                        0 <= b < j && b != i ==> !self.domains@[i as int]@.is_suffix_of(
                            (#[trigger] self.domains@[b])@,
                        ),
                decreases n - j,
            {
                if j != i && str_ends_with(self.domains[j].as_str(), self.domains[i].as_str()) {
                    return false;
                }
                j = j + 1;
            }
            i = i + 1;
        }
        true
    }

    /// The first configured domain that `host` ends with.
    pub fn find_proxy_host<'a>(&'a self, host: &str) -> (r: Result<&'a String, ParserError>)
        ensures
            match r {
                Ok(d) => first_match(self.domains@, host@) is Some && d@ == matched_host(
                    self.domains@,
                    host@,
                ),
                Err(e) => first_match(self.domains@, host@) is None && e is MalformedProtocol,
            },
    {
        let n = self.domains.len();
        let mut i: usize = 0;
        proof {
            assert(self.domains@.skip(0) =~= self.domains@);
        }
        while i < n
            invariant
                n == self.domains@.len(),
                i <= n,
                first_match(self.domains@, host@) == opt_shift(
                    first_match(self.domains@.skip(i as int), host@),
                    i as int,
                ),
            decreases n - i,
        {
            proof {
                assert(self.domains@.skip(i as int)[0] == self.domains@[i as int]);
                assert(self.domains@.skip(i as int).skip(1) =~= self.domains@.skip(i + 1));
            }
            if str_ends_with(host, self.domains[i].as_str()) {
                return Ok(&self.domains[i]);
            }
            i = i + 1;
        }
        Err(ParserError::MalformedProtocol(concat2("proxy host not found for host: ", host)))
    }
}

/// Law: under a well-formed proxy-host set, no two distinct elements are
/// suffixes of the same host, so the match found by `find_proxy_host` is
/// the only one.
pub proof fn lemma_proxy_host_unambiguous(hosts: &HostDomains, host: Seq<char>, i: int, j: int)
    requires
        hosts.wf(),
        0 <= i < hosts.domains@.len(),
        0 <= j < hosts.domains@.len(),
        hosts.domains@[i]@.is_suffix_of(host),
        hosts.domains@[j]@.is_suffix_of(host),
    ensures
        i == j,
{
    let a = hosts.domains@[i]@;
    let b = hosts.domains@[j]@;
    if i != j {
        if a.len() <= b.len() {
            assert(a =~= b.subrange(b.len() - a.len(), b.len() as int));
            assert(a.is_suffix_of(b));
        } else {
            assert(b =~= a.subrange(a.len() - b.len(), a.len() as int));
            assert(b.is_suffix_of(a));
        }
    }
}

} // verus!
