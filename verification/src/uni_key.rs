//! The uni-key subsystem: one access key serves buckets across many
//! accounts and regions, so the proxy keeps an index from bucket name to
//! the accounts and regions that hold it, built by listing every
//! configured account's buckets.

use vstd::prelude::*;

use crate::error::ProxyError;
use crate::iam::AwsAccount;
use crate::input::{opt_str_view, ObjectStorageInput};
use crate::region::{from_region_to_endpoint, region_endpoint};
use crate::strutil::{
    concat2, contains_str, first_where, lemma_first_where_unique, str_eq, str_starts_with,
    vec_contains_str,
};

verus! {

broadcast use vstd::string::group_string_axioms;

/// One place a bucket lives: the owning account, the region, and an
/// endpoint override for non-AWS upstreams.
#[derive(Debug)]
pub struct AccessInfo {
    pub account: AwsAccount,
    pub region: String,
    pub endpoint: Option<String>,
}

impl AccessInfo {
    /// A copy equal to `self`, field for field.
    pub fn duplicate(&self) -> (r: AccessInfo)
        ensures
            r == *self,
    {
        AccessInfo {
            account: self.account.duplicate(),
            region: self.region.clone(),
            endpoint: match &self.endpoint {
                None => None,
                Some(e) => Some(e.clone()),
            },
        }
    }
}

/// The probe region for an account, read off the prefix of its opaque id;
/// accounts with other ids cannot be probed.
pub open spec fn probe_region(id: Seq<char>) -> Option<Seq<char>> {
    if id == "us_aws_cas_1549"@ {
        Some("us-east-2"@)
    } else if "cn_aws"@.is_prefix_of(id) {
        Some("cn-northwest-1"@)
    } else if "us_aws"@.is_prefix_of(id) {
        Some("us-east-1"@)
    } else if "cn_tencent"@.is_prefix_of(id) {
        Some("ap-shanghai"@)
    } else if "us_tencent"@.is_prefix_of(id) {
        Some("na-ashburn"@)
    } else {
        None
    }
}

/// Derives the `(account, region, endpoint)` probes for the configured
/// accounts, in order; an account whose id matches no known prefix fails
/// the whole derivation.
pub fn build_access_info_vec(accounts: &Vec<AwsAccount>) -> (r: Result<Vec<AccessInfo>, ProxyError>)
    ensures
        match r {
            Ok(v) => v@.len() == accounts@.len() && forall|i: int|
                0 <= i < accounts@.len() ==> {
                    &&& probe_region((#[trigger] accounts@[i]).id@) is Some
                    &&& v@[i].account == accounts@[i]
                    &&& Some(v@[i].region@) == probe_region(accounts@[i].id@)
                    &&& opt_str_view(v@[i].endpoint) == region_endpoint(v@[i].region@)
                    &&& crate::region::region_host(v@[i].region@) is Some
                },
            Err(e) => e is AssertFail && exists|i: int|
                0 <= i < accounts@.len() && probe_region((#[trigger] accounts@[i]).id@) is None,
        },
{
    proof {
        reveal_strlit("cn-northwest-1");
        reveal_strlit("us-east-1");
        reveal_strlit("us-east-2");
        reveal_strlit("ap-shanghai");
        reveal_strlit("na-ashburn");
        assert(("cn-northwest-1"@).len() == 14);
        assert(("us-east-1"@).len() == 9);
        assert(("us-east-2"@).len() == 9);
        assert(("ap-shanghai"@).len() == 11);
        assert(("na-ashburn"@).len() == 10);
    }
    let mut out: Vec<AccessInfo> = Vec::new();
    let n = accounts.len();
    let mut i: usize = 0;
    while i < n
        invariant
            n == accounts@.len(),
            i <= n,
            out@.len() == i,
            forall|k: int|
                0 <= k < i ==> {
                    &&& probe_region((#[trigger] accounts@[k]).id@) is Some
                    &&& out@[k].account == accounts@[k]
                    &&& Some(out@[k].region@) == probe_region(accounts@[k].id@)
                    &&& opt_str_view(out@[k].endpoint) == region_endpoint(out@[k].region@)
                    &&& crate::region::region_host(out@[k].region@) is Some
                },
        decreases n - i,
    {
        proof {
            reveal_strlit("cn-northwest-1");
            reveal_strlit("us-east-1");
            reveal_strlit("us-east-2");
            reveal_strlit("ap-shanghai");
            reveal_strlit("na-ashburn");
            assert(("cn-northwest-1"@).len() == 14);
            assert(("us-east-1"@).len() == 9);
            assert(("us-east-2"@).len() == 9);
            assert(("ap-shanghai"@).len() == 11);
            assert(("na-ashburn"@).len() == 10);
        }
        let account = &accounts[i];
        let id = account.id.as_str();
        let info: AccessInfo = if str_eq(id, "us_aws_cas_1549") {
            AccessInfo {
                account: account.duplicate(),
                region: String::from_str("us-east-2"),
                endpoint: None,
            }
        } else if str_starts_with(id, "cn_aws") {
            AccessInfo {
                account: account.duplicate(),
                region: String::from_str("cn-northwest-1"),
                endpoint: None,
            }
        } else if str_starts_with(id, "us_aws") {
            AccessInfo {
                account: account.duplicate(),
                region: String::from_str("us-east-1"),
                endpoint: None,
            }
        } else if str_starts_with(id, "cn_tencent") {
            let ep = match from_region_to_endpoint("ap-shanghai") {
                Ok(ep) => ep,
                Err(_) => unreached(),
            };
            AccessInfo {
                account: account.duplicate(),
                region: String::from_str("ap-shanghai"),
                endpoint: Some(ep),
            }
        } else if str_starts_with(id, "us_tencent") {
            let ep = match from_region_to_endpoint("na-ashburn") {
                Ok(ep) => ep,
                Err(_) => unreached(),
            };
            AccessInfo {
                account: account.duplicate(),
                region: String::from_str("na-ashburn"),
                endpoint: Some(ep),
            }
        } else {
            return Err(
                ProxyError::AssertFail(
                    concat2(
                        "match region failed, unsupported account id: ",
                        account.code.as_str(),
                    ),
                ),
            );
        };
        proof {
            lemma_probe_region_has_host(accounts@[i as int].id@);
        }
        out.push(info);
        i = i + 1;
    }
    Ok(out)
}

/// The map an association list stands for: later entries would win, and
/// well-formed lists have no repeated keys.
pub open spec fn assoc_map(entries: Seq<(String, Vec<AccessInfo>)>) -> Map<
    Seq<char>,
    Seq<AccessInfo>,
>
    decreases entries.len(),
{
    if entries.len() == 0 {
        Map::empty()
    } else {
        assoc_map(entries.drop_last()).insert(entries.last().0@, entries.last().1@)
    }
}

pub proof fn lemma_assoc_map_get(entries: Seq<(String, Vec<AccessInfo>)>, k: int)
    requires
        0 <= k < entries.len(),
        forall|i: int, j: int|
            0 <= i < entries.len() && 0 <= j < entries.len() && i != j ==> (
            #[trigger] entries[i].0@) != (#[trigger] entries[j].0@),
    ensures
        assoc_map(entries).contains_key(entries[k].0@),
        assoc_map(entries)[entries[k].0@] == entries[k].1@,
    decreases entries.len(),
{
    if k < entries.len() - 1 {
        assert(entries.drop_last()[k] == entries[k]);
        lemma_assoc_map_get(entries.drop_last(), k);
    }
}

pub proof fn lemma_assoc_map_absent(entries: Seq<(String, Vec<AccessInfo>)>, key: Seq<char>)
    requires
        forall|i: int| 0 <= i < entries.len() ==> (#[trigger] entries[i].0@) != key,
    ensures
        !assoc_map(entries).contains_key(key),
    decreases entries.len(),
{
    if entries.len() > 0 {
        assert(entries.drop_last() =~= entries.take(entries.len() - 1));
        lemma_assoc_map_absent(entries.drop_last(), key);
    }
}

/// The access info serving `bucket` for a client signing in `region`: the
/// sole entry when the bucket lives in one place, else the entry for the
/// signed region.
pub open spec fn spec_find_access_info(
    index: Map<Seq<char>, Seq<AccessInfo>>,
    bucket: Seq<char>,
    region: Seq<char>,
) -> Option<AccessInfo> {
    if !index.contains_key(bucket) {
        None
    } else {
        let list = index[bucket];
        if list.len() == 1 {
            Some(list[0])
        } else {
            match first_where(list, |ai: AccessInfo| ai.region@ == region) {
                None => None,
                Some(i) => Some(list[i]),
            }
        }
    }
}

/// The bucket index of the uni-key mode: each bucket maps to the places
/// it lives, one per listing that reported it, in listing order.
#[derive(Debug)]
pub struct UniKeyInfo {
    pub inner: Vec<(String, Vec<AccessInfo>)>,
}

impl View for UniKeyInfo {
    type V = Map<Seq<char>, Seq<AccessInfo>>;

    open spec fn view(&self) -> Map<Seq<char>, Seq<AccessInfo>> {
        assoc_map(self.inner@)
    }
}

/// Whether some entry of the list is for this region.
pub open spec fn has_region(list: Seq<AccessInfo>, region: Seq<char>) -> bool {
    exists|i: int| 0 <= i < list.len() && list[i].region@ == region
}

impl UniKeyInfo {
    /// Well-formedness: no bucket repeats, no bucket maps to an empty
    /// list, and within one list no two entries share a region.
    pub open spec fn wf(&self) -> bool {
        &&& forall|i: int, j: int|
            0 <= i < self.inner@.len() && 0 <= j < self.inner@.len() && i != j ==> (
            #[trigger] self.inner@[i].0@) != (#[trigger] self.inner@[j].0@)
        &&& forall|i: int| 0 <= i < self.inner@.len() ==> (#[trigger] self.inner@[i].1@).len() > 0
        &&& forall|i: int, k: int, l: int|
            0 <= i < self.inner@.len() && 0 <= k < (#[trigger] self.inner@[i].1@).len() && 0 <= l
                < self.inner@[i].1@.len() && k != l ==> (#[trigger] self.inner@[i].1@[k]).region@
                != (#[trigger] self.inner@[i].1@[l]).region@
    }

    /// The account and region serving this input's bucket. `ListBuckets`
    /// is refused: without a bucket there is no account hint. A bucket
    /// living in one place routes there; one living in several routes to
    /// the entry whose region the client signed for.
    pub fn find_access_info<'a>(&'a self, input: &ObjectStorageInput, region: &str) -> (r: Result<
        &'a AccessInfo,
        ProxyError,
    >)
        requires
            self.wf(),
            input.wf(),
        ensures
            match r {
                Ok(a) => !(input.kind is ListBuckets) && spec_find_access_info(
                    self@,
                    input.bucket->0@,
                    region@,
                ) == Some(*a),
                Err(e) => match e {
                    ProxyError::OperationNotSupported(_) => input.kind is ListBuckets,
                    ProxyError::ResourceNotFound(_) => !(input.kind is ListBuckets)
                        && spec_find_access_info(self@, input.bucket->0@, region@) is None,
                    _ => false,
                },
            },
    {
        if matches!(input.action_kind(), crate::input::ActionKind::ListBuckets) {
            return Err(
                ProxyError::OperationNotSupported(
                    String::from_str("ListBuckets not supported due to uni-key feature"),
                ),
            );
        }
        let bucket = input.bucket();
        let n = self.inner.len();
        let mut i: usize = 0;
        while i < n
            invariant
                self.wf(),
                input.wf(),
                !(input.kind is ListBuckets),
                input.bucket is Some,
                *bucket == input.bucket->0,
                n == self.inner@.len(),
                i <= n,
                forall|j: int| 0 <= j < i ==> (#[trigger] self.inner@[j].0@) != bucket@,
            decreases n - i,
        {
            if str_eq(self.inner[i].0.as_str(), bucket.as_str()) {
                proof {
                    lemma_assoc_map_get(self.inner@, i as int);
                }
                let list = &self.inner[i].1;
                if list.len() == 1 {
                    return Ok(&list[0]);
                }
                let ghost pred = |ai: AccessInfo| ai.region@ == region@;
                let m = list.len();
                let mut j: usize = 0;
                while j < m
                    invariant
                        !(input.kind is ListBuckets),
                        input.bucket is Some,
                        *bucket == input.bucket->0,
                        self@.contains_key(bucket@),
                        self@[bucket@] == list@,
                        list@.len() != 1,
                        m == list@.len(),
                        j <= m,
                        forall|k: int| 0 <= k < j ==> !pred(list@[k]),
                        pred == (|ai: AccessInfo| ai.region@ == region@),
                    decreases m - j,
                {
                    if str_eq(list[j].region.as_str(), region) {
                        proof {
                            lemma_first_where_unique(list@, pred, j as int);
                        }
                        return Ok(&list[j]);
                    }
                    j = j + 1;
                }
                proof {
                    lemma_first_where_unique(list@, pred, m as int);
                }
                return Err(
                    ProxyError::ResourceNotFound(
                        concat2(
                            "multiple buckets share this name, none in the signed region: ",
                            bucket.as_str(),
                        ),
                    ),
                );
            }
            i = i + 1;
        }
        proof {
            lemma_assoc_map_absent(self.inner@, bucket@);
        }
        Err(ProxyError::ResourceNotFound(concat2("access info not found for bucket: ", bucket.as_str())))
    }
}

/// Membership in a pushed list of strings.
pub proof fn lemma_contains_str_push(v: Seq<String>, s: String, x: Seq<char>)
    ensures
        contains_str(v.push(s), x) <==> (contains_str(v, x) || s@ == x),
{
    if contains_str(v, x) {
        let i = choose|i: int| 0 <= i < v.len() && v[i]@ == x;
        assert(v.push(s)[i]@ == x);
    }
    if s@ == x {
        assert(v.push(s)[v.len() as int]@ == x);
    }
    if contains_str(v.push(s), x) {
        let i = choose|i: int| 0 <= i < v.push(s).len() && v.push(s)[i]@ == x;
        if i < v.len() {
            assert(v[i]@ == x);
        }
    }
}

/// The ap-shanghai listing with the na-ashburn buckets removed, first
/// occurrences kept, order preserved.
pub open spec fn dedup_filter(buckets: Seq<String>, na: Seq<String>) -> Seq<String>
    decreases buckets.len(),
{
    if buckets.len() == 0 {
        Seq::empty()
    } else {
        let rest = dedup_filter(buckets.drop_last(), na);
        if !contains_str(na, buckets.last()@) && !contains_str(
            buckets.drop_last(),
            buckets.last()@,
        ) {
            rest.push(buckets.last())
        } else {
            rest
        }
    }
}

/// Law (deduplication): a bucket name survives the Tencent cross-region
/// deduplication exactly when the listing carries it and the na-ashburn
/// cache does not.
pub proof fn lemma_dedup_filter_contains(buckets: Seq<String>, na: Seq<String>, x: Seq<char>)
    ensures
        contains_str(dedup_filter(buckets, na), x) <==> (contains_str(buckets, x) && !contains_str(
            na,
            x,
        )),
    decreases buckets.len(),
{
    if buckets.len() > 0 {
        let d = buckets.drop_last();
        let last = buckets.last();
        lemma_dedup_filter_contains(d, na, x);
        assert(buckets =~= d.push(last));
        lemma_contains_str_push(d, last, x);
        if !contains_str(na, last@) && !contains_str(d, last@) {
            lemma_contains_str_push(dedup_filter(d, na), last, x);
        }
    }
}

/// A bucket inserted under `info`: its list grows by `info` at the end; a
/// new bucket starts a fresh list. A bucket already recorded for this
/// region is not recorded for it again, so no list ever holds two entries
/// of one region.
pub open spec fn insert_bucket(
    index: Map<Seq<char>, Seq<AccessInfo>>,
    info: AccessInfo,
    b: Seq<char>,
) -> Map<Seq<char>, Seq<AccessInfo>> {
    let cur = if index.contains_key(b) {
        index[b]
    } else {
        Seq::empty()
    };
    if has_region(cur, info.region@) {
        index
    } else {
        index.insert(b, cur.push(info))
    }
}

/// All buckets of one listing inserted, in listing order.
pub open spec fn insert_buckets(
    index: Map<Seq<char>, Seq<AccessInfo>>,
    info: AccessInfo,
    buckets: Seq<String>,
) -> Map<Seq<char>, Seq<AccessInfo>>
    decreases buckets.len(),
{
    if buckets.len() == 0 {
        index
    } else {
        insert_buckets(insert_bucket(index, info, buckets[0]@), info, buckets.skip(1))
    }
}

/// The bucket index built from the listings, in order, starting from the
/// na-ashburn cache `na` and the index `index`: an na-ashburn listing
/// replaces the cache, an ap-shanghai listing is deduplicated against it,
/// and every effective bucket records the listing's access info.
pub open spec fn spec_build_index(
    listings: Seq<(AccessInfo, Vec<String>)>,
    na: Seq<String>,
    index: Map<Seq<char>, Seq<AccessInfo>>,
) -> Map<Seq<char>, Seq<AccessInfo>>
    decreases listings.len(),
{
    if listings.len() == 0 {
        index
    } else {
        let info = listings[0].0;
        let buckets = listings[0].1@;
        let eff = if info.region@ == "ap-shanghai"@ {
            dedup_filter(buckets, na)
        } else {
            buckets
        };
        let na2 = if info.region@ == "na-ashburn"@ {
            buckets
        } else {
            na
        };
        spec_build_index(listings.skip(1), na2, insert_buckets(index, info, eff))
    }
}

pub proof fn lemma_assoc_map_update(
    entries: Seq<(String, Vec<AccessInfo>)>,
    k: int,
    q: (String, Vec<AccessInfo>),
)
    requires
        0 <= k < entries.len(),
        forall|i: int, j: int|
            0 <= i < entries.len() && 0 <= j < entries.len() && i != j ==> (
            #[trigger] entries[i].0@) != (#[trigger] entries[j].0@),
        q.0@ == entries[k].0@,
    ensures
        assoc_map(entries.update(k, q)) == assoc_map(entries).insert(q.0@, q.1@),
    decreases entries.len(),
{
    let e2 = entries.update(k, q);
    if k == entries.len() - 1 {
        assert(e2.drop_last() =~= entries.drop_last());
        assert(e2.last() == q);
        assert(assoc_map(entries.drop_last()).insert(q.0@, q.1@) =~= assoc_map(
            entries.drop_last(),
        ).insert(entries.last().0@, entries.last().1@).insert(q.0@, q.1@));
    } else {
        assert(e2.drop_last() =~= entries.drop_last().update(k, q));
        assert(e2.last() == entries.last());
        assert(forall|i: int|
            0 <= i < entries.len() - 1 ==> entries.drop_last()[i] == entries[i]);
        lemma_assoc_map_update(entries.drop_last(), k, q);
        assert(assoc_map(entries.drop_last()).insert(q.0@, q.1@).insert(
            entries.last().0@,
            entries.last().1@,
        ) =~= assoc_map(entries.drop_last()).insert(entries.last().0@, entries.last().1@).insert(
            q.0@,
            q.1@,
        ));
    }
}

impl UniKeyInfo {
    /// Records that `b` also lives at `info`.
    fn insert_entry(&mut self, b: &String, info: AccessInfo)
        requires
            old(self).wf(),
        ensures
            final(self).wf(),
            final(self)@ == insert_bucket(old(self)@, info, b@),
    {
        let n = self.inner.len();
        let mut i: usize = 0;
        while i < n
            invariant
                *self == *old(self),
                self.wf(),
                n == self.inner@.len(),
                i <= n,
                forall|j: int| 0 <= j < i ==> (#[trigger] self.inner@[j].0@) != b@,
            decreases n - i,
        {
            if str_eq(self.inner[i].0.as_str(), b.as_str()) {
                proof {
                    lemma_assoc_map_get(self.inner@, i as int);
                }
                let m = self.inner[i].1.len();
                let mut k: usize = 0;
                while k < m
                    invariant
                        *self == *old(self),
                        old(self).wf(),
                        0 <= i < self.inner@.len(),
                        self@.contains_key(self.inner@[i as int].0@),
                        self@[self.inner@[i as int].0@] == self.inner@[i as int].1@,
                        self.inner@[i as int].0@ == b@,
                        m == self.inner@[i as int].1@.len(),
                        k <= m,
                        forall|l: int|
                            0 <= l < k ==> (#[trigger] self.inner@[i as int].1@[l]).region@
                                != info.region@,
                    decreases m - k,
                {
                    if str_eq(self.inner[i].1[k].region.as_str(), info.region.as_str()) {
                        // This region already holds the bucket: nothing to add.
                        proof {
                            assert(self.inner@[i as int].1@[k as int].region@ == info.region@);
                            assert(has_region(self@[b@], info.region@));
                        }
                        return;
                    }
                    k = k + 1;
                }
                proof {
                    assert(!has_region(self.inner@[i as int].1@, info.region@));
                }
                let (key, mut list) = self.inner.remove(i);
                list.push(info);
                self.inner.insert(i, (key, list));
                proof {
                    assert(self.inner@ =~= old(self).inner@.update(
                        i as int,
                        self.inner@[i as int],
                    ));
                    lemma_assoc_map_update(
                        old(self).inner@,
                        i as int,
                        self.inner@[i as int],
                    );
                }
                return;
            }
            i = i + 1;
        }
        proof {
            lemma_assoc_map_absent(self.inner@, b@);
        }
        self.inner.push((b.clone(), vec![info]));
        proof {
            assert(self.inner@.drop_last() =~= old(self).inner@);
            assert(Seq::<AccessInfo>::empty().push(info) =~= self.inner@.last().1@);
        }
    }

    /// Builds the bucket index from the listings, in order, with the
    /// Tencent cross-region deduplication: the buckets seen for na-ashburn
    /// are cached, and an ap-shanghai listing drops any bucket in that
    /// cache.
    pub fn new_from_listings(listings: &Vec<(AccessInfo, Vec<String>)>) -> (r: UniKeyInfo)
        ensures
            r.wf(),
            r@ == spec_build_index(listings@, Seq::empty(), Map::empty()),
            (forall|i: int|
                0 <= i < listings@.len() ==> crate::region::region_host(
                    (#[trigger] listings@[i]).0.region@,
                ) is Some) ==> index_regions_resolvable(r@),
    {
        let mut uki = UniKeyInfo { inner: Vec::new() };
        let mut na: Vec<String> = Vec::new();
        let n = listings.len();
        let mut i: usize = 0;
        proof {
            assert(listings@.skip(0) =~= listings@);
            assert(uki.inner@ =~= Seq::<(String, Vec<AccessInfo>)>::empty());
            assert(uki@ =~= Map::<Seq<char>, Seq<AccessInfo>>::empty());
            assert(na@ =~= Seq::<String>::empty());
        }
        while i < n
            invariant
                n == listings@.len(),
                i <= n,
                uki.wf(),
                spec_build_index(listings@, Seq::empty(), Map::empty()) == spec_build_index(
                    listings@.skip(i as int),
                    na@,
                    uki@,
                ),
            decreases n - i,
        {
            proof {
                assert(listings@.skip(i as int)[0] == listings@[i as int]);
                assert(listings@.skip(i as int).skip(1) =~= listings@.skip(i + 1));
            }
            let info = &listings[i].0;
            let buckets = &listings[i].1;
            let is_sh = str_eq(info.region.as_str(), "ap-shanghai");
            let is_na = str_eq(info.region.as_str(), "na-ashburn");
            let eff: Vec<String> = if is_sh {
                let mut e: Vec<String> = Vec::new();
                let m = buckets.len();
                let mut j: usize = 0;
                proof {
                    assert(buckets@.take(0) =~= Seq::<String>::empty());
                    assert(e@ =~= dedup_filter(buckets@.take(0), na@));
                }
                while j < m
                    invariant
                        m == buckets@.len(),
                        j <= m,
                        e@ == dedup_filter(buckets@.take(j as int), na@),
                    decreases m - j,
                {
                    proof {
                        assert(buckets@.take(j + 1).drop_last() =~= buckets@.take(j as int));
                        assert(buckets@.take(j + 1).last() == buckets@[j as int]);
                        lemma_dedup_filter_contains(
                            buckets@.take(j as int),
                            na@,
                            buckets@[j as int]@,
                        );
                    }
                    let b = &buckets[j];
                    if !vec_contains_str(&na, b.as_str()) && !vec_contains_str(&e, b.as_str()) {
                        e.push(b.clone());
                    }
                    j = j + 1;
                }
                proof {
                    assert(buckets@.take(m as int) =~= buckets@);
                }
                e
            } else {
                clone_string_vec(buckets)
            };
            if is_na {
                na = clone_string_vec(buckets);
            }
            let m = eff.len();
            let mut j: usize = 0;
            proof {
                assert(eff@.skip(0) =~= eff@);
            }
            while j < m
                invariant
                    n == listings@.len(),
                    i < n,
                    m == eff@.len(),
                    j <= m,
                    uki.wf(),
                    spec_build_index(listings@, Seq::empty(), Map::empty()) == spec_build_index(
                        listings@.skip(i + 1),
                        na@,
                        insert_buckets(uki@, listings@[i as int].0, eff@.skip(j as int)),
                    ),
                decreases m - j,
            {
                proof {
                    assert(eff@.skip(j as int)[0] == eff@[j as int]);
                    assert(eff@.skip(j as int).skip(1) =~= eff@.skip(j + 1));
                }
                uki.insert_entry(&eff[j], listings[i].0.duplicate());
                j = j + 1;
            }
            i = i + 1;
        }
        proof {
            assert(listings@.skip(n as int) =~= Seq::<(AccessInfo, Vec<String>)>::empty());
            if forall|k: int|
                0 <= k < listings@.len() ==> crate::region::region_host(
                    (#[trigger] listings@[k]).0.region@,
                ) is Some {
                assert(index_regions_resolvable(Map::<Seq<char>, Seq<AccessInfo>>::empty()));
                lemma_bucket_index_regions_resolvable(listings@, Seq::empty(), Map::empty());
            }
        }
        uki
    }
}

/// Law: every region a probe derivation can yield has a known real host.
pub proof fn lemma_probe_region_has_host(id: Seq<char>)
    requires
        probe_region(id) is Some,
    ensures
        crate::region::region_host(probe_region(id)->0) is Some,
{
    reveal_strlit("cn-northwest-1");
    reveal_strlit("us-east-1");
    reveal_strlit("us-east-2");
    reveal_strlit("ap-shanghai");
    reveal_strlit("na-ashburn");
    assert(("cn-northwest-1"@).len() == 14);
    assert(("us-east-1"@).len() == 9);
    assert(("us-east-2"@).len() == 9);
    assert(("ap-shanghai"@).len() == 11);
    assert(("na-ashburn"@).len() == 10);
    assert(("us-east-1"@)[8] == '1');
    assert(("us-east-2"@)[8] == '2');
}

/// Every access info reachable from the index has a region with a known
/// real host.
pub open spec fn index_regions_resolvable(index: Map<Seq<char>, Seq<AccessInfo>>) -> bool {
    forall|b: Seq<char>, k: int|
        index.contains_key(b) && 0 <= k < index[b].len() ==> crate::region::region_host(
            (#[trigger] index[b][k]).region@,
        ) is Some
}

pub proof fn lemma_insert_bucket_resolvable(
    index: Map<Seq<char>, Seq<AccessInfo>>,
    info: AccessInfo,
    b: Seq<char>,
)
    requires
        index_regions_resolvable(index),
        crate::region::region_host(info.region@) is Some,
    ensures
        index_regions_resolvable(insert_bucket(index, info, b)),
{
    let m = insert_bucket(index, info, b);
    assert forall|b2: Seq<char>, k: int|
        m.contains_key(b2) && 0 <= k < m[b2].len() implies crate::region::region_host(
        (#[trigger] m[b2][k]).region@,
    ) is Some by {
        if b2 == b {
            let cur = if index.contains_key(b) {
                index[b]
            } else {
                Seq::empty()
            };
            if k < cur.len() {
                assert(m[b2][k] == index[b][k]);
            } else {
                assert(m[b2][k] == info);
            }
        } else {
            assert(m[b2][k] == index[b2][k]);
        }
    }
}

pub proof fn lemma_insert_buckets_resolvable(
    index: Map<Seq<char>, Seq<AccessInfo>>,
    info: AccessInfo,
    buckets: Seq<String>,
)
    requires
        index_regions_resolvable(index),
        crate::region::region_host(info.region@) is Some,
    ensures
        index_regions_resolvable(insert_buckets(index, info, buckets)),
    decreases buckets.len(),
{
    if buckets.len() > 0 {
        lemma_insert_bucket_resolvable(index, info, buckets[0]@);
        lemma_insert_buckets_resolvable(insert_bucket(index, info, buckets[0]@), info, buckets.skip(1));
    }
}

/// Law: a bucket index built from listings whose regions all have real
/// hosts — as every probe-derived listing's does — only holds access infos
/// whose regions have real hosts.
pub proof fn lemma_bucket_index_regions_resolvable(
    listings: Seq<(AccessInfo, Vec<String>)>,
    na: Seq<String>,
    index: Map<Seq<char>, Seq<AccessInfo>>,
)
    requires
        index_regions_resolvable(index),
        forall|i: int|
            0 <= i < listings.len() ==> crate::region::region_host(
                (#[trigger] listings[i]).0.region@,
            ) is Some,
    ensures
        index_regions_resolvable(spec_build_index(listings, na, index)),
    decreases listings.len(),
{
    if listings.len() > 0 {
        let info = listings[0].0;
        let buckets = listings[0].1@;
        let eff = if info.region@ == "ap-shanghai"@ {
            dedup_filter(buckets, na)
        } else {
            buckets
        };
        let na2 = if info.region@ == "na-ashburn"@ {
            buckets
        } else {
            na
        };
        lemma_insert_buckets_resolvable(index, info, eff);
        assert(forall|i: int|
            0 <= i < listings.skip(1).len() ==> (#[trigger] listings.skip(1)[i])
                == listings[i + 1]);
        lemma_bucket_index_regions_resolvable(listings.skip(1), na2, insert_buckets(index, info, eff));
    }
}

pub proof fn lemma_insert_buckets_other_keys(
    index: Map<Seq<char>, Seq<AccessInfo>>,
    info: AccessInfo,
    buckets: Seq<String>,
    b: Seq<char>,
)
    requires
        !contains_str(buckets, b),
    ensures
        insert_buckets(index, info, buckets).contains_key(b) <==> index.contains_key(b),
        index.contains_key(b) ==> insert_buckets(index, info, buckets)[b] == index[b],
    decreases buckets.len(),
{
    if buckets.len() > 0 {
        assert(buckets[0]@ != b);
        assert forall|i: int| 0 <= i < buckets.skip(1).len() implies (#[trigger] buckets.skip(
            1,
        )[i])@ != b by {
            assert(buckets.skip(1)[i] == buckets[i + 1]);
        }
        lemma_insert_buckets_other_keys(insert_bucket(index, info, buckets[0]@), info, buckets.skip(1), b);
    }
}

/// Law: a bucket in the na-ashburn cache gains no entry from an
/// ap-shanghai listing: the deduplication removes it before insertion, so
/// its index entry is exactly what it was before that listing.
pub proof fn lemma_dedup_shields_na_buckets(
    index: Map<Seq<char>, Seq<AccessInfo>>,
    info: AccessInfo,
    buckets: Seq<String>,
    na: Seq<String>,
    b: Seq<char>,
)
    requires
        contains_str(na, b),
    ensures
        insert_buckets(index, info, dedup_filter(buckets, na)).contains_key(b)
            <==> index.contains_key(b),
        index.contains_key(b) ==> insert_buckets(index, info, dedup_filter(buckets, na))[b]
            == index[b],
{
    lemma_dedup_filter_contains(buckets, na, b);
    lemma_insert_buckets_other_keys(index, info, dedup_filter(buckets, na), b);
}

/// A copy of a vector of strings, element for element.
pub fn clone_string_vec(v: &Vec<String>) -> (r: Vec<String>)
    ensures
        r@ == v@,
{
    let mut out: Vec<String> = Vec::new();
    let n = v.len();
    let mut i: usize = 0;
    proof {
        assert(v@.take(0) =~= Seq::<String>::empty());
        assert(out@ =~= v@.take(0));
    }
    while i < n
        invariant
            n == v@.len(),
            i <= n,
            out@ == v@.take(i as int),
        decreases n - i,
    {
        out.push(v[i].clone());
        proof {
            assert(v@.take(i + 1) =~= v@.take(i as int).push(v@[i as int]));
        }
        i = i + 1;
    }
    proof {
        assert(v@.take(n as int) =~= v@);
    }
    out
}

/// The listing's bucket names; a listing without them is an invariant
/// violation.
pub fn buckets_from_listing(buckets: Option<Vec<String>>) -> (r: Result<Vec<String>, ProxyError>)
    ensures
        match r {
            Ok(v) => buckets == Some(v),
            Err(e) => buckets is None && e is AssertFail,
        },
{
    match buckets {
        Some(v) => Ok(v),
        None => Err(ProxyError::AssertFail(String::from_str("no buckets found"))),
    }
}

/// The diagnostic for a failed `ListBuckets` probe, naming the account,
/// its key and region, the upstream error, and the caller's public IP, to
/// aid diagnosing IP-whitelist misconfiguration.
pub fn list_buckets_error(
    code: &str,
    access_key: &str,
    region: &str,
    error_text: &str,
    ip_info: &str,
) -> (r: ProxyError)
    ensures
        r is OtherInternal,
        r.spec_message()@ == "failed to get buckets for account: "@ + code@ + " access_key: "@
            + access_key@ + " region: "@ + region@ + " Error: "@ + error_text@
            + ", normally it is caused by permissions not configured for the account, try check the IP whitelist on peer, ip_info: "@
            + ip_info@,
{
    let mut m = String::from_str("failed to get buckets for account: ");
    m.append(code);
    m.append(" access_key: ");
    m.append(access_key);
    m.append(" region: ");
    m.append(region);
    m.append(" Error: ");
    m.append(error_text);
    m.append(
        ", normally it is caused by permissions not configured for the account, try check the IP whitelist on peer, ip_info: ",
    );
    m.append(ip_info);
    ProxyError::OtherInternal(m)
}

/// The IP-probe response with newlines and tabs removed.
pub fn sanitize_ip_text(s: &str) -> (r: String)
    ensures
        r@ == s@.filter(|c: char| c != '\n' && c != '\t'),
{
    let ghost pred = |c: char| c != '\n' && c != '\t';
    let mut out = String::new();
    let n = s.unicode_len();
    let mut i: usize = 0;
    proof {
        reveal(Seq::filter);
        assert(s@.take(0) =~= Seq::<char>::empty());
        assert(out@ =~= s@.take(0).filter(pred));
    }
    while i < n
        invariant
            n == s@.len(),
            i <= n,
            out@ == s@.take(i as int).filter(pred),
            pred == (|c: char| c != '\n' && c != '\t'),
        decreases n - i,
    {
        proof {
            reveal(Seq::filter);
            assert(s@.take(i + 1).drop_last() =~= s@.take(i as int));
            assert(s@.take(i + 1).last() == s@[i as int]);
        }
        let c = s.get_char(i);
        if c != '\n' && c != '\t' {
            let piece = s.substring_char(i, i + 1);
            proof {
                assert(piece@ =~= seq![s@[i as int]]);
                assert(s@.take(i as int).filter(pred).push(s@[i as int]) =~= s@.take(
                    i as int,
                ).filter(pred) + piece@);
            }
            out.append(piece);
        }
        i = i + 1;
    }
    proof {
        assert(s@.take(n as int) =~= s@);
    }
    out
}

} // verus!
