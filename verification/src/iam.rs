//! The consumed interface of the IAM container: accounts, users, groups
//! and policies, with the lookups the pipeline makes. The container itself
//! is loaded elsewhere; the pipeline only reads it.

use vstd::prelude::*;

use crate::effect::Effect;
use crate::error::ProxyError;
use crate::input::ObjectStorageInput;
use crate::strutil::{
    concat2, contains_str, first_where, lemma_first_where_unique, str_eq, str_starts_with,
    vec_contains_str,
};

verus! {

/// An upstream cloud account: an opaque id, a short code, and the real
/// credentials the proxy signs with.
#[derive(Debug)]
pub struct AwsAccount {
    pub id: String,
    pub code: String,
    pub access_key: String,
    pub secret_key: String,
}

impl AwsAccount {
    /// A copy equal to `self`, field for field.
    pub fn duplicate(&self) -> (r: AwsAccount)
        ensures
            r == *self,
    {
        AwsAccount {
            id: self.id.clone(),
            code: self.code.clone(),
            access_key: self.access_key.clone(),
            secret_key: self.secret_key.clone(),
        }
    }
}

/// A user, identified by the base access key it signs with.
#[derive(Debug)]
pub struct User {
    pub base_access_key: String,
    pub group_ids: Vec<String>,
}

/// A group of users.
#[derive(Debug)]
pub struct Group {
    pub id: String,
}

impl Group {
    /// A copy equal to `self`.
    pub fn duplicate(&self) -> (r: Group)
        ensures
            r == *self,
    {
        Group { id: self.id.clone() }
    }
}

/// The request metadata that condition-scoped policies match on.
#[derive(Debug)]
pub struct ConditionCtx {
    pub client_addr: String,
}

/// Which context a policy matches against.
#[derive(Clone, Copy, PartialEq, Eq, Structural, Debug)]
pub enum PolicyScope {
    /// Matches request metadata such as the client address.
    Condition,
    /// Matches the parsed object-storage input.
    UserInput,
}

/// The matching rule of a policy.
#[derive(Debug)]
pub enum PolicyMatch {
    /// Matches every context of its scope.
    Any,
    /// Matches the input whose bucket is exactly this.
    BucketEquals(String),
    /// Matches inputs whose bucket starts with this.
    BucketPrefix(String),
    /// Matches clients whose address starts with this.
    AddrPrefix(String),
}

/// One access policy: whom it is for, where it applies, what it matches,
/// and the effects it yields.
#[derive(Debug)]
pub struct Policy {
    pub group_id: String,
    pub account_id: String,
    pub region: String,
    pub scope: PolicyScope,
    pub matcher: PolicyMatch,
    pub effects: Vec<Effect>,
}

/// The policies found for one request, split by scope. Order is
/// significant: the first match wins within each list.
pub struct FoundPolicies<'a> {
    pub condition: Vec<&'a Policy>,
    pub user_input: Vec<&'a Policy>,
}

/// The filter for policy lookup: the chosen account and region, and the
/// groups of the requesting user.
pub struct PolicyFilterParams<'a> {
    pub account: &'a AwsAccount,
    pub region: &'a str,
    pub groups: &'a Vec<Group>,
}

/// Whether a policy is for this account, this region and one of these
/// groups.
pub open spec fn policy_applies(
    p: Policy,
    account_id: Seq<char>,
    region: Seq<char>,
    groups: Seq<Group>,
) -> bool {
    &&& p.account_id@ == account_id
    &&& p.region@ == region
    &&& exists|i: int| 0 <= i < groups.len() && groups[i].id@ == p.group_id@
}

/// Whether a condition-scoped policy matches a client address.
pub open spec fn condition_matches(p: Policy, addr: Seq<char>) -> bool {
    match p.matcher {
        PolicyMatch::Any => true,
        PolicyMatch::AddrPrefix(pre) => pre@.is_prefix_of(addr),
        PolicyMatch::BucketEquals(_) => false,
        PolicyMatch::BucketPrefix(_) => false,
    }
}

/// Whether a user-input-scoped policy matches a parsed input.
pub open spec fn input_matches(p: Policy, bucket: Option<Seq<char>>) -> bool {
    match p.matcher {
        PolicyMatch::Any => true,
        PolicyMatch::BucketEquals(b) => bucket == Some(b@),
        PolicyMatch::BucketPrefix(pre) => bucket is Some && pre@.is_prefix_of(bucket->0),
        PolicyMatch::AddrPrefix(_) => false,
    }
}

/// The selector for condition-scoped policies of this account, region and
/// group set.
pub open spec fn condition_selector(
    account_id: Seq<char>,
    region: Seq<char>,
    groups: Seq<Group>,
) -> spec_fn(Policy) -> bool {
    |p: Policy| policy_applies(p, account_id, region, groups) && p.scope is Condition
}

/// The selector for user-input-scoped policies of this account, region and
/// group set.
pub open spec fn user_input_selector(
    account_id: Seq<char>,
    region: Seq<char>,
    groups: Seq<Group>,
) -> spec_fn(Policy) -> bool {
    |p: Policy| policy_applies(p, account_id, region, groups) && p.scope is UserInput
}

/// The matcher of condition-scoped policies against a client address.
pub open spec fn condition_matcher(addr: Seq<char>) -> spec_fn(Policy) -> bool {
    |p: Policy| condition_matches(p, addr)
}

/// The matcher of user-input-scoped policies against a parsed bucket.
pub open spec fn input_matcher(bucket: Option<Seq<char>>) -> spec_fn(Policy) -> bool {
    |p: Policy| input_matches(p, bucket)
}

/// The IAM container: what the pipeline reads of the identity model.
#[derive(Debug)]
pub struct IamContainer {
    pub accounts: Vec<AwsAccount>,
    pub users: Vec<User>,
    pub groups: Vec<Group>,
    pub policies: Vec<Policy>,
}

impl IamContainer {
    /// The first account whose short code is `code`.
    pub fn find_account_by_code<'a>(&'a self, code: &str) -> (r: Result<&'a AwsAccount, ProxyError>)
        ensures
            match r {
                Ok(a) => {
                    let fw = first_where(self.accounts@, |a: AwsAccount| a.code@ == code@);
                    fw is Some && *a == self.accounts@[fw->0]
                },
                Err(e) => first_where(self.accounts@, |a: AwsAccount| a.code@ == code@) is None
                    && e is ResourceNotFound,
            },
    {
        let ghost pred = |a: AwsAccount| a.code@ == code@;
        let n = self.accounts.len();
        let mut i: usize = 0;
        while i < n
            invariant
                n == self.accounts@.len(),
                i <= n,
                forall|j: int| 0 <= j < i ==> !pred(self.accounts@[j]),
                pred == (|a: AwsAccount| a.code@ == code@),
            decreases n - i,
        {
            if str_eq(self.accounts[i].code.as_str(), code) {
                proof {
                    lemma_first_where_unique(self.accounts@, pred, i as int);
                }
                return Ok(&self.accounts[i]);
            }
            i = i + 1;
        }
        proof {
            lemma_first_where_unique(self.accounts@, pred, n as int);
        }
        Err(ProxyError::ResourceNotFound(concat2("account not found by code: ", code)))
    }

    /// The first user signing with this base access key.
    pub fn find_user_by_base_access_key<'a>(&'a self, base: &str) -> (r: Result<
        &'a User,
        ProxyError,
    >)
        ensures
            match r {
                Ok(u) => {
                    let fw = first_where(self.users@, |u: User| u.base_access_key@ == base@);
                    fw is Some && *u == self.users@[fw->0]
                },
                Err(e) => first_where(self.users@, |u: User| u.base_access_key@ == base@) is None
                    && e is AccessDenied,
            },
    {
        let ghost pred = |u: User| u.base_access_key@ == base@;
        let n = self.users.len();
        let mut i: usize = 0;
        while i < n
            invariant
                n == self.users@.len(),
                i <= n,
                forall|j: int| 0 <= j < i ==> !pred(self.users@[j]),
                pred == (|u: User| u.base_access_key@ == base@),
            decreases n - i,
        {
            if str_eq(self.users[i].base_access_key.as_str(), base) {
                proof {
                    lemma_first_where_unique(self.users@, pred, i as int);
                }
                return Ok(&self.users[i]);
            }
            i = i + 1;
        }
        proof {
            lemma_first_where_unique(self.users@, pred, n as int);
        }
        Err(ProxyError::AccessDenied(concat2("user not found by access key: ", base)))
    }

    /// The groups of a user, in container order; a user outside every
    /// group is denied.
    pub fn find_groups_by_user(&self, user: &User) -> (r: Result<Vec<Group>, ProxyError>)
        ensures
            match r {
                Ok(v) => v@ == self.groups@.filter(
                    |g: Group| contains_str(user.group_ids@, g.id@),
                ) && v@.len() > 0,
                Err(e) => self.groups@.filter(
                    |g: Group| contains_str(user.group_ids@, g.id@),
                ).len() == 0 && e is AccessDenied,
            },
    {
        let ghost pred = |g: Group| contains_str(user.group_ids@, g.id@);
        let mut out: Vec<Group> = Vec::new();
        let n = self.groups.len();
        let mut i: usize = 0;
        proof {
            reveal(Seq::filter);
            assert(self.groups@.take(0) =~= Seq::<Group>::empty());
            assert(self.groups@.take(0).filter(pred) =~= Seq::<Group>::empty());
        }
        while i < n
            invariant
                n == self.groups@.len(),
                i <= n,
                out@ == self.groups@.take(i as int).filter(pred),
                pred == (|g: Group| contains_str(user.group_ids@, g.id@)),
            decreases n - i,
        {
            proof {
                reveal(Seq::filter);
                assert(self.groups@.take(i + 1).drop_last() =~= self.groups@.take(i as int));
                assert(self.groups@.take(i + 1).last() == self.groups@[i as int]);
            }
            if vec_contains_str(&user.group_ids, self.groups[i].id.as_str()) {
                out.push(self.groups[i].duplicate());
            }
            i = i + 1;
        }
        proof {
            assert(self.groups@.take(n as int) =~= self.groups@);
        }
        if out.len() == 0 {
            Err(ProxyError::AccessDenied(String::from_str("user belongs to no group")))
        } else {
            Ok(out)
        }
    }

    /// The policies that apply to this account, region and group set, in
    /// container order, split by scope.
    pub fn find_policies<'a>(&'a self, params: &PolicyFilterParams) -> (r: Result<
        FoundPolicies<'a>,
        ProxyError,
    >)
        ensures
            match r {
                Ok(found) => {
                    &&& found.condition@.map_values(|p: &Policy| *p) == self.policies@.filter(
                        condition_selector(params.account.id@, params.region@, params.groups@),
                    )
                    &&& found.user_input@.map_values(|p: &Policy| *p) == self.policies@.filter(
                        user_input_selector(params.account.id@, params.region@, params.groups@),
                    )
                },
                Err(_) => false,
            },
    {
        let ghost cpred = condition_selector(params.account.id@, params.region@, params.groups@);
        let ghost upred = user_input_selector(params.account.id@, params.region@, params.groups@);
        let mut condition: Vec<&'a Policy> = Vec::new();
        let mut user_input: Vec<&'a Policy> = Vec::new();
        let n = self.policies.len();
        let mut i: usize = 0;
        proof {
            reveal(Seq::filter);
            assert(self.policies@.take(0).filter(cpred) =~= Seq::<Policy>::empty());
            assert(self.policies@.take(0).filter(upred) =~= Seq::<Policy>::empty());
            assert(condition@.map_values(|p: &Policy| *p) =~= Seq::<Policy>::empty());
            assert(user_input@.map_values(|p: &Policy| *p) =~= Seq::<Policy>::empty());
        }
        while i < n
            invariant
                n == self.policies@.len(),
                i <= n,
                condition@.map_values(|p: &Policy| *p) == self.policies@.take(i as int).filter(
                    cpred,
                ),
                user_input@.map_values(|p: &Policy| *p) == self.policies@.take(i as int).filter(
                    upred,
                ),
                cpred == condition_selector(params.account.id@, params.region@, params.groups@),
                upred == user_input_selector(params.account.id@, params.region@, params.groups@),
            decreases n - i,
        {
            proof {
                reveal(Seq::filter);
                assert(self.policies@.take(i + 1).drop_last() =~= self.policies@.take(i as int));
                assert(self.policies@.take(i + 1).last() == self.policies@[i as int]);
            }
            let p = &self.policies[i];
            let applies = str_eq(p.account_id.as_str(), params.account.id.as_str()) && str_eq(
                p.region.as_str(),
                params.region,
            ) && groups_contain(params.groups, p.group_id.as_str());
            if applies {
                let ghost cbefore = condition@;
                let ghost ubefore = user_input@;
                match p.scope {
                    PolicyScope::Condition => {
                        condition.push(p);
                        proof {
                            assert(condition@.map_values(|p: &Policy| *p) =~= cbefore.map_values(
                                |p: &Policy| *p,
                            ).push(self.policies@[i as int]));
                        }
                    },
                    PolicyScope::UserInput => {
                        user_input.push(p);
                        proof {
                            assert(user_input@.map_values(|p: &Policy| *p) =~= ubefore.map_values(
                                |p: &Policy| *p,
                            ).push(self.policies@[i as int]));
                        }
                    },
                }
            }
            i = i + 1;
        }
        proof {
            assert(self.policies@.take(n as int) =~= self.policies@);
        }
        Ok(FoundPolicies { condition, user_input })
    }
}

/// Whether some group in the list has this id.
pub fn groups_contain(groups: &Vec<Group>, gid: &str) -> (r: bool)
    ensures
        r == exists|i: int| 0 <= i < groups@.len() && groups@[i].id@ == gid@,
{
    let n = groups.len();
    let mut i: usize = 0;
    while i < n
        invariant
            n == groups@.len(),
            i <= n,
            forall|j: int| 0 <= j < i ==> groups@[j].id@ != gid@,
        decreases n - i,
    {
        if str_eq(groups[i].id.as_str(), gid) {
            return true;
        }
        i = i + 1;
    }
    false
}

/// The effects of the first condition-scoped policy matching the client's
/// metadata; no match means no policy grants the request.
pub fn find_condition_effects<'a>(policies: &Vec<&'a Policy>, ctx: &ConditionCtx) -> (r: Result<
    &'a Vec<Effect>,
    ProxyError,
>)
    ensures
        ({
            let vals = policies@.map_values(|p: &Policy| *p);
            let fw = first_where(vals, condition_matcher(ctx.client_addr@));
            match r {
                Ok(effs) => fw is Some && *effs == vals[fw->0].effects,
                Err(e) => fw is None && e is AccessDenied,
            }
        }),
{
    let ghost vals = policies@.map_values(|p: &Policy| *p);
    let ghost pred = condition_matcher(ctx.client_addr@);
    let n = policies.len();
    let mut i: usize = 0;
    while i < n
        invariant
            n == policies@.len(),
            vals == policies@.map_values(|p: &Policy| *p),
            forall|j: int| 0 <= j < n ==> vals[j] == *policies@[j],
            i <= n,
            forall|j: int| 0 <= j < i ==> !pred(vals[j]),
            pred == condition_matcher(ctx.client_addr@),
        decreases n - i,
    {
        let p: &Policy = policies[i];
        let m = match &p.matcher {
            PolicyMatch::Any => true,
            PolicyMatch::AddrPrefix(pre) => str_starts_with(ctx.client_addr.as_str(), pre.as_str()),
            PolicyMatch::BucketEquals(_) => false,
            PolicyMatch::BucketPrefix(_) => false,
        };
        if m {
            proof {
                lemma_first_where_unique(vals, pred, i as int);
            }
            return Ok(&p.effects);
        }
        i = i + 1;
    }
    proof {
        lemma_first_where_unique(vals, pred, n as int);
    }
    Err(ProxyError::AccessDenied(String::from_str("no condition policy matches")))
}

/// The effects of the first user-input-scoped policy matching the parsed
/// input; no match means no policy grants the request.
pub fn find_input_effects<'a>(policies: &Vec<&'a Policy>, input: &ObjectStorageInput) -> (r: Result<
    &'a Vec<Effect>,
    ProxyError,
>)
    ensures
        ({
            let vals = policies@.map_values(|p: &Policy| *p);
            let fw = first_where(vals, input_matcher(crate::input::opt_str_view(input.bucket)));
            match r {
                Ok(effs) => fw is Some && *effs == vals[fw->0].effects,
                Err(e) => fw is None && e is AccessDenied,
            }
        }),
{
    let ghost vals = policies@.map_values(|p: &Policy| *p);
    let ghost pred = input_matcher(crate::input::opt_str_view(input.bucket));
    let n = policies.len();
    let mut i: usize = 0;
    while i < n
        invariant
            n == policies@.len(),
            vals == policies@.map_values(|p: &Policy| *p),
            forall|j: int| 0 <= j < n ==> vals[j] == *policies@[j],
            i <= n,
            forall|j: int| 0 <= j < i ==> !pred(vals[j]),
            pred == input_matcher(crate::input::opt_str_view(input.bucket)),
        decreases n - i,
    {
        let p: &Policy = policies[i];
        let m = match &p.matcher {
            PolicyMatch::Any => true,
            PolicyMatch::BucketEquals(b) => match &input.bucket {
                Some(ib) => str_eq(ib.as_str(), b.as_str()),
                None => false,
            },
            PolicyMatch::BucketPrefix(pre) => match &input.bucket {
                Some(ib) => str_starts_with(ib.as_str(), pre.as_str()),
                None => false,
            },
            PolicyMatch::AddrPrefix(_) => false,
        };
        if m {
            proof {
                lemma_first_where_unique(vals, pred, i as int);
            }
            return Ok(&p.effects);
        }
        i = i + 1;
    }
    proof {
        lemma_first_where_unique(vals, pred, n as int);
    }
    Err(ProxyError::AccessDenied(String::from_str("no user-input policy matches")))
}

} // verus!
