//! The decisions of one request: resolving the access target from the
//! client's identity, selecting policies, applying their effects, and
//! preparing the rewrite and the re-signing parameters.

use vstd::prelude::*;

use crate::config::{IdentityMode, S3Config, SERVICE};
use crate::error::{from_parser_into_proxy_error, ProxyError};
use crate::iam::{
    find_condition_effects, find_input_effects, policy_applies, AwsAccount, ConditionCtx,
    FoundPolicies, Group, IamContainer, Policy, PolicyFilterParams, User,
};
use crate::input::ObjectStorageInput;
use crate::request::HttpRequest;
use crate::sig::{parsed_credential, split_base_code, split_to_base_and_account_code};
use crate::strutil::{contains_str, first_where, lemma_first_where_bounds, lemma_first_where_unique};
use crate::uni_key::spec_find_access_info;

verus! {

/// The account and region chosen for one request: what the proxy signs
/// and routes with.
#[derive(Debug)]
pub struct AccessTarget {
    pub account: AwsAccount,
    pub region: String,
}

/// What SigV4 re-signing needs: the upstream credentials, the service,
/// and the signing region.
#[derive(Debug)]
pub struct AwsSigv4SignParams {
    pub account: AwsAccount,
    pub service: String,
    pub region: String,
}

impl AwsSigv4SignParams {
    /// Signing parameters for this account, service and region.
    pub fn new_with(account: &AwsAccount, service: &str, region: &str) -> (r: AwsSigv4SignParams)
        ensures
            r.account == *account,
            r.service@ == service@,
            r.region@ == region@,
    {
        AwsSigv4SignParams {
            account: account.duplicate(),
            service: String::from_str(service),
            region: String::from_str(region),
        }
    }
}

/// Account-suffix resolution: the base key and the account named by the
/// access-key ID's code suffix.
pub open spec fn spec_resolve_suffix(accounts: Seq<AwsAccount>, ak: Seq<char>) -> Option<
    (Seq<char>, AwsAccount),
> {
    match split_base_code(ak) {
        None => None,
        Some(p) => match first_where(accounts, |a: AwsAccount| a.code@ == p.1) {
            None => None,
            Some(i) => Some((p.0, accounts[i])),
        },
    }
}

/// Resolves the access target in account-suffix mode: the access-key ID
/// splits into base key and account code, and the code names the account;
/// the region is the one the client signed for.
pub fn resolve_account_suffix(container: &IamContainer, access_key: &str, region: &str) -> (r:
    Result<(AccessTarget, String), ProxyError>)
    ensures
        match r {
            Ok(p) => spec_resolve_suffix(container.accounts@, access_key@) matches Some(rr)
                && p.1@ == rr.0 && p.0.account == rr.1 && p.0.region@ == region@,
            Err(e) => {
                &&& spec_resolve_suffix(container.accounts@, access_key@) is None
                &&& (e is AccessDenied <==> split_base_code(access_key@) is None)
                &&& (e is ResourceNotFound <==> split_base_code(access_key@) is Some)
                &&& (e is AccessDenied || e is ResourceNotFound)
            },
        },
{
    let (base, code) = split_to_base_and_account_code(access_key)?;
    let account = match container.find_account_by_code(code.as_str()) {
        Ok(a) => a,
        Err(e) => {
            proof {
                let preda = |a: AwsAccount| a.code@ == code@;
                let predb = |a: AwsAccount| a.code@ == (split_base_code(access_key@)->0).1;
                lemma_first_where_bounds(container.accounts@, preda);
                lemma_first_where_unique(
                    container.accounts@,
                    predb,
                    container.accounts@.len() as int,
                );
            }
            return Err(e);
        },
    };
    proof {
        let preda = |a: AwsAccount| a.code@ == code@;
        let predb = |a: AwsAccount| a.code@ == (split_base_code(access_key@)->0).1;
        lemma_first_where_bounds(container.accounts@, preda);
        let i = first_where(container.accounts@, preda)->0;
        lemma_first_where_unique(container.accounts@, predb, i);
    }
    Ok((
        AccessTarget { account: account.duplicate(), region: String::from_str(region) },
        base,
    ))
}

/// Resolves the access target in uni-key mode: the bucket index maps the
/// parsed bucket and the signed region to an account and region; the base
/// key is the raw client access key.
pub fn resolve_uni_key(
    config: &S3Config,
    input: &ObjectStorageInput,
    access_key: &str,
    region: &str,
) -> (r: Result<(AccessTarget, String), ProxyError>)
    requires
        input.wf(),
        config.uni_key_info matches Some(u) ==> u.wf(),
    ensures
        match r {
            Ok(p) => config.uni_key_info matches Some(u) && (!(input.kind is ListBuckets) && (
            spec_find_access_info(u@, input.bucket->0@, region@) matches Some(info) && (
            p.0.account == info.account && p.0.region == info.region && p.1@ == access_key@))),
            Err(e) => {
                ||| (config.uni_key_info is None && e is AssertFail)
                ||| (config.uni_key_info is Some && input.kind is ListBuckets
                    && e is OperationNotSupported)
                ||| (config.uni_key_info matches Some(u) && !(input.kind is ListBuckets)
                    && spec_find_access_info(u@, input.bucket->0@, region@) is None
                    && e is ResourceNotFound)
            },
        },
{
    let uki = config.get_uni_key_info()?;
    let info = uki.find_access_info(input, region)?;
    Ok((
        AccessTarget { account: info.account.duplicate(), region: info.region.clone() },
        String::from_str(access_key),
    ))
}

/// Resolves the access target for a request: the access key and signed
/// region come from the SigV4 header, and the active mode decides how they
/// name the account.
pub fn get_access_params(
    mode: IdentityMode,
    container: &IamContainer,
    config: &S3Config,
    input: &ObjectStorageInput,
    req: &HttpRequest,
) -> (r: Result<(AccessTarget, String), ProxyError>)
    requires
        input.wf(),
        config.uni_key_info matches Some(u) ==> u.wf(),
    ensures
        match r {
            Ok(p) => req.authorization matches Some(auth) && parsed_credential(auth@) matches Some(
                cred,
            ) && match mode {
                IdentityMode::AccountSuffix => spec_resolve_suffix(container.accounts@, cred.0)
                    matches Some(rr) && p.1@ == rr.0 && p.0.account == rr.1 && p.0.region@
                    == cred.1,
                IdentityMode::UniKey => config.uni_key_info matches Some(u) && (!(input.kind
                    is ListBuckets) && (spec_find_access_info(u@, input.bucket->0@, cred.1) matches
                    Some(info) && (p.0.account == info.account && p.0.region == info.region && p.1@
                    == cred.0))),
            },
            Err(e) => {
                ||| ((req.authorization is None || parsed_credential(req.authorization->0@)
                    is None) && e is MalformedProtocol)
                ||| (req.authorization matches Some(auth) && parsed_credential(auth@) matches Some(
                    cred,
                ) && match mode {
                    IdentityMode::AccountSuffix => {
                        &&& spec_resolve_suffix(container.accounts@, cred.0) is None
                        &&& (e is AccessDenied <==> split_base_code(cred.0) is None)
                        &&& (e is ResourceNotFound <==> split_base_code(cred.0) is Some)
                    },
                    IdentityMode::UniKey => {
                        ||| (config.uni_key_info is None && e is AssertFail)
                        ||| (config.uni_key_info is Some && input.kind is ListBuckets
                            && e is OperationNotSupported)
                        ||| (config.uni_key_info matches Some(u) && !(input.kind is ListBuckets)
                            && spec_find_access_info(u@, input.bucket->0@, cred.1) is None
                            && e is ResourceNotFound)
                    },
                })
            },
        },
{
    let (access_key, region) = req.extract_access_key_and_region()?;
    match mode {
        IdentityMode::AccountSuffix => resolve_account_suffix(
            container,
            access_key.as_str(),
            region.as_str(),
        ),
        IdentityMode::UniKey => resolve_uni_key(
            config,
            input,
            access_key.as_str(),
            region.as_str(),
        ),
    }
}

/// The user named by a base access key.
pub open spec fn spec_find_user(users: Seq<User>, base: Seq<char>) -> Option<User> {
    match first_where(users, |u: User| u.base_access_key@ == base) {
        None => None,
        Some(i) => Some(users[i]),
    }
}

/// The groups of `user`, in container order.
pub open spec fn spec_groups_of(container: &IamContainer, user: User) -> Seq<Group> {
    container.groups@.filter(|g: Group| contains_str(user.group_ids@, g.id@))
}

/// Finds the policies for this request: the base access key names the
/// user, the user names its groups, and the account, region and groups
/// select the policies, kept in container order and split by scope.
pub fn find_matching_policies<'a>(
    access_target: &AccessTarget,
    base_access_key: &str,
    iam_container: &'a IamContainer,
) -> (r: Result<FoundPolicies<'a>, ProxyError>)
    ensures
        match r {
            Ok(found) => spec_find_user(iam_container.users@, base_access_key@) matches Some(user)
                && {
                let groups = spec_groups_of(iam_container, user);
                &&& groups.len() > 0
                &&& found.condition@.map_values(|p: &Policy| *p) == iam_container.policies@.filter(
                    crate::iam::condition_selector(
                        access_target.account.id@,
                        access_target.region@,
                        groups,
                    ),
                )
                &&& found.user_input@.map_values(|p: &Policy| *p) == iam_container.policies@.filter(
                    crate::iam::user_input_selector(
                        access_target.account.id@,
                        access_target.region@,
                        groups,
                    ),
                )
            },
            Err(e) => e is AccessDenied && (spec_find_user(iam_container.users@, base_access_key@)
                is None || (spec_find_user(iam_container.users@, base_access_key@) matches Some(
                user,
            ) && spec_groups_of(iam_container, user).len() == 0)),
        },
{
    let user = match iam_container.find_user_by_base_access_key(base_access_key) {
        Ok(u) => u,
        Err(e) => {
            proof {
                let preda = |u: User| u.base_access_key@ == base_access_key@;
                lemma_first_where_bounds(iam_container.users@, preda);
            }
            return Err(e);
        },
    };
    let groups = iam_container.find_groups_by_user(user)?;
    proof {
        let predu = |u: User| u.base_access_key@ == base_access_key@;
        lemma_first_where_bounds(iam_container.users@, predu);
    }
    let params = PolicyFilterParams {
        account: &access_target.account,
        region: access_target.region.as_str(),
        groups: &groups,
    };
    let found = match iam_container.find_policies(&params) {
        Ok(f) => f,
        Err(_) => unreached(),
    };
    Ok(found)
}

/// Applies the found policies to the request: the effects of the first
/// matching condition policy first, then the effects of the first matching
/// user-input policy, each list in its declared order.
pub fn apply_policies_to_req(
    client_addr: String,
    input: &ObjectStorageInput,
    policies: &FoundPolicies,
    req: HttpRequest,
) -> (r: Result<HttpRequest, ProxyError>)
    ensures
        ({
            let cvals = policies.condition@.map_values(|p: &Policy| *p);
            let uvals = policies.user_input@.map_values(|p: &Policy| *p);
            let cfw = first_where(cvals, crate::iam::condition_matcher(client_addr@));
            let ufw = first_where(
                uvals,
                crate::iam::input_matcher(crate::input::opt_str_view(input.bucket)),
            );
            match r {
                Ok(req2) => cfw matches Some(ci) && (crate::effect::spec_apply_effects(
                    req@,
                    cvals[ci].effects@,
                ) matches Ok(mid) && (ufw matches Some(ui) && crate::effect::spec_apply_effects(
                    mid,
                    uvals[ui].effects@,
                ) == Ok::<crate::request::ReqView, crate::effect::Effect>(req2@))),
                Err(e) => {
                    ||| (cfw is None && e is AccessDenied)
                    ||| (cfw matches Some(ci) && (crate::effect::spec_apply_effects(
                        req@,
                        cvals[ci].effects@,
                    ) is Err && (e is AccessDenied || e is MalformedProtocol)))
                    ||| (cfw matches Some(ci) && (crate::effect::spec_apply_effects(
                        req@,
                        cvals[ci].effects@,
                    ) matches Ok(mid) && {
                        ||| (ufw is None && e is AccessDenied)
                        ||| (ufw matches Some(ui) && crate::effect::spec_apply_effects(
                            mid,
                            uvals[ui].effects@,
                        ) is Err && (e is AccessDenied || e is MalformedProtocol))
                    }))
                },
            }
        }),
{
    let condition_ctx = ConditionCtx { client_addr };
    let condition_effects = find_condition_effects(&policies.condition, &condition_ctx)?;
    let req = req.apply_effects(condition_effects)?;
    let user_input_effects = find_input_effects(&policies.user_input, input)?;
    let req = req.apply_effects(user_input_effects)?;
    Ok(req)
}

/// Rewrites the request towards the chosen target's real endpoint, strips
/// the inbound signature, and yields the parameters the re-signing needs:
/// the target's credentials, the `s3` service, and the target's region.
pub fn prepare_sign(
    config: &S3Config,
    access_target: &AccessTarget,
    req: HttpRequest,
) -> (r: Result<(HttpRequest, AwsSigv4SignParams), ProxyError>)
    ensures
        match r {
            Ok(p) => {
                &&& p.1.account == access_target.account
                &&& p.1.service@ == SERVICE@
                &&& p.1.region@ == access_target.region@
                &&& p.0.authorization is None
                &&& p.0.path_and_query == req.path_and_query
                &&& p.0.method == req.method
                &&& p.0.headers == req.headers
                &&& req.host is Some
                &&& crate::host::first_match(config.proxy_hosts.domains@, req.host->0@) is Some
                &&& crate::region::region_host(access_target.region@) is Some
                &&& {
                    let host0 = req.host->0@;
                    let d = crate::host::matched_host(config.proxy_hosts.domains@, host0);
                    let actual = crate::region::region_host(access_target.region@)->0;
                    &&& p.0.host_is(host0.take(host0.len() - d.len()) + actual)
                    &&& p.0.uri_authority matches Some(a) && a@ == actual
                }
            },
            Err(e) => {
                ||| (req.host is None && e is MalformedProtocol)
                ||| (req.host is Some && {
                    let host0 = req.host->0@;
                    ||| (crate::host::first_match(config.proxy_hosts.domains@, host0) is None
                        && e is ParserError)
                    ||| (crate::host::first_match(config.proxy_hosts.domains@, host0) is Some
                        && crate::region::region_host(access_target.region@) is None
                        && e is InvalidEndpoint)
                    ||| (crate::host::first_match(config.proxy_hosts.domains@, host0) is Some
                        && crate::region::region_host(access_target.region@) is Some && {
                        let d = crate::host::matched_host(config.proxy_hosts.domains@, host0);
                        let actual = crate::region::region_host(access_target.region@)->0;
                        let new_host = host0.take(host0.len() - d.len()) + actual;
                        &&& (!crate::httpx::header_value_accepted(new_host)
                            || !crate::httpx::uri_accepted(
                            "http://"@ + actual + req.path_and_query@,
                        ))
                        &&& e is MalformedProtocol
                    })
                })
            },
        },
{
    let mut req = req;
    req.set_actual_host(config, access_target.region.as_str())?;
    req.remove_authorization();
    let sign_params = AwsSigv4SignParams::new_with(
        &access_target.account,
        SERVICE,
        access_target.region.as_str(),
    );
    Ok((req, sign_params))
}

/// The outcome of identity resolution: the account, the signing region and
/// the base access key — or nothing, when the mode cannot resolve them.
pub open spec fn spec_resolution(
    mode: IdentityMode,
    container: &IamContainer,
    config: &S3Config,
    bucket: Option<Seq<char>>,
    ak: Seq<char>,
    reg: Seq<char>,
) -> Option<(AwsAccount, Seq<char>, Seq<char>)> {
    match mode {
        IdentityMode::AccountSuffix => match spec_resolve_suffix(container.accounts@, ak) {
            None => None,
            Some(rr) => Some((rr.1, reg, rr.0)),
        },
        IdentityMode::UniKey => match config.uni_key_info {
            None => None,
            Some(u) => match bucket {
                None => None,
                Some(b) => match spec_find_access_info(u@, b, reg) {
                    None => None,
                    Some(info) => Some((info.account, info.region@, ak)),
                },
            },
        },
    }
}

/// Whether the rewrite towards `region`'s real endpoint accepts a request
/// in state `r2`: the host carries a proxy hostname, the region has a real
/// host, and the new host and URI are legal.
pub open spec fn spec_rewrite_succeeds(
    config: &S3Config,
    region: Seq<char>,
    r2: crate::request::ReqView,
) -> bool {
    match r2.host {
        None => false,
        Some(h2) => {
            &&& crate::host::first_match(config.proxy_hosts.domains@, h2) is Some
            &&& crate::region::region_host(region) is Some
            &&& {
                let d = crate::host::matched_host(config.proxy_hosts.domains@, h2);
                let actual = crate::region::region_host(region)->0;
                let new_host = h2.take(h2.len() - d.len()) + actual;
                &&& crate::httpx::header_value_accepted(new_host)
                &&& crate::httpx::uri_accepted("http://"@ + actual + r2.path_and_query)
            }
        },
    }
}

/// Whether the grant stage succeeds for a resolved target: the base key
/// names a user with groups, a condition and a user-input policy match,
/// every effect applies, and the rewrite accepts the result.
pub open spec fn spec_grant_succeeds(
    container: &IamContainer,
    config: &S3Config,
    account: AwsAccount,
    region: Seq<char>,
    base: Seq<char>,
    addr: Seq<char>,
    bucket: Option<Seq<char>>,
    req: crate::request::ReqView,
) -> bool {
    match spec_find_user(container.users@, base) {
        None => false,
        Some(user) => {
            let groups = spec_groups_of(container, user);
            &&& groups.len() > 0
            &&& {
                let cond = container.policies@.filter(
                    crate::iam::condition_selector(account.id@, region, groups),
                );
                let uin = container.policies@.filter(
                    crate::iam::user_input_selector(account.id@, region, groups),
                );
                match first_where(cond, crate::iam::condition_matcher(addr)) {
                    None => false,
                    Some(ci) => match crate::effect::spec_apply_effects(req, cond[ci].effects@) {
                        Err(_) => false,
                        Ok(mid) => match first_where(uin, crate::iam::input_matcher(bucket)) {
                            None => false,
                            Some(ui) => match crate::effect::spec_apply_effects(
                                mid,
                                uin[ui].effects@,
                            ) {
                                Err(_) => false,
                                Ok(r2) => spec_rewrite_succeeds(config, region, r2),
                            },
                        },
                    },
                }
            }
        },
    }
}

/// Whether every stage of the pipeline succeeds for this request: the
/// protocol parses, the credential parses, the identity resolves, the
/// policies grant, the effects apply, and the rewrite is acceptable. On
/// such a request the pipeline owes a success.
pub open spec fn spec_pipeline_succeeds(
    mode: IdentityMode,
    container: &IamContainer,
    config: &S3Config,
    addr: Seq<char>,
    req: &HttpRequest,
) -> bool {
    &&& req.host is Some
    &&& req.authorization is Some
    &&& match crate::input::spec_parse(
        req.method,
        req.host->0@,
        req.path_and_query@,
        crate::input::spec_has_copy_source(req),
        config.proxy_hosts.domains@,
    ) {
        Err(()) => false,
        Ok(parsed) => match parsed_credential(req.authorization->0@) {
            None => false,
            Some(cred) => match spec_resolution(mode, container, config, parsed.0, cred.0, cred.1) {
                None => false,
                Some(res) => spec_grant_succeeds(
                    container,
                    config,
                    res.0,
                    res.1,
                    res.2,
                    addr,
                    parsed.0,
                    req@,
                ),
            },
        },
    }
}

/// One request's decisions, end to end: parse the protocol, resolve the
/// access target, select and apply policies, rewrite towards the real
/// endpoint, and yield the request to forward with its signing parameters.
/// The path and query the client sent reach the upstream unchanged.
pub fn process_request(
    mode: IdentityMode,
    container: &IamContainer,
    config: &S3Config,
    client_addr: String,
    req: HttpRequest,
) -> (r: Result<(HttpRequest, AwsSigv4SignParams), ProxyError>)
    requires
        config.uni_key_info matches Some(u) ==> u.wf(),
    ensures
        match r {
            Ok(p) => {
                &&& req.host is Some
                &&& crate::input::spec_parse(
                    req.method,
                    req.host->0@,
                    req.path_and_query@,
                    crate::input::spec_has_copy_source(&req),
                    config.proxy_hosts.domains@,
                ) is Ok
                &&& p.0.path_and_query@ == req.path_and_query@
                &&& p.0.method == req.method
                &&& p.0.authorization is None
                &&& p.1.service@ == SERVICE@
                &&& crate::region::region_host(p.1.region@) is Some
                &&& p.0.uri_authority matches Some(a) && a@ == crate::region::region_host(
                    p.1.region@,
                )->0
                &&& req.authorization matches Some(auth) && (parsed_credential(auth@) matches Some(
                    cred,
                ) && match mode {
                    IdentityMode::AccountSuffix => spec_resolve_suffix(
                        container.accounts@,
                        cred.0,
                    ) matches Some(rr) && (p.1.account == rr.1 && p.1.region@ == cred.1),
                    IdentityMode::UniKey => config.uni_key_info matches Some(u) && (
                    crate::input::spec_parse(
                        req.method,
                        req.host->0@,
                        req.path_and_query@,
                        crate::input::spec_has_copy_source(&req),
                        config.proxy_hosts.domains@,
                    ) matches Ok(t) && (t.0 matches Some(b) && (spec_find_access_info(
                        u@,
                        b,
                        cred.1,
                    ) matches Some(info) && (p.1.account == info.account && p.1.region@
                        == info.region@)))),
                })
            },
            Err(e) => {
                &&& ((req.host is None || crate::input::spec_parse(
                    req.method,
                    req.host->0@,
                    req.path_and_query@,
                    crate::input::spec_has_copy_source(&req),
                    config.proxy_hosts.domains@,
                ) is Err) ==> e is ParserError)
                &&& ((req.host is Some && crate::input::spec_parse(
                    req.method,
                    req.host->0@,
                    req.path_and_query@,
                    crate::input::spec_has_copy_source(&req),
                    config.proxy_hosts.domains@,
                ) is Ok && (req.authorization is None || parsed_credential(
                    req.authorization->0@,
                ) is None)) ==> e is MalformedProtocol)
                &&& (req.host is Some ==> (crate::input::spec_parse(
                    req.method,
                    req.host->0@,
                    req.path_and_query@,
                    crate::input::spec_has_copy_source(&req),
                    config.proxy_hosts.domains@,
                ) matches Ok(parsed) ==> (req.authorization matches Some(auth) ==> (
                parsed_credential(auth@) matches Some(cred) ==> match mode {
                    IdentityMode::AccountSuffix => {
                        &&& (split_base_code(cred.0) is None ==> e is AccessDenied)
                        &&& ((split_base_code(cred.0) is Some && spec_resolve_suffix(
                            container.accounts@,
                            cred.0,
                        ) is None) ==> e is ResourceNotFound)
                    },
                    IdentityMode::UniKey => {
                        &&& (config.uni_key_info is None ==> e is AssertFail)
                        &&& ((config.uni_key_info is Some && parsed.2 is ListBuckets)
                            ==> e is OperationNotSupported)
                        &&& (config.uni_key_info matches Some(u) ==> (!(parsed.2 is ListBuckets)
                            ==> (parsed.0 matches Some(b) ==> (spec_find_access_info(
                            u@,
                            b,
                            cred.1,
                        ) is None ==> e is ResourceNotFound))))
                    },
                }))))
                &&& !(e is UpstreamUnavailable)
            },
        },
        spec_pipeline_succeeds(mode, container, config, client_addr@, &req) ==> r is Ok,
{
    let input = match ObjectStorageInput::parse(&req, &config.proxy_hosts) {
        Ok(i) => i,
        Err(e) => {
            return Err(from_parser_into_proxy_error(e));
        },
    };
    proof {
        crate::input::lemma_parse_kind_bucket(
            req.method,
            req.host->0@,
            req.path_and_query@,
            crate::input::spec_has_copy_source(&req),
            config.proxy_hosts.domains@,
        );
    }
    let (access_target, base_access_key) = get_access_params(mode, container, config, &input, &req)?;
    let policies = find_matching_policies(&access_target, base_access_key.as_str(), container)?;
    let req2 = apply_policies_to_req(client_addr, &input, &policies, req)?;
    proof {
        let cvals = policies.condition@.map_values(|p: &Policy| *p);
        let uvals = policies.user_input@.map_values(|p: &Policy| *p);
        let cpred = crate::iam::condition_matcher(client_addr@);
        let ci = first_where(cvals, cpred)->0;
        let ceffs = cvals[ci].effects@;
        crate::effect::lemma_apply_effects_preserves_route(req@, ceffs);
        let mid = crate::effect::spec_apply_effects(req@, ceffs)->Ok_0;
        let upred = crate::iam::input_matcher(crate::input::opt_str_view(input.bucket));
        let ui = first_where(uvals, upred)->0;
        crate::effect::lemma_apply_effects_preserves_route(mid, uvals[ui].effects@);
    }
    prepare_sign(config, &access_target, req2)
}

/// The management endpoint's decision: the value of the `debug` query
/// parameter, which toggles the log level; a request without one is
/// invalid.
pub fn manage_debug_param(params: &Vec<(String, String)>) -> (r: Option<&String>)
    ensures
        match r {
            Some(v) => crate::request::spec_header_value(params@, "debug"@) == Some(v@),
            None => crate::request::spec_header_value(params@, "debug"@) is None,
        },
{
    let n = params.len();
    let mut i: usize = 0;
    proof {
        assert(params@.skip(0) =~= params@);
    }
    while i < n
        invariant
            n == params@.len(),
            i <= n,
            crate::request::spec_header_value(params@, "debug"@) == crate::request::spec_header_value(
                params@.skip(i as int),
                "debug"@,
            ),
        decreases n - i,
    {
        proof {
            assert(params@.skip(i as int)[0] == params@[i as int]);
            assert(params@.skip(i as int).skip(1) =~= params@.skip(i + 1));
        }
        if crate::strutil::str_eq(params[i].0.as_str(), "debug") {
            return Some(&params[i].1);
        }
        i = i + 1;
    }
    None
}

} // verus!
