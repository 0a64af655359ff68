//! Effects: the declarative request mutations (or denials) that matching
//! policies yield, and their application to a request. The rewriter is a
//! straight fold over the effect list, in the policy-declared order.

use vstd::prelude::*;

use crate::error::ProxyError;
use crate::httpx::{header_value_accepted, header_value_ok};
use crate::request::{HttpRequest, ReqView};
use crate::strutil::concat2;

verus! {

/// One declarative mutation (or denial) to apply to a request.
#[derive(Debug)]
pub enum Effect {
    /// Refuse the request.
    Deny(String),
    /// Append a header.
    AddHeader(String, String),
    /// Replace the `Host` header.
    RewriteHost(String),
}

/// What one effect does to a request: `Deny` fails, `AddHeader` appends,
/// `RewriteHost` replaces the host when the new value is a legal header
/// value and fails otherwise.
pub open spec fn spec_apply_effect(r: ReqView, e: Effect) -> Result<ReqView, ()> {
    match e {
        Effect::Deny(_) => Err(()),
        Effect::AddHeader(n, v) => Ok(ReqView { headers: r.headers.push((n@, v@)), ..r }),
        Effect::RewriteHost(h) => if header_value_accepted(h@) {
            Ok(ReqView { host: Some(h@), ..r })
        } else {
            Err(())
        },
    }
}

/// The fold of `spec_apply_effect` over a list of effects, in order; a
/// failure reports the first failing effect.
pub open spec fn spec_apply_effects(r: ReqView, effects: Seq<Effect>) -> Result<ReqView, Effect>
    decreases effects.len(),
{
    if effects.len() == 0 {
        Ok(r)
    } else {
        match spec_apply_effect(r, effects[0]) {
            Err(()) => Err(effects[0]),
            Ok(r2) => spec_apply_effects(r2, effects.skip(1)),
        }
    }
}

/// Law: effects touch only the `Host` header and the header list; the
/// method, the path and query, the authorization and the URI authority
/// survive any successful effect application.
pub proof fn lemma_apply_effects_preserves_route(r: ReqView, effects: Seq<Effect>)
    ensures
        spec_apply_effects(r, effects) matches Ok(out) ==> {
            &&& out.path_and_query == r.path_and_query
            &&& out.method == r.method
            &&& out.authorization == r.authorization
            &&& out.uri_authority == r.uri_authority
        },
    decreases effects.len(),
{
    if effects.len() > 0 {
        match spec_apply_effect(r, effects[0]) {
            Err(()) => {},
            Ok(r2) => {
                lemma_apply_effects_preserves_route(r2, effects.skip(1));
            },
        }
    }
}

impl HttpRequest {
    /// Applies the effects in their declared order: the result is the fold
    /// of the single-effect step, and the first refused effect decides the
    /// error.
    pub fn apply_effects(self, effects: &Vec<Effect>) -> (r: Result<HttpRequest, ProxyError>)
        ensures
            match r {
                Ok(req2) => spec_apply_effects(self@, effects@) == Ok::<ReqView, Effect>(req2@),
                Err(pe) => match spec_apply_effects(self@, effects@) {
                    Ok(_) => false,
                    Err(eff) => match eff {
                        Effect::Deny(reason) => pe is AccessDenied && pe.spec_message()@
                            == reason@,
                        Effect::RewriteHost(_) => pe is MalformedProtocol,
                        Effect::AddHeader(_, _) => false,
                    },
                },
            },
    {
        let mut req = self;
        let n = effects.len();
        let mut i: usize = 0;
        proof {
            assert(effects@.skip(0) =~= effects@);
        }
        while i < n
            invariant
                n == effects@.len(),
                i <= n,
                spec_apply_effects(self@, effects@) == spec_apply_effects(
                    req@,
                    effects@.skip(i as int),
                ),
            decreases n - i,
        {
            proof {
                assert(effects@.skip(i as int)[0] == effects@[i as int]);
                assert(effects@.skip(i as int).skip(1) =~= effects@.skip(i + 1));
            }
            match &effects[i] {
                Effect::Deny(reason) => {
                    return Err(ProxyError::AccessDenied(reason.clone()));
                },
                Effect::AddHeader(name, value) => {
                    let ghost before = req@;
                    req.headers.push((name.clone(), value.clone()));
                    proof {
                        assert(req@ =~= ReqView {
                            headers: before.headers.push((name@, value@)),
                            ..before
                        });
                    }
                },
                Effect::RewriteHost(h) => {
                    if header_value_ok(h.as_str()) {
                        let ghost before = req@;
                        req.host = Some(h.clone());
                        proof {
                            assert(req@ =~= ReqView { host: Some(h@), ..before });
                        }
                    } else {
                        return Err(
                            ProxyError::MalformedProtocol(
                                concat2("effect host should be valid, but got ", h.as_str()),
                            ),
                        );
                    }
                },
            }
            i = i + 1;
        }
        Ok(req)
    }
}

} // verus!
