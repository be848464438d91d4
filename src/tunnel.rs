use vstd::prelude::*;
use crate::authority::{host_of, leaf_host};
use crate::rules::{filter_matches, filter_may_match_host, should_intercept, Rule};

verus! {

/// What becomes of a CONNECT.
#[derive(Debug, PartialEq, Eq, Clone, Copy)]
pub enum ConnectPlan {
    /// Terminate TLS with a minted leaf and serve HTTP inside.
    Intercept,
    /// Relay bytes both ways without looking at them.
    Tunnel,
}

/// The plan for a CONNECT to `authority`: intercept when some rule may match
/// a request to its host, else a blind tunnel.
pub open spec fn plan_of(rules: Seq<Rule>, authority: Seq<u8>) -> ConnectPlan {
    if exists|i: int| 0 <= i < rules.len() && filter_may_match_host(#[trigger] rules[i].filter, host_of(authority)) {
        ConnectPlan::Intercept
    } else {
        ConnectPlan::Tunnel
    }
}

/// A CONNECT is relayed blindly only when no rule could act on any request
/// inside it: whenever some rule matches a request to the tunnel's host, the
/// tunnel is intercepted.
pub proof fn lemma_matching_request_is_intercepted(rules: Seq<Rule>, authority: Seq<u8>, path: Seq<u8>, i: int)
    requires
        0 <= i < rules.len(),
        filter_matches(rules[i].filter, host_of(authority), path),
    ensures
        plan_of(rules, authority) == ConnectPlan::Intercept,
{
    assert(filter_may_match_host(rules[i].filter, host_of(authority)));
}

pub fn connect_plan(rules: &Vec<Rule>, authority: &[u8]) -> (r: ConnectPlan)
    ensures
        r == plan_of(rules@, authority@),
{
    let host = leaf_host(authority);
    if should_intercept(rules, host.as_slice()) {
        ConnectPlan::Intercept
    } else {
        ConnectPlan::Tunnel
    }
}

} // verus!
