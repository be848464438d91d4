use vstd::prelude::*;
use crate::action::Action;
use crate::headers::{name_eq, same_name};
use crate::text::{contains, ends_with, has_infix, has_prefix, has_suffix, starts_with};

verus! {

/// A predicate over the host and path of a request.
pub enum Filter {
    /// Every request.
    All,
    /// The host equals this name, ignoring ASCII case.
    Domain(Vec<u8>),
    /// The host ends with these bytes.
    DomainSuffix(Vec<u8>),
    /// The host contains these bytes.
    DomainKeyword(Vec<u8>),
    /// The path starts with these bytes.
    PathPrefix(Vec<u8>),
}

/// A filter and the actions it contributes, plus byte patterns that drop
/// WebSocket text messages on matching hosts.
pub struct Rule {
    pub filter: Filter,
    pub actions: Vec<Action>,
    pub drop_messages: Vec<Vec<u8>>,
}

pub open spec fn filter_matches(f: Filter, host: Seq<u8>, path: Seq<u8>) -> bool {
    match f {
        Filter::All => true,
        Filter::Domain(d) => same_name(host, d@),
        Filter::DomainSuffix(d) => ends_with(host, d@),
        Filter::DomainKeyword(d) => contains(host, d@),
        Filter::PathPrefix(p) => starts_with(path, p@),
    }
}

/// Whether a request to `host` may match the filter once its path is known.
pub open spec fn filter_may_match_host(f: Filter, host: Seq<u8>) -> bool {
    match f {
        Filter::All => true,
        Filter::Domain(d) => same_name(host, d@),
        Filter::DomainSuffix(d) => ends_with(host, d@),
        Filter::DomainKeyword(d) => contains(host, d@),
        Filter::PathPrefix(_) => true,
    }
}

/// The (rule, action) positions that a request contributes: every matching
/// rule in declaration order, each with all its actions in order.
pub open spec fn matched_positions(rules: Seq<Rule>, host: Seq<u8>, path: Seq<u8>) -> Seq<(int, int)>
    decreases rules.len(),
{
    if rules.len() == 0 {
        seq![]
    } else {
        let prev = matched_positions(rules.drop_last(), host, path);
        let i = rules.len() - 1;
        if filter_matches(rules[i].filter, host, path) {
            prev + Seq::new(rules[i].actions@.len(), |j: int| (i, j))
        } else {
            prev
        }
    }
}

pub open spec fn position_before(a: (int, int), b: (int, int)) -> bool {
    a.0 < b.0 || (a.0 == b.0 && a.1 < b.1)
}

/// Matched actions come in declaration order: by rule, then by action
/// within a rule; a position is there exactly when its rule matches.
pub proof fn lemma_action_order(rules: Seq<Rule>, host: Seq<u8>, path: Seq<u8>)
    ensures
        forall|k1: int, k2: int|
            0 <= k1 < k2 < matched_positions(rules, host, path).len() ==> position_before(
                #[trigger] matched_positions(rules, host, path)[k1],
                #[trigger] matched_positions(rules, host, path)[k2],
            ),
        forall|i: int, j: int|
            #![trigger matched_positions(rules, host, path).contains((i, j))]
            matched_positions(rules, host, path).contains((i, j)) <==> (0 <= i < rules.len()
                && filter_matches(rules[i].filter, host, path) && 0 <= j < rules[i].actions@.len()),
    decreases rules.len(),
{
    let pos = matched_positions(rules, host, path);
    if rules.len() > 0 {
        let i = rules.len() - 1;
        let front = rules.drop_last();
        lemma_action_order(front, host, path);
        let prev = matched_positions(front, host, path);
        assert forall|k: int| 0 <= k < prev.len() implies 0 <= (#[trigger] prev[k]).0 < i by {
            let pk = prev[k];
            assert(prev.contains((pk.0, pk.1)));
        }
        assert forall|a: int, b: int|
            #![trigger pos.contains((a, b))]
            pos.contains((a, b)) <==> (0 <= a < rules.len() && filter_matches(rules[a].filter, host, path)
                && 0 <= b < rules[a].actions@.len()) by {
            if 0 <= a < i {
                assert(front[a] == rules[a]);
            }
            if pos.contains((a, b)) {
                let k = choose|k: int| 0 <= k < pos.len() && pos[k] == (a, b);
                if k < prev.len() {
                    assert(prev[k] == pos[k]);
                    assert(prev.contains((a, b)));
                }
            }
            if 0 <= a < rules.len() && filter_matches(rules[a].filter, host, path) && 0 <= b < rules[a].actions@.len() {
                if a < i {
                    assert(prev.contains((a, b)));
                    let k = choose|k: int| 0 <= k < prev.len() && prev[k] == (a, b);
                    assert(pos[k] == (a, b));
                } else {
                    assert(pos[prev.len() + b] == (a, b));
                }
            }
        }
    }
}

pub fn filter_match(f: &Filter, host: &[u8], path: &[u8]) -> (r: bool)
    ensures
        r == filter_matches(*f, host@, path@),
{
    match f {
        Filter::All => true,
        Filter::Domain(d) => name_eq(host, d.as_slice()),
        Filter::DomainSuffix(d) => has_suffix(host, d.as_slice()),
        Filter::DomainKeyword(d) => has_infix(host, d.as_slice()),
        Filter::PathPrefix(p) => has_prefix(path, p.as_slice()),
    }
}

/// The positions of the actions that apply to a request, in application order.
pub fn match_request(rules: &Vec<Rule>, host: &[u8], path: &[u8]) -> (r: Vec<(usize, usize)>)
    ensures
        r@.len() == matched_positions(rules@, host@, path@).len(),
        forall|k: int| 0 <= k < r@.len() ==> ((#[trigger] r@[k]).0 as int, r@[k].1 as int) == matched_positions(rules@, host@, path@)[k],
{
    let mut r: Vec<(usize, usize)> = Vec::new();
    let mut i: usize = 0;
    while i < rules.len()
        invariant
            i <= rules@.len(),
            r@.len() == matched_positions(rules@.subrange(0, i as int), host@, path@).len(),
            forall|k: int| 0 <= k < r@.len() ==> ((#[trigger] r@[k]).0 as int, r@[k].1 as int) == matched_positions(rules@.subrange(0, i as int), host@, path@)[k],
        decreases rules@.len() - i,
    {
        let ghost sub = rules@.subrange(0, i + 1);
        assert(sub.drop_last() =~= rules@.subrange(0, i as int));
        assert(sub[i as int] == rules@[i as int]);
        let ghost prev = matched_positions(rules@.subrange(0, i as int), host@, path@);
        if filter_match(&rules[i].filter, host, path) {
            let n = rules[i].actions.len();
            let mut j: usize = 0;
            while j < n
                invariant
                    j <= n,
                    n == rules@[i as int].actions@.len(),
                    r@.len() == prev.len() + j,
                    forall|k: int| 0 <= k < r@.len() ==> ((#[trigger] r@[k]).0 as int, r@[k].1 as int) == (prev + Seq::new(n as nat, |jj: int| (i as int, jj)))[k],
                decreases n - j,
            {
                r.push((i, j));
                j = j + 1;
            }
        }
        i = i + 1;
    }
    assert(rules@.subrange(0, i as int) =~= rules@);
    r
}

/// Whether a CONNECT to `host` is intercepted: some rule may match a
/// request to that host. Otherwise the tunnel is relayed blindly.
pub fn should_intercept(rules: &Vec<Rule>, host: &[u8]) -> (r: bool)
    ensures
        r == exists|i: int| 0 <= i < rules@.len() && filter_may_match_host(#[trigger] rules@[i].filter, host@),
{
    let mut i: usize = 0;
    while i < rules.len()
        invariant
            i <= rules@.len(),
            forall|k: int| 0 <= k < i ==> !filter_may_match_host(#[trigger] rules@[k].filter, host@),
        decreases rules@.len() - i,
    {
        let hit = match &rules[i].filter {
            Filter::PathPrefix(_) => true,
            f => filter_match(f, host, host),
        };
        if hit {
            return true;
        }
        i = i + 1;
    }
    false
}

} // verus!
