use vstd::prelude::*;

use crate::config::{
    globs_view, items_view, regex_match, CapsuleConf, ConfItemView, ItemKind, Rule,
};
use crate::gemini::Response;
use crate::glob::{glob_accepts, Glob};

verus! {

/// One of the globs accepts the name.
pub open spec fn domains_accept(domains: Seq<Seq<Seq<char>>>, name: Seq<char>) -> bool {
    exists|i: int| 0 <= i < domains.len() && glob_accepts(domains[i], name)
}

/// Whether any glob of the list accepts the name.
pub fn any_glob_matches(globs: &Vec<Glob>, name: &str) -> (r: bool)
    ensures
        r == domains_accept(globs_view(globs@), name@),
{
    let mut i: usize = 0;
    while i < globs.len()
        invariant
            i <= globs@.len(),
            forall|j: int| 0 <= j < i ==> !glob_accepts(globs_view(globs@)[j], name@),
        decreases globs@.len() - i,
    {
        if globs[i].matches(name) {
            proof {
                assert(glob_accepts(globs_view(globs@)[i as int], name@));
            }
            return true;
        }
        i = i + 1;
    }
    false
}

/// The entry at `i` is a redirect whose domains cover the SNI name.
pub open spec fn redirect_selected(items: Seq<ConfItemView>, sni: Seq<char>, i: int) -> bool {
    &&& 0 <= i < items.len()
    &&& items[i].kind is Redirect
    &&& domains_accept(items[i].domains, sni)
}

/// Before any TLS handshake, pick the redirect that answers the SNI name:
/// the first redirect entry one of whose domain globs accepts it.
pub fn select_redirect(conf: &CapsuleConf, sni: &str) -> (r: Option<usize>)
    ensures
        match r {
            Some(i) => redirect_selected(items_view(conf.items@), sni@, i as int) && forall|j: int|
                0 <= j < i ==> !redirect_selected(items_view(conf.items@), sni@, j),
            None => forall|j: int| !redirect_selected(items_view(conf.items@), sni@, j),
        },
{
    let ghost iv = items_view(conf.items@);
    let mut i: usize = 0;
    while i < conf.items.len()
        invariant
            i <= conf.items@.len(),
            iv == items_view(conf.items@),
            forall|j: int| 0 <= j < i ==> !redirect_selected(iv, sni@, j),
        decreases conf.items@.len() - i,
    {
        proof {
            assert(iv[i as int] == conf.items@[i as int]@);
        }
        match &conf.items[i] {
            crate::config::ConfItem::Redirect(c) => {
                if any_glob_matches(&c.domain_names, sni) {
                    return Some(i);
                }
            },
            _ => {},
        }
        i = i + 1;
    }
    None
}

/// The entry answers this request: it is not a redirect, its domains cover
/// the request's domain, and its rule, where it has one, matches the
/// request's path.
pub open spec fn candidate_ok(v: ConfItemView, domain: Seq<char>, path: Seq<char>) -> bool {
    &&& !(v.kind is Redirect)
    &&& domains_accept(v.domains, domain)
    &&& match v.rule {
        Option::Some(p) => regex_match(p, path),
        Option::None => true,
    }
}

/// The indices of the entries that answer the request, in configuration
/// order.
pub open spec fn spec_candidates_from(
    items: Seq<ConfItemView>,
    domain: Seq<char>,
    path: Seq<char>,
    i: int,
) -> Seq<int>
    decreases items.len() - i,
{
    if i < 0 || i >= items.len() {
        Seq::empty()
    } else if candidate_ok(items[i], domain, path) {
        seq![i] + spec_candidates_from(items, domain, path, i + 1)
    } else {
        spec_candidates_from(items, domain, path, i + 1)
    }
}

pub open spec fn spec_candidates(
    items: Seq<ConfItemView>,
    domain: Seq<char>,
    path: Seq<char>,
) -> Seq<int> {
    spec_candidates_from(items, domain, path, 0)
}

/// After the TLS handshake and the request parse, collect the entries that
/// answer the request, in configuration order.
pub fn select_applications(conf: &CapsuleConf, domain: &str, path: &str) -> (r: Vec<usize>)
    ensures
        r@.map_values(|u: usize| u as int) == spec_candidates(
            items_view(conf.items@),
            domain@,
            path@,
        ),
{
    let ghost iv = items_view(conf.items@);
    let mut r: Vec<usize> = Vec::new();
    proof {
        assert(r@.map_values(|u: usize| u as int) =~= Seq::<int>::empty());
    }
    let mut i: usize = 0;
    while i < conf.items.len()
        invariant
            i <= conf.items@.len(),
            iv == items_view(conf.items@),
            spec_candidates(iv, domain@, path@) == r@.map_values(|u: usize| u as int)
                + spec_candidates_from(iv, domain@, path@, i as int),
        decreases conf.items@.len() - i,
    {
        proof {
            assert(iv[i as int] == conf.items@[i as int]@);
        }
        let item = &conf.items[i];
        let domains_ok = any_glob_matches(item.domain_names(), domain);
        let rule_ok = match item.rule() {
            Some(rule) => rule.is_match(path),
            None => true,
        };
        let is_redirect = match item {
            crate::config::ConfItem::Redirect(_) => true,
            _ => false,
        };
        if !is_redirect && domains_ok && rule_ok {
            let ghost r0 = r@.map_values(|u: usize| u as int);
            r.push(i);
            proof {
                assert(candidate_ok(iv[i as int], domain@, path@));
                assert(r@.map_values(|u: usize| u as int) =~= r0.push(i as int));
                assert(r0.push(i as int) + spec_candidates_from(iv, domain@, path@, i + 1) =~= r0
                    + (seq![i as int] + spec_candidates_from(iv, domain@, path@, i + 1)));
            }
        } else {
            proof {
                assert(!candidate_ok(iv[i as int], domain@, path@));
            }
        }
        i = i + 1;
    }
    proof {
        assert(spec_candidates_from(iv, domain@, path@, conf.items@.len() as int)
            == Seq::<int>::empty());
        assert(r@.map_values(|u: usize| u as int) + Seq::<int>::empty() =~= r@.map_values(
            |u: usize| u as int,
        ));
    }
    r
}

/// What one handler told the dispatcher: a response to send (with an
/// optional cache lifetime in milliseconds), a pass to the next candidate,
/// or a failure to contain.
pub enum HandlerOutcome {
    Served(Response, Option<u64>),
    Pass,
    Failed(crate::error::GemcapsError),
}

/// The reply when a handler failed: its error is contained and logged, and
/// the client learns only this.
pub fn failed_response() -> (r: Response)
    ensures
        crate::gemini::spec_status(&r) == 50,
        crate::gemini::spec_meta(&r) == "Internal server error"@,
        crate::gemini::spec_body(&r) is None,
{
    Response::failure_perm("Internal server error")
}

/// The reply when no entry covers the request at all.
pub fn no_candidates_response() -> (r: Response)
    ensures
        crate::gemini::spec_status(&r) == 51,
        crate::gemini::spec_meta(&r) == "Requested application not served here"@,
        crate::gemini::spec_body(&r) is None,
{
    Response::not_found("Requested application not served here")
}

/// The reply when every candidate passed on the request.
pub fn all_passed_response() -> (r: Response)
    ensures
        crate::gemini::spec_status(&r) == 51,
        crate::gemini::spec_meta(&r) == "Resource not found"@,
        crate::gemini::spec_body(&r) is None,
{
    Response::not_found("Resource not found")
}

/// A capsule level filter of the old configuration style: a domain the
/// request's domain must equal, and path rules of which one must match,
/// unless none at all are given.
pub struct CapsuleConfig {
    pub name: String,
    pub domain: String,
    pub rules: Vec<Rule>,
}

pub open spec fn rules_view(v: Seq<Rule>) -> Seq<Seq<char>> {
    v.map_values(|r: Rule| r@)
}

impl CapsuleConfig {
    /// Test whether this capsule is willing to handle the given request: the
    /// domain must equal the capsule's, and, where the capsule names any
    /// rules, at least one of them must match the path.
    pub fn test(&self, domain: &str, path: &str) -> (r: bool)
        ensures
            r == (domain@ == self.domain@ && (self.rules@.len() == 0 || exists|i: int|
                0 <= i < self.rules@.len() && regex_match(rules_view(self.rules@)[i], path@))),
    {
        if !crate::strutil::str_eq(domain, self.domain.as_str()) {
            return false;
        }
        if self.rules.len() == 0 {
            return true;
        }
        let mut i: usize = 0;
        while i < self.rules.len()
            invariant
                i <= self.rules@.len(),
                domain@ == self.domain@,
                forall|j: int|
                    0 <= j < i ==> !regex_match(rules_view(self.rules@)[j], path@),
            decreases self.rules@.len() - i,
        {
            if self.rules[i].is_match(path) {
                proof {
                    assert(regex_match(rules_view(self.rules@)[i as int], path@));
                }
                return true;
            }
            i = i + 1;
        }
        false
    }
}

} // verus!
