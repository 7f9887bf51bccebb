//! What a site's `robots.txt` allows, and the cache of the answers that
//! sites gave.
//!
//! A policy is kept as what the site answered: the status and the text.
//! The `robotparser` crate reads it each time a URL is judged.

use crate::text::{begins_with, chars_of, same_text};
use crate::web::{origin_of, parse_url, url_origin, url_parse};
use robotparser::parser::parse_fetched_robots_txt;
use robotparser::service::RobotsTxtService;
use url::Url;
use vstd::prelude::*;

verus! {

/// The number of entries above which the cache is cleared before the
/// next one is stored.
pub const ROBOTS_CACHE_LIMIT: usize = 512;

/// What a site answered when its `robots.txt` was asked for.
#[derive(Clone, Debug, PartialEq, Eq)]
pub struct RobotsPolicy {
    /// The URL that was asked.
    pub robots_url: String,
    /// The status and the text of the answer; `None` where none came.
    pub answer: Option<(u16, String)>,
}

/// A policy as plain values.
pub struct PolicyView {
    pub robots_url: Seq<char>,
    pub answer: Option<(u16, Seq<char>)>,
}

impl View for RobotsPolicy {
    type V = PolicyView;

    open spec fn view(&self) -> PolicyView {
        PolicyView {
            robots_url: self.robots_url@,
            answer: match self.answer {
                Some((status, body)) => Some((status, body@)),
                None => None,
            },
        }
    }
}

/// Whether the rules that `body` holds, answered with `status` for
/// `robots_url`, let `user_agent` fetch `url`; `None` where one of the
/// two URLs does not parse.
pub uninterp spec fn robots_verdict(
    robots_url: Seq<char>,
    status: u16,
    body: Seq<char>,
    user_agent: Seq<char>,
    url: Seq<char>,
) -> Option<bool>;

/// Tells whether `url` parses to a text that begins with its own origin.
/// A URL that carries a user name or a password does not.
pub open spec fn leads_with_origin(url: Seq<char>) -> bool {
    match (url_parse(url), url_origin(url)) {
        (Some(text), Some(origin)) => origin.len() > 0 && origin.is_prefix_of(text),
        _ => false,
    }
}

/// Tells whether a policy lets `user_agent` fetch `url`. Where the site
/// gave no answer nothing is allowed, nor is a URL that does not begin
/// with its own origin.
pub open spec fn policy_permits(policy: PolicyView, user_agent: Seq<char>, url: Seq<char>) -> bool {
    match policy.answer {
        Some((status, body)) => leads_with_origin(url) && robots_verdict(
            policy.robots_url,
            status,
            body,
            user_agent,
            url,
        ) == Some(true),
        None => false,
    }
}

/// The entries of a cache as plain values.
pub open spec fn entries(cache: Seq<(String, RobotsPolicy)>) -> Seq<(Seq<char>, PolicyView)> {
    cache.map_values(|e: (String, RobotsPolicy)| (e.0@, e.1@))
}

/// The position of the first entry for `host`, or the number of entries
/// where there is none.
pub open spec fn position_of(cache: Seq<(Seq<char>, PolicyView)>, host: Seq<char>) -> int
    decreases cache.len(),
{
    if cache.len() == 0 || cache[0].0 == host {
        0
    } else {
        1 + position_of(cache.drop_first(), host)
    }
}

/// The policy that the cache holds for `host`: that of the first entry
/// for it.
pub open spec fn cached(cache: Seq<(Seq<char>, PolicyView)>, host: Seq<char>) -> Option<
    PolicyView,
> {
    if 0 <= position_of(cache, host) < cache.len() {
        Some(cache[position_of(cache, host)].1)
    } else {
        None
    }
}

/// The cache after a policy was stored for `host`: a cache that holds
/// more than `ROBOTS_CACHE_LIMIT` entries is cleared first.
pub open spec fn stored(
    cache: Seq<(Seq<char>, PolicyView)>,
    host: Seq<char>,
    policy: PolicyView,
) -> Seq<(Seq<char>, PolicyView)> {
    if cache.len() > ROBOTS_CACHE_LIMIT {
        seq![(host, policy)]
    } else {
        cache.push((host, policy))
    }
}

/// `position_of` is the least position that holds `host`.
pub proof fn lemma_position_of(cache: Seq<(Seq<char>, PolicyView)>, host: Seq<char>)
    ensures
        0 <= position_of(cache, host) <= cache.len(),
        forall|j: int| 0 <= j < position_of(cache, host) ==> (#[trigger] cache[j]).0 != host,
        position_of(cache, host) < cache.len() ==> cache[position_of(cache, host)].0 == host,
    decreases cache.len(),
{
    if cache.len() != 0 && cache[0].0 != host {
        let rest = cache.drop_first();
        lemma_position_of(rest, host);
        assert forall|j: int| 0 <= j < position_of(cache, host) implies (#[trigger] cache[j]).0
            != host by {
            if j > 0 {
                assert(cache[j] == rest[j - 1]);
            }
        }
        assert(position_of(cache, host) < cache.len() ==> cache[position_of(cache, host)]
            == rest[position_of(rest, host)]);
    }
}

/// Parses the answer of a site with `parse_fetched_robots_txt`, for the
/// origin of `robots_url`, and asks the result `can_fetch` for
/// `user_agent` and `url`. `None` where `robots_url` or `url` does not
/// parse. `can_fetch` stops the program on a URL of the site's origin
/// whose text does not begin with that origin: the precondition keeps
/// such a URL out.
#[verifier::external_body]
fn ask_robots(
    robots_url: &str,
    status: u16,
    body: &str,
    user_agent: &str,
    url: &str,
) -> (verdict: Option<bool>)
    requires
        leads_with_origin(url@),
    ensures
        verdict == robots_verdict(robots_url@, status, body@, user_agent@, url@),
{
    match (Url::parse(robots_url), Url::parse(url)) {
        (Ok(site), Ok(target)) => {
            let rules = parse_fetched_robots_txt(site.origin(), status, body).get_result();
            Some(rules.can_fetch(user_agent, &target))
        },
        _ => None,
    }
}

/// Tells whether `url` parses to a text that begins with its own origin.
pub fn starts_with_origin(url: &str) -> (yes: bool)
    ensures
        yes == leads_with_origin(url@),
{
    match (parse_url(url), origin_of(url)) {
        (Some(text), Some(origin)) => {
            let prefix = chars_of(origin.as_str());
            let all = chars_of(text.as_str());
            prefix.len() > 0 && begins_with(&all, &prefix)
        },
        _ => false,
    }
}

impl RobotsPolicy {
    /// Tells whether the policy lets `user_agent` fetch `url`.
    pub fn permits(&self, user_agent: &str, url: &str) -> (allowed: bool)
        ensures
            allowed == policy_permits(self@, user_agent@, url@),
    {
        match &self.answer {
            Some((status, body)) => {
                if !starts_with_origin(url) {
                    return false;
                }
                let verdict = ask_robots(
                    self.robots_url.as_str(),
                    *status,
                    body.as_str(),
                    user_agent,
                    url,
                );
                match verdict {
                    Some(allowed) => allowed,
                    None => false,
                }
            },
            None => false,
        }
    }

    /// A copy of the policy.
    pub fn duplicate(&self) -> (copy: RobotsPolicy)
        ensures
            copy@ == self@,
    {
        RobotsPolicy {
            robots_url: self.robots_url.clone(),
            answer: match &self.answer {
                Some((status, body)) => Some((*status, body.clone())),
                None => None,
            },
        }
    }
}

/// The position of the first entry for `object` in `array`.
pub fn robot_cache_position(object: &str, array: &Vec<(String, RobotsPolicy)>) -> (at: Option<
    usize,
>)
    ensures
        match at {
            Some(i) => i == position_of(entries(array@), object@) && i < array.len(),
            None => position_of(entries(array@), object@) == array.len(),
        },
{
    let ghost all = entries(array@);
    let mut i: usize = 0;
    while i < array.len()
        invariant
            i <= array.len(),
            all == entries(array@),
            forall|j: int| 0 <= j < i ==> (#[trigger] all[j]).0 != object@,
        decreases array.len() - i,
    {
        if same_text(array[i].0.as_str(), object) {
            proof {
                assert(all[i as int].0 == object@);
                lemma_position_of(all, object@);
            }
            return Some(i);
        }
        i += 1;
    }
    proof {
        lemma_position_of(all, object@);
    }
    None
}

/// The first entry for the host `object` in `array`, if there is one.
pub fn find_in_robot_cache(object: &str, array: Vec<(String, RobotsPolicy)>) -> (entry: Option<
    (String, RobotsPolicy),
>)
    ensures
        match cached(entries(array@), object@) {
            Some(policy) => entry matches Some(found) && found.0@ == object@ && found.1@ == policy,
            None => entry is None,
        },
{
    let mut array = array;
    match robot_cache_position(object, &array) {
        Some(i) => {
            proof {
                lemma_position_of(entries(array@), object@);
                assert(entries(array@)[i as int] == (array@[i as int].0@, array@[i as int].1@));
            }
            Some(array.swap_remove(i))
        },
        None => None,
    }
}

/// Stores the policy of `host`. A cache that holds more than
/// `ROBOTS_CACHE_LIMIT` entries is cleared first.
pub fn store_in_robot_cache(
    array: &mut Vec<(String, RobotsPolicy)>,
    host: String,
    policy: RobotsPolicy,
)
    ensures
        entries(final(array)@) == stored(entries(old(array)@), host@, policy@),
{
    if array.len() > ROBOTS_CACHE_LIMIT {
        array.clear();
    }
    let ghost before = entries(array@);
    array.push((host, policy));
    assert(entries(array@) =~= before.push((host@, policy@)));
    assert(Seq::<(Seq<char>, PolicyView)>::empty().push((host@, policy@)) =~= seq![
        (host@, policy@),
    ]);
}

/// Storing into a cache that holds more than `ROBOTS_CACHE_LIMIT` entries
/// clears all of them before the new entry goes in: the new entry is the
/// only one left, and every other host has to be asked again.
pub proof fn law_overflow_clears_cache(
    cache: Seq<(Seq<char>, PolicyView)>,
    host: Seq<char>,
    policy: PolicyView,
    other: Seq<char>,
)
    requires
        cache.len() > ROBOTS_CACHE_LIMIT,
        other != host,
    ensures
        stored(cache, host, policy) == seq![(host, policy)],
        cached(stored(cache, host, policy), host) == Some(policy),
        cached(stored(cache, host, policy), other) is None,
{
    let after = stored(cache, host, policy);
    lemma_position_of(after, host);
    lemma_position_of(after, other);
}

/// Storing into a cache that holds at most `ROBOTS_CACHE_LIMIT` entries
/// keeps what it held: a host that was cached keeps its policy, and a
/// new host gets the policy that was stored.
pub proof fn law_store_keeps_cache(
    cache: Seq<(Seq<char>, PolicyView)>,
    host: Seq<char>,
    policy: PolicyView,
    other: Seq<char>,
)
    requires
        cache.len() <= ROBOTS_CACHE_LIMIT,
    ensures
        stored(cache, host, policy) == cache.push((host, policy)),
        cached(cache, other) is Some ==> cached(stored(cache, host, policy), other) == cached(
            cache,
            other,
        ),
        cached(cache, host) is None ==> cached(stored(cache, host, policy), host) == Some(policy),
{
    let after = stored(cache, host, policy);
    lemma_position_of(cache, other);
    lemma_position_of(after, other);
    lemma_position_of(cache, host);
    lemma_position_of(after, host);
    if cached(cache, other) is Some {
        let i = position_of(cache, other);
        assert(after[i] == cache[i]);
        assert forall|j: int| 0 <= j < i implies (#[trigger] after[j]).0 != other by {
            assert(after[j] == cache[j]);
        }
        if position_of(after, other) < i {
            assert(after[position_of(after, other)].0 == other);
        }
    }
    if cached(cache, host) is None {
        assert forall|j: int| 0 <= j < cache.len() implies (#[trigger] after[j]).0 != host by {
            assert(after[j] == cache[j]);
        }
        assert(after[cache.len() as int] == (host, policy));
        if position_of(after, host) < cache.len() {
            assert(after[position_of(after, host)].0 == host);
        }
    }
}

} // verus!
