//! Turning the links found on a page into canonical absolute URLs, and
//! collecting them without duplicates.

use crate::query::{strip_query, strip_query_chars};
use crate::text::{
    append_chars, chars_of, copy_range, find_char, has_char, index_of, same_text,
    string_of,
};
use crate::web::{
    host_of, join_url, parse_url, query_of, text_of, url_host, url_join, url_parse, url_query,
    url_with_host, url_with_path, url_with_query, with_host, with_path, with_query, MAX_URL_CHARS,
};
use vstd::prelude::*;
use vstd::string::StrSliceExecFns;

verus! {

/// The texts of a list of URLs.
pub open spec fn texts(list: Seq<String>) -> Seq<Seq<char>> {
    list.map_values(|s: String| s@)
}

/// Tells whether a text is short enough to be rewritten.
pub open spec fn fits(text: Seq<char>) -> bool {
    text.len() <= MAX_URL_CHARS
}

/// `url` with its path set to `/`.
pub open spec fn site_root(url: Seq<char>) -> Option<Seq<char>> {
    if fits(url) {
        url_with_path(url, seq!['/'])
    } else {
        None
    }
}

/// The homepage of the host of `url`: the same URL with the same host and
/// the path `/`. There is none where `url` does not parse, has no host, or
/// has a host without a `.`.
pub open spec fn root_domain_of(url: Seq<char>) -> Option<Seq<char>> {
    match url_host(url) {
        Some(host) => if has_char(host, '.') && fits(url) && fits(host) {
            match url_with_host(url, host) {
                Some(same) => site_root(same),
                None => None,
            }
        } else {
            None
        },
        None => None,
    }
}

/// `url` with the tracking parameters removed from its query; a query
/// that is left empty is removed altogether.
pub open spec fn without_tracking(url: Seq<char>) -> Option<Seq<char>> {
    let query = strip_query(
        match url_query(url) {
            Some(q) => q,
            None => Seq::empty(),
        },
    );
    if fits(url) && fits(query) {
        url_with_query(
            url,
            if query.len() == 0 {
                None
            } else {
                Some(query)
            },
        )
    } else {
        None
    }
}

/// The part of a link before its first `#`.
pub open spec fn before_fragment(href: Seq<char>) -> Seq<char> {
    href.take(index_of(href, '#'))
}

/// The six characters `https:`.
pub open spec fn https_scheme() -> Seq<char> {
    seq!['h', 't', 't', 'p', 's', ':']
}

/// The forms that a link on a page can have.
#[derive(Clone, Copy, Debug, PartialEq, Eq, Structural)]
pub enum LinkForm {
    /// Nothing but, at most, a fragment.
    Empty,
    /// An absolute URL.
    Absolute,
    /// A path or a query that begins with `.` or `?`.
    Relative,
    /// A host and what follows it, after `//`.
    SchemeRelative,
    /// A path from the root of the site, after a single `/`.
    RootRelative,
    /// Any other: a path beside the page.
    Bare,
}

/// The form of a link without its fragment, given whether it parses as
/// an absolute URL.
pub open spec fn form_of(found: Seq<char>, absolute: bool) -> LinkForm {
    if found.len() == 0 {
        LinkForm::Empty
    } else if absolute {
        LinkForm::Absolute
    } else if found[0] == '.' || found[0] == '?' {
        LinkForm::Relative
    } else if found[0] == '/' {
        if found.len() >= 2 && found[1] == '/' {
            LinkForm::SchemeRelative
        } else {
            LinkForm::RootRelative
        }
    } else {
        LinkForm::Bare
    }
}

/// The absolute URL that a link on the page `base` points to.
///
/// The fragment is cut off first; nothing is left of an empty link. What
/// parses as an absolute URL stands as it is. A link that begins with `.`
/// or `?` is resolved against the page; one that begins with `//` gets the
/// scheme `https`; one that begins with a single `/` leads to the root of
/// the page's site, whatever follows the `/`; any other is resolved
/// against the page as a path beside it.
pub open spec fn resolved(base: Seq<char>, href: Seq<char>) -> Option<Seq<char>> {
    let found = before_fragment(href);
    match form_of(found, url_parse(found) is Some) {
        LinkForm::Empty => None,
        LinkForm::Absolute => url_parse(found),
        LinkForm::Relative => url_join(base, found),
        LinkForm::SchemeRelative => url_parse(https_scheme() + found),
        LinkForm::RootRelative => site_root(base),
        LinkForm::Bare => url_join(base, seq!['.', '/'] + found),
    }
}

/// Tells whether a text is a URL in canonical form: it parses as an
/// absolute URL, is written as the parser writes that URL, and has no
/// fragment.
pub open spec fn canonical(url: Seq<char>) -> bool {
    url_parse(url) == Some(url) && !has_char(url, '#')
}

/// Tells whether every text of a list is a URL in canonical form.
pub open spec fn all_canonical(list: Seq<Seq<char>>) -> bool {
    forall|k: int| 0 <= k < list.len() ==> canonical(#[trigger] list[k])
}

/// The one URL that is left of `url` after its tracking parameters were
/// removed, or nothing where that is no URL in canonical form.
pub open spec fn cleaned(url: Seq<char>) -> Seq<Seq<char>> {
    match without_tracking(url) {
        Some(clean) => if canonical(clean) {
            seq![clean]
        } else {
            Seq::empty()
        },
        None => Seq::empty(),
    }
}

/// The candidates that a link gives: the URL it points to and, where
/// there is one, the homepage of that URL's host, both without tracking
/// parameters. A candidate that is no URL in canonical form is left out.
pub open spec fn repaired(base: Seq<char>, href: Seq<char>) -> Option<Seq<Seq<char>>> {
    match resolved(base, href) {
        Some(found) => Some(
            cleaned(found) + match root_domain_of(found) {
                Some(root) => cleaned(root),
                None => Seq::empty(),
            },
        ),
        None => None,
    }
}

/// `into` after the URLs were added, one after the other, each only if it
/// is neither in the list so far nor in `cache`.
pub open spec fn merged(into: Seq<Seq<char>>, urls: Seq<Seq<char>>, cache: Seq<Seq<char>>) -> Seq<
    Seq<char>,
>
    decreases urls.len(),
{
    if urls.len() == 0 {
        into
    } else if into.contains(urls[0]) || cache.contains(urls[0]) {
        merged(into, urls.drop_first(), cache)
    } else {
        merged(into.push(urls[0]), urls.drop_first(), cache)
    }
}

/// Tells whether `text` has at most `MAX_URL_CHARS` characters.
fn is_short(text: &str) -> (yes: bool)
    ensures
        yes == fits(text@),
{
    text.unicode_len() <= MAX_URL_CHARS
}

/// Sets the path of `url` to `/`.
fn to_site_root(url: &str) -> (root: Option<String>)
    ensures
        text_of(root) == site_root(url@),
{
    if !is_short(url) {
        return None;
    }
    proof {
        reveal_strlit("/");
        assert("/"@ =~= seq!['/']);
    }
    with_path(url, "/")
}

/// The part of a link before its first `#`.
pub fn cut_fragment(href: &str) -> (found: Vec<char>)
    ensures
        found@ == before_fragment(href@),
{
    let all = chars_of(href);
    let cut = find_char(&all, 0, '#');
    proof {
        assert(all@.skip(0) =~= all@);
    }
    copy_range(&all, 0, cut)
}

/// The form of a link without its fragment; `absolute` says whether it
/// parses as an absolute URL.
pub fn link_form(found: &Vec<char>, absolute: bool) -> (form: LinkForm)
    ensures
        form == form_of(found@, absolute),
{
    if found.len() == 0 {
        LinkForm::Empty
    } else if absolute {
        LinkForm::Absolute
    } else if found[0] == '.' || found[0] == '?' {
        LinkForm::Relative
    } else if found[0] == '/' {
        if found.len() >= 2 && found[1] == '/' {
            LinkForm::SchemeRelative
        } else {
            LinkForm::RootRelative
        }
    } else {
        LinkForm::Bare
    }
}

/// `text` after the characters of `prefix`.
fn prefixed(prefix: &str, text: &Vec<char>) -> (whole: String)
    ensures
        whole@ == prefix@ + text@,
{
    let mut whole = chars_of(prefix);
    append_chars(&mut whole, text);
    string_of(&whole)
}

/// Resolves a link found on the page `original_url`. `None` where the
/// link is empty or does not resolve.
pub fn resolve_link(original_url: &str, href: &str) -> (target: Option<String>)
    ensures
        text_of(target) == resolved(original_url@, href@),
{
    let found = cut_fragment(href);
    let found_text = string_of(&found);
    let absolute = parse_url(found_text.as_str());
    match link_form(&found, absolute.is_some()) {
        LinkForm::Empty => None,
        LinkForm::Absolute => absolute,
        LinkForm::Relative => join_url(original_url, found_text.as_str()),
        LinkForm::SchemeRelative => {
            proof {
                reveal_strlit("https:");
                assert("https:"@ =~= https_scheme());
            }
            parse_url(prefixed("https:", &found).as_str())
        },
        LinkForm::RootRelative => to_site_root(original_url),
        LinkForm::Bare => {
            proof {
                reveal_strlit("./");
                assert("./"@ =~= seq!['.', '/']);
            }
            join_url(original_url, prefixed("./", &found).as_str())
        },
    }
}

/// Removes the tracking parameters from the query of `url`. `None` where
/// `url` does not parse or is longer than `MAX_URL_CHARS`.
pub fn remove_get_params(url: &str) -> (clean: Option<String>)
    ensures
        text_of(clean) == without_tracking(url@),
{
    let query = match query_of(url) {
        Some(q) => chars_of(q.as_str()),
        None => Vec::new(),
    };
    let kept = strip_query_chars(&query);
    if !is_short(url) || kept.len() > MAX_URL_CHARS {
        return None;
    }
    if kept.len() == 0 {
        with_query(url, None)
    } else {
        let text = string_of(&kept);
        with_query(url, Some(text.as_str()))
    }
}

/// Tells whether a host has a parent: whether a `.` stands in it.
pub fn host_has_parent(host: &str) -> (yes: bool)
    ensures
        yes == has_char(host@, '.'),
{
    let name = chars_of(host);
    proof {
        assert(name@.skip(0) =~= name@);
    }
    find_char(&name, 0, '.') < name.len()
}

/// The homepage of the host of `url`: the URL with the same host and the
/// path `/`. `None` where `url` does not parse, has no host, has a host
/// without a `.`, or is longer than `MAX_URL_CHARS`.
pub fn get_root_domain(url: &str) -> (root: Option<String>)
    ensures
        text_of(root) == root_domain_of(url@),
{
    let host = match host_of(url) {
        Some(h) => h,
        None => {
            return None;
        },
    };
    if !host_has_parent(host.as_str()) || !is_short(url) || !is_short(host.as_str()) {
        return None;
    }
    match with_host(url, host.as_str()) {
        Some(same) => to_site_root(same.as_str()),
        None => None,
    }
}

/// Tells whether `url` is a URL in canonical form.
pub fn is_canonical(url: &str) -> (yes: bool)
    ensures
        yes == canonical(url@),
{
    match parse_url(url) {
        Some(text) => {
            let all = chars_of(url);
            proof {
                assert(all@.skip(0) =~= all@);
            }
            same_text(text.as_str(), url) && find_char(&all, 0, '#') >= all.len()
        },
        None => false,
    }
}

/// Appends what is left of `url` after cleaning to `list`.
fn push_cleaned(list: &mut Vec<String>, url: &str)
    ensures
        texts(final(list)@) == texts(old(list)@) + cleaned(url@),
{
    let ghost before = texts(list@);
    match remove_get_params(url) {
        Some(clean) => {
            if is_canonical(clean.as_str()) {
                let ghost text = clean@;
                list.push(clean);
                assert(texts(list@) =~= before + seq![text]);
            } else {
                assert(texts(list@) =~= before + Seq::<Seq<char>>::empty());
            }
        },
        None => {
            assert(texts(list@) =~= before + Seq::<Seq<char>>::empty());
        },
    }
}

/// Every candidate of a link is a URL in canonical form.
pub proof fn lemma_repaired_canonical(base: Seq<char>, href: Seq<char>)
    ensures
        repaired(base, href) matches Some(list) ==> all_canonical(list),
{
}

/// A list of URLs in canonical form stays one when such URLs are added.
pub proof fn lemma_merged_canonical(
    into: Seq<Seq<char>>,
    urls: Seq<Seq<char>>,
    cache: Seq<Seq<char>>,
)
    requires
        all_canonical(into),
        all_canonical(urls),
    ensures
        all_canonical(merged(into, urls, cache)),
    decreases urls.len(),
{
    if urls.len() > 0 {
        let rest = urls.drop_first();
        assert forall|k: int| 0 <= k < rest.len() implies canonical(#[trigger] rest[k]) by {
            assert(rest[k] == urls[k + 1]);
        }
        assert(canonical(urls[0]));
        if into.contains(urls[0]) || cache.contains(urls[0]) {
            lemma_merged_canonical(into, rest, cache);
        } else {
            lemma_merged_canonical(into.push(urls[0]), rest, cache);
        }
    }
}

/// The candidate URLs for a link found on the page `original_url`: the
/// URL that the link points to and the homepage of its host, without
/// tracking parameters, each absolute, in canonical form and without a
/// fragment. `None` where the link does not resolve. The attribute is
/// given as its name and its value; only the value is read.
pub fn repair_suggested_url(original_url: &str, attribute: (&str, &str)) -> (candidates: Option<
    Vec<String>,
>)
    ensures
        match repaired(original_url@, attribute.1@) {
            Some(list) => candidates is Some && texts(candidates->0@) == list,
            None => candidates is None,
        },
        candidates matches Some(list) ==> all_canonical(texts(list@)),
{
    let found = match resolve_link(original_url, attribute.1) {
        Some(f) => f,
        None => {
            return None;
        },
    };
    let mut list: Vec<String> = Vec::new();
    push_cleaned(&mut list, found.as_str());
    match get_root_domain(found.as_str()) {
        Some(root) => {
            push_cleaned(&mut list, root.as_str());
        },
        None => {
            assert(texts(list@) + Seq::<Seq<char>>::empty() =~= texts(list@));
        },
    }
    proof {
        assert(Seq::<Seq<char>>::empty() + cleaned(found@) =~= cleaned(found@));
    }
    Some(list)
}

/// Tells whether `object` is absent from `array`: `true` means that the
/// URL has not been seen and may be inserted.
pub fn check_if_is_in_url_list(object: &str, array: &Vec<String>) -> (absent: bool)
    ensures
        absent == !texts(array@).contains(object@),
{
    let mut i: usize = 0;
    while i < array.len()
        invariant
            i <= array.len(),
            forall|j: int| 0 <= j < i ==> array@[j]@ != object@,
        decreases array.len() - i,
    {
        if same_text(array[i].as_str(), object) {
            assert(texts(array@)[i as int] == object@);
            return false;
        }
        i += 1;
    }
    true
}

/// Adds each of `urls` to `into`, in order, unless it is already in
/// `into` or in `cache`. Without URLs nothing changes.
pub fn add_urls_to_vec(urls: Option<Vec<String>>, into: &mut Vec<String>, cache: &Vec<String>)
    ensures
        texts(final(into)@) == merged(
            texts(old(into)@),
            match urls {
                Some(list) => texts(list@),
                None => Seq::empty(),
            },
            texts(cache@),
        ),
{
    let list = match urls {
        Some(l) => l,
        None => {
            return ;
        },
    };
    let ghost all = texts(list@);
    let ghost known = texts(cache@);
    let ghost start = texts(into@);
    let mut i: usize = 0;
    proof {
        assert(all.skip(0) =~= all);
    }
    while i < list.len()
        invariant
            i <= list.len(),
            all == texts(list@),
            known == texts(cache@),
            merged(start, all, known) == merged(texts(into@), all.skip(i as int), known),
        decreases list.len() - i,
    {
        let ghost tail = all.skip(i as int);
        let ghost before = texts(into@);
        proof {
            assert(tail[0] == list@[i as int]@);
            assert(tail.drop_first() =~= all.skip(i + 1));
        }
        if check_if_is_in_url_list(list[i].as_str(), into) && check_if_is_in_url_list(
            list[i].as_str(),
            cache,
        ) {
            into.push(list[i].clone());
            proof {
                assert(texts(into@) =~= before.push(tail[0]));
            }
        }
        i += 1;
    }
    proof {
        assert(all.skip(list.len() as int) =~= Seq::<Seq<char>>::empty());
    }
}

} // verus!
