//! Removal of tracking parameters from a query string.
//!
//! A query is read as parameters separated by `&`, after every `&amp;` in
//! it was turned into `&`. A parameter that begins with one of the blocked
//! prefixes is dropped; the others stay, in their order.

use crate::text::{
    begins_with, chars_of, copy_range, has_char, join_chars, join_with, lemma_index_of,
    lemma_join_of_split, lemma_split_of_join, lemma_split_pieces, pieces, split_chars, split_on,
};
use vstd::prelude::*;

verus! {

/// The five characters `&amp;`.
pub open spec fn amp_entity() -> Seq<char> {
    seq!['&', 'a', 'm', 'p', ';']
}

/// Tells whether `&amp;` occurs in `s`.
pub open spec fn holds_entity(s: Seq<char>) -> bool {
    exists|i: int| 0 <= i && i + 5 <= s.len() && #[trigger] s.subrange(i, i + 5) == amp_entity()
}

/// `s` with every `&amp;` turned into `&`, read from the left.
pub open spec fn unescape_amp(s: Seq<char>) -> Seq<char>
    decreases s.len(),
{
    if s.len() == 0 {
        s
    } else if amp_entity().is_prefix_of(s) {
        seq!['&'] + unescape_amp(s.skip(5))
    } else {
        seq![s[0]] + unescape_amp(s.skip(1))
    }
}

/// The prefixes that mark a parameter as a tracking parameter.
pub open spec fn blocked_prefixes() -> Seq<Seq<char>> {
    seq![
        "utm_source"@,
        "utm_medium"@,
        "utm_term"@,
        "utm_content"@,
        "utm_campaign"@,
        "utm_reader"@,
        "utm_place"@,
        "utm_userid"@,
        "utm_cid"@,
        "utm_name"@,
        "utm_pubreferrer"@,
        "utm_swu"@,
        "utm_viz_id"@,
        "ga_source"@,
        "ga_medium"@,
        "ga_term"@,
        "ga_content"@,
        "ga_campaign"@,
        "ga_place"@,
        "yclid"@,
        "_openstat"@,
        "fb_action_ids"@,
        "fb_action_types"@,
        "fb_ref"@,
        "fb_source"@,
        "action_object_map"@,
        "action_type_map"@,
        "action_ref_map"@,
        "_hsenc"@,
        "mkt_tok"@,
        "hmb_campaign"@,
        "hmb_medium"@,
        "hmb_source"@,
        "lang"@,
    ]
}

/// Tells whether `param` begins with one of the given prefixes.
pub open spec fn begins_with_any(param: Seq<char>, prefixes: Seq<Seq<char>>) -> bool {
    exists|k: int| 0 <= k < prefixes.len() && (#[trigger] prefixes[k]).is_prefix_of(param)
}

/// Tells whether `param` is a tracking parameter.
pub open spec fn is_blocked(param: Seq<char>) -> bool {
    begins_with_any(param, blocked_prefixes())
}

/// The parameters that are not blocked, in their order.
pub open spec fn keep_unblocked(params: Seq<Seq<char>>) -> Seq<Seq<char>>
    decreases params.len(),
{
    if params.len() == 0 {
        params
    } else if is_blocked(params[0]) {
        keep_unblocked(params.drop_first())
    } else {
        seq![params[0]] + keep_unblocked(params.drop_first())
    }
}

/// The query without its tracking parameters.
pub open spec fn strip_query(query: Seq<char>) -> Seq<char> {
    join_with(keep_unblocked(split_on(unescape_amp(query), '&')), '&')
}

/// Turns every `&amp;` in `v` into `&`.
pub fn unescape_amp_chars(v: &Vec<char>) -> (out: Vec<char>)
    ensures
        out@ == unescape_amp(v@),
{
    let mut out: Vec<char> = Vec::new();
    let mut i: usize = 0;
    proof {
        assert(v@.skip(0) =~= v@);
        assert(out@ + unescape_amp(v@) =~= unescape_amp(v@));
    }
    while i < v.len()
        invariant
            i <= v.len(),
            unescape_amp(v@) == out@ + unescape_amp(v@.skip(i as int)),
        decreases v.len() - i,
    {
        let ghost tail = v@.skip(i as int);
        let ghost before = out@;
        if v.len() - i >= 5 && v[i] == '&' && v[i + 1] == 'a' && v[i + 2] == 'm' && v[i + 3] == 'p'
            && v[i + 4] == ';' {
            out.push('&');
            proof {
                assert(tail.subrange(0, 5) =~= amp_entity());
                assert(tail.skip(5) =~= v@.skip(i + 5));
                assert(before + (seq!['&'] + unescape_amp(v@.skip(i + 5))) =~= out@ + unescape_amp(
                    v@.skip(i + 5),
                ));
            }
            i += 5;
        } else {
            out.push(v[i]);
            proof {
                if amp_entity().is_prefix_of(tail) {
                    let head = tail.subrange(0, 5);
                    assert(head[0] == '&' && head[1] == 'a' && head[2] == 'm' && head[3] == 'p'
                        && head[4] == ';');
                }
                assert(tail.skip(1) =~= v@.skip(i + 1));
                assert(before + (seq![tail[0]] + unescape_amp(v@.skip(i + 1))) =~= out@
                    + unescape_amp(v@.skip(i + 1)));
            }
            i += 1;
        }
    }
    proof {
        assert(out@ + unescape_amp(v@.skip(v.len() as int)) =~= out@);
    }
    out
}

/// The blocked prefixes, as characters.
pub fn blocked_params() -> (list: Vec<Vec<char>>)
    ensures
        pieces(list@) == blocked_prefixes(),
{
    let mut list: Vec<Vec<char>> = Vec::new();
    list.push(chars_of("utm_source"));
    list.push(chars_of("utm_medium"));
    list.push(chars_of("utm_term"));
    list.push(chars_of("utm_content"));
    list.push(chars_of("utm_campaign"));
    list.push(chars_of("utm_reader"));
    list.push(chars_of("utm_place"));
    list.push(chars_of("utm_userid"));
    list.push(chars_of("utm_cid"));
    list.push(chars_of("utm_name"));
    list.push(chars_of("utm_pubreferrer"));
    list.push(chars_of("utm_swu"));
    list.push(chars_of("utm_viz_id"));
    list.push(chars_of("ga_source"));
    list.push(chars_of("ga_medium"));
    list.push(chars_of("ga_term"));
    list.push(chars_of("ga_content"));
    list.push(chars_of("ga_campaign"));
    list.push(chars_of("ga_place"));
    list.push(chars_of("yclid"));
    list.push(chars_of("_openstat"));
    list.push(chars_of("fb_action_ids"));
    list.push(chars_of("fb_action_types"));
    list.push(chars_of("fb_ref"));
    list.push(chars_of("fb_source"));
    list.push(chars_of("action_object_map"));
    list.push(chars_of("action_type_map"));
    list.push(chars_of("action_ref_map"));
    list.push(chars_of("_hsenc"));
    list.push(chars_of("mkt_tok"));
    list.push(chars_of("hmb_campaign"));
    list.push(chars_of("hmb_medium"));
    list.push(chars_of("hmb_source"));
    list.push(chars_of("lang"));
    assert(pieces(list@) =~= blocked_prefixes());
    list
}

/// Tells whether `param` begins with one of `prefixes`.
pub fn begins_with_one(param: &Vec<char>, prefixes: &Vec<Vec<char>>) -> (found: bool)
    ensures
        found == begins_with_any(param@, pieces(prefixes@)),
{
    let mut k: usize = 0;
    while k < prefixes.len()
        invariant
            k <= prefixes.len(),
            forall|j: int| 0 <= j < k ==> !(#[trigger] pieces(prefixes@)[j]).is_prefix_of(param@),
        decreases prefixes.len() - k,
    {
        if begins_with(param, &prefixes[k]) {
            assert(pieces(prefixes@)[k as int].is_prefix_of(param@));
            return true;
        }
        k += 1;
    }
    false
}

/// Removes the tracking parameters from a query.
pub fn strip_query_chars(query: &Vec<char>) -> (stripped: Vec<char>)
    ensures
        stripped@ == strip_query(query@),
{
    let plain = unescape_amp_chars(query);
    let params = split_chars(&plain, '&');
    let blocked = blocked_params();
    let mut kept: Vec<Vec<char>> = Vec::new();
    let ghost all = pieces(params@);
    let mut i: usize = 0;
    proof {
        assert(all.skip(0) =~= all);
        assert(pieces(kept@) + keep_unblocked(all) =~= keep_unblocked(all));
    }
    while i < params.len()
        invariant
            i <= params.len(),
            all == pieces(params@),
            pieces(blocked@) == blocked_prefixes(),
            keep_unblocked(all) == pieces(kept@) + keep_unblocked(all.skip(i as int)),
        decreases params.len() - i,
    {
        let ghost before = pieces(kept@);
        let ghost tail = all.skip(i as int);
        proof {
            assert(tail[0] == params@[i as int]@);
            assert(tail.drop_first() =~= all.skip(i + 1));
        }
        if !begins_with_one(&params[i], &blocked) {
            kept.push(copy_range(&params[i], 0, params[i].len()));
            proof {
                assert(params@[i as int]@.subrange(0, params@[i as int]@.len() as int)
                    =~= params@[i as int]@);
                assert(pieces(kept@) =~= before.push(tail[0]));
                assert(before + (seq![tail[0]] + keep_unblocked(all.skip(i + 1))) =~= pieces(kept@)
                    + keep_unblocked(all.skip(i + 1)));
            }
        }
        i += 1;
    }
    proof {
        assert(all.skip(params.len() as int) =~= Seq::<Seq<char>>::empty());
        assert(pieces(kept@) + Seq::<Seq<char>>::empty() =~= pieces(kept@));
    }
    join_chars(&kept, '&')
}

/// A text without `&amp;` is its own unescaped form.
pub proof fn lemma_unescape_plain(s: Seq<char>)
    requires
        !holds_entity(s),
    ensures
        unescape_amp(s) == s,
    decreases s.len(),
{
    if s.len() > 0 {
        if amp_entity().is_prefix_of(s) {
            assert(s.subrange(0int, 0int + 5) == amp_entity());
        }
        let rest = s.skip(1);
        if holds_entity(rest) {
            let i = choose|i: int|
                0 <= i && i + 5 <= rest.len() && #[trigger] rest.subrange(i, i + 5) == amp_entity();
            assert(s.subrange(i + 1, i + 1 + 5) =~= rest.subrange(i, i + 5));
        }
        lemma_unescape_plain(rest);
        assert(seq![s[0]] + rest =~= s);
    }
}

/// What is kept is not blocked, and was among the parameters.
pub proof fn lemma_kept_params(params: Seq<Seq<char>>)
    ensures
        forall|k: int|
            0 <= k < keep_unblocked(params).len() ==> !is_blocked(
                #[trigger] keep_unblocked(params)[k],
            ) && params.contains(keep_unblocked(params)[k]),
    decreases params.len(),
{
    if params.len() > 0 {
        let rest = params.drop_first();
        lemma_kept_params(rest);
        let kept = keep_unblocked(params);
        assert forall|k: int| 0 <= k < kept.len() implies !is_blocked(#[trigger] kept[k])
            && params.contains(kept[k]) by {
            if !is_blocked(params[0]) && k == 0 {
                assert(kept[0] == params[0]);
            } else {
                let j = if is_blocked(params[0]) {
                    k
                } else {
                    k - 1
                };
                assert(kept[k] == keep_unblocked(rest)[j]);
                let at = choose|at: int| 0 <= at < rest.len() && rest[at] == kept[k];
                assert(params[at + 1] == kept[k]);
            }
        }
    }
}

/// Parameters of which none is blocked are all kept.
pub proof fn lemma_keep_all(params: Seq<Seq<char>>)
    requires
        forall|k: int| 0 <= k < params.len() ==> !is_blocked(#[trigger] params[k]),
    ensures
        keep_unblocked(params) == params,
    decreases params.len(),
{
    if params.len() > 0 {
        let rest = params.drop_first();
        assert forall|k: int| 0 <= k < rest.len() implies !is_blocked(#[trigger] rest[k]) by {
            assert(rest[k] == params[k + 1]);
        }
        lemma_keep_all(rest);
        assert(!is_blocked(params[0]));
        assert(seq![params[0]] + rest =~= params);
    }
}

/// Every blocked prefix has at least one character, so the empty
/// parameter is not blocked.
pub proof fn lemma_empty_param_stays()
    ensures
        !is_blocked(Seq::<char>::empty()),
{
    reveal_strlit("utm_source");
    reveal_strlit("utm_medium");
    reveal_strlit("utm_term");
    reveal_strlit("utm_content");
    reveal_strlit("utm_campaign");
    reveal_strlit("utm_reader");
    reveal_strlit("utm_place");
    reveal_strlit("utm_userid");
    reveal_strlit("utm_cid");
    reveal_strlit("utm_name");
    reveal_strlit("utm_pubreferrer");
    reveal_strlit("utm_swu");
    reveal_strlit("utm_viz_id");
    reveal_strlit("ga_source");
    reveal_strlit("ga_medium");
    reveal_strlit("ga_term");
    reveal_strlit("ga_content");
    reveal_strlit("ga_campaign");
    reveal_strlit("ga_place");
    reveal_strlit("yclid");
    reveal_strlit("_openstat");
    reveal_strlit("fb_action_ids");
    reveal_strlit("fb_action_types");
    reveal_strlit("fb_ref");
    reveal_strlit("fb_source");
    reveal_strlit("action_object_map");
    reveal_strlit("action_type_map");
    reveal_strlit("action_ref_map");
    reveal_strlit("_hsenc");
    reveal_strlit("mkt_tok");
    reveal_strlit("hmb_campaign");
    reveal_strlit("hmb_medium");
    reveal_strlit("hmb_source");
    reveal_strlit("lang");
    let empty = Seq::<char>::empty();
    assert forall|k: int| 0 <= k < blocked_prefixes().len() implies !(
    #[trigger] blocked_prefixes()[k]).is_prefix_of(empty) by {
        assert(blocked_prefixes()[k].len() > 0);
    }
}

/// Stripping a query made of parameters joined by `&` keeps exactly the
/// parameters that are not blocked, in their order, and removes no other.
/// The parameters hold no `&`, and their joined text no `&amp;`.
pub proof fn law_strip_keeps_unblocked_params(params: Seq<Seq<char>>)
    requires
        params.len() >= 1,
        forall|k: int| 0 <= k < params.len() ==> !has_char(#[trigger] params[k], '&'),
        !holds_entity(join_with(params, '&')),
    ensures
        strip_query(join_with(params, '&')) == join_with(keep_unblocked(params), '&'),
{
    lemma_unescape_plain(join_with(params, '&'));
    lemma_split_of_join(params, '&');
}

/// Stripping is idempotent: a stripped query is stripped to itself. This
/// holds of every query whose stripped form holds no `&amp;`; where it
/// holds one, the second pass unescapes it.
pub proof fn law_strip_query_idempotent(query: Seq<char>)
    requires
        !holds_entity(strip_query(query)),
    ensures
        strip_query(strip_query(query)) == strip_query(query),
{
    let params = split_on(unescape_amp(query), '&');
    let kept = keep_unblocked(params);
    let once = strip_query(query);
    lemma_unescape_plain(once);
    lemma_split_pieces(unescape_amp(query), '&');
    lemma_kept_params(params);
    if kept.len() == 0 {
        lemma_index_of(once, '&');
        assert(split_on(once, '&') == seq![once]);
        lemma_empty_param_stays();
        assert(once =~= Seq::<char>::empty());
        lemma_keep_all(seq![once]);
    } else {
        assert forall|k: int| 0 <= k < kept.len() implies !has_char(#[trigger] kept[k], '&') by {
            let at = choose|at: int| 0 <= at < params.len() && params[at] == kept[k];
            assert(!has_char(params[at], '&'));
        }
        lemma_split_of_join(kept, '&');
        lemma_keep_all(kept);
    }
}

/// Unescaping never lengthens a text, and shortens one that holds `&amp;`.
pub proof fn lemma_unescape_shortens(s: Seq<char>)
    ensures
        unescape_amp(s).len() <= s.len(),
        holds_entity(s) ==> unescape_amp(s).len() < s.len(),
    decreases s.len(),
{
    if s.len() > 0 {
        if amp_entity().is_prefix_of(s) {
            lemma_unescape_shortens(s.skip(5));
        } else {
            let rest = s.skip(1);
            lemma_unescape_shortens(rest);
            if holds_entity(s) {
                let i = choose|i: int|
                    0 <= i && i + 5 <= s.len() && #[trigger] s.subrange(i, i + 5) == amp_entity();
                if i == 0 {
                    assert(s.subrange(0, 5) =~= s.subrange(i, i + 5));
                } else {
                    assert(rest.subrange(i - 1, i - 1 + 5) =~= s.subrange(i, i + 5));
                }
            }
        }
    }
}

/// What is kept is, joined, no longer than the whole.
pub proof fn lemma_kept_is_shorter(params: Seq<Seq<char>>)
    ensures
        join_with(keep_unblocked(params), '&').len() <= join_with(params, '&').len(),
    decreases params.len(),
{
    if params.len() > 0 {
        let rest = params.drop_first();
        lemma_kept_is_shorter(rest);
        let kept = keep_unblocked(rest);
        if !is_blocked(params[0]) {
            let all = seq![params[0]] + kept;
            assert(all[0] == params[0]);
            if kept.len() > 0 {
                assert(all.drop_first() =~= kept);
            }
        }
    }
}

/// Stripping is idempotent on no other query: where the stripped form of
/// a query holds `&amp;`, stripping it again gives a shorter text.
pub proof fn law_strip_query_twice_differs(query: Seq<char>)
    requires
        holds_entity(strip_query(query)),
    ensures
        strip_query(strip_query(query)) != strip_query(query),
        strip_query(strip_query(query)).len() < strip_query(query).len(),
{
    let once = strip_query(query);
    let plain = unescape_amp(once);
    lemma_unescape_shortens(once);
    lemma_join_of_split(plain, '&');
    lemma_kept_is_shorter(split_on(plain, '&'));
}

/// A query that is a single parameter beginning with a blocked prefix is
/// stripped to nothing, whatever follows the prefix.
pub proof fn law_blocked_parameter_is_removed(prefix: Seq<char>, rest: Seq<char>)
    requires
        blocked_prefixes().contains(prefix),
        !has_char(prefix + rest, '&'),
    ensures
        strip_query(prefix + rest) == Seq::<char>::empty(),
{
    let param = prefix + rest;
    lemma_index_of(param, '&');
    if holds_entity(param) {
        let i = choose|i: int|
            0 <= i && i + 5 <= param.len() && #[trigger] param.subrange(i, i + 5) == amp_entity();
        assert(param.subrange(i, i + 5)[0] == '&');
        assert(param[i] == '&');
    }
    lemma_unescape_plain(param);
    assert(split_on(param, '&') == seq![param]);
    let k = choose|k: int| 0 <= k < blocked_prefixes().len() && blocked_prefixes()[k] == prefix;
    assert(param.subrange(0, prefix.len() as int) =~= prefix);
    assert(blocked_prefixes()[k].is_prefix_of(param));
    assert(is_blocked(param));
    let one = seq![param];
    assert(one[0] == param);
    assert(one.drop_first() =~= Seq::<Seq<char>>::empty());
    assert(keep_unblocked(one.drop_first()) =~= Seq::<Seq<char>>::empty());
    assert(keep_unblocked(one) == keep_unblocked(one.drop_first()));
}

} // verus!
