//! What a page says to a crawler: the links that its elements carry, and
//! the directives of its `<meta>` tags.

use crate::text::{
    chars_of, lowercase, lowercase_of, pieces, same_text, split_chars, split_on, string_of,
};
use crate::url_utils::{
    add_urls_to_vec, all_canonical, lemma_merged_canonical, lemma_repaired_canonical, merged,
    repair_suggested_url, repaired, texts,
};
use crate::web::text_of;
use vstd::prelude::*;

verus! {

/// Whether a tag opens or closes an element.
#[derive(Clone, Copy, Debug, PartialEq, Eq, Structural)]
pub enum TagKind {
    StartTag,
    EndTag,
}

/// One attribute of a tag.
#[derive(Clone, Debug)]
pub struct Attribute {
    pub name: String,
    pub value: String,
}

/// One tag of a page, as a tokenizer reports it.
#[derive(Clone, Debug)]
pub struct TagEvent {
    pub kind: TagKind,
    pub name: String,
    pub self_closing: bool,
    pub attrs: Vec<Attribute>,
}

/// A tag as plain values; an attribute is its name and its value.
pub struct TagView {
    pub kind: TagKind,
    pub name: Seq<char>,
    pub self_closing: bool,
    pub attrs: Seq<(Seq<char>, Seq<char>)>,
}

impl View for Attribute {
    type V = (Seq<char>, Seq<char>);

    open spec fn view(&self) -> (Seq<char>, Seq<char>) {
        (self.name@, self.value@)
    }
}

impl View for TagEvent {
    type V = TagView;

    open spec fn view(&self) -> TagView {
        TagView {
            kind: self.kind,
            name: self.name@,
            self_closing: self.self_closing,
            attrs: self.attrs@.map_values(|a: Attribute| a@),
        }
    }
}

/// What a crawler is told about a page.
#[derive(Clone, Copy, Debug, PartialEq, Eq, Structural)]
pub struct RobotsDirective {
    pub should_index: bool,
    pub should_follow: bool,
}

/// The tags of a page as plain values.
pub open spec fn tags(events: Seq<TagEvent>) -> Seq<TagView> {
    events.map_values(|t: TagEvent| t@)
}

/// Pairs of strings as plain values.
pub open spec fn pairs(list: Seq<(String, String)>) -> Seq<(Seq<char>, Seq<char>)> {
    list.map_values(|p: (String, String)| (p.0@, p.1@))
}

/// The text of an optional string slice.
pub open spec fn slice_text(s: Option<&str>) -> Option<Seq<char>> {
    match s {
        Some(t) => Some(t@),
        None => None,
    }
}

/// The attribute that carries the link of an element, for the elements
/// that carry one.
pub open spec fn link_attribute(elem: Seq<char>) -> Option<Seq<char>> {
    if elem == "a"@ || elem == "link"@ {
        Some("href"@)
    } else if elem == "script"@ || elem == "img"@ || elem == "iframe"@ || elem == "amp-img"@ || elem
        == "amp-anim"@ || elem == "amp-video"@ || elem == "amp-audio"@ || elem == "amp-iframe"@ {
        Some("src"@)
    } else {
        None
    }
}

/// Tells whether a tag is a `<meta>` tag that opens or closes itself.
pub open spec fn is_meta(tag: TagView) -> bool {
    tag.name == "meta"@ && (tag.kind == TagKind::StartTag || tag.self_closing)
}

/// Tells whether an attribute names this crawler, or all crawlers.
pub open spec fn names_crawler(attr: (Seq<char>, Seq<char>)) -> bool {
    attr.0 == "name"@ && (attr.1 == "robots"@ || attr.1 == "twentiethbot"@)
}

/// Tells whether one of the attributes names this crawler.
pub open spec fn any_names_crawler(attrs: Seq<(Seq<char>, Seq<char>)>) -> bool {
    exists|k: int| 0 <= k < attrs.len() && names_crawler(#[trigger] attrs[k])
}

/// Tells whether one of the tokens of `value`, which `,` separates, is
/// `directive` once in lower case.
pub open spec fn value_gives(value: Seq<char>, directive: Seq<char>) -> bool {
    exists|t: int|
        0 <= t < split_on(value, ',').len() && lowercase_of(#[trigger] split_on(value, ',')[t])
            == directive
}

/// Tells whether a `content` attribute among `attrs` gives `directive`.
pub open spec fn content_gives(attrs: Seq<(Seq<char>, Seq<char>)>, directive: Seq<char>) -> bool {
    exists|k: int|
        0 <= k < attrs.len() && (#[trigger] attrs[k]).0 == "content"@ && value_gives(
            attrs[k].1,
            directive,
        )
}

/// Tells whether a tag gives this crawler `directive`.
pub open spec fn tag_gives(tag: TagView, directive: Seq<char>) -> bool {
    is_meta(tag) && any_names_crawler(tag.attrs) && content_gives(tag.attrs, directive)
}

/// Tells whether some tag of the page gives this crawler `directive`.
pub open spec fn page_gives(page: Seq<TagView>, directive: Seq<char>) -> bool {
    exists|i: int| 0 <= i < page.len() && tag_gives(#[trigger] page[i], directive)
}

/// What the page tells this crawler: it is indexed unless a tag says
/// `noindex`, and its links are followed unless a tag says `nofollow`.
pub open spec fn directive_of(page: Seq<TagView>) -> RobotsDirective {
    RobotsDirective {
        should_index: !page_gives(page, "noindex"@),
        should_follow: !page_gives(page, "nofollow"@),
    }
}

/// The position of the first attribute named `name`, or the number of
/// attributes where there is none.
pub open spec fn attr_position(attrs: Seq<(Seq<char>, Seq<char>)>, name: Seq<char>) -> int
    decreases attrs.len(),
{
    if attrs.len() == 0 || attrs[0].0 == name {
        0
    } else {
        1 + attr_position(attrs.drop_first(), name)
    }
}

/// The value of the first attribute named `name`.
pub open spec fn attr_value(attrs: Seq<(Seq<char>, Seq<char>)>, name: Seq<char>) -> Option<
    Seq<char>,
> {
    if 0 <= attr_position(attrs, name) < attrs.len() {
        Some(attrs[attr_position(attrs, name)].1)
    } else {
        None
    }
}

/// What a tag adds to the metadata of a page: a `<meta>` tag with a
/// `name` and a `content` gives the pair of the two, any other tag nothing.
pub open spec fn meta_pair(tag: TagView) -> Seq<(Seq<char>, Seq<char>)> {
    if is_meta(tag) {
        match (attr_value(tag.attrs, "name"@), attr_value(tag.attrs, "content"@)) {
            (Some(name), Some(content)) => seq![(name, content)],
            _ => Seq::empty(),
        }
    } else {
        Seq::empty()
    }
}

/// The metadata of a page: what its tags add, in order.
pub open spec fn meta_pairs(page: Seq<TagView>) -> Seq<(Seq<char>, Seq<char>)>
    decreases page.len(),
{
    if page.len() == 0 {
        Seq::empty()
    } else {
        meta_pair(page[0]) + meta_pairs(page.drop_first())
    }
}

/// `into` after the candidates of every attribute named `wanted` were
/// added to it, in order.
pub open spec fn with_attr_links(
    base: Seq<char>,
    attrs: Seq<(Seq<char>, Seq<char>)>,
    wanted: Seq<char>,
    into: Seq<Seq<char>>,
    cache: Seq<Seq<char>>,
) -> Seq<Seq<char>>
    decreases attrs.len(),
{
    if attrs.len() == 0 {
        into
    } else if attrs[0].0 == wanted {
        with_attr_links(
            base,
            attrs.drop_first(),
            wanted,
            merged(
                into,
                match repaired(base, attrs[0].1) {
                    Some(list) => list,
                    None => Seq::empty(),
                },
                cache,
            ),
            cache,
        )
    } else {
        with_attr_links(base, attrs.drop_first(), wanted, into, cache)
    }
}

/// `into` after the links of one tag were added to it. Only an opening
/// tag that is no `<meta>` tag, of an element that carries links, adds any.
pub open spec fn with_tag_links(
    base: Seq<char>,
    tag: TagView,
    into: Seq<Seq<char>>,
    cache: Seq<Seq<char>>,
) -> Seq<Seq<char>> {
    if !is_meta(tag) && tag.kind == TagKind::StartTag {
        match link_attribute(tag.name) {
            Some(wanted) => with_attr_links(base, tag.attrs, wanted, into, cache),
            None => into,
        }
    } else {
        into
    }
}

/// `into` after the links of every tag of the page were added to it.
pub open spec fn with_page_links(
    base: Seq<char>,
    page: Seq<TagView>,
    into: Seq<Seq<char>>,
    cache: Seq<Seq<char>>,
) -> Seq<Seq<char>>
    decreases page.len(),
{
    if page.len() == 0 {
        into
    } else {
        with_page_links(base, page.drop_first(), with_tag_links(base, page[0], into, cache), cache)
    }
}

/// The links that a crawler takes from a page: none where the page says
/// `nofollow`, else those of its tags, each once and none that is in
/// `cache`.
pub open spec fn page_links(base: Seq<char>, page: Seq<TagView>, cache: Seq<Seq<char>>) -> Seq<
    Seq<char>,
> {
    if page_gives(page, "nofollow"@) {
        Seq::empty()
    } else {
        with_page_links(base, page, Seq::empty(), cache)
    }
}

/// The links of a page are URLs in canonical form, where those that were
/// there before are.
pub proof fn lemma_page_links_canonical(
    base: Seq<char>,
    page: Seq<TagView>,
    into: Seq<Seq<char>>,
    cache: Seq<Seq<char>>,
)
    requires
        all_canonical(into),
    ensures
        all_canonical(with_page_links(base, page, into, cache)),
        all_canonical(page_links(base, page, cache)),
{
    lemma_links_from_canonical(base, page, into, cache);
    lemma_links_from_canonical(base, page, Seq::empty(), cache);
}

/// Collecting the links of a page keeps a list of URLs in canonical form
/// one.
proof fn lemma_links_from_canonical(
    base: Seq<char>,
    page: Seq<TagView>,
    into: Seq<Seq<char>>,
    cache: Seq<Seq<char>>,
)
    requires
        all_canonical(into),
    ensures
        all_canonical(with_page_links(base, page, into, cache)),
    decreases page.len(),
{
    if page.len() > 0 {
        lemma_tag_links_canonical(base, page[0], into, cache);
        lemma_links_from_canonical(
            base,
            page.drop_first(),
            with_tag_links(base, page[0], into, cache),
            cache,
        );
    }
}

/// Collecting the links of a tag keeps a list of URLs in canonical form
/// one.
proof fn lemma_tag_links_canonical(
    base: Seq<char>,
    tag: TagView,
    into: Seq<Seq<char>>,
    cache: Seq<Seq<char>>,
)
    requires
        all_canonical(into),
    ensures
        all_canonical(with_tag_links(base, tag, into, cache)),
{
    if let Some(wanted) = link_attribute(tag.name) {
        lemma_attr_links_canonical(base, tag.attrs, wanted, into, cache);
    }
}

/// Collecting the links of attributes keeps a list of URLs in canonical
/// form one.
proof fn lemma_attr_links_canonical(
    base: Seq<char>,
    attrs: Seq<(Seq<char>, Seq<char>)>,
    wanted: Seq<char>,
    into: Seq<Seq<char>>,
    cache: Seq<Seq<char>>,
)
    requires
        all_canonical(into),
    ensures
        all_canonical(with_attr_links(base, attrs, wanted, into, cache)),
    decreases attrs.len(),
{
    if attrs.len() > 0 {
        if attrs[0].0 == wanted {
            let candidates = match repaired(base, attrs[0].1) {
                Some(list) => list,
                None => Seq::empty(),
            };
            lemma_repaired_canonical(base, attrs[0].1);
            lemma_merged_canonical(into, candidates, cache);
            lemma_attr_links_canonical(
                base,
                attrs.drop_first(),
                wanted,
                merged(into, candidates, cache),
                cache,
            );
        } else {
            lemma_attr_links_canonical(base, attrs.drop_first(), wanted, into, cache);
        }
    }
}

/// The attribute that carries the link of the element `elem`.
pub fn get_attribute_for_elem(elem: &str) -> (attribute: Option<&'static str>)
    ensures
        slice_text(attribute) == link_attribute(elem@),
{
    if same_text(elem, "a") || same_text(elem, "link") {
        Some("href")
    } else if same_text(elem, "script") || same_text(elem, "img") || same_text(elem, "iframe")
        || same_text(elem, "amp-img") || same_text(elem, "amp-anim") || same_text(
        elem,
        "amp-video",
    ) || same_text(elem, "amp-audio") || same_text(elem, "amp-iframe") {
        Some("src")
    } else {
        None
    }
}

/// Tells whether `tag` is a `<meta>` tag that opens or closes itself.
pub fn is_meta_tag(tag: &TagEvent) -> (yes: bool)
    ensures
        yes == is_meta(tag@),
{
    same_text(tag.name.as_str(), "meta") && (tag.kind == TagKind::StartTag || tag.self_closing)
}

/// Tells whether one of the tokens of `value` is `directive`.
pub fn value_directs(value: &str, directive: &str) -> (yes: bool)
    ensures
        yes == value_gives(value@, directive@),
{
    let all = chars_of(value);
    let tokens = split_chars(&all, ',');
    let mut t: usize = 0;
    while t < tokens.len()
        invariant
            t <= tokens.len(),
            pieces(tokens@) == split_on(value@, ','),
            forall|j: int|
                0 <= j < t ==> lowercase_of(#[trigger] split_on(value@, ',')[j]) != directive@,
        decreases tokens.len() - t,
    {
        let token = string_of(&tokens[t]);
        let lower = lowercase(token.as_str());
        assert(token@ == split_on(value@, ',')[t as int]);
        if same_text(lower.as_str(), directive) {
            return true;
        }
        t += 1;
    }
    false
}

/// Tells whether one of the attributes names this crawler.
fn attrs_name_crawler(attrs: &Vec<Attribute>) -> (yes: bool)
    ensures
        yes == any_names_crawler(attrs@.map_values(|a: Attribute| a@)),
{
    let ghost plain = attrs@.map_values(|a: Attribute| a@);
    let mut k: usize = 0;
    while k < attrs.len()
        invariant
            k <= attrs.len(),
            plain == attrs@.map_values(|a: Attribute| a@),
            forall|j: int| 0 <= j < k ==> !names_crawler(#[trigger] plain[j]),
        decreases attrs.len() - k,
    {
        let attr = &attrs[k];
        assert(plain[k as int] == attr@);
        if same_text(attr.name.as_str(), "name") && (same_text(attr.value.as_str(), "robots")
            || same_text(attr.value.as_str(), "twentiethbot")) {
            return true;
        }
        k += 1;
    }
    false
}

/// Tells whether a `content` attribute among `attrs` gives `directive`.
fn content_directs(attrs: &Vec<Attribute>, directive: &str) -> (yes: bool)
    ensures
        yes == content_gives(attrs@.map_values(|a: Attribute| a@), directive@),
{
    let ghost plain = attrs@.map_values(|a: Attribute| a@);
    let mut k: usize = 0;
    while k < attrs.len()
        invariant
            k <= attrs.len(),
            plain == attrs@.map_values(|a: Attribute| a@),
            forall|j: int|
                0 <= j < k ==> !((#[trigger] plain[j]).0 == "content"@ && value_gives(
                    plain[j].1,
                    directive@,
                )),
        decreases attrs.len() - k,
    {
        let attr = &attrs[k];
        assert(plain[k as int] == attr@);
        if same_text(attr.name.as_str(), "content") && value_directs(
            attr.value.as_str(),
            directive,
        ) {
            return true;
        }
        k += 1;
    }
    false
}

/// Tells whether `tag` gives this crawler `directive`.
pub fn tag_directs(tag: &TagEvent, directive: &str) -> (yes: bool)
    ensures
        yes == tag_gives(tag@, directive@),
{
    is_meta_tag(tag) && attrs_name_crawler(&tag.attrs) && content_directs(&tag.attrs, directive)
}

/// A page of one more tag gives a directive where the page before did or
/// the new tag does.
proof fn lemma_page_gives_next(page: Seq<TagView>, i: int, directive: Seq<char>)
    requires
        0 <= i < page.len(),
    ensures
        page_gives(page.take(i + 1), directive) == (page_gives(page.take(i), directive)
            || tag_gives(page[i], directive)),
{
    let shorter = page.take(i);
    let longer = page.take(i + 1);
    if page_gives(shorter, directive) {
        let j = choose|j: int|
            0 <= j < shorter.len() && tag_gives(#[trigger] shorter[j], directive);
        assert(tag_gives(longer[j], directive));
    }
    if tag_gives(page[i], directive) {
        assert(tag_gives(longer[i], directive));
    }
    if page_gives(longer, directive) {
        let j = choose|j: int| 0 <= j < longer.len() && tag_gives(#[trigger] longer[j], directive);
        if j < i {
            assert(tag_gives(shorter[j], directive));
        }
    }
}

/// Reads what the `<meta>` tags of a page tell this crawler.
pub fn interpret_meta_robots(events: &Vec<TagEvent>) -> (directive: RobotsDirective)
    ensures
        directive == directive_of(tags(events@)),
{
    let ghost page = tags(events@);
    let mut should_index = true;
    let mut should_follow = true;
    let mut i: usize = 0;
    while i < events.len()
        invariant
            i <= events.len(),
            page == tags(events@),
            should_index == !page_gives(page.take(i as int), "noindex"@),
            should_follow == !page_gives(page.take(i as int), "nofollow"@),
        decreases events.len() - i,
    {
        proof {
            lemma_page_gives_next(page, i as int, "noindex"@);
            lemma_page_gives_next(page, i as int, "nofollow"@);
        }
        if tag_directs(&events[i], "noindex") {
            should_index = false;
        }
        if tag_directs(&events[i], "nofollow") {
            should_follow = false;
        }
        i += 1;
    }
    proof {
        assert(page.take(events.len() as int) =~= page);
    }
    RobotsDirective { should_index, should_follow }
}

/// Adds the links of one tag to `into`.
pub fn collect_tag_links(
    original_url: &str,
    tag: &TagEvent,
    into: &mut Vec<String>,
    cache: &Vec<String>,
)
    ensures
        texts(final(into)@) == with_tag_links(
            original_url@,
            tag@,
            texts(old(into)@),
            texts(cache@),
        ),
{
    if is_meta_tag(tag) || tag.kind != TagKind::StartTag {
        return ;
    }
    let wanted = match get_attribute_for_elem(tag.name.as_str()) {
        Some(w) => w,
        None => {
            return ;
        },
    };
    let ghost plain = tag@.attrs;
    let ghost known = texts(cache@);
    let ghost start = texts(into@);
    let mut k: usize = 0;
    proof {
        assert(plain.skip(0) =~= plain);
    }
    while k < tag.attrs.len()
        invariant
            k <= tag.attrs.len(),
            plain == tag.attrs@.map_values(|a: Attribute| a@),
            known == texts(cache@),
            with_attr_links(original_url@, plain, wanted@, start, known) == with_attr_links(
                original_url@,
                plain.skip(k as int),
                wanted@,
                texts(into@),
                known,
            ),
        decreases tag.attrs.len() - k,
    {
        let attr = &tag.attrs[k];
        proof {
            assert(plain.skip(k as int)[0] == attr@);
            assert(plain.skip(k as int).drop_first() =~= plain.skip(k + 1));
        }
        if same_text(attr.name.as_str(), wanted) {
            let candidates = repair_suggested_url(
                original_url,
                (attr.name.as_str(), attr.value.as_str()),
            );
            add_urls_to_vec(candidates, into, cache);
        }
        k += 1;
    }
}

/// Collects the links of a page: those that its tags carry, each once
/// and none that is in `fetched_cache`, in the order in which they are
/// found. Directives of the page are not read here.
pub fn collect_links(
    original_url: &str,
    events: &Vec<TagEvent>,
    fetched_cache: &Vec<String>,
) -> (links: Vec<String>)
    ensures
        texts(links@) == with_page_links(
            original_url@,
            tags(events@),
            Seq::empty(),
            texts(fetched_cache@),
        ),
        all_canonical(texts(links@)),
{
    let ghost all = tags(events@);
    let ghost known = texts(fetched_cache@);
    let mut links: Vec<String> = Vec::new();
    let mut i: usize = 0;
    proof {
        assert(texts(links@) =~= Seq::<Seq<char>>::empty());
    }
    while i < events.len()
        invariant
            i <= events.len(),
            all == tags(events@),
            known == texts(fetched_cache@),
            texts(links@) == with_page_links(
                original_url@,
                all.take(i as int),
                Seq::empty(),
                known,
            ),
        decreases events.len() - i,
    {
        proof {
            assert(all[i as int] == events@[i as int]@);
            lemma_page_links_next(original_url@, all, Seq::empty(), known, i as int);
        }
        collect_tag_links(original_url, &events[i], &mut links, fetched_cache);
        i += 1;
    }
    proof {
        assert(all.take(events.len() as int) =~= all);
        lemma_page_links_canonical(original_url@, all, Seq::empty(), known);
    }
    links
}

/// The links of a page one tag longer are those of the page with those
/// of the new tag added.
proof fn lemma_page_links_next(
    base: Seq<char>,
    page: Seq<TagView>,
    into: Seq<Seq<char>>,
    cache: Seq<Seq<char>>,
    i: int,
)
    requires
        0 <= i < page.len(),
    ensures
        with_page_links(base, page.take(i + 1), into, cache) == with_tag_links(
            base,
            page[i],
            with_page_links(base, page.take(i), into, cache),
            cache,
        ),
    decreases i,
{
    let longer = page.take(i + 1);
    if i == 0 {
        assert(longer.drop_first() =~= page.take(0));
        assert(with_page_links(base, page.take(0), into, cache) == into);
        assert(with_page_links(
            base,
            longer.drop_first(),
            with_tag_links(base, page[0], into, cache),
            cache,
        ) == with_tag_links(base, page[0], into, cache));
    } else {
        let rest = page.drop_first();
        let next = with_tag_links(base, page[0], into, cache);
        lemma_page_links_next(base, rest, next, cache, i - 1);
        assert(longer.drop_first() =~= rest.take(i));
        assert(page.take(i).drop_first() =~= rest.take(i - 1));
        assert(rest[i - 1] == page[i]);
    }
}

/// The metadata of a page one tag longer.
proof fn lemma_meta_pairs_next(page: Seq<TagView>, i: int)
    requires
        0 <= i < page.len(),
    ensures
        meta_pairs(page.take(i + 1)) == meta_pairs(page.take(i)) + meta_pair(page[i]),
    decreases i,
{
    let longer = page.take(i + 1);
    if i == 0 {
        assert(longer.drop_first() =~= page.take(0));
        assert(meta_pairs(page.take(0)) =~= Seq::empty());
        assert(meta_pairs(longer) =~= meta_pair(page[0]));
    } else {
        let rest = page.drop_first();
        lemma_meta_pairs_next(rest, i - 1);
        assert(longer.drop_first() =~= rest.take(i));
        assert(page.take(i).drop_first() =~= rest.take(i - 1));
        assert(rest[i - 1] == page[i]);
        assert(meta_pair(page[0]) + (meta_pairs(rest.take(i - 1)) + meta_pair(page[i])) =~= (
        meta_pair(page[0]) + meta_pairs(rest.take(i - 1))) + meta_pair(page[i]));
    }
}

/// `attr_position` is the least position that holds an attribute named
/// `name`.
proof fn lemma_attr_position(attrs: Seq<(Seq<char>, Seq<char>)>, name: Seq<char>)
    ensures
        0 <= attr_position(attrs, name) <= attrs.len(),
        forall|j: int| 0 <= j < attr_position(attrs, name) ==> (#[trigger] attrs[j]).0 != name,
        attr_position(attrs, name) < attrs.len() ==> attrs[attr_position(attrs, name)].0 == name,
    decreases attrs.len(),
{
    if attrs.len() != 0 && attrs[0].0 != name {
        let rest = attrs.drop_first();
        lemma_attr_position(rest, name);
        assert forall|j: int| 0 <= j < attr_position(attrs, name) implies (#[trigger] attrs[j]).0
            != name by {
            if j > 0 {
                assert(attrs[j] == rest[j - 1]);
            }
        }
        assert(attr_position(attrs, name) < attrs.len() ==> attrs[attr_position(attrs, name)]
            == rest[attr_position(rest, name)]);
    }
}

/// The value of the first attribute of `tag` named `name`.
pub fn get_attribute(tag: &TagEvent, name: &str) -> (value: Option<String>)
    ensures
        text_of(value) == attr_value(tag@.attrs, name@),
{
    let ghost plain = tag@.attrs;
    let mut k: usize = 0;
    while k < tag.attrs.len()
        invariant
            k <= tag.attrs.len(),
            plain == tag.attrs@.map_values(|a: Attribute| a@),
            forall|j: int| 0 <= j < k ==> (#[trigger] plain[j]).0 != name@,
        decreases tag.attrs.len() - k,
    {
        let attr = &tag.attrs[k];
        assert(plain[k as int] == attr@);
        if same_text(attr.name.as_str(), name) {
            proof {
                lemma_attr_position(plain, name@);
            }
            return Some(attr.value.clone());
        }
        k += 1;
    }
    proof {
        lemma_attr_position(plain, name@);
    }
    None
}

/// Appends what `tag` adds to the metadata of a page.
fn push_meta_pair(meta: &mut Vec<(String, String)>, tag: &TagEvent)
    requires
        is_meta(tag@),
    ensures
        pairs(final(meta)@) == pairs(old(meta)@) + meta_pair(tag@),
{
    let ghost before = pairs(meta@);
    match (get_attribute(tag, "name"), get_attribute(tag, "content")) {
        (Some(name), Some(content)) => {
            let ghost pair = (name@, content@);
            meta.push((name, content));
            assert(pairs(meta@) =~= before + seq![pair]);
        },
        _ => {
            assert(pairs(meta@) =~= before + Seq::<(Seq<char>, Seq<char>)>::empty());
        },
    }
}

/// Reads a page: whether it is to be indexed, the links to follow from
/// it, the kind of its content, and its metadata.
///
/// The tags are read once, in order. Until a tag says `nofollow` the
/// links are collected; from then on none is, and those collected so far
/// are given up.
pub fn find_urls_in_html(
    original_url: &str,
    events: Vec<TagEvent>,
    fetched_cache: Vec<String>,
) -> (page: (bool, Vec<String>, String, Vec<(String, String)>))
    ensures
        page.0 == directive_of(tags(events@)).should_index,
        texts(page.1@) == page_links(original_url@, tags(events@), texts(fetched_cache@)),
        all_canonical(texts(page.1@)),
        page.2@ == "html"@,
        pairs(page.3@) == meta_pairs(tags(events@)),
{
    let ghost all = tags(events@);
    let ghost known = texts(fetched_cache@);
    let mut should_index = true;
    let mut following = true;
    let mut found_urls: Vec<String> = Vec::new();
    let mut meta: Vec<(String, String)> = Vec::new();
    let mut i: usize = 0;
    proof {
        assert(texts(found_urls@) =~= Seq::<Seq<char>>::empty());
        assert(pairs(meta@) =~= meta_pairs(all.take(0)));
    }
    while i < events.len()
        invariant
            i <= events.len(),
            all == tags(events@),
            known == texts(fetched_cache@),
            should_index == !page_gives(all.take(i as int), "noindex"@),
            following == !page_gives(all.take(i as int), "nofollow"@),
            texts(found_urls@) == page_links(original_url@, all.take(i as int), known),
            pairs(meta@) == meta_pairs(all.take(i as int)),
        decreases events.len() - i,
    {
        let tag = &events[i];
        proof {
            assert(all[i as int] == tag@);
            lemma_page_gives_next(all, i as int, "noindex"@);
            lemma_page_gives_next(all, i as int, "nofollow"@);
            lemma_page_links_next(original_url@, all, Seq::empty(), known, i as int);
            lemma_meta_pairs_next(all, i as int);
        }
        if is_meta_tag(tag) {
            push_meta_pair(&mut meta, tag);
            if tag_directs(tag, "noindex") {
                should_index = false;
            }
            if tag_directs(tag, "nofollow") {
                following = false;
                found_urls = Vec::new();
                proof {
                    assert(texts(found_urls@) =~= Seq::<Seq<char>>::empty());
                }
            }
        } else {
            proof {
                assert(pairs(meta@) + meta_pair(tag@) =~= pairs(meta@));
            }
            if following {
                collect_tag_links(original_url, tag, &mut found_urls, &fetched_cache);
            }
        }
        i += 1;
    }
    proof {
        assert(all.take(events.len() as int) =~= all);
        lemma_page_links_canonical(original_url@, all, Seq::empty(), known);
    }
    (should_index, found_urls, "html".to_owned(), meta)
}

/// Tells whether a page of the given content type is read: only one of
/// the type `html` is.
pub fn is_html(content_type: Option<&str>) -> (yes: bool)
    ensures
        yes == (slice_text(content_type) == Some("html"@)),
{
    match content_type {
        Some(kind) => same_text(kind, "html"),
        None => false,
    }
}

/// Reads a fetched page of the given content type. Only a page of the
/// type `html` is read; of any other, and of one without a content type,
/// nothing is known.
pub fn crawl_page(
    url: &str,
    content_type: Option<&str>,
    events: Vec<TagEvent>,
    cache: Vec<String>,
) -> (page: Option<(bool, Vec<String>, String, Vec<(String, String)>)>)
    ensures
        page is Some <==> slice_text(content_type) == Some("html"@),
        page matches Some(read) ==> {
            &&& read.0 == directive_of(tags(events@)).should_index
            &&& texts(read.1@) == page_links(url@, tags(events@), texts(cache@))
            &&& all_canonical(texts(read.1@))
            &&& read.2@ == "html"@
            &&& pairs(read.3@) == meta_pairs(tags(events@))
        },
{
    if is_html(content_type) {
        Some(find_urls_in_html(url, events, cache))
    } else {
        None
    }
}

/// A page with a `<meta>` tag that tells this crawler `nofollow` gives no
/// links, whatever tags stand before or after that tag.
pub proof fn law_nofollow_gives_no_links(
    base: Seq<char>,
    before: Seq<TagView>,
    veto: TagView,
    after: Seq<TagView>,
    cache: Seq<Seq<char>>,
)
    requires
        tag_gives(veto, "nofollow"@),
    ensures
        page_links(base, before + seq![veto] + after, cache) == Seq::<Seq<char>>::empty(),
        !directive_of(before + seq![veto] + after).should_follow,
{
    let page = before + seq![veto] + after;
    assert(page[before.len() as int] == veto);
}

} // verus!
