use crawl_frontier::html::{
    crawl_page, find_urls_in_html, get_attribute, get_attribute_for_elem, interpret_meta_robots,
    is_meta_tag, tag_directs, value_directs, Attribute, RobotsDirective, TagEvent, TagKind,
};

#[allow(non_snake_case)]
fn S(inp: &str) -> String {
    inp.to_string()
}

fn tag(kind: TagKind, name: &str, self_closing: bool, attrs: &[(&str, &str)]) -> TagEvent {
    TagEvent {
        kind,
        name: S(name),
        self_closing,
        attrs: attrs
            .iter()
            .map(|a| Attribute {
                name: S(a.0),
                value: S(a.1),
            })
            .collect(),
    }
}

fn open(name: &str, attrs: &[(&str, &str)]) -> TagEvent {
    tag(TagKind::StartTag, name, false, attrs)
}

fn close(name: &str) -> TagEvent {
    tag(TagKind::EndTag, name, false, &[])
}

fn anchor(href: &str) -> Vec<TagEvent> {
    vec![open("a", &[("href", href)]), close("a")]
}

fn two_anchors() -> Vec<TagEvent> {
    let mut events = anchor("news");
    events.extend(anchor("gmail"));
    events
}

fn robots_meta(content: &str) -> TagEvent {
    open("meta", &[("name", "robots"), ("content", content)])
}

#[test]
fn _get_attribute_for_elem() {
    assert_eq!(get_attribute_for_elem("a"), Some("href"));
    assert_eq!(get_attribute_for_elem("script"), Some("src"));
    assert_eq!(get_attribute_for_elem("link"), Some("href"));
    assert_eq!(get_attribute_for_elem("img"), Some("src"));
    assert_eq!(get_attribute_for_elem("iframe"), Some("src"));
    assert_eq!(get_attribute_for_elem("amp-img"), Some("src"));
    assert_eq!(get_attribute_for_elem("amp-anim"), Some("src"));
    assert_eq!(get_attribute_for_elem("amp-video"), Some("src"));
    assert_eq!(get_attribute_for_elem("amp-audio"), Some("src"));
    assert_eq!(get_attribute_for_elem("amp-iframe"), Some("src"));
    assert_eq!(get_attribute_for_elem("p"), None);
}

#[test]
fn element_names_are_matched_exactly() {
    assert_eq!(get_attribute_for_elem("A"), None);
    assert_eq!(get_attribute_for_elem(""), None);
    assert_eq!(get_attribute_for_elem("meta"), None);
    assert_eq!(get_attribute_for_elem("amp"), None);
    assert_eq!(get_attribute_for_elem("images"), None);
}

#[test]
fn _find_urls_in_html() {
    let orig = "https://google.com/";
    assert_eq!(
        find_urls_in_html(orig, two_anchors(), Vec::new()),
        (
            true,
            vec![
                S("https://google.com/news"),
                S("https://google.com/"),
                S("https://google.com/gmail")
            ],
            S("html"),
            Vec::new()
        )
    );
    assert_eq!(
        find_urls_in_html(
            orig,
            vec![tag(
                TagKind::StartTag,
                "meta",
                true,
                &[("name", "terminator"), ("content", "destroy")]
            )],
            Vec::new()
        ),
        (
            true,
            Vec::new(),
            S("html"),
            vec![(S("terminator"), S("destroy"))]
        )
    );
    assert_eq!(
        find_urls_in_html(orig, two_anchors(), vec![S("https://google.com/news")]),
        (
            true,
            vec![S("https://google.com/"), S("https://google.com/gmail")],
            S("html"),
            Vec::new()
        )
    );
}

#[test]
fn _crawl_page() {
    assert_eq!(
        crawl_page("https://google.com", Some("html"), two_anchors(), Vec::new()),
        Some(find_urls_in_html(
            "https://google.com/",
            two_anchors(),
            Vec::new()
        ))
    );
    assert_eq!(
        crawl_page("https://google.com", None, Vec::new(), Vec::new()),
        None
    );
}

#[test]
fn page_of_another_type_is_not_read() {
    assert_eq!(
        crawl_page("https://google.com", Some("plain"), two_anchors(), Vec::new()),
        None
    );
    assert_eq!(
        crawl_page("https://google.com", Some("HTML"), two_anchors(), Vec::new()),
        None
    );
}

#[test]
fn nofollow_gives_no_links_wherever_it_stands() {
    let base = "https://a.com/";
    let mut first = vec![robots_meta("nofollow")];
    first.extend(two_anchors());
    let mut last = two_anchors();
    last.push(robots_meta("nofollow"));
    let mut middle = anchor("news");
    middle.push(robots_meta("nofollow"));
    middle.extend(anchor("gmail"));
    for events in [first, last, middle] {
        let page = find_urls_in_html(base, events.clone(), Vec::new());
        assert_eq!(page.1, Vec::<String>::new());
        assert!(page.0);
        assert_eq!(
            interpret_meta_robots(&events),
            RobotsDirective {
                should_index: true,
                should_follow: false
            }
        );
    }
}

#[test]
fn noindex_keeps_the_links() {
    let mut events = vec![robots_meta("noindex")];
    events.extend(anchor("news"));
    let page = find_urls_in_html("https://a.com/", events.clone(), Vec::new());
    assert!(!page.0);
    assert_eq!(page.1, vec![S("https://a.com/news"), S("https://a.com/")]);
    assert_eq!(page.3, vec![(S("robots"), S("noindex"))]);
    assert_eq!(
        interpret_meta_robots(&events),
        RobotsDirective {
            should_index: false,
            should_follow: true
        }
    );
}

#[test]
fn page_without_directive_is_indexed_and_followed() {
    assert_eq!(
        interpret_meta_robots(&two_anchors()),
        RobotsDirective {
            should_index: true,
            should_follow: true
        }
    );
    assert_eq!(
        interpret_meta_robots(&Vec::new()),
        RobotsDirective {
            should_index: true,
            should_follow: true
        }
    );
}

#[test]
fn directives_accumulate_over_tags() {
    let events = vec![
        robots_meta("noindex"),
        open("meta", &[("name", "twentiethbot"), ("content", "nofollow")]),
    ];
    assert_eq!(
        interpret_meta_robots(&events),
        RobotsDirective {
            should_index: false,
            should_follow: false
        }
    );
    let both = vec![robots_meta("noindex,nofollow")];
    assert_eq!(
        interpret_meta_robots(&both),
        RobotsDirective {
            should_index: false,
            should_follow: false
        }
    );
}

#[test]
fn directive_under_another_name_is_ignored() {
    let events = vec![
        open("meta", &[("name", "googlebot"), ("content", "nofollow,noindex")]),
        open("meta", &[("content", "nofollow")]),
        open("meta", &[("name", "Robots"), ("content", "nofollow")]),
        open("link", &[("name", "robots"), ("content", "nofollow")]),
        close("meta"),
    ];
    assert_eq!(
        interpret_meta_robots(&events),
        RobotsDirective {
            should_index: true,
            should_follow: true
        }
    );
}

#[test]
fn closing_meta_tag_says_nothing_unless_it_closes_itself() {
    let closing = tag(
        TagKind::EndTag,
        "meta",
        false,
        &[("name", "robots"), ("content", "nofollow")],
    );
    assert!(!is_meta_tag(&closing));
    assert!(!tag_directs(&closing, "nofollow"));
    let closing_itself = tag(
        TagKind::EndTag,
        "meta",
        true,
        &[("name", "robots"), ("content", "nofollow")],
    );
    assert!(is_meta_tag(&closing_itself));
    assert!(tag_directs(&closing_itself, "nofollow"));
}

#[test]
fn tokens_are_lower_cased_and_not_trimmed() {
    assert!(value_directs("NoFollow", "nofollow"));
    assert!(value_directs("NOINDEX,NOFOLLOW", "nofollow"));
    assert!(value_directs("noindex,nofollow", "noindex"));
    assert!(!value_directs("noindex, nofollow", "nofollow"));
    assert!(!value_directs("nofollowing", "nofollow"));
    assert!(!value_directs("", "nofollow"));
    assert!(value_directs("all,,nofollow,", "nofollow"));
}

#[test]
fn other_tokens_are_ignored() {
    let events = vec![robots_meta("all,noarchive,index,follow")];
    assert_eq!(
        interpret_meta_robots(&events),
        RobotsDirective {
            should_index: true,
            should_follow: true
        }
    );
}

#[test]
fn only_the_link_attribute_of_an_element_is_read() {
    let events = vec![
        open("a", &[("src", "wrong"), ("href", "right")]),
        open("img", &[("href", "wrong"), ("src", "picture.png")]),
        open("p", &[("href", "paragraph")]),
        open("a", &[]),
        tag(TagKind::EndTag, "a", false, &[("href", "closing")]),
        open("script", &[("src", "one.js"), ("src", "two.js")]),
    ];
    let page = find_urls_in_html("https://a.com/dir/", events, Vec::new());
    assert_eq!(
        page.1,
        vec![
            S("https://a.com/dir/right"),
            S("https://a.com/"),
            S("https://a.com/dir/picture.png"),
            S("https://a.com/dir/one.js"),
            S("https://a.com/dir/two.js"),
        ]
    );
}

#[test]
fn links_are_collected_once_and_not_from_the_cache() {
    let mut events = anchor("news");
    events.extend(anchor("news"));
    events.extend(anchor("./news"));
    events.extend(anchor("seen"));
    let page = find_urls_in_html(
        "https://a.com/",
        events,
        vec![S("https://a.com/seen"), S("https://a.com/")],
    );
    assert_eq!(page.1, vec![S("https://a.com/news")]);
}

#[test]
fn links_that_do_not_resolve_are_dropped() {
    let mut events = anchor("");
    events.extend(anchor("#top"));
    events.extend(anchor("//"));
    events.extend(anchor("ok"));
    let page = find_urls_in_html("https://a.com/", events, Vec::new());
    assert_eq!(page.1, vec![S("https://a.com/ok"), S("https://a.com/")]);
}

#[test]
fn metadata_pairs_name_with_content() {
    let events = vec![
        open("meta", &[("charset", "utf-8")]),
        open("meta", &[("name", "author"), ("content", "someone")]),
        open("meta", &[("content", "first"), ("name", "order"), ("content", "second")]),
        open("meta", &[("name", "lonely")]),
        close("meta"),
        open("a", &[("name", "anchor"), ("content", "no meta")]),
    ];
    let page = find_urls_in_html("https://a.com/", events, Vec::new());
    assert_eq!(
        page.3,
        vec![(S("author"), S("someone")), (S("order"), S("first"))]
    );
}

#[test]
fn first_attribute_of_a_name_is_found() {
    let t = open("meta", &[("content", "first"), ("name", "n"), ("content", "second")]);
    assert_eq!(get_attribute(&t, "content"), Some(S("first")));
    assert_eq!(get_attribute(&t, "name"), Some(S("n")));
    assert_eq!(get_attribute(&t, "missing"), None);
}
