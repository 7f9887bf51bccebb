use crawl_frontier::html::{collect_links, Attribute, TagEvent, TagKind};
use crawl_frontier::query::{
    begins_with_one, blocked_params, strip_query_chars, unescape_amp_chars,
};
use crawl_frontier::text::{
    append_chars, begins_with, chars_of, copy_range, find_char, join_chars, split_chars,
};

fn chars(s: &str) -> Vec<char> {
    s.chars().collect()
}

fn stripped(query: &str) -> String {
    strip_query_chars(&chars(query)).into_iter().collect()
}

fn split(s: &str, sep: char) -> Vec<String> {
    split_chars(&chars(s), sep)
        .into_iter()
        .map(|piece| piece.into_iter().collect())
        .collect()
}

#[test]
fn characters_of_a_text() {
    assert_eq!(chars_of("a&b"), vec!['a', '&', 'b']);
    assert_eq!(chars_of(""), Vec::<char>::new());
    assert_eq!(chars_of("é#ß"), vec!['é', '#', 'ß']);
}

#[test]
fn first_occurrence_is_found() {
    let v = chars("a#b#c");
    assert_eq!(find_char(&v, 0, '#'), 1);
    assert_eq!(find_char(&v, 1, '#'), 1);
    assert_eq!(find_char(&v, 2, '#'), 3);
    assert_eq!(find_char(&v, 4, '#'), 5);
    assert_eq!(find_char(&v, 5, '#'), 5);
    assert_eq!(find_char(&v, 0, 'x'), 5);
    assert_eq!(find_char(&Vec::new(), 0, 'x'), 0);
}

#[test]
fn range_is_copied() {
    let v = chars("abcdef");
    assert_eq!(copy_range(&v, 1, 4), chars("bcd"));
    assert_eq!(copy_range(&v, 0, 6), chars("abcdef"));
    assert_eq!(copy_range(&v, 3, 3), Vec::<char>::new());
}

#[test]
fn split_leaves_empty_pieces_at_separators() {
    assert_eq!(split("a&b", '&'), vec!["a", "b"]);
    assert_eq!(split("", '&'), vec![""]);
    assert_eq!(split("&", '&'), vec!["", ""]);
    assert_eq!(split("a&&b&", '&'), vec!["a", "", "b", ""]);
    assert_eq!(split("abc", '&'), vec!["abc"]);
    assert_eq!(split("noindex, nofollow", ','), vec!["noindex", " nofollow"]);
}

#[test]
fn join_puts_one_separator_between_pieces() {
    assert_eq!(join_chars(&vec![chars("a"), chars("b")], '&'), chars("a&b"));
    assert_eq!(join_chars(&Vec::new(), '&'), Vec::<char>::new());
    assert_eq!(join_chars(&vec![chars("a")], '&'), chars("a"));
    assert_eq!(join_chars(&vec![chars("")], '&'), Vec::<char>::new());
    assert_eq!(
        join_chars(&vec![chars(""), chars(""), chars("x")], '&'),
        chars("&&x")
    );
}

#[test]
fn join_undoes_split() {
    for text in ["", "&", "a&b", "a&&b&", "&&&", "plain"] {
        assert_eq!(join_chars(&split_chars(&chars(text), '&'), '&'), chars(text));
    }
}

#[test]
fn characters_are_appended() {
    let mut out = chars("https:");
    append_chars(&mut out, &chars("//bing.com"));
    assert_eq!(out, chars("https://bing.com"));
    append_chars(&mut out, &Vec::new());
    assert_eq!(out, chars("https://bing.com"));
}

#[test]
fn prefix_is_recognised() {
    assert!(begins_with(&chars("utm_source=1"), &chars("utm_source")));
    assert!(begins_with(&chars("utm_source"), &chars("utm_source")));
    assert!(begins_with(&chars("abc"), &Vec::new()));
    assert!(!begins_with(&chars("utm_sourc"), &chars("utm_source")));
    assert!(!begins_with(&chars("xutm_source"), &chars("utm_source")));
    assert!(!begins_with(&Vec::new(), &chars("a")));
}

#[test]
fn escaped_ampersands_are_unescaped_from_the_left() {
    let unescaped =
        |s: &str| -> String { unescape_amp_chars(&chars(s)).into_iter().collect() };
    assert_eq!(unescaped("a&amp;b"), "a&b");
    assert_eq!(unescaped("&amp;&amp;"), "&&");
    assert_eq!(unescaped("&amp;amp;"), "&amp;");
    assert_eq!(unescaped("&amp"), "&amp");
    assert_eq!(unescaped("&am&amp;p;"), "&am&p;");
    assert_eq!(unescaped("&AMP;"), "&AMP;");
    assert_eq!(unescaped(""), "");
}

#[test]
fn there_are_thirty_four_blocked_prefixes() {
    let list = blocked_params();
    assert_eq!(list.len(), 34);
    assert_eq!(list[0], chars("utm_source"));
    assert_eq!(list[19], chars("yclid"));
    assert_eq!(list[33], chars("lang"));
    assert!(begins_with_one(&chars("mkt_tok=abc"), &list));
    assert!(begins_with_one(&chars("_hsenc"), &list));
    assert!(!begins_with_one(&chars("utm"), &list));
    assert!(!begins_with_one(&chars("x_utm_source"), &list));
    assert!(!begins_with_one(&Vec::new(), &list));
}

#[test]
fn query_loses_its_blocked_parameters() {
    assert_eq!(stripped("a=1&utm_source=x&b=2"), "a=1&b=2");
    assert_eq!(stripped("utm_source=x"), "");
    assert_eq!(stripped("utm_source=x&fb_ref=y&yclid=3"), "");
    assert_eq!(stripped("a=1&amp;utm_medium=x"), "a=1");
    assert_eq!(stripped(""), "");
    assert_eq!(stripped("a=1&"), "a=1&");
    assert_eq!(stripped("utm_source=1&"), "");
    assert_eq!(stripped("&utm_source=1"), "");
    assert_eq!(stripped("&utm_source=1&"), "&");
    assert_eq!(stripped("UTM_SOURCE=1"), "UTM_SOURCE=1");
}

#[test]
fn stripped_query_is_stripped_to_itself() {
    for query in ["a=1&utm_source=x&b=2", "", "&", "a&&b", "x=1&amp;y=2", "lang=en"] {
        let once = stripped(query);
        assert_eq!(stripped(&once), once);
    }
    assert_eq!(stripped("&amp;amp;"), "&amp;");
    assert_eq!(stripped("&amp;"), "&");
}

#[test]
fn link_collector_does_not_read_directives() {
    let anchor = |href: &str| TagEvent {
        kind: TagKind::StartTag,
        name: "a".to_string(),
        self_closing: false,
        attrs: vec![Attribute {
            name: "href".to_string(),
            value: href.to_string(),
        }],
    };
    let veto = TagEvent {
        kind: TagKind::StartTag,
        name: "meta".to_string(),
        self_closing: false,
        attrs: vec![
            Attribute {
                name: "name".to_string(),
                value: "robots".to_string(),
            },
            Attribute {
                name: "content".to_string(),
                value: "nofollow".to_string(),
            },
        ],
    };
    let events = vec![anchor("one"), veto, anchor("two"), anchor("seen")];
    assert_eq!(
        collect_links(
            "https://a.com/",
            &events,
            &vec!["https://a.com/seen".to_string()]
        ),
        vec![
            "https://a.com/one".to_string(),
            "https://a.com/".to_string(),
            "https://a.com/two".to_string()
        ]
    );
    assert_eq!(
        collect_links("https://a.com/", &Vec::new(), &Vec::new()),
        Vec::<String>::new()
    );
}
