use crawl_frontier::url_utils::{
    cut_fragment, get_root_domain, host_has_parent, is_canonical, link_form, remove_get_params,
    repair_suggested_url, resolve_link, LinkForm,
};

fn strings(list: &[&str]) -> Vec<String> {
    list.iter().map(|s| s.to_string()).collect()
}

fn blocked() -> Vec<&'static str> {
    vec![
        "utm_source",
        "utm_medium",
        "utm_term",
        "utm_content",
        "utm_campaign",
        "utm_reader",
        "utm_place",
        "utm_userid",
        "utm_cid",
        "utm_name",
        "utm_pubreferrer",
        "utm_swu",
        "utm_viz_id",
        "ga_source",
        "ga_medium",
        "ga_term",
        "ga_content",
        "ga_campaign",
        "ga_place",
        "yclid",
        "_openstat",
        "fb_action_ids",
        "fb_action_types",
        "fb_ref",
        "fb_source",
        "action_object_map",
        "action_type_map",
        "action_ref_map",
        "_hsenc",
        "mkt_tok",
        "hmb_campaign",
        "hmb_medium",
        "hmb_source",
        "lang",
    ]
}

#[test]
fn _remove_get_params() {
    for param in blocked() {
        let url = format!("https://test.domain/test?{}=1", param);
        assert_eq!(
            Some("https://test.domain/test".to_string()),
            remove_get_params(&url)
        );
    }
}

#[test]
fn blocked_parameter_leaves_and_no_other() {
    for param in blocked() {
        let url = format!("https://test.domain/test?a=1&{}=1&b=2", param);
        assert_eq!(
            Some("https://test.domain/test?a=1&b=2".to_string()),
            remove_get_params(&url)
        );
    }
}

#[test]
fn parameters_without_blocked_prefix_stay() {
    assert_eq!(
        remove_get_params("https://test.domain/test?page=2&sort=asc"),
        Some("https://test.domain/test?page=2&sort=asc".to_string())
    );
    assert_eq!(
        remove_get_params("https://test.domain/test"),
        Some("https://test.domain/test".to_string())
    );
    assert_eq!(
        remove_get_params("https://test.domain/test?"),
        Some("https://test.domain/test".to_string())
    );
}

#[test]
fn blocked_prefix_blocks_longer_names() {
    assert_eq!(
        remove_get_params("https://test.domain/?language=en&langs=2&x=lang"),
        Some("https://test.domain/?x=lang".to_string())
    );
}

#[test]
fn escaped_ampersand_separates_parameters() {
    assert_eq!(
        remove_get_params("https://test.domain/?a=1&amp;utm_source=x&amp;b=2"),
        Some("https://test.domain/?a=1&b=2".to_string())
    );
}

#[test]
fn empty_parameters_stay() {
    assert_eq!(
        remove_get_params("https://test.domain/?a&&b&"),
        Some("https://test.domain/?a&&b&".to_string())
    );
    assert_eq!(
        remove_get_params("https://test.domain/?&"),
        Some("https://test.domain/?&".to_string())
    );
}

#[test]
fn stripping_twice_is_stripping_once() {
    for url in [
        "https://test.domain/test?a=1&utm_source=x&b=2",
        "https://test.domain/test?utm_source=x",
        "https://test.domain/test?a=1&amp;b=2",
        "https://test.domain/test",
        "https://test.domain/test?a&&b",
    ] {
        let once = remove_get_params(url).unwrap();
        assert_eq!(remove_get_params(&once), Some(once.clone()));
    }
}

#[test]
fn doubly_escaped_ampersand_is_unescaped_once_per_pass() {
    let once = remove_get_params("https://test.domain/?&amp;amp;").unwrap();
    assert_eq!(once, "https://test.domain/?&amp;");
    let twice = remove_get_params(&once).unwrap();
    assert_eq!(twice, "https://test.domain/?&");
}

#[test]
fn remove_get_params_refuses_what_is_no_url() {
    assert_eq!(remove_get_params("not a url"), None);
    assert_eq!(remove_get_params(""), None);
}

#[test]
fn remove_get_params_keeps_fragment() {
    assert_eq!(
        remove_get_params("https://test.domain/test?utm_source=1&a=b#top"),
        Some("https://test.domain/test?a=b#top".to_string())
    );
}

#[test]
fn _get_root_domain() {
    assert_eq!(
        get_root_domain("https://test.test.domain/").unwrap(),
        "https://test.test.domain/"
    );
    assert_ne!(
        get_root_domain("https://test.test.domain/").unwrap(),
        "https://test.domain/"
    );
    assert_eq!(
        get_root_domain("https://test.test.test.domain/").unwrap(),
        "https://test.test.test.domain/"
    );
}

#[test]
fn root_domain_resets_the_path_and_keeps_the_host() {
    assert_eq!(
        get_root_domain("https://www.example.com/a/b/c.html"),
        Some("https://www.example.com/".to_string())
    );
    assert_eq!(
        get_root_domain("HTTP://Example.COM:8080/a"),
        Some("http://example.com:8080/".to_string())
    );
    assert_eq!(
        get_root_domain("https://example.com/a?q=1"),
        Some("https://example.com/?q=1".to_string())
    );
}

#[test]
fn root_domain_needs_a_host_with_a_dot() {
    assert_eq!(get_root_domain("https://localhost/a.b"), None);
    assert_eq!(get_root_domain("https://com/"), None);
    assert_eq!(get_root_domain("mailto:someone@example.com"), None);
    assert_eq!(get_root_domain("data:text/plain,a.b"), None);
    assert_eq!(get_root_domain("no url at all"), None);
    assert_eq!(get_root_domain(""), None);
    assert_eq!(get_root_domain("https://[::1]/"), None);
}

#[test]
fn root_domain_of_an_address() {
    assert_eq!(
        get_root_domain("http://127.0.0.1/x"),
        Some("http://127.0.0.1/".to_string())
    );
}

#[test]
fn _repair_suggested_url() {
    assert_eq!(
        repair_suggested_url("https://google.com", ("href", "main")),
        Some(strings(&["https://google.com/main", "https://google.com/"]))
    );
    assert_eq!(
        repair_suggested_url("https://google.com/test", ("href", "/main")),
        Some(strings(&["https://google.com/", "https://google.com/"]))
    );
    assert_eq!(
        repair_suggested_url("https://google.com", ("href", "./main")),
        Some(strings(&["https://google.com/main", "https://google.com/"]))
    );
    assert_eq!(
        repair_suggested_url("https://google.com", ("href", "//bing.com")),
        Some(strings(&["https://bing.com/", "https://bing.com/"]))
    );
    assert_eq!(
        repair_suggested_url("https://google.com", ("href", "https://its.goggle.com")),
        Some(strings(&["https://its.goggle.com/", "https://its.goggle.com/"]))
    );
    assert_ne!(
        repair_suggested_url("https://google.com", ("href", "//bing.com")),
        Some(strings(&["https://bing.com"]))
    );
    assert_ne!(
        repair_suggested_url("https://google.com", ("href", "https://its.goggle.com")),
        Some(strings(&["https://its.goggle.com", "https://goggle.com"]))
    );
}

#[test]
fn root_relative_link_leads_to_the_site_root() {
    assert_eq!(
        resolve_link("https://a.com/x", "/y"),
        Some("https://a.com/".to_string())
    );
    assert_eq!(
        resolve_link("https://a.com/x/y/z", "/deep/path.html"),
        Some("https://a.com/".to_string())
    );
    assert_eq!(
        resolve_link("https://a.com/x", "/"),
        Some("https://a.com/".to_string())
    );
}

#[test]
fn scheme_relative_link_gets_https() {
    assert_eq!(
        resolve_link("https://a.com/x", "//bing.com"),
        Some("https://bing.com/".to_string())
    );
    assert_eq!(
        resolve_link("http://a.com/x", "//bing.com/search"),
        Some("https://bing.com/search".to_string())
    );
    assert_eq!(
        resolve_link("not a url", "//bing.com"),
        Some("https://bing.com/".to_string())
    );
}

#[test]
fn dotted_relative_link_is_joined() {
    assert_eq!(
        resolve_link("https://a.com/", "./main"),
        Some("https://a.com/main".to_string())
    );
    assert_eq!(
        resolve_link("https://a.com/b/c", "../main"),
        Some("https://a.com/main".to_string())
    );
    assert_eq!(
        resolve_link("https://a.com/b/c?x=1", "?y=2"),
        Some("https://a.com/b/c?y=2".to_string())
    );
}

#[test]
fn bare_relative_link_is_joined_beside_the_page() {
    assert_eq!(
        resolve_link("https://a.com/b/c", "main"),
        Some("https://a.com/b/main".to_string())
    );
    assert_eq!(
        resolve_link("https://a.com", "main/sub"),
        Some("https://a.com/main/sub".to_string())
    );
}

#[test]
fn absolute_link_stands_as_it_is() {
    assert_eq!(
        resolve_link("https://a.com", "https://its.b.com"),
        Some("https://its.b.com/".to_string())
    );
    assert_eq!(
        resolve_link("https://a.com", "HTTPS://Its.B.com/Path"),
        Some("https://its.b.com/Path".to_string())
    );
    assert_eq!(
        resolve_link("https://a.com", "mailto:someone@b.com"),
        Some("mailto:someone@b.com".to_string())
    );
}

#[test]
fn cross_host_link_gives_the_link_and_the_homepage_of_its_host() {
    assert_eq!(
        repair_suggested_url("https://a.com", ("href", "https://its.b.com")),
        Some(strings(&["https://its.b.com/", "https://its.b.com/"]))
    );
    assert_eq!(
        repair_suggested_url("https://a.com", ("href", "https://its.b.com/page?x=1")),
        Some(strings(&["https://its.b.com/page?x=1", "https://its.b.com/?x=1"]))
    );
}

#[test]
fn fragment_is_cut_off() {
    assert_eq!(
        resolve_link("https://a.com/", "page#part"),
        Some("https://a.com/page".to_string())
    );
    assert_eq!(
        resolve_link("https://a.com/", "https://b.com/x#y#z"),
        Some("https://b.com/x".to_string())
    );
}

#[test]
fn empty_link_gives_nothing() {
    assert_eq!(resolve_link("https://a.com/", ""), None);
    assert_eq!(resolve_link("https://a.com/", "#top"), None);
    assert_eq!(repair_suggested_url("https://a.com/", ("href", "")), None);
    assert_eq!(repair_suggested_url("https://a.com/", ("href", "#")), None);
}

#[test]
fn link_that_cannot_be_resolved_gives_nothing() {
    assert_eq!(resolve_link("not a url", "main"), None);
    assert_eq!(resolve_link("not a url", "./main"), None);
    assert_eq!(resolve_link("not a url", "/main"), None);
    assert_eq!(resolve_link("mailto:someone@b.com", "main"), None);
    assert_eq!(resolve_link("https://a.com/", "//"), None);
    assert_eq!(repair_suggested_url("not a url", ("href", "main")), None);
}

#[test]
fn candidates_lose_their_tracking_parameters() {
    assert_eq!(
        repair_suggested_url("https://a.com/", ("href", "page?utm_source=x&id=7")),
        Some(strings(&["https://a.com/page?id=7", "https://a.com/?id=7"]))
    );
    assert_eq!(
        repair_suggested_url("https://a.com/", ("href", "https://b.org/?utm_medium=mail")),
        Some(strings(&["https://b.org/", "https://b.org/"]))
    );
}

#[test]
fn link_to_a_host_without_dot_has_one_candidate() {
    assert_eq!(
        repair_suggested_url("https://a.com/", ("href", "http://localhost/x")),
        Some(strings(&["http://localhost/x"]))
    );
    assert_eq!(
        repair_suggested_url("https://a.com/", ("src", "mailto:someone@b.com")),
        Some(strings(&["mailto:someone@b.com"]))
    );
}

#[test]
fn form_of_a_link_goes_by_its_first_characters() {
    let form = |found: &str, absolute: bool| {
        link_form(&found.chars().collect::<Vec<char>>(), absolute)
    };
    assert_eq!(form("", false), LinkForm::Empty);
    assert_eq!(form("", true), LinkForm::Empty);
    assert_eq!(form("https://b.com", true), LinkForm::Absolute);
    assert_eq!(form("./main", false), LinkForm::Relative);
    assert_eq!(form(".", false), LinkForm::Relative);
    assert_eq!(form("?q=1", false), LinkForm::Relative);
    assert_eq!(form("//bing.com", false), LinkForm::SchemeRelative);
    assert_eq!(form("//", false), LinkForm::SchemeRelative);
    assert_eq!(form("/", false), LinkForm::RootRelative);
    assert_eq!(form("/y", false), LinkForm::RootRelative);
    assert_eq!(form("/y//z", false), LinkForm::RootRelative);
    assert_eq!(form("main", false), LinkForm::Bare);
    assert_eq!(form("main/./x", false), LinkForm::Bare);
    assert_eq!(form("/y", true), LinkForm::Absolute);
}

#[test]
fn fragment_ends_at_the_first_hash() {
    let cut = |href: &str| -> String { cut_fragment(href).into_iter().collect() };
    assert_eq!(cut("page#part"), "page");
    assert_eq!(cut("page#a#b"), "page");
    assert_eq!(cut("#part"), "");
    assert_eq!(cut("page#"), "page");
    assert_eq!(cut("page"), "page");
    assert_eq!(cut(""), "");
}

#[test]
fn host_with_a_dot_has_a_parent() {
    assert!(host_has_parent("test.domain"));
    assert!(host_has_parent("a.b.c"));
    assert!(host_has_parent("domain."));
    assert!(host_has_parent("127.0.0.1"));
    assert!(!host_has_parent("localhost"));
    assert!(!host_has_parent(""));
    assert!(!host_has_parent("[::1]"));
}

#[test]
fn canonical_form_is_absolute_and_without_fragment() {
    assert!(is_canonical("https://a.com/"));
    assert!(is_canonical("https://a.com/x?y=1"));
    assert!(is_canonical("mailto:someone@a.com"));
    assert!(!is_canonical("https://a.com"));
    assert!(!is_canonical("HTTPS://a.com/"));
    assert!(!is_canonical("https://a.com/#part"));
    assert!(!is_canonical("https://a.com/x y"));
    assert!(!is_canonical("/x"));
    assert!(!is_canonical("x"));
    assert!(!is_canonical(""));
}

#[test]
fn candidates_of_a_page_with_fragment_have_none() {
    assert_eq!(
        repair_suggested_url("https://a.com/x#part", ("href", "y#other")),
        Some(strings(&["https://a.com/y", "https://a.com/"]))
    );
    assert_eq!(
        repair_suggested_url("https://a.com/x#part", ("href", "/y")),
        Some(Vec::new())
    );
}
