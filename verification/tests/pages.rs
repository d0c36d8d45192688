use spotijay::pages::{is_logging_in, Page, Url};

#[test]
fn test_page_from_path() {
    assert_eq!(Page::from_path(vec![""]), Some(Page::Home))
}

#[test]
fn test_page_from_url() {
    let path: Vec<Url> = vec![
        Url { hash: Some("thisshouldfail".to_string()) },
        Url { hash: None },
    ];
    assert_eq!(
        path.iter()
            .map(|x| Page::from_url(x.to_owned()))
            .collect::<Vec<Option<Page>>>(),
        vec![None, Some(Page::Home)]
    )
}

#[test]
fn test_page_path() {
    let empty: Vec<&str> = vec![];
    let pages = vec![Page::Home];
    assert_eq!(
        pages.iter().map(Page::path).collect::<Vec<Vec<&str>>>(),
        vec![empty]
    )
}

#[test]
fn from_path_refuses_other_paths() {
    assert_eq!(Page::from_path(vec![]), None);
    assert_eq!(Page::from_path(vec!["", ""]), None);
    assert_eq!(Page::from_path(vec!["home"]), None);
}

#[test]
fn from_url_with_empty_hash_is_home() {
    assert_eq!(Page::from_url(Url { hash: Some(String::new()) }), Some(Page::Home));
}

#[test]
fn from_url_with_slashes_is_no_page() {
    assert_eq!(Page::from_url(Url { hash: Some("/".to_string()) }), None);
    assert_eq!(Page::from_url(Url { hash: Some("a/b".to_string()) }), None);
}

#[test]
fn logging_in_is_seen_in_the_hash() {
    let url = Url { hash: Some("access_token=abc&token_type=Bearer&expires_in=3600".to_string()) };
    assert!(is_logging_in(&url));
    assert!(is_logging_in(&Url { hash: Some("x=1&access_token".to_string()) }));
    assert!(!is_logging_in(&Url { hash: Some("access_toke".to_string()) }));
    assert!(!is_logging_in(&Url { hash: Some(String::new()) }));
    assert!(!is_logging_in(&Url { hash: None }));
}
