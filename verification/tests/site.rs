use feed_cache::site::{parse_domain, site_from_host};

#[test]
fn parse_domain_gives_the_host_of_a_url() {
    assert_eq!(parse_domain(&"https://example.com/feed.xml".to_string()), "example.com");
    assert_eq!(parse_domain(&"https://100r.co/links/rss.xml".to_string()), "100r.co");
}

#[test]
fn parse_domain_leaves_port_and_user_out() {
    assert_eq!(parse_domain(&"http://reader@news.example.org:8080/rss".to_string()), "news.example.org");
}

#[test]
fn parse_domain_gives_the_host_in_lower_case() {
    assert_eq!(parse_domain(&"https://EXAMPLE.com/Feed".to_string()), "example.com");
}

#[test]
fn parse_domain_gives_back_what_is_no_url() {
    assert_eq!(parse_domain(&"not a url".to_string()), "not a url");
    assert_eq!(parse_domain(&"example.com/feed.xml".to_string()), "example.com/feed.xml");
    assert_eq!(parse_domain(&"".to_string()), "");
}

#[test]
fn parse_domain_gives_back_a_url_without_host() {
    assert_eq!(parse_domain(&"mailto:reader@example.com".to_string()), "mailto:reader@example.com");
    assert_eq!(parse_domain(&"data:text/plain,feed".to_string()), "data:text/plain,feed");
}

#[test]
fn site_from_host_prefers_the_host() {
    let address = "https://example.com/feed.xml".to_string();
    assert_eq!(site_from_host(&address, Some("example.com".to_string())), "example.com");
    assert_eq!(site_from_host(&address, None), "https://example.com/feed.xml");
}
