use drainpipe::error::Error;
use drainpipe::yt_feed::{
    channel_feed, check_host, feed_request, pick_channel, Address, MetaTag, CHANNEL_HOST,
};

fn tag(itemprop: Option<&str>, content: Option<&str>) -> MetaTag {
    MetaTag { itemprop: itemprop.map(String::from), content: content.map(String::from) }
}

#[test]
fn an_address_on_the_channel_host_is_fetched_in_normal_form() {
    assert_eq!(CHANNEL_HOST, "www.youtube.com");
    assert_eq!(
        feed_request("https://www.youtube.com/@someone").unwrap(),
        "https://www.youtube.com/@someone"
    );
    assert_eq!(
        feed_request("HTTPS://WWW.YouTube.COM").unwrap(),
        "https://www.youtube.com/"
    );
    assert_eq!(
        feed_request("https://www.youtube.com:443/a/../b?x=1").unwrap(),
        "https://www.youtube.com/b?x=1"
    );
}

#[test]
fn an_address_on_another_host_is_refused() {
    let failed = feed_request("https://youtube.com/@someone");
    assert!(matches!(failed, Err(Error::Custom(m)) if m == "Invalid host: Some(\"youtube.com\")"));
    let failed = feed_request("https://example.com/www.youtube.com");
    assert!(matches!(failed, Err(Error::Custom(m)) if m == "Invalid host: Some(\"example.com\")"));
}

#[test]
fn an_address_without_host_is_refused() {
    let failed = feed_request("data:text/plain,www.youtube.com");
    assert!(matches!(failed, Err(Error::Custom(m)) if m == "Invalid host: None"));
}

#[test]
fn a_text_that_is_no_address_is_a_url_error() {
    let failed = feed_request("www.youtube.com/@someone");
    assert!(matches!(&failed, Err(Error::Url(_))));
    assert_eq!(
        failed.unwrap_err().message(),
        "URL parse error: relative URL without a base"
    );
    assert!(matches!(feed_request(""), Err(Error::Url(_))));
}

#[test]
fn check_host_compares_the_whole_host() {
    let address = |host: Option<&str>| Address {
        text: "t".to_string(),
        host: host.map(String::from),
    };
    assert_eq!(check_host(address(Some("www.youtube.com"))).unwrap(), "t");
    for host in ["www.youtube.co", "www.youtube.com.", "WWW.YOUTUBE.COM", "", "m.youtube.com"] {
        let failed = check_host(address(Some(host)));
        let expected = format!("Invalid host: Some(\"{host}\")");
        assert!(matches!(failed, Err(Error::Custom(m)) if m == expected));
    }
    assert!(matches!(check_host(address(None)), Err(Error::Custom(m)) if m == "Invalid host: None"));
}

#[test]
fn the_first_tag_that_names_a_channel_is_picked() {
    let tags = vec![
        tag(Some("name"), Some("Someone")),
        tag(None, Some("UCnone")),
        tag(Some("channelId"), None),
        tag(Some("channelid"), Some("UClower")),
        tag(Some("channelId"), Some("UC123")),
        tag(Some("channelId"), Some("UC456")),
    ];
    assert_eq!(
        pick_channel(&tags).unwrap(),
        "https://youtube.com/feeds/videos.xml?channel_id=UC123"
    );
}

#[test]
fn an_empty_identifier_is_still_an_identifier() {
    let tags = vec![tag(Some("channelId"), Some(""))];
    assert_eq!(pick_channel(&tags).unwrap(), "https://youtube.com/feeds/videos.xml?channel_id=");
}

#[test]
fn tags_without_a_channel_have_no_feed() {
    let failed = pick_channel(&vec![tag(Some("name"), Some("x")), tag(Some("channelId"), None)]);
    assert!(matches!(failed, Err(Error::Custom(m)) if m == "Failed to get channel_id!"));
    let failed = pick_channel(&Vec::new());
    assert!(matches!(failed, Err(Error::Custom(m)) if m == "Failed to get channel_id!"));
}

#[test]
fn the_channel_is_read_out_of_a_page() {
    let page = r#"<html><head><title>Someone</title>
        <meta charset="utf-8">
        <meta itemprop="name" content="Someone">
        <meta itemprop="channelId">
        <meta content="UC123" itemprop="channelId">
        <meta itemprop="channelId" content="UC456">
        </head><body><p>hello</p></body></html>"#;
    assert_eq!(
        channel_feed(page).unwrap(),
        "https://youtube.com/feeds/videos.xml?channel_id=UC123"
    );
}

#[test]
fn a_page_without_channel_has_no_feed() {
    for page in ["", "plain text", "<p itemprop=\"channelId\" content=\"UC1\">x</p>"] {
        let failed = channel_feed(page);
        assert!(matches!(failed, Err(Error::Custom(m)) if m == "Failed to get channel_id!"));
    }
}

/// A small generator of repeatable noise.
fn noise(seed: &mut u64) -> u64 {
    *seed ^= *seed << 13;
    *seed ^= *seed >> 7;
    *seed ^= *seed << 17;
    *seed
}

fn scribble(seed: &mut u64, pieces: &[&str], length: usize) -> String {
    (0..length).map(|_| pieces[(noise(seed) % pieces.len() as u64) as usize]).collect()
}

#[test]
fn broken_pages_are_read_without_fuss() {
    let pieces = [
        "<", ">", "</", "/>", "meta", "template", "table", "tr", "td", "select", "option", "svg",
        "math", "p", "a", "b", "i", "form", "html", "head", "body", "frameset", "script", "style",
        "title", "textarea", "plaintext", "!--", "-->", "<!DOCTYPE", "<![CDATA[", "]]>", "&#",
        "&amp;", "&#x0;", ";", "=", "\"", "'", " ", "\n", "\0", "itemprop", "content",
        "channelId", "UC1", "é", "٣", "\u{feff}", "caption", "colgroup", "noscript", "li", "dd",
    ];
    let mut seed = 0x9E37_79B9_7F4A_7C15u64;
    for _ in 0..3_000 {
        let length = 1 + (noise(&mut seed) % 60) as usize;
        let page = scribble(&mut seed, &pieces, length);
        match channel_feed(&page) {
            Ok(feed) => assert!(feed.starts_with("https://youtube.com/feeds/videos.xml?channel_id=")),
            Err(e) => assert_eq!(e.message(), "Failed to get channel_id!"),
        }
    }
}

#[test]
fn broken_addresses_are_refused_without_fuss() {
    let pieces = [
        "http", "https", "file", "data", "mailto", "ws", ":", "/", "//", "\\", "@", "?", "#", "[",
        "]", ".", "..", "%", "%41", "%zz", "www.youtube.com", "youtube", "com", "xn--", "é", "٣",
        " ", "\t", "\n", "\0", "0x7f", "1", "256", "65536", "::1", "-", "_", "~", "+", "&", "=",
    ];
    let mut seed = 0xD1B5_4A32_D192_ED03u64;
    for _ in 0..20_000 {
        let length = 1 + (noise(&mut seed) % 12) as usize;
        let address = scribble(&mut seed, &pieces, length);
        match feed_request(&address) {
            Ok(text) => assert!(text.contains("www.youtube.com")),
            Err(Error::Url(_)) => {}
            Err(Error::Custom(m)) => assert!(m.starts_with("Invalid host: ")),
            Err(e) => panic!("{}", e.message()),
        }
    }
}
