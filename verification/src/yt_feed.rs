//! Finding the feed of a video channel from the address of one of its
//! pages: the address is checked, the caller fetches the page, and the
//! channel's identifier is read out of the page.

use vstd::prelude::*;
use crate::error::Error;

verus! {

/// The only host whose pages are looked at.
pub const CHANNEL_HOST: &'static str = "www.youtube.com";

/// A parsed address: its text in normal form and the host it names.
#[derive(Debug)]
pub struct Address {
    pub text: String,
    pub host: Option<String>,
}

/// What an [`Address`] is, mathematically.
pub struct AddressView {
    pub text: Seq<char>,
    pub host: Option<Seq<char>>,
}

impl View for Address {
    type V = AddressView;

    open spec fn view(&self) -> AddressView {
        AddressView {
            text: self.text@,
            host: match self.host {
                Some(h) => Some(h@),
                None => None,
            },
        }
    }
}

/// One `meta` element of a page, by the two attributes that matter here.
#[derive(Debug)]
pub struct MetaTag {
    pub itemprop: Option<String>,
    pub content: Option<String>,
}

/// What a [`MetaTag`] is, mathematically.
pub struct MetaTagView {
    pub itemprop: Option<Seq<char>>,
    pub content: Option<Seq<char>>,
}

impl View for MetaTag {
    type V = MetaTagView;

    open spec fn view(&self) -> MetaTagView {
        MetaTagView {
            itemprop: match self.itemprop {
                Some(t) => Some(t@),
                None => None,
            },
            content: match self.content {
                Some(t) => Some(t@),
                None => None,
            },
        }
    }
}

/// What each tag is, in order.
pub open spec fn tag_views(tags: Seq<MetaTag>) -> Seq<MetaTagView> {
    tags.map_values(|t: MetaTag| t@)
}

/// The absolute URL that a text writes, in normal form and with its host,
/// or `None` where the text is no absolute URL.
pub uninterp spec fn address_of(input: Seq<char>) -> Option<AddressView>;

/// The `meta` elements that an HTML parser finds in a page read as a
/// fragment, in the order of the page, each with the values of its
/// `itemprop` and `content` attributes where it has them.
pub uninterp spec fn meta_tags_of(page: Seq<char>) -> Seq<MetaTagView>;

/// The URL parser's error, `url::ParseError`, carried as it comes and
/// looked at only through its text.
#[verifier::external_type_specification]
#[verifier::external_body]
pub struct ExUrlParseError(url::ParseError);

/// Parses an address with `url::Url::parse` and copies out what
/// `Url::host_str` gives and the URL's serialization. Both depend on the
/// text alone; `address_of` is the name of that result.
#[verifier::external_body]
fn parse_address(input: &str) -> (parsed: Result<Address, url::ParseError>)
    ensures
        parsed matches Ok(address) ==> address_of(input@) == Some(address@),
        parsed is Err ==> address_of(input@) is None,
{
    let url = url::Url::parse(input)?;
    Ok(Address { host: url.host_str().map(String::from), text: String::from(url) })
}

/// The text that `url::ParseError` shows of itself.
#[verifier::external_body]
fn address_error_text(error: &url::ParseError) -> (text: String) {
    error.to_string()
}

/// Parses a page with `scraper::Html::parse_fragment`, selects its `meta`
/// elements with `Html::select`, and copies out of each what
/// `Element::attr` gives for `itemprop` and for `content`. The result
/// depends on the page alone; `meta_tags_of` is its name.
#[verifier::external_body]
fn meta_tags(page: &str) -> (tags: Vec<MetaTag>)
    ensures
        tag_views(tags@) == meta_tags_of(page@),
{
    let html = scraper::Html::parse_fragment(page);
    let selector = scraper::Selector::parse("meta").unwrap();
    html.select(&selector).map(
        |element| MetaTag {
            itemprop: element.value().attr("itemprop").map(String::from),
            content: element.value().attr("content").map(String::from),
        },
    ).collect()
}

/// How a host is shown in a message: `None`, or the host in quotes inside
/// `Some(..)`.
pub open spec fn host_shown(host: Option<Seq<char>>) -> Seq<char> {
    match host {
        None => "None"@,
        Some(h) => "Some(\""@ + h + "\")"@,
    }
}

/// Accepts an address whose host is the channel host and hands back its
/// text, which is what to fetch; any other address is refused, with a
/// message that shows its host.
pub fn check_host(address: Address) -> (request: Result<String, Error>)
    ensures
        address@.host == Some(CHANNEL_HOST@) ==> (request matches Ok(text) && text
            == address.text),
        address@.host != Some(CHANNEL_HOST@) ==> (request matches Err(Error::Custom(m)) && m@
            == "Invalid host: "@ + host_shown(address@.host)),
{
    let Address { text, host } = address;
    match host {
        Some(h) => {
            if h == String::from_str(CHANNEL_HOST) {
                Ok(text)
            } else {
                let mut message = String::from_str("Invalid host: Some(\"");
                message.append(h.as_str());
                message.append("\")");
                assert(message@ =~= "Invalid host: "@ + host_shown(Some(h@))) by {
                    reveal_strlit("Invalid host: Some(\"");
                    reveal_strlit("Invalid host: ");
                    reveal_strlit("Some(\"");
                }
                Err(Error::Custom(message))
            }
        },
        None => {
            let message = String::from_str("Invalid host: None");
            assert(message@ =~= "Invalid host: "@ + host_shown(None)) by {
                reveal_strlit("Invalid host: None");
                reveal_strlit("Invalid host: ");
                reveal_strlit("None");
            }
            Err(Error::Custom(message))
        },
    }
}

/// Decides what to fetch for an address that a user gave: the address in
/// normal form, if it is a URL on the channel host.
pub fn feed_request(input: &str) -> (request: Result<String, Error>)
    ensures
        match address_of(input@) {
            None => request matches Err(Error::Url(_)),
            Some(address) => if address.host == Some(CHANNEL_HOST@) {
                request matches Ok(text) && text@ == address.text
            } else {
                request matches Err(Error::Custom(m)) && m@ == "Invalid host: "@ + host_shown(
                    address.host,
                )
            },
        },
{
    match parse_address(input) {
        Ok(address) => check_host(address),
        Err(e) => Err(Error::Url(address_error_text(&e))),
    }
}

/// Whether a tag names a channel: its `itemprop` is `channelId` and it has
/// a `content`.
pub open spec fn names_channel(tag: MetaTagView) -> bool {
    tag.itemprop == Some("channelId"@) && tag.content is Some
}

/// The identifier of the channel that a page belongs to: the content of
/// the first tag that names a channel.
pub open spec fn channel_id(tags: Seq<MetaTagView>) -> Option<Seq<char>>
    decreases tags.len(),
{
    if tags.len() == 0 {
        None
    } else if names_channel(tags[0]) {
        tags[0].content
    } else {
        channel_id(tags.drop_first())
    }
}

/// The address of the feed of the channel with the identifier `id`.
pub open spec fn feed_address(id: Seq<char>) -> Seq<char> {
    "https://youtube.com/feeds/videos.xml?channel_id="@ + id
}

/// Picks the channel out of the `meta` elements of a page and gives the
/// address of its feed. Tags are tried in order; a page none of whose tags
/// names a channel has no feed.
pub fn pick_channel(tags: &Vec<MetaTag>) -> (feed: Result<String, Error>)
    ensures
        channel_id(tag_views(tags@)) matches Some(id) ==> (feed matches Ok(address) && address@
            == feed_address(id)),
        channel_id(tag_views(tags@)) is None ==> (feed matches Err(Error::Custom(m)) && m@
            == "Failed to get channel_id!"@),
{
    let ghost all = tag_views(tags@);
    let wanted = String::from_str("channelId");
    let mut i: usize = 0;
    assert(all.skip(0) =~= all);
    while i < tags.len()
        invariant
            i <= tags@.len(),
            all == tag_views(tags@),
            wanted@ == "channelId"@,
            channel_id(all) == channel_id(all.skip(i as int)),
        decreases tags@.len() - i,
    {
        let ghost rest = all.skip(i as int);
        assert(rest[0] == tags@[i as int]@);
        assert(rest.drop_first() =~= all.skip(i + 1));
        let is_channel = match &tags[i].itemprop {
            Some(name) => *name == wanted,
            None => false,
        };
        if is_channel {
            if let Some(id) = &tags[i].content {
                return Ok(
                    String::from_str("https://youtube.com/feeds/videos.xml?channel_id=").concat(
                        id.as_str(),
                    ),
                );
            }
        }
        i += 1;
    }
    assert(all.skip(all.len() as int).len() == 0);
    Err(Error::Custom(String::from_str("Failed to get channel_id!")))
}

/// Reads the address of a channel's feed out of one of the channel's pages.
pub fn channel_feed(page: &str) -> (feed: Result<String, Error>)
    ensures
        channel_id(meta_tags_of(page@)) matches Some(id) ==> (feed matches Ok(address) && address@
            == feed_address(id)),
        channel_id(meta_tags_of(page@)) is None ==> (feed matches Err(Error::Custom(m)) && m@
            == "Failed to get channel_id!"@),
{
    let tags = meta_tags(page);
    pick_channel(&tags)
}

} // verus!
