//! The site of a feed: the host named in its address.

use vstd::prelude::*;

verus! {

/// The host that the `url` crate reads in an address: the text that
/// `Url::host_str` gives for what `Url::parse` made of the address, and `None`
/// where `Url::parse` refuses the address or the URL has no host.
pub uninterp spec fn url_host(address: Seq<char>) -> Option<Seq<char>>;

/// The view of a text that may be absent.
pub open spec fn text_view(text: Option<String>) -> Option<Seq<char>> {
    match text {
        Some(t) => Some(t@),
        None => None,
    }
}

/// Calls `url::Url::parse` on the address and `Url::host_str` on the URL it
/// gives. Trusted: that the answer is the one host that the crate reads in
/// this address, `None` where it refuses the address or finds no host.
#[verifier::external_body]
fn host_of(address: &String) -> (host: Option<String>)
    ensures
        text_view(host) == url_host(address@),
{
    match url::Url::parse(address) {
        Ok(parsed) => parsed.host_str().map(|host| host.to_string()),
        Err(_) => None,
    }
}

/// The site of a feed whose address has this host: the host, and the address
/// itself where it has none.
pub open spec fn site_for(address: Seq<char>, host: Option<Seq<char>>) -> Seq<char> {
    match host {
        Some(h) => h,
        None => address,
    }
}

/// The site of the feed at this address.
pub open spec fn site_of(address: Seq<char>) -> Seq<char> {
    site_for(address, url_host(address))
}

/// The site of a feed, given the host that was read in its address.
pub fn site_from_host(address: &String, host: Option<String>) -> (site: String)
    ensures
        site@ == site_for(address@, text_view(host)),
{
    match host {
        Some(h) => h,
        None => address.clone(),
    }
}

/// The site of the feed at this address: the host of the address where it is
/// a URL with a host, the address as it stands where it is not.
pub fn parse_domain(address: &String) -> (site: String)
    ensures
        site@ == site_of(address@),
{
    let host = host_of(address);
    site_from_host(address, host)
}

} // verus!
