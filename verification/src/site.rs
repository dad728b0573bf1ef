//! The pages of the site, and the address lookup.

use vstd::prelude::*;
use crate::reply::{address_or, caller_address};
use crate::text::text_equal;

verus! {

/// What a request for a file of the site is answered with.
#[derive(Clone, Copy, Debug, PartialEq, Eq, Structural)]
pub enum Page {
    /// The icon of the site.
    Favicon,
    /// The front page.
    Index,
    /// Any other name is sent on to the front page.
    RedirectToIndex,
}

/// The page served under `file_name`.
pub open spec fn page_for(file_name: Seq<char>) -> Page {
    if file_name == "favicon.ico"@ {
        Page::Favicon
    } else if file_name == "index.html"@ {
        Page::Index
    } else {
        Page::RedirectToIndex
    }
}

/// Picks the page for a request by the file name in its path.
pub fn index(file_name: &str) -> (page: Page)
    ensures
        page == page_for(file_name@),
{
    if text_equal(file_name, "favicon.ico") {
        Page::Favicon
    } else if text_equal(file_name, "index.html") {
        Page::Index
    } else {
        Page::RedirectToIndex
    }
}

/// The answer to a caller that asks for its own address.
#[derive(Debug)]
pub struct QueryIpResponse {
    pub status: String,
    pub query: String,
}

/// Tells a caller its address as the transport derived it, or the loopback
/// address where it derived none.
pub fn api_query_ip_json(address: &Option<String>) -> (response: QueryIpResponse)
    ensures
        response.status@ == "success"@,
        response.query@ == address_or(*address, "127.0.0.1"@),
{
    QueryIpResponse {
        status: String::from_str("success"),
        query: caller_address(address, "127.0.0.1"),
    }
}

} // verus!
