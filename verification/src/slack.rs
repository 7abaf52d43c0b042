//! Chat webhook payloads.
//!
//! A chat request names a show; the reply is an immediate "Loading..."
//! line, followed by an in-channel message that carries the show title
//! and one attachment pointing at the chart image URL.  The show name
//! is percent-encoded into that URL through the `urlencoding` crate
//! behind a trusted wrapper.

use vstd::prelude::*;
use vstd::string::StringExecFns;

verus! {

/// A chat slash-command request: the typed show name and the URL to
/// post the delayed reply to.
#[derive(Debug)]
pub struct Slack {
    pub text: String,
    pub response_url: String,
}

/// The immediate reply payload.
#[derive(Debug)]
pub struct SlackResponse {
    pub response_type: String,
    pub text: String,
}

/// One attachment of the delayed reply: the chart image URL.
#[derive(Debug)]
pub struct SlackMessageAttachment {
    pub image_url: Option<String>,
}

/// The delayed in-channel reply payload.
#[derive(Debug)]
pub struct SlackMessage {
    pub text: String,
    pub response_type: String,
    pub attachments: Vec<SlackMessageAttachment>,
}

/// What `urlencoding::encode` yields for a string.
pub uninterp spec fn url_encoded(s: Seq<char>) -> Seq<char>;

/// The characters that percent-encoding passes through unchanged:
/// ASCII alphanumerics and `-`, `_`, `.`, `~`.
pub open spec fn is_unreserved_char(c: char) -> bool {
    ||| 'a' <= c && c <= 'z'
    ||| 'A' <= c && c <= 'Z'
    ||| '0' <= c && c <= '9'
    ||| c == '-'
    ||| c == '_'
    ||| c == '.'
    ||| c == '~'
}

/// Relies on `urlencoding::encode`: percent-encoding every byte except
/// ASCII alphanumerics and `-`, `_`, `.`, `~` is a function of the
/// input alone, and a string of unreserved characters comes back
/// unchanged.
#[verifier::external_body]
fn url_encode(s: &str) -> (r: String)
    ensures
        r@ == url_encoded(s@),
        (forall|i: int| 0 <= i < s@.len() ==> is_unreserved_char(s@[i])) ==> r@ == s@,
{
    urlencoding::encode(s).into_owned()
}

/// The chart URL for a show name under a public URL prefix.
pub open spec fn image_url_spec(prefix: Seq<char>, name: Seq<char>) -> Seq<char> {
    prefix + "/api/image?name="@ + url_encoded(name)
}

/// Builds the chart URL: the prefix, the image route, and the
/// percent-encoded show name.
pub fn image_url(prefix: &str, name: &str) -> (r: String)
    ensures
        r@ == image_url_spec(prefix@, name@),
{
    let mut s: String = prefix.to_owned();
    s.append("/api/image?name=");
    let encoded = url_encode(name);
    s.append(encoded.as_str());
    s
}

/// The delayed in-channel message for a resolved show: its title as
/// text and one attachment with the chart URL.
pub fn slack_message(title: &str, prefix: &str, name: &str) -> (r: SlackMessage)
    ensures
        r.response_type@ == "in_channel"@,
        r.text@ == title@,
        r.attachments@.len() == 1,
        r.attachments@[0].image_url matches Some(u) && u@ == image_url_spec(prefix@, name@),
{
    let url = image_url(prefix, name);
    let mut attachments: Vec<SlackMessageAttachment> = Vec::new();
    attachments.push(SlackMessageAttachment { image_url: Some(url) });
    SlackMessage {
        text: title.to_owned(),
        response_type: "in_channel".to_owned(),
        attachments,
    }
}

/// The immediate reply sent before the chart is ready.
pub fn loading_response() -> (r: SlackResponse)
    ensures
        r.response_type@ == "in_channel"@,
        r.text@ == "Loading..."@,
{
    SlackResponse { response_type: "in_channel".to_owned(), text: "Loading...".to_owned() }
}

} // verus!
