//! Custom emoji of a chat guild: the records of its interface, where its
//! requests go, and the image of a new emoji as a data URI.

use vstd::prelude::*;

verus! {

/// The user who made an emoji.
#[derive(Debug)]
pub struct EmojiUser {
    pub username: String,
    pub id: String,
}

/// A custom emoji as the guild reports it.
#[derive(Debug)]
pub struct Emoji {
    pub id: String,
    pub name: String,
    pub roles: Vec<String>,
    pub user: EmojiUser,
    pub require_colons: bool,
    pub managed: bool,
    pub animated: bool,
}

/// The request that makes a new emoji.
#[derive(Debug)]
pub struct CreateEmoji {
    pub name: String,
    /// The image as a data URI.
    pub image: String,
    pub roles: Vec<String>,
}

/// The base64 text of a sequence of bytes, in the standard alphabet with
/// padding, as the `base64` crate gives it.
pub uninterp spec fn base64_text(bytes: Seq<u8>) -> Seq<char>;

/// Whether the base64 text of `len` bytes has a length that fits.
pub open spec fn encodable(len: nat) -> bool {
    4 * ((len + 2) / 3) <= usize::MAX
}

/// Whether the base64 text of `len` bytes has a length that fits.
pub fn encodable_len(len: usize) -> (r: bool)
    ensures
        r == encodable(len as nat),
{
    let groups: usize = len / 3 + if len % 3 == 0 {
        0
    } else {
        1
    };
    groups <= usize::MAX / 4
}

/// Encodes bytes as base64 text.
///
/// Trusted: `base64::encode`, which encodes with the standard alphabet and
/// padding. The text depends on the bytes alone. The function stops the
/// program where the length of the text does not fit; the `requires` leaves
/// those inputs out.
#[allow(deprecated)]
#[verifier::external_body]
fn base64_encode(bytes: &[u8]) -> (r: String)
    requires
        encodable(bytes@.len()),
    ensures
        r@ == base64_text(bytes@),
{
    base64::encode(bytes)
}

/// Where the emoji of a guild are listed and made.
pub open spec fn emoji_endpoint(guild_id: Seq<char>) -> Seq<char> {
    "https://discord.com/api/v10/guilds/"@ + guild_id + "/emojis"@
}

/// The value of the authorization header for a bot token.
pub open spec fn bot_authorization(token: Seq<char>) -> Seq<char> {
    "Bot "@ + token
}

/// A data URI of the given media type around base64 text.
pub open spec fn data_uri_of(mime_type: Seq<char>, encoded: Seq<char>) -> Seq<char> {
    "data:"@ + mime_type + ";base64,"@ + encoded
}

/// Where the emoji of the guild `guild_id` are listed and made.
pub fn get_emoji_endpoint(guild_id: &str) -> (r: String)
    ensures
        r@ == emoji_endpoint(guild_id@),
{
    let mut out = String::from_str("https://discord.com/api/v10/guilds/");
    out.append(guild_id);
    out.append("/emojis");
    out
}

/// The value of the authorization header for the bot token `token`.
pub fn authorization(token: &str) -> (r: String)
    ensures
        r@ == bot_authorization(token@),
{
    let mut out = String::from_str("Bot ");
    out.append(token);
    out
}

/// The data URI of the given media type around text that is already
/// encoded.
pub fn data_uri_around(mime_type: &str, encoded: &str) -> (r: String)
    ensures
        r@ == data_uri_of(mime_type@, encoded@),
{
    let mut out = String::from_str("data:");
    out.append(mime_type);
    out.append(";base64,");
    out.append(encoded);
    out
}

/// The data URI that holds `bytes` as an image of the given media type.
pub fn data_uri(mime_type: &str, bytes: &[u8]) -> (r: String)
    requires
        encodable(bytes@.len()),
    ensures
        r@ == data_uri_of(mime_type@, base64_text(bytes@)),
{
    let encoded = base64_encode(bytes);
    data_uri_around(mime_type, encoded.as_str())
}

impl CreateEmoji {
    /// The request that makes an emoji called `name` from the image in
    /// `bytes`, open to every role.
    pub fn new(name: &str, mime_type: &str, bytes: &[u8]) -> (r: CreateEmoji)
        requires
            encodable(bytes@.len()),
        ensures
            r.name@ == name@,
            r.image@ == data_uri_of(mime_type@, base64_text(bytes@)),
            r.roles@.len() == 0,
    {
        CreateEmoji {
            name: String::from_str(name),
            image: data_uri(mime_type, bytes),
            roles: Vec::new(),
        }
    }
}

} // verus!
