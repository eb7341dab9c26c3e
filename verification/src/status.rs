use vstd::prelude::*;

verus! {

/// Where status messages go: a webhook endpoint, or nowhere.
pub struct StatusWriter {
    pub webhook: Option<String>,
}

impl StatusWriter {
    /// A writer that discards every message.
    pub fn none() -> (r: StatusWriter)
        ensures
            r.webhook is None,
    {
        StatusWriter { webhook: None }
    }
}

/// One webhook message.
pub struct Payload {
    pub content: String,
    pub username: Option<String>,
    pub avatar_url: Option<String>,
    pub allowed_mentions: Option<AllowedMentions>,
    pub embeds: Vec<Embed>,
}

impl Payload {
    /// A plain message that allows no mentions at all, so relayed text
    /// cannot ping anybody.
    pub fn new_sanitized(content: String) -> (r: Payload)
        ensures
            r.content == content,
            r.username is None,
            r.avatar_url is None,
            r.embeds@.len() == 0,
            r.allowed_mentions matches Some(m) && m.parse@.len() == 0,
    {
        Payload {
            content,
            username: None,
            avatar_url: None,
            embeds: Vec::new(),
            allowed_mentions: Some(AllowedMentions::sanitized()),
        }
    }
}

/// Which mention kinds a message may trigger.
pub struct AllowedMentions {
    pub parse: Vec<String>,
}

impl AllowedMentions {
    /// No mention kind is allowed to parse.
    pub fn sanitized() -> (r: AllowedMentions)
        ensures
            r.parse@.len() == 0,
    {
        AllowedMentions { parse: Vec::new() }
    }
}

/// One rich-content block of a message.
pub struct Embed {
    pub title: Option<String>,
    pub ty: EmbedType,
    pub description: Option<String>,
    pub url: Option<String>,
    pub color: Option<u32>,
}

pub enum EmbedType {
    Rich,
    Image,
    Video,
    Gifv,
    Article,
    Link,
}

} // verus!
