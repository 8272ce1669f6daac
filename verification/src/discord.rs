//! Messages for Discord webhooks: who posts, what is said, and whom it may ping.
//! The library builds each request; the program around it posts the request.
use vstd::prelude::*;
use crate::text::{
    chars_of, join, join_chars, push_chars, push_str, string_from_chars, string_views,
};

verus! {

/// A message to post to a Discord webhook. Only user mentions may ping anyone.
pub struct WebhookRequest {
    pub url: String,
    pub username: String,
    /// The kinds of mention that Discord may resolve (`allowed_mentions.parse`).
    pub allowed_mentions: Vec<String>,
    pub content: String,
}

/// `r` posts `content` to `url` under the name `username`, letting only user
/// mentions ping.
pub open spec fn is_webhook_post(
    r: WebhookRequest,
    url: Seq<char>,
    username: Seq<char>,
    content: Seq<char>,
) -> bool {
    &&& r.url@ == url
    &&& r.username@ == username
    &&& r.content@ == content
    &&& r.allowed_mentions@.len() == 1
    &&& r.allowed_mentions@[0]@ == "users"@
}

/// The request that posts `message` to `webhook_url` as `username`.
pub fn send_message(webhook_url: &str, username: &str, message: &str) -> (r: WebhookRequest)
    ensures
        is_webhook_post(r, webhook_url@, username@, message@),
{
    let mut allowed_mentions: Vec<String> = Vec::new();
    allowed_mentions.push("users".to_owned());
    WebhookRequest {
        url: webhook_url.to_owned(),
        username: username.to_owned(),
        allowed_mentions,
        content: message.to_owned(),
    }
}

/// A log line as it appears in the log channel: "[prefix] message".
pub open spec fn log_line(prefix: Seq<char>, message: Seq<char>) -> Seq<char> {
    "["@ + prefix + "] "@ + message
}

/// The request that posts `message` to the log channel, under the name `prefix`
/// and marked with it.
pub fn send_log_message(webhook_url: &str, prefix: &str, message: &str) -> (r: WebhookRequest)
    ensures
        is_webhook_post(r, webhook_url@, prefix@, log_line(prefix@, message@)),
{
    let mut text = String::new();
    text.append("[");
    text.append(prefix);
    text.append("] ");
    text.append(message);
    send_message(webhook_url, prefix, text.as_str())
}

/// How Discord writes a mention of the user with the given id.
pub open spec fn mention(id: Seq<char>) -> Seq<char> {
    "<@!"@ + id + ">"@
}

/// The tail of a notification that pings the given users: nothing when there are
/// none, else "   cc. " and their mentions separated by spaces.
pub open spec fn mention_list(ids: Seq<Seq<char>>) -> Seq<char> {
    if ids.len() == 0 {
        Seq::empty()
    } else {
        "   cc. "@ + join(" "@, ids.map_values(|id: Seq<char>| mention(id)))
    }
}

/// The mention tail for the given user ids, in their order.
pub fn mention_list_text(ids: &Vec<String>) -> (r: Vec<char>)
    ensures
        r@ == mention_list(string_views(ids@)),
{
    let ghost goal = string_views(ids@).map_values(|id: Seq<char>| mention(id));
    let mut parts: Vec<Vec<char>> = Vec::new();
    let mut i: usize = 0;
    while i < ids.len()
        invariant
            i <= ids.len(),
            parts.len() == i,
            goal == string_views(ids@).map_values(|id: Seq<char>| mention(id)),
            forall|k: int| 0 <= k < i ==> #[trigger] parts@[k]@ == goal[k],
        decreases ids.len() - i,
    {
        let mut part: Vec<char> = Vec::new();
        push_str(&mut part, "<@!");
        push_str(&mut part, ids[i].as_str());
        push_str(&mut part, ">");
        parts.push(part);
        i = i + 1;
    }
    let joined = join_chars(&chars_of(" "), &parts);
    assert(parts@.map_values(|p: Vec<char>| p@) =~= goal);
    if ids.len() == 0 {
        Vec::new()
    } else {
        let mut r = chars_of("   cc. ");
        push_chars(&mut r, &joined);
        r
    }
}

/// The text of a game notification: the tournament linked to `link`, the pairing,
/// then the mentions.
pub open spec fn game_notice(
    tournament: Seq<char>,
    link: Seq<char>,
    white: Seq<char>,
    black: Seq<char>,
    ids: Seq<Seq<char>>,
) -> Seq<char> {
    "[`"@ + tournament + "`]("@ + link + ") `"@ + white + "` vs. `"@ + black + "`"@
        + mention_list(ids)
}

/// Builds the text of a game notification.
pub fn game_notice_text(
    tournament: &str,
    link: &str,
    white: &str,
    black: &str,
    ids: &Vec<String>,
) -> (r: String)
    ensures
        r@ == game_notice(tournament@, link@, white@, black@, string_views(ids@)),
{
    let mut text: Vec<char> = Vec::new();
    push_str(&mut text, "[`");
    push_str(&mut text, tournament);
    push_str(&mut text, "`](");
    push_str(&mut text, link);
    push_str(&mut text, ") `");
    push_str(&mut text, white);
    push_str(&mut text, "` vs. `");
    push_str(&mut text, black);
    push_str(&mut text, "`");
    let tail = mention_list_text(ids);
    push_chars(&mut text, &tail);
    string_from_chars(&text)
}

/// `needle` occurs in `hay` as a run of consecutive characters.
pub open spec fn occurs_in(needle: Seq<char>, hay: Seq<char>) -> bool {
    exists|k: int| 0 <= k && k + needle.len() <= hay.len() && #[trigger] hay.subrange(k, k + needle.len()) == needle
}

/// Every part of a join occurs in it.
pub proof fn lemma_join_holds_every_part(sep: Seq<char>, parts: Seq<Seq<char>>, i: int)
    requires
        0 <= i < parts.len(),
    ensures
        occurs_in(parts[i], join(sep, parts)),
    decreases parts.len(),
{
    let j = join(sep, parts);
    if parts.len() == 1 {
        assert(j == parts[0]);
        let k: int = 0;
        assert(j.subrange(k, k + parts[i].len()) =~= parts[i]);
        assert(occurs_in(parts[i], j));
    } else {
        let init = parts.drop_last();
        let ji = join(sep, init);
        assert(j == ji + sep + parts.last());
        if i == parts.len() - 1 {
            let k: int = ji.len() as int + sep.len() as int;
            assert(j.subrange(k, k + parts[i].len()) =~= parts[i]);
            assert(occurs_in(parts[i], j));
        } else {
            lemma_join_holds_every_part(sep, init, i);
            assert(init[i] == parts[i]);
            let k = choose|k: int| 0 <= k && k + init[i].len() <= ji.len() && #[trigger] ji.subrange(k, k + init[i].len()) == init[i];
            assert(j.subrange(k, k + parts[i].len()) =~= ji.subrange(k, k + parts[i].len()));
            assert(occurs_in(parts[i], j));
        }
    }
}

/// Every user to ping is mentioned: the mention of each id occurs in the mention tail,
/// which begins with "   cc. " whenever there is someone to ping.
pub proof fn lemma_every_id_mentioned(ids: Seq<Seq<char>>, i: int)
    requires
        0 <= i < ids.len(),
    ensures
        occurs_in(mention(ids[i]), mention_list(ids)),
        mention_list(ids).take(7) == "   cc. "@,
{
    reveal_strlit("   cc. ");
    let parts = ids.map_values(|id: Seq<char>| mention(id));
    lemma_join_holds_every_part(" "@, parts, i);
    let j = join(" "@, parts);
    let l = mention_list(ids);
    assert(l == "   cc. "@ + j);
    assert(parts[i] == mention(ids[i]));
    let k = choose|k: int| 0 <= k && k + parts[i].len() <= j.len() && #[trigger] j.subrange(k, k + parts[i].len()) == parts[i];
    assert(l.subrange(k + 7, k + 7 + parts[i].len()) =~= j.subrange(k, k + parts[i].len()));
    assert(l.take(7) =~= "   cc. "@);
}

} // verus!
