//! The announcement of a new ccrl.live game to the notification channel.
use vstd::prelude::*;
use crate::ccrl::ccrllive::{CcrlLivePlayer, CcrlLiveRoom, ccrl_url_spec};
use crate::ccrl::config::Config;
use crate::discord::{WebhookRequest, game_notice, game_notice_text, is_webhook_post, send_message};
use crate::text::string_views;

verus! {

/// The name the notifications are posted under.
pub const NOTIFIER_NAME: &'static str = "ccrl-notifier";

/// A game to announce, the room it is played in, and the users to ping for it.
pub struct NotifyContent {
    pub white_player: CcrlLivePlayer,
    pub black_player: CcrlLivePlayer,
    pub tournament: String,
    pub room: CcrlLiveRoom,
    /// The ids of the users to ping; none is listed twice.
    pub mentions: Vec<String>,
}

/// The text announcing `content`: the tournament linked to the room's page, the
/// pairing, then the mentions.
pub open spec fn notice_for(content: NotifyContent) -> Seq<char> {
    game_notice(
        content.tournament@,
        ccrl_url_spec(content.room@),
        content.white_player@,
        content.black_player@,
        string_views(content.mentions@),
    )
}

/// The announcement of `content` for the notification channel.
pub fn notify(config: &Config, content: NotifyContent) -> (r: WebhookRequest)
    requires
        string_views(content.mentions@).no_duplicates(),
    ensures
        is_webhook_post(r, config.notify_webhook@, NOTIFIER_NAME@, notice_for(content)),
{
    let link = content.room.url();
    let white = content.white_player.to_string();
    let black = content.black_player.to_string();
    let text = game_notice_text(
        content.tournament.as_str(),
        link.as_str(),
        white.as_str(),
        black.as_str(),
        &content.mentions,
    );
    send_message(config.notify_webhook.as_str(), NOTIFIER_NAME, text.as_str())
}

} // verus!
