//! The announcements of a new TCEC game, to the TCEC channel and to the AlphaBeta
//! channel.
use vstd::prelude::*;
use crate::discord::{WebhookRequest, game_notice, game_notice_text, is_webhook_post, send_message};
use crate::tcec::config::Config;
use crate::text::string_views;

verus! {

/// The page that shows the main TCEC broadcast.
pub const TCEC_URL: &'static str = "https://tcec-chess.com/";

/// The page that shows the TCEC cup and bonus broadcasts.
pub const CTV_TCEC_URL: &'static str = "https://ctv.tcec-chess.com/";

/// The name the notifications are posted under.
pub const NOTIFIER_NAME: &'static str = "tcec-notifier";

/// A game to announce and the users to ping for it.
pub struct NotifyContent {
    pub white_player: String,
    pub black_player: String,
    pub tournament: String,
    /// The ids of the users to ping; none is listed twice.
    pub mentions: Vec<String>,
}

/// The text announcing `content`, with the tournament linked to `link`.
pub open spec fn notice_for(content: NotifyContent, link: Seq<char>) -> Seq<char> {
    game_notice(
        content.tournament@,
        link,
        content.white_player@,
        content.black_player@,
        string_views(content.mentions@),
    )
}

/// The announcement for the TCEC channel, linking to the TCEC page.
pub fn notify_tcec(config: &Config, content: NotifyContent) -> (r: WebhookRequest)
    requires
        string_views(content.mentions@).no_duplicates(),
    ensures
        is_webhook_post(r, config.tcec_notify_webhook@, NOTIFIER_NAME@, notice_for(content, TCEC_URL@)),
{
    let text = game_notice_text(
        content.tournament.as_str(),
        TCEC_URL,
        content.white_player.as_str(),
        content.black_player.as_str(),
        &content.mentions,
    );
    send_message(config.tcec_notify_webhook.as_str(), NOTIFIER_NAME, text.as_str())
}

/// The announcement for the AlphaBeta channel, linking to the cup broadcast page.
pub fn notify_alphabeta(config: &Config, content: NotifyContent) -> (r: WebhookRequest)
    requires
        string_views(content.mentions@).no_duplicates(),
    ensures
        is_webhook_post(
            r,
            config.alphabeta_notify_webhook@,
            NOTIFIER_NAME@,
            notice_for(content, CTV_TCEC_URL@),
        ),
{
    let text = game_notice_text(
        content.tournament.as_str(),
        CTV_TCEC_URL,
        content.white_player.as_str(),
        content.black_player.as_str(),
        &content.mentions,
    );
    send_message(config.alphabeta_notify_webhook.as_str(), NOTIFIER_NAME, text.as_str())
}

} // verus!
