//! Notifiers: where alerts are sent.
pub mod telegram;

use vstd::prelude::*;
use crate::error::AppError;
use crate::utils::text::same_text;
use telegram::{duration_from_millis, TelegramNotifier};

verus! {

/// Whether a notification is the first alert for an incident or a follow-up
/// triggered by an in-place status update (e.g. Investigating to Identified).
/// Lets notifiers label updates distinctly instead of re-sending an identical
/// "new incident" message.
#[derive(Debug, Clone, Copy, PartialEq, Eq, Structural)]
pub enum NotificationKind {
    New,
    Update,
}


/// One enabled notifier: its name and the values of its settings.
pub struct NotifierSetting {
    pub name: String,
    /// `NOTIFIER_<NAME>_BOT_TOKEN`
    pub bot_token: Option<String>,
    /// `NOTIFIER_<NAME>_CHAT_ID`
    pub chat_id: Option<String>,
}

/// Whether the setting names a notifier that can be built.
pub open spec fn is_buildable(s: NotifierSetting) -> bool {
    s.name@ == "telegram"@ && s.bot_token is Some && s.chat_id is Some
}

/// The refusal for a setting that cannot be built: an unknown name first,
/// then a missing bot token, then a missing chat id.
pub open spec fn is_refusal(e: AppError, s: NotifierSetting) -> bool {
    if s.name@ != "telegram"@ {
        e matches AppError::UnknownNotifier(n) && n@ == s.name@
    } else if s.bot_token is None {
        e matches AppError::MissingConfig(k) && k@ == "NOTIFIER_TELEGRAM_BOT_TOKEN"@
    } else {
        e matches AppError::MissingConfig(k) && k@ == "NOTIFIER_TELEGRAM_CHAT_ID"@
    }
}

/// Whether `n` is the notifier a buildable setting describes.
pub open spec fn is_notifier(n: TelegramNotifier, s: NotifierSetting) -> bool {
    &&& n.api_base_url_text() == "https://api.telegram.org"@
    &&& n.bot_token_text() == s.bot_token.unwrap()@
    &&& n.chat_id_text() == s.chat_id.unwrap()@
    &&& n.delay() == duration_from_millis(1000)
}

/// Builds one notifier from its setting.
pub fn build_one(setting: &NotifierSetting) -> (r: Result<TelegramNotifier, AppError>)
    ensures
        is_buildable(*setting) ==> (r matches Ok(n) && is_notifier(n, *setting)),
        !is_buildable(*setting) ==> (r matches Err(e) && is_refusal(e, *setting)),
{
    if !same_text(setting.name.as_str(), "telegram") {
        return Err(AppError::UnknownNotifier(setting.name.clone()));
    }
    let token = match &setting.bot_token {
        Some(t) => t.clone(),
        None => {
            return Err(AppError::MissingConfig("NOTIFIER_TELEGRAM_BOT_TOKEN"));
        },
    };
    let chat = match &setting.chat_id {
        Some(c) => c.clone(),
        None => {
            return Err(AppError::MissingConfig("NOTIFIER_TELEGRAM_CHAT_ID"));
        },
    };
    Ok(TelegramNotifier::new(token, chat))
}

/// Whether every setting can be built.
pub open spec fn all_buildable(settings: Seq<NotifierSetting>) -> bool {
    forall|i: int| 0 <= i < settings.len() ==> is_buildable(#[trigger] settings[i])
}

/// Whether `e` refuses the first setting that cannot be built.
pub open spec fn refuses_first_unbuildable(e: AppError, settings: Seq<NotifierSetting>) -> bool {
    exists|k: int|
        {
            &&& 0 <= k < settings.len()
            &&& !is_buildable(#[trigger] settings[k])
            &&& forall|j: int| 0 <= j < k ==> is_buildable(#[trigger] settings[j])
            &&& is_refusal(e, settings[k])
        }
}

/// Whether `v` holds, in order, the notifiers the settings describe.
pub open spec fn are_notifiers(v: Seq<TelegramNotifier>, settings: Seq<NotifierSetting>) -> bool {
    &&& v.len() == settings.len()
    &&& forall|i: int| 0 <= i < settings.len() ==> is_notifier(#[trigger] v[i], settings[i])
}

/// Builds every enabled notifier, in order; the first setting that cannot
/// be built is refused.
pub fn build_all(settings: &Vec<NotifierSetting>) -> (r: Result<Vec<TelegramNotifier>, AppError>)
    ensures
        r is Ok <==> all_buildable(settings@),
        r matches Ok(v) ==> are_notifiers(v@, settings@),
        r matches Err(e) ==> refuses_first_unbuildable(e, settings@),
{
    let mut out: Vec<TelegramNotifier> = Vec::new();
    let mut i: usize = 0;
    while i < settings.len()
        invariant
            0 <= i <= settings@.len(),
            out@.len() == i,
            forall|j: int| 0 <= j < i ==> is_buildable(#[trigger] settings@[j]),
            forall|j: int| 0 <= j < i ==> is_notifier(#[trigger] out@[j], settings@[j]),
        decreases settings.len() - i,
    {
        match build_one(&settings[i]) {
            Ok(n) => {
                out.push(n);
            },
            Err(e) => {
                return Err(e);
            },
        }
        i += 1;
    }
    Ok(out)
}

} // verus!
