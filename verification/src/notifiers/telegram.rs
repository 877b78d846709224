//! The Telegram notifier: message formatting, request parts and the reading
//! of the API's answer. Sending is done by the caller.
use vstd::prelude::*;
use std::time::Duration;
use crate::error::AppError;
use crate::monitor::incident::Incident;
use crate::notifiers::NotificationKind;
use crate::utils::html::{
    escape_html, escaped, format_pub_date, lemma_escaped_has_no_angle_brackets, lemma_truncated_html, pub_date_text, rfc2822_fields,
    strip_html_tags, stripped_html, truncate_html_safe, truncated_html,
};
use crate::utils::text::{
    chars_of, lemma_utf8_len, lemma_utf8_prefix, to_uppercase_string, uppercased,
    utf8_prefix, utf8_truncated,
};

verus! {

/// The longest message Telegram accepts, in characters.
pub const MAX_MESSAGE_CHARS: usize = 4096;

/// The most bytes of an API error body kept in an error.
pub const MAX_ERROR_BODY_BYTES: usize = 4096;

/// What `Duration::from_millis` returns for `ms`.
pub uninterp spec fn duration_from_millis(ms: u64) -> Duration;

/// What `format!("{:?}", d)` writes for a duration `d`.
pub uninterp spec fn duration_debug_text(d: Duration) -> Seq<char>;

/// What `format!("{:?}", s)` writes for a string `s`: `s` quoted, with
/// quotes, backslashes and control characters escaped.
pub uninterp spec fn quoted_debug_text(s: Seq<char>) -> Seq<char>;

/// Calls `Duration::from_millis`; the result is named by `duration_from_millis`.
#[verifier::external_body]
fn millis(ms: u64) -> (d: Duration)
    ensures
        d == duration_from_millis(ms),
{
    Duration::from_millis(ms)
}

/// Formats a duration with `Debug`; the text is named by `duration_debug_text`.
#[verifier::external_body]
fn duration_debug(d: Duration) -> (s: String)
    ensures
        s@ == duration_debug_text(d),
{
    format!("{:?}", d)
}

/// Whether every character of `s` is printable ASCII (space to `~`) other
/// than the double quote, the backslash and the single quote.
pub open spec fn plain_ascii(s: Seq<char>) -> bool {
    forall|i: int|
        0 <= i < s.len() ==> {
            let c = #[trigger] s[i];
            ' ' <= c <= '~' && c != '"' && c != '\\' && c != '\''
        }
}

/// Formats a string with `Debug` (`<str as Debug>::fmt`); the text is named
/// by `quoted_debug_text`. Debug output is the string in double quotes, with
/// only quotes, backslashes and characters that are not printable escaped, so
/// a string of plain printable ASCII comes out as itself in quotes. How the
/// other characters are escaped is left unsaid.
#[verifier::external_body]
fn quoted_debug(s: &str) -> (r: String)
    ensures
        r@ == quoted_debug_text(s@),
        plain_ascii(s@) ==> r@ == seq!['"'] + s@ + seq!['"'],
{
    format!("{:?}", s)
}

/// Sends incident alerts to one Telegram chat through the Bot API.
pub struct TelegramNotifier {
    api_base_url: String,
    bot_token: String,
    chat_id: String,
    /// Minimum delay between consecutive messages (rate limiting).
    rate_limit_delay: Duration,
}

impl TelegramNotifier {
    pub closed spec fn api_base_url_text(&self) -> Seq<char> {
        self.api_base_url@
    }

    pub closed spec fn bot_token_text(&self) -> Seq<char> {
        self.bot_token@
    }

    pub closed spec fn chat_id_text(&self) -> Seq<char> {
        self.chat_id@
    }

    pub closed spec fn delay(&self) -> Duration {
        self.rate_limit_delay
    }

    /// A notifier for the public API, waiting one second between messages
    /// (Telegram allows about one message per second per chat).
    pub fn new(bot_token: String, chat_id: String) -> (n: Self)
        ensures
            n.api_base_url_text() == "https://api.telegram.org"@,
            n.bot_token_text() == bot_token@,
            n.chat_id_text() == chat_id@,
            n.delay() == duration_from_millis(1000),
    {
        TelegramNotifier {
            api_base_url: "https://api.telegram.org".to_owned(),
            bot_token,
            chat_id,
            rate_limit_delay: millis(1000),
        }
    }

    /// The same notifier, talking to the API at `url`.
    pub fn with_api_url(self, url: &str) -> (n: Self)
        ensures
            n.api_base_url_text() == url@,
            n.bot_token_text() == self.bot_token_text(),
            n.chat_id_text() == self.chat_id_text(),
            n.delay() == self.delay(),
    {
        TelegramNotifier { api_base_url: url.to_owned(), ..self }
    }

    /// The same notifier, waiting `delay` between messages.
    pub fn with_rate_limit_delay(self, delay: Duration) -> (n: Self)
        ensures
            n.api_base_url_text() == self.api_base_url_text(),
            n.bot_token_text() == self.bot_token_text(),
            n.chat_id_text() == self.chat_id_text(),
            n.delay() == delay,
    {
        TelegramNotifier { rate_limit_delay: delay, ..self }
    }

    /// The delay to wait after each message sent.
    pub fn rate_limit_delay(&self) -> (d: Duration)
        ensures
            d == self.delay(),
    {
        self.rate_limit_delay
    }

    /// The notifier's name.
    pub fn name(&self) -> (n: &'static str)
        ensures
            n@ == "telegram"@,
    {
        "telegram"
    }

    /// The chat the messages go to.
    pub fn chat_id(&self) -> (c: &str)
        ensures
            c@ == self.chat_id_text(),
    {
        self.chat_id.as_str()
    }

    /// The `sendMessage` endpoint: `<base>/bot<token>/sendMessage` (the
    /// token travels in the path, as the Bot API requires).
    pub fn send_url(&self) -> (u: String)
        ensures
            u@ == self.api_base_url_text() + "/bot"@ + self.bot_token_text() + "/sendMessage"@,
    {
        let mut u = self.api_base_url.clone();
        u.append("/bot");
        u.append(self.bot_token.as_str());
        u.append("/sendMessage");
        u
    }

    /// A description for logs that shows the API URL and the delay and
    /// hides the token and the chat id: it is `debug_text_for` the URL and
    /// the delay alone, and shows a plain ASCII URL as it is, in quotes.
    pub fn debug_text(&self) -> (s: String)
        ensures
            s@ == debug_text_for(self.api_base_url_text(), self.delay()),
            plain_ascii(self.api_base_url_text()) ==> s@ == "TelegramNotifier { api_base_url: "@
                + seq!['"'] + self.api_base_url_text() + seq!['"'] + redacted_tail(self.delay()),
    {
        let mut s = "TelegramNotifier { api_base_url: ".to_owned();
        let url = quoted_debug(self.api_base_url.as_str());
        s.append(url.as_str());
        s.append(", bot_token: \"[REDACTED]\", chat_id: \"[REDACTED]\", rate_limit_delay: ");
        let d = duration_debug(self.rate_limit_delay);
        s.append(d.as_str());
        s.append(" }");
        proof {
            assert(s@ == debug_text_for(self.api_base_url_text(), self.delay()));
            if plain_ascii(self.api_base_url_text()) {
                assert(s@ =~= "TelegramNotifier { api_base_url: "@ + seq!['"']
                    + self.api_base_url_text() + seq!['"'] + redacted_tail(self.delay()));
            }
        }
        s
    }
}

/// What follows the API URL in a notifier's description: the redacted
/// token and chat id, and the delay.
pub open spec fn redacted_tail(delay: Duration) -> Seq<char> {
    ", bot_token: \"[REDACTED]\", chat_id: \"[REDACTED]\", rate_limit_delay: "@
        + duration_debug_text(delay) + " }"@
}

/// The description of a notifier for logs, given its API URL and delay.
pub open spec fn debug_text_for(url: Seq<char>, delay: Duration) -> Seq<char> {
    "TelegramNotifier { api_base_url: "@ + quoted_debug_text(url) + redacted_tail(delay)
}

/// Two notifiers with the same API URL and delay have the same description,
/// whatever their tokens and chat ids.
pub proof fn lemma_debug_text_hides_secrets(a: TelegramNotifier, b: TelegramNotifier)
    requires
        a.api_base_url_text() == b.api_base_url_text(),
        a.delay() == b.delay(),
    ensures
        debug_text_for(a.api_base_url_text(), a.delay()) == debug_text_for(
            b.api_base_url_text(),
            b.delay(),
        ),
{
}


/// The word that says what a notification is about.
pub open spec fn kind_label(kind: NotificationKind) -> Seq<char> {
    match kind {
        NotificationKind::New => "Incident"@,
        NotificationKind::Update => "Update"@,
    }
}

/// The head of a message: provider label, title, date and link, each
/// escaped for Telegram's HTML mode.
pub open spec fn message_head(
    i: (Seq<char>, Seq<char>, Seq<char>, Seq<char>, Seq<char>, Seq<char>),
    kind: NotificationKind,
) -> Seq<char> {
    "<b>["@ + uppercased(escaped(i.0)) + "] "@ + kind_label(kind) + "</b>\n\n<b>"@ + escaped(i.2)
        + "</b>\n<i>"@ + escaped(pub_date_text(i.5, rfc2822_fields(i.5))) + "</i>\n<a href=\""@
        + escaped(i.4) + "\">View full details</a>\n\n"@
}

/// The body of a message: the description as plain text, escaped.
pub open spec fn message_body(i: (Seq<char>, Seq<char>, Seq<char>, Seq<char>, Seq<char>, Seq<char>)) -> Seq<
    char,
> {
    escaped(stripped_html(i.3))
}

/// What ends a message that had to be cut.
pub open spec fn truncation_marker() -> Seq<char> {
    "\n\n(truncated)"@
}

/// `head` and `body` joined, cut to Telegram's limit when too long: the
/// body is cut (never inside an entity) and the marker appended; when the
/// head alone leaves no room, the whole text is cut.
pub open spec fn capped_message(head: Seq<char>, body: Seq<char>) -> Seq<char> {
    let marker = truncation_marker();
    if head.len() + body.len() <= MAX_MESSAGE_CHARS {
        head + body
    } else if head.len() + marker.len() <= MAX_MESSAGE_CHARS {
        head + truncated_html(body, (MAX_MESSAGE_CHARS - head.len() - marker.len()) as nat) + marker
    } else {
        truncated_html(head + body, (MAX_MESSAGE_CHARS - marker.len()) as nat) + marker
    }
}

/// The message sent for an incident.
pub open spec fn notification_text(
    i: (Seq<char>, Seq<char>, Seq<char>, Seq<char>, Seq<char>, Seq<char>),
    kind: NotificationKind,
) -> Seq<char> {
    capped_message(message_head(i, kind), message_body(i))
}

fn head_string(incident: &Incident, kind: NotificationKind) -> (s: String)
    ensures
        s@ == message_head(incident@, kind),
{
    let provider = escape_html(incident.provider.as_str());
    let label = to_uppercase_string(provider.as_str());
    let title = escape_html(incident.title.as_str());
    let date = format_pub_date(incident.occurred_at.as_str());
    let date_escaped = escape_html(date.as_str());
    let link = escape_html(incident.link.as_str());
    let mut s = "<b>[".to_owned();
    s.append(label.as_str());
    s.append("] ");
    match kind {
        NotificationKind::New => s.append("Incident"),
        NotificationKind::Update => s.append("Update"),
    }
    s.append("</b>\n\n<b>");
    s.append(title.as_str());
    s.append("</b>\n<i>");
    s.append(date_escaped.as_str());
    s.append("</i>\n<a href=\"");
    s.append(link.as_str());
    s.append("\">View full details</a>\n\n");
    s
}

/// The message for an incident, in Telegram's HTML mode, labelled by
/// `kind` and never longer than `MAX_MESSAGE_CHARS` characters.
pub fn format_notification(incident: &Incident, kind: NotificationKind) -> (r: String)
    ensures
        r@ == notification_text(incident@, kind),
{
    let head = head_string(incident, kind);
    let plain = strip_html_tags(incident.description.as_str());
    let body = escape_html(plain.as_str());
    let h = chars_of(head.as_str()).len();
    let b = chars_of(body.as_str()).len();
    let marker = "\n\n(truncated)";
    let m = chars_of(marker).len();
    if h <= MAX_MESSAGE_CHARS && b <= MAX_MESSAGE_CHARS - h {
        let mut r = head;
        r.append(body.as_str());
        r
    } else if h <= MAX_MESSAGE_CHARS && m <= MAX_MESSAGE_CHARS - h {
        let kept = truncate_html_safe(body.as_str(), MAX_MESSAGE_CHARS - h - m);
        let mut r = head;
        r.append(kept.as_str());
        r.append(marker);
        r
    } else {
        proof {
            reveal_strlit("\n\n(truncated)");
        }
        let mut full = head;
        full.append(body.as_str());
        let kept = truncate_html_safe(full.as_str(), MAX_MESSAGE_CHARS - m);
        let mut r = kept;
        r.append(marker);
        r
    }
}

/// The message for a new incident.
pub fn format_message(incident: &Incident) -> (r: String)
    ensures
        r@ == notification_text(incident@, NotificationKind::New),
{
    format_notification(incident, NotificationKind::New)
}

/// Whether `w` occurs in `s` as a run of consecutive characters.
pub open spec fn occurs_in(w: Seq<char>, s: Seq<char>) -> bool {
    exists|k: int| 0 <= k && k + w.len() <= s.len() && #[trigger] s.subrange(k, k + w.len()) == w
}

/// The incident's fields enter the head only HTML-escaped: the title in
/// bold after the label line, the date in italics after it, and the link as
/// the target of the details anchor.
pub proof fn lemma_head_escapes_fields(
    i: (Seq<char>, Seq<char>, Seq<char>, Seq<char>, Seq<char>, Seq<char>),
    kind: NotificationKind,
)
    ensures
        occurs_in("</b>\n\n<b>"@ + escaped(i.2) + "</b>\n<i>"@, message_head(i, kind)),
        occurs_in(
            "<i>"@ + escaped(pub_date_text(i.5, rfc2822_fields(i.5))) + "</i>\n<a href=\""@
                + escaped(i.4) + "\">View full details</a>\n\n"@,
            message_head(i, kind),
        ),
{
    let a = "<b>["@ + uppercased(escaped(i.0)) + "] "@ + kind_label(kind);
    let w1 = "</b>\n\n<b>"@ + escaped(i.2) + "</b>\n<i>"@;
    let d = escaped(pub_date_text(i.5, rfc2822_fields(i.5)));
    let tail = "</i>\n<a href=\""@ + escaped(i.4) + "\">View full details</a>\n\n"@;
    let h = message_head(i, kind);
    assert(h =~= a + w1 + d + tail);
    let k1 = a.len() as int;
    assert(h.subrange(k1, k1 + w1.len()) =~= w1);
    reveal_strlit("</b>\n<i>");
    reveal_strlit("<i>");
    let pre = a + "</b>\n\n<b>"@ + escaped(i.2) + "</b>\n"@;
    let w2 = "<i>"@ + d + tail;
    assert(h =~= pre + w2) by {
        reveal_strlit("</b>\n");
    }
    let k2 = pre.len() as int;
    assert(h.subrange(k2, k2 + w2.len()) =~= w2);
    assert(w2 =~= "<i>"@ + d + "</i>\n<a href=\""@ + escaped(i.4)
        + "\">View full details</a>\n\n"@);
}

/// The description enters a message as plain text only: stripped of tags
/// and escaped, the body holds no `<` and no `>`, so it adds no markup.
pub proof fn lemma_body_has_no_markup(i: (Seq<char>, Seq<char>, Seq<char>, Seq<char>, Seq<char>, Seq<char>))
    ensures
        !message_body(i).contains('<'),
        !message_body(i).contains('>'),
{
    lemma_escaped_has_no_angle_brackets(stripped_html(i.3));
}

/// The head of a message is never cut unless it alone leaves no room for
/// the truncation marker: the message then starts with the whole head.
pub proof fn lemma_message_keeps_head(
    i: (Seq<char>, Seq<char>, Seq<char>, Seq<char>, Seq<char>, Seq<char>),
    kind: NotificationKind,
)
    ensures
        message_head(i, kind).len() + truncation_marker().len() <= MAX_MESSAGE_CHARS ==> notification_text(
            i,
            kind,
        ).subrange(0, message_head(i, kind).len() as int) == message_head(i, kind),
{
    let h = message_head(i, kind);
    let b = message_body(i);
    if h.len() + truncation_marker().len() <= MAX_MESSAGE_CHARS {
        let r = notification_text(i, kind);
        if h.len() + b.len() <= MAX_MESSAGE_CHARS {
            assert(r.subrange(0, h.len() as int) =~= h);
        } else {
            let n = (MAX_MESSAGE_CHARS - h.len() - truncation_marker().len()) as nat;
            assert(r =~= h + (truncated_html(b, n) + truncation_marker()));
            assert(r.subrange(0, h.len() as int) =~= h);
        }
    }
}

/// A message never exceeds Telegram's limit; it is the head and the body
/// whole when they fit, and otherwise ends with the truncation marker.
pub proof fn lemma_message_fits(head: Seq<char>, body: Seq<char>)
    ensures
        capped_message(head, body).len() <= MAX_MESSAGE_CHARS,
        head.len() + body.len() <= MAX_MESSAGE_CHARS ==> capped_message(head, body) == head
            + body,
        head.len() + body.len() > MAX_MESSAGE_CHARS ==> capped_message(head, body).skip(
            capped_message(head, body).len() - truncation_marker().len(),
        ) == truncation_marker(),
{
    reveal_strlit("\n\n(truncated)");
    let marker = truncation_marker();
    if head.len() + body.len() > MAX_MESSAGE_CHARS {
        if head.len() + marker.len() <= MAX_MESSAGE_CHARS {
            let n = (MAX_MESSAGE_CHARS - head.len() - marker.len()) as nat;
            lemma_truncated_html(body, n);
            let r = head + truncated_html(body, n) + marker;
            assert(r.skip(r.len() - marker.len()) =~= marker);
        } else {
            let n = (MAX_MESSAGE_CHARS - marker.len()) as nat;
            lemma_truncated_html(head + body, n);
            let r = truncated_html(head + body, n) + marker;
            assert(r.skip(r.len() - marker.len()) =~= marker);
        }
    }
}


/// Whether an HTTP status means success (200 to 299).
pub open spec fn is_success(status: u16) -> bool {
    200 <= status <= 299
}

/// Whether the API accepted the message.
pub fn is_success_status(status: u16) -> (b: bool)
    ensures
        b == is_success(status),
{
    200 <= status && status <= 299
}

/// The error for a refused message: the status and the start of the
/// answer's body, at most `MAX_ERROR_BODY_BYTES` bytes of it, cut between
/// characters.
pub fn api_error(status: u16, body: &str) -> (e: AppError)
    ensures
        e matches AppError::TelegramApi { status: s, body: b } && s == status && b@ == utf8_prefix(
            body@,
            MAX_ERROR_BODY_BYTES as nat,
        ),
{
    let kept = utf8_truncated(body, MAX_ERROR_BODY_BYTES);
    AppError::TelegramApi { status, body: kept }
}

/// The body kept in an API error is a prefix of the answer, at most
/// `MAX_ERROR_BODY_BYTES` bytes long in UTF-8 (the length `str::len`
/// reports), and the whole answer when that fits.
pub proof fn lemma_error_body_capped(body: Seq<char>)
    ensures
        ({
            let kept = utf8_prefix(body, MAX_ERROR_BODY_BYTES as nat);
            &&& body.take(kept.len() as int) == kept
            &&& vstd::utf8::encode_utf8(kept).len() <= MAX_ERROR_BODY_BYTES
            &&& vstd::utf8::encode_utf8(body).len() <= MAX_ERROR_BODY_BYTES ==> kept == body
        }),
{
    let kept = utf8_prefix(body, MAX_ERROR_BODY_BYTES as nat);
    lemma_utf8_prefix(body, MAX_ERROR_BODY_BYTES as nat);
    lemma_utf8_len(kept);
    lemma_utf8_len(body);
}

impl TelegramNotifier {
    /// The form fields of the `sendMessage` request for an incident.
    pub fn send_params(&self, incident: &Incident, kind: NotificationKind) -> (p: Vec<
        (&'static str, String),
    >)
        ensures
            p@.len() == 4,
            p@[0].0@ == "chat_id"@ && p@[0].1@ == self.chat_id_text(),
            p@[1].0@ == "text"@ && p@[1].1@ == notification_text(incident@, kind),
            p@[2].0@ == "parse_mode"@ && p@[2].1@ == "HTML"@,
            p@[3].0@ == "disable_web_page_preview"@ && p@[3].1@ == "true"@,
    {
        let text = format_notification(incident, kind);
        let mut p: Vec<(&'static str, String)> = Vec::new();
        p.push(("chat_id", self.chat_id.clone()));
        p.push(("text", text));
        p.push(("parse_mode", "HTML".to_owned()));
        p.push(("disable_web_page_preview", "true".to_owned()));
        p
    }
}

} // verus!
