//! Configuration: the boot configuration (`config.yaml`), the editable settings
//! kept in the database, monitoring sources, and how a source's effective
//! settings are resolved against its groups. Paths are kept as strings.
use vstd::prelude::*;

use crate::cron_expr::{validate, CronError};
use crate::models::{clone_strings, TagConfig, TelegramTarget};
use crate::text::{
    append_chars, char_is_ws, chars_of, copy_chars, ends_with, is_ascii_alnum, is_ascii_digit,
    is_ws, lower_char, lt_chars, slice_chars, split, split_chars, starts_with, starts_with_chars,
    str_lt, string_of, trim, trim_chars, views,
};

verus! {

/// Kind of a detected change.
#[derive(Debug, Clone, Copy, PartialEq, Eq, Structural)]
pub enum ChangeType {
    New,
    Updated,
    Removed,
}

/// How images to attach to a change notification are picked.
pub enum ImageSelector {
    /// No image.
    NoImage,
    /// The images collected with the extracted items.
    Items,
    /// `<img>` elements matched by a CSS selector on the whole page.
    Css { selector: String },
    /// Images of the elements that changed (items extraction only).
    Changed,
}

impl Clone for ImageSelector {
    fn clone(&self) -> (r: Self)
        ensures
            r == *self,
    {
        match self {
            ImageSelector::NoImage => ImageSelector::NoImage,
            ImageSelector::Items => ImageSelector::Items,
            ImageSelector::Css { selector } => ImageSelector::Css { selector: selector.clone() },
            ImageSelector::Changed => ImageSelector::Changed,
        }
    }
}

pub fn clone_image_selector(s: &Option<ImageSelector>) -> (r: Option<ImageSelector>)
    ensures
        r == *s,
{
    match s {
        Some(x) => Some(x.clone()),
        None => None,
    }
}

/// Where the items of a page are found.
pub enum ItemSelector {
    Css { selector: String },
    JsonPath { path: String },
}

impl Clone for ItemSelector {
    fn clone(&self) -> (r: Self)
        ensures
            r == *self,
    {
        match self {
            ItemSelector::Css { selector } => ItemSelector::Css { selector: selector.clone() },
            ItemSelector::JsonPath { path } => ItemSelector::JsonPath { path: path.clone() },
        }
    }
}

pub fn clone_opt_string(s: &Option<String>) -> (r: Option<String>)
    ensures
        r == *s,
{
    match s {
        Some(x) => Some(x.clone()),
        None => None,
    }
}

/// Extraction rule of one item field.
pub struct ItemField {
    pub name: String,
    pub selector: Option<String>,
    pub attr: Option<String>,
    pub path: Option<String>,
}

impl Clone for ItemField {
    fn clone(&self) -> (r: Self)
        ensures
            r == *self,
    {
        ItemField {
            name: self.name.clone(),
            selector: clone_opt_string(&self.selector),
            attr: clone_opt_string(&self.attr),
            path: clone_opt_string(&self.path),
        }
    }
}

pub fn clone_item_fields(v: &Vec<ItemField>) -> (r: Vec<ItemField>)
    ensures
        r@ == v@,
{
    let r = v.clone();
    proof {
        assert(r@ =~= v@);
    }
    r
}

/// What is compared between two checks of a source.
pub enum ExtractConfig {
    /// The whole page text.
    Text { images: Option<ImageSelector> },
    /// Items found by a selector, compared item by item.
    Items {
        selector: ItemSelector,
        fields: Vec<ItemField>,
        dedupe_key: Option<String>,
        images: Option<ImageSelector>,
    },
}

/// Mathematical model of an [`ExtractConfig`].
pub enum ExtractView {
    Text { images: Option<ImageSelector> },
    Items {
        selector: ItemSelector,
        fields: Seq<ItemField>,
        dedupe_key: Option<String>,
        images: Option<ImageSelector>,
    },
}

impl View for ExtractConfig {
    type V = ExtractView;

    open spec fn view(&self) -> ExtractView {
        match self {
            ExtractConfig::Text { images } => ExtractView::Text { images: *images },
            ExtractConfig::Items { selector, fields, dedupe_key, images } => ExtractView::Items {
                selector: *selector,
                fields: fields@,
                dedupe_key: *dedupe_key,
                images: *images,
            },
        }
    }
}

impl Clone for ExtractConfig {
    fn clone(&self) -> (r: Self)
        ensures
            r@ == self@,
    {
        match self {
            ExtractConfig::Text { images } => ExtractConfig::Text {
                images: clone_image_selector(images),
            },
            ExtractConfig::Items { selector, fields, dedupe_key, images } => ExtractConfig::Items {
                selector: selector.clone(),
                fields: clone_item_fields(fields),
                dedupe_key: clone_opt_string(dedupe_key),
                images: clone_image_selector(images),
            },
        }
    }
}

impl Default for ExtractConfig {
    /// Whole-page text without images.
    fn default() -> (r: Self)
        ensures
            r@ == (ExtractView::Text { images: None }),
    {
        ExtractConfig::Text { images: None }
    }
}

/// A request header of a source.
pub struct Header {
    pub name: String,
    pub value: String,
}

impl Clone for Header {
    fn clone(&self) -> (r: Self)
        ensures
            r == *self,
    {
        Header { name: self.name.clone(), value: self.value.clone() }
    }
}

pub struct WaitConfig {
    pub selector: Option<String>,
    pub timeout: Option<u64>,
}

/// How a source is fetched.
pub struct FetchConfig {
    pub engine: String,
    pub url: String,
    pub method: String,
    pub headers: Vec<Header>,
    pub max_body_bytes: usize,
    pub timeout_secs: u64,
    pub wait: WaitConfig,
    pub tab_policy: String,
    pub evaluate: Option<String>,
    pub screenshot: bool,
}

/// When a source is checked: a standard five-field cron expression.
pub struct ScheduleConfig {
    pub cron: Option<String>,
}

/// The value of a switch a stored source leaves out: on.
pub fn default_true() -> (r: bool)
    ensures
        r,
{
    true
}

/// A monitoring source: what to fetch, what to extract, when to check.
pub struct SourceConfig {
    pub id: String,
    pub name: String,
    /// Whether the scheduler checks the source.
    pub enabled: bool,
    /// Whether detected changes are notified.
    pub notify_enabled: bool,
    /// Whether the history limit, notification target and extraction follow
    /// the source's configured groups.
    pub follow_group: bool,
    pub tags: Vec<String>,
    pub fetch: FetchConfig,
    pub schedule: ScheduleConfig,
    pub extract: ExtractConfig,
}

/// Mathematical model of a [`FetchConfig`].
pub struct FetchView {
    pub engine: String,
    pub url: String,
    pub method: String,
    pub headers: Seq<Header>,
    pub max_body_bytes: usize,
    pub timeout_secs: u64,
    pub wait: WaitConfig,
    pub tab_policy: String,
    pub evaluate: Option<String>,
    pub screenshot: bool,
}

impl View for FetchConfig {
    type V = FetchView;

    open spec fn view(&self) -> FetchView {
        FetchView {
            engine: self.engine,
            url: self.url,
            method: self.method,
            headers: self.headers@,
            max_body_bytes: self.max_body_bytes,
            timeout_secs: self.timeout_secs,
            wait: self.wait,
            tab_policy: self.tab_policy,
            evaluate: self.evaluate,
            screenshot: self.screenshot,
        }
    }
}

impl Clone for FetchConfig {
    fn clone(&self) -> (r: Self)
        ensures
            r@ == self@,
    {
        let headers = self.headers.clone();
        proof {
            assert(headers@ =~= self.headers@);
        }
        FetchConfig {
            engine: self.engine.clone(),
            url: self.url.clone(),
            method: self.method.clone(),
            headers,
            max_body_bytes: self.max_body_bytes,
            timeout_secs: self.timeout_secs,
            wait: WaitConfig { selector: clone_opt_string(&self.wait.selector), timeout: self.wait.timeout },
            tab_policy: self.tab_policy.clone(),
            evaluate: clone_opt_string(&self.evaluate),
            screenshot: self.screenshot,
        }
    }
}

impl Default for FetchConfig {
    /// A plain HTTP `GET` of up to 5 MiB with a 30 s timeout, no headers, no
    /// wait, tabs reused, no script and no screenshot.
    fn default() -> (r: Self)
        ensures
            r.engine@ == "http"@,
            r.url@.len() == 0,
            r.method@ == "GET"@,
            r.headers@.len() == 0,
            r.max_body_bytes == 5 * 1024 * 1024,
            r.timeout_secs == 30,
            r.wait.selector is None,
            r.wait.timeout is None,
            r.tab_policy@ == "reuse"@,
            r.evaluate is None,
            !r.screenshot,
    {
        FetchConfig {
            engine: str_to_string("http"),
            url: String::new(),
            method: str_to_string("GET"),
            headers: Vec::new(),
            max_body_bytes: 5 * 1024 * 1024,
            timeout_secs: 30,
            wait: WaitConfig { selector: None, timeout: None },
            tab_policy: str_to_string("reuse"),
            evaluate: None,
            screenshot: false,
        }
    }
}

/// Mathematical model of a [`SourceConfig`].
pub struct SourceView {
    pub id: String,
    pub name: String,
    pub enabled: bool,
    pub notify_enabled: bool,
    pub follow_group: bool,
    pub tags: Seq<String>,
    pub fetch: FetchView,
    pub schedule: ScheduleConfig,
    pub extract: ExtractView,
}

impl View for SourceConfig {
    type V = SourceView;

    open spec fn view(&self) -> SourceView {
        SourceView {
            id: self.id,
            name: self.name,
            enabled: self.enabled,
            notify_enabled: self.notify_enabled,
            follow_group: self.follow_group,
            tags: self.tags@,
            fetch: self.fetch@,
            schedule: self.schedule,
            extract: self.extract@,
        }
    }
}

impl Clone for SourceConfig {
    fn clone(&self) -> (r: Self)
        ensures
            r@ == self@,
    {
        SourceConfig {
            id: self.id.clone(),
            name: self.name.clone(),
            enabled: self.enabled,
            notify_enabled: self.notify_enabled,
            follow_group: self.follow_group,
            tags: crate::models::clone_strings(&self.tags),
            fetch: self.fetch.clone(),
            schedule: ScheduleConfig { cron: clone_opt_string(&self.schedule.cron) },
            extract: self.extract.clone(),
        }
    }
}

impl Default for SourceConfig {
    /// A new source: enabled, notified, following its groups, without id,
    /// name or groups, fetched as [`FetchConfig::default`], on the default
    /// schedule, extracting the page text.
    fn default() -> (r: Self)
        ensures
            r.id@.len() == 0,
            r.name@.len() == 0,
            r.enabled,
            r.notify_enabled,
            r.follow_group,
            r.tags@.len() == 0,
            r.fetch.engine@ == "http"@,
            r.fetch.url@.len() == 0,
            r.fetch.method@ == "GET"@,
            r.fetch.headers@.len() == 0,
            r.fetch.max_body_bytes == 5 * 1024 * 1024,
            r.fetch.timeout_secs == 30,
            r.fetch.wait.selector is None,
            r.fetch.wait.timeout is None,
            r.fetch.tab_policy@ == "reuse"@,
            r.fetch.evaluate is None,
            !r.fetch.screenshot,
            r.schedule.cron is None,
            r.extract@ == (ExtractView::Text { images: None }),
    {
        SourceConfig {
            id: String::new(),
            name: String::new(),
            enabled: true,
            notify_enabled: true,
            follow_group: true,
            tags: Vec::new(),
            fetch: FetchConfig::default(),
            schedule: ScheduleConfig { cron: None },
            extract: ExtractConfig::default(),
        }
    }
}

pub struct WebConfig {
    pub listen: String,
    pub static_dir: String,
    pub auth_token: String,
}

pub struct DaemonConfig {
    pub socket_path: String,
    pub log_level: String,
}

/// Boot settings of the Telegram notifier; the editable items come from the
/// database settings through [`TelegramConfig::with_overrides`].
pub struct TelegramConfig {
    /// Global target `tgram://bottoken/ChatID1/ChatID2`.
    pub url: String,
    pub api_base: String,
    pub max_images_per_event: usize,
    pub image_bytes_budget: u64,
    pub digest_window_secs: u64,
    /// Notification template with `{label}`, `{watch}`, `{time}`, `{tz}`,
    /// `{summary}`, `{items}` placeholders; empty for the built-in one.
    pub template: String,
    /// Legacy bot token, used when `url` gives none.
    pub token: String,
    /// Legacy file holding the bot token.
    pub token_file: String,
    /// Legacy chat id, used with the legacy token.
    pub default_chat_id: String,
}

impl Clone for TelegramConfig {
    fn clone(&self) -> (r: Self)
        ensures
            r == *self,
    {
        TelegramConfig {
            url: self.url.clone(),
            api_base: self.api_base.clone(),
            max_images_per_event: self.max_images_per_event,
            image_bytes_budget: self.image_bytes_budget,
            digest_window_secs: self.digest_window_secs,
            template: self.template.clone(),
            token: self.token.clone(),
            token_file: self.token_file.clone(),
            default_chat_id: self.default_chat_id.clone(),
        }
    }
}

pub struct CamofoxConfig {
    pub enabled: bool,
    pub base_url: String,
    pub access_key_file: String,
    pub api_key_file: String,
    pub user_id: String,
    pub session_key: String,
    pub health_check_interval_secs: u64,
    pub pool_size: usize,
}

/// The boot configuration (`config.yaml`).
pub struct Config {
    pub state_dir: String,
    pub media_dir: String,
    pub daemon: DaemonConfig,
    pub web: WebConfig,
    pub telegram: TelegramConfig,
    pub camofox: CamofoxConfig,
}

/// Global editable settings, kept in the database.
pub struct EditableSettings {
    pub concurrency: usize,
    pub queue_capacity: usize,
    pub default_timeout_secs: u64,
    pub default_cron: String,
    pub default_user_agent: String,
    /// History entries kept per source (0: no limit).
    pub history_limit_per_source: usize,
    /// Consecutive failures that trigger an alert (0: never).
    pub failure_notify_threshold: u32,
    pub timezone: String,
    pub template: String,
    pub telegram_url: String,
    pub max_images_per_event: usize,
}

/// Runtime configuration: boot directories plus the editable settings.
pub struct RuntimeConfig {
    pub state_dir: String,
    pub media_dir: String,
    pub socket_path: String,
    pub concurrency: usize,
    pub queue_capacity: usize,
    pub default_timeout_secs: u64,
    pub default_cron: String,
    pub default_user_agent: String,
    pub history_limit_per_source: usize,
    pub failure_notify_threshold: u32,
    pub timezone: String,
    pub template: String,
}


/// Built-in notification template.
pub const DEFAULT_EVENT_TEMPLATE: &'static str = "<b>ReadingSteiner</b> — {label}\n<b>{watch}</b>\n<i>{time} {tz}</i>\n{summary}\n{items}";

/// Default schedule of a source: every hour.
pub const DEFAULT_CRON: &'static str = "0 * * * *";

/// Default User-Agent, that of a desktop browser.
pub const DEFAULT_USER_AGENT: &'static str = "Mozilla/5.0 (Windows NT 10.0; Win64; x64) AppleWebKit/537.36 (KHTML, like Gecko) Chrome/151.0.0.0 Safari/537.36 Edg/151.0.0.0";

/// `base` joined with `name` as `PathBuf::join` does on Unix: an absolute
/// `name` replaces the base, a relative one is added after a separator.
pub open spec fn path_join(base: Seq<char>, name: Seq<char>) -> Seq<char> {
    if name.len() > 0 && name[0] == '/' {
        name
    } else if base.len() == 0 {
        name
    } else if base.last() == '/' {
        base + name
    } else {
        base + seq!['/'] + name
    }
}

/// `base` joined with `name` ([`path_join`]).
pub fn join_path(base: &str, name: &str) -> (r: String)
    ensures
        r@ == path_join(base@, name@),
{
    let n = chars_of(name);
    if n.len() > 0 && n[0] == '/' {
        return string_of(&n);
    }
    let mut b = chars_of(base);
    if b.len() > 0 && b[b.len() - 1] != '/' {
        b.push('/');
    }
    append_chars(&mut b, &n);
    proof {
        if base@.len() > 0 && base@.last() != '/' {
            assert(b@ =~= base@ + seq!['/'] + name@);
        }
    }
    string_of(&b)
}

pub fn str_to_string(s: &str) -> (r: String)
    ensures
        r@ == s@,
{
    let c = chars_of(s);
    string_of(&c)
}

impl Config {
    /// Fills the directories a configuration file left empty: the state
    /// directory is `state`, the media directory `media` in the state
    /// directory.
    pub fn fill_default_dirs(&mut self)
        ensures
            final(self).state_dir@ == (if old(self).state_dir@.len() == 0 {
                "state"@
            } else {
                old(self).state_dir@
            }),
            final(self).media_dir@ == (if old(self).media_dir@.len() == 0 {
                path_join(final(self).state_dir@, "media"@)
            } else {
                old(self).media_dir@
            }),
            final(self).daemon == old(self).daemon,
            final(self).web == old(self).web,
            final(self).telegram == old(self).telegram,
            final(self).camofox == old(self).camofox,
    {
        if self.state_dir.as_str().is_empty() {
            self.state_dir = str_to_string("state");
        }
        if self.media_dir.as_str().is_empty() {
            self.media_dir = join_path(self.state_dir.as_str(), "media");
        }
    }

    /// The control socket path: the configured one, or `daemon.sock` in the
    /// state directory.
    pub fn socket_path(&self) -> (r: String)
        ensures
            r@ == (if self.daemon.socket_path@.len() == 0 {
                path_join(self.state_dir@, "daemon.sock"@)
            } else {
                self.daemon.socket_path@
            }),
    {
        if self.daemon.socket_path.as_str().is_empty() {
            proof {
                reveal_strlit("daemon.sock");
            }
            join_path(self.state_dir.as_str(), "daemon.sock")
        } else {
            self.daemon.socket_path.clone()
        }
    }
}

impl WebConfig {
    /// The listen address: the configured one, or `127.0.0.1:8901`.
    pub fn effective_listen(&self) -> (r: String)
        ensures
            r@ == (if self.listen@.len() == 0 {
                "127.0.0.1:8901"@
            } else {
                self.listen@
            }),
    {
        if self.listen.as_str().is_empty() {
            str_to_string("127.0.0.1:8901")
        } else {
            self.listen.clone()
        }
    }

    /// The directory of the web console's files: the configured one, or `web/dist`.
    pub fn static_dir(&self) -> (r: String)
        ensures
            r@ == (if self.static_dir@.len() == 0 {
                "web/dist"@
            } else {
                self.static_dir@
            }),
    {
        if self.static_dir.as_str().is_empty() {
            str_to_string("web/dist")
        } else {
            self.static_dir.clone()
        }
    }
}

impl TelegramConfig {
    /// The notification template: the configured one unless it is blank, else
    /// the built-in one.
    pub fn event_template(&self) -> (r: String)
        ensures
            r@ == (if trim(self.template@).len() == 0 {
                DEFAULT_EVENT_TEMPLATE@
            } else {
                self.template@
            }),
    {
        let t = chars_of(self.template.as_str());
        let tt = trim_chars(&t);
        if tt.len() == 0 {
            str_to_string(DEFAULT_EVENT_TEMPLATE)
        } else {
            self.template.clone()
        }
    }

    /// This configuration with `url`, `template` and `max_images_per_event`
    /// taken from the database settings.
    pub fn with_overrides(&self, settings: &EditableSettings) -> (r: Self)
        ensures
            r == (TelegramConfig {
                url: settings.telegram_url,
                template: settings.template,
                max_images_per_event: settings.max_images_per_event,
                ..*self
            }),
    {
        let mut c = self.clone();
        c.url = settings.telegram_url.clone();
        c.template = settings.template.clone();
        c.max_images_per_event = settings.max_images_per_event;
        c
    }
}

impl RuntimeConfig {
    /// Boot directories and socket joined with the database settings.
    pub fn from_parts(cfg: &Config, settings: &EditableSettings) -> (r: Self)
        ensures
            r.state_dir == cfg.state_dir,
            r.media_dir == cfg.media_dir,
            r.socket_path@ == (if cfg.daemon.socket_path@.len() == 0 {
                path_join(cfg.state_dir@, "daemon.sock"@)
            } else {
                cfg.daemon.socket_path@
            }),
            r.concurrency == settings.concurrency,
            r.queue_capacity == settings.queue_capacity,
            r.default_timeout_secs == settings.default_timeout_secs,
            r.default_cron == settings.default_cron,
            r.default_user_agent == settings.default_user_agent,
            r.history_limit_per_source == settings.history_limit_per_source,
            r.failure_notify_threshold == settings.failure_notify_threshold,
            r.timezone == settings.timezone,
            r.template == settings.template,
    {
        RuntimeConfig {
            state_dir: cfg.state_dir.clone(),
            media_dir: cfg.media_dir.clone(),
            socket_path: cfg.socket_path(),
            concurrency: settings.concurrency,
            queue_capacity: settings.queue_capacity,
            default_timeout_secs: settings.default_timeout_secs,
            default_cron: settings.default_cron.clone(),
            default_user_agent: settings.default_user_agent.clone(),
            history_limit_per_source: settings.history_limit_per_source,
            failure_notify_threshold: settings.failure_notify_threshold,
            timezone: settings.timezone.clone(),
            template: settings.template.clone(),
        }
    }
}

// ---------------------------------------------------------------------------
// Effective settings of a source
// ---------------------------------------------------------------------------

/// `name` is one of the source's tags.
pub open spec fn has_tag(tags: Seq<String>, name: Seq<char>) -> bool {
    exists|i: int| 0 <= i < tags.len() && #[trigger] tags[i]@ == name
}

/// Smallest positive history limit among the groups the tags name.
pub open spec fn group_limit(groups: Seq<TagConfig>, tags: Seq<String>) -> Option<usize>
    decreases groups.len(),
{
    if groups.len() == 0 {
        None
    } else {
        let rest = group_limit(groups.drop_first(), tags);
        let g = groups[0];
        if has_tag(tags, g.name@) && g.history_limit > 0 {
            match rest {
                None => Some(g.history_limit),
                Some(m) => Some(if g.history_limit < m { g.history_limit } else { m }),
            }
        } else {
            rest
        }
    }
}

/// History entries kept for a source: the smallest positive limit of its
/// configured groups when it follows them, else the global limit.
pub open spec fn effective_history(source: SourceConfig, groups: Seq<TagConfig>, global: usize) -> usize {
    if !source.follow_group || source.tags@.len() == 0 {
        global
    } else {
        match group_limit(groups, source.tags@) {
            Some(m) => m,
            None => global,
        }
    }
}

pub(crate) fn tag_listed(tags: &[String], name: &Vec<char>) -> (r: bool)
    ensures
        r == has_tag(tags@, name@),
{
    let mut i: usize = 0;
    while i < tags.len()
        invariant
            i <= tags.len(),
            forall|j: int| 0 <= j < i ==> tags@[j]@ != name@,
        decreases tags.len() - i,
    {
        let t = chars_of(tags[i].as_str());
        if crate::text::seq_eq(&t, name) {
            return true;
        }
        i += 1;
    }
    false
}

/// The effective switches and history limit of a source: its own monitoring
/// and notification switches, and the history limit of [`effective_history`].
pub fn resolve_effective_source(source: &SourceConfig, tags: &[TagConfig], global_history_limit: usize) -> (r: (
    bool,
    bool,
    usize,
))
    ensures
        r == (source.enabled, source.notify_enabled, effective_history(*source, tags@, global_history_limit)),
{
    if !source.follow_group || source.tags.len() == 0 {
        return (source.enabled, source.notify_enabled, global_history_limit);
    }
    let mut best: Option<usize> = None;
    let mut k: usize = tags.len();
    proof {
        assert(tags@.skip(k as int) =~= Seq::<TagConfig>::empty());
    }
    while k > 0
        invariant
            k <= tags.len(),
            best == group_limit(tags@.skip(k as int), source.tags@),
        decreases k,
    {
        k -= 1;
        let name = chars_of(tags[k].name.as_str());
        proof {
            assert(tags@.skip(k as int).drop_first() =~= tags@.skip(k + 1));
            assert(tags@.skip(k as int)[0] == tags@[k as int]);
        }
        if tag_listed(&source.tags, &name) && tags[k].history_limit > 0 {
            let h = tags[k].history_limit;
            best = match best {
                None => Some(h),
                Some(m) => Some(if h < m { h } else { m }),
            };
        }
    }
    proof {
        assert(tags@.skip(0) =~= tags@);
    }
    let history = match best {
        Some(m) => m,
        None => global_history_limit,
    };
    (source.enabled, source.notify_enabled, history)
}

/// Why a `tgram://` notification target was refused.
#[derive(Debug, Clone, Copy, PartialEq, Eq, Structural)]
pub enum UrlError {
    Empty,
    NotTgram,
    MissingToken,
    MissingChatId,
}

pub open spec fn tgram_prefix() -> Seq<char> {
    seq!['t', 'g', 'r', 'a', 'm', ':', '/', '/']
}

/// The trimmed non-empty pieces.
pub open spec fn nonblank_trimmed(parts: Seq<Seq<char>>) -> Seq<Seq<char>>
    decreases parts.len(),
{
    if parts.len() == 0 {
        seq![]
    } else {
        let rest = nonblank_trimmed(parts.drop_first());
        if trim(parts[0]).len() == 0 {
            rest
        } else {
            seq![trim(parts[0])] + rest
        }
    }
}

/// Token and chat ids of `tgram://<token>/<chat_id>/...`.
pub open spec fn tgram_target(url: Seq<char>) -> Result<(Seq<char>, Seq<Seq<char>>), UrlError> {
    let s = trim(url);
    if s.len() == 0 {
        Err(UrlError::Empty)
    } else if !starts_with(s, tgram_prefix()) {
        Err(UrlError::NotTgram)
    } else {
        let parts = split(s.skip(8), '/');
        let token = trim(parts[0]);
        let chats = nonblank_trimmed(parts.drop_first());
        if token.len() == 0 {
            Err(UrlError::MissingToken)
        } else if chats.len() == 0 {
            Err(UrlError::MissingChatId)
        } else {
            Ok((token, chats))
        }
    }
}

pub proof fn lemma_split_nonempty(s: Seq<char>, c: char)
    ensures
        split(s, c).len() >= 1,
    decreases s.len(),
{
    crate::text::lemma_find(s, c);
    match crate::text::find(s, c) {
        None => {},
        Some(i) => {
            lemma_split_nonempty(s.skip(i + 1), c);
        },
    }
}

/// Parses a `tgram://<token>/<chat_id1>/<chat_id2>/...` notification target.
pub fn parse_telegram_url(url: &str) -> (r: Result<TelegramTarget, UrlError>)
    ensures
        match r {
            Ok(t) => tgram_target(url@) == Ok::<(Seq<char>, Seq<Seq<char>>), UrlError>(
                (t.token@, t.chat_ids@.map_values(|c: String| c@)),
            ),
            Err(e) => tgram_target(url@) == Err::<(Seq<char>, Seq<Seq<char>>), UrlError>(e),
        },
{
    let raw = chars_of(url);
    let s = trim_chars(&raw);
    if s.len() == 0 {
        return Err(UrlError::Empty);
    }
    let mut prefix: Vec<char> = Vec::new();
    prefix.push('t');
    prefix.push('g');
    prefix.push('r');
    prefix.push('a');
    prefix.push('m');
    prefix.push(':');
    prefix.push('/');
    prefix.push('/');
    proof {
        assert(prefix@ =~= tgram_prefix());
    }
    if !starts_with_chars(&s, &prefix) {
        return Err(UrlError::NotTgram);
    }
    let rest = slice_chars(&s, 8, s.len());
    proof {
        assert(rest@ =~= s@.skip(8));
    }
    let parts = split_chars(&rest, '/');
    proof {
        lemma_split_nonempty(rest@, '/');
    }
    let token = trim_chars(&parts[0]);
    let mut chats: Vec<String> = Vec::new();
    let ghost pv = views(parts@);
    let mut i: usize = parts.len();
    proof {
        assert(pv.drop_first().skip(i - 1) =~= Seq::<Seq<char>>::empty());
    }
    while i > 1
        invariant
            1 <= i <= parts.len(),
            pv == views(parts@),
            chats@.map_values(|c: String| c@) == nonblank_trimmed(pv.drop_first().skip(i - 1)),
        decreases i,
    {
        i -= 1;
        let t = trim_chars(&parts[i]);
        let ghost sub = pv.drop_first().skip(i - 1);
        proof {
            assert(sub[0] == parts@[i as int]@);
            assert(sub.drop_first() =~= pv.drop_first().skip(i as int));
        }
        if t.len() > 0 {
            let ghost before = chats@.map_values(|c: String| c@);
            let ts = string_of(&t);
            chats.insert(0, ts);
            proof {
                assert(chats@.map_values(|c: String| c@) =~= seq![t@] + before);
            }
        }
    }
    proof {
        assert(pv.drop_first().skip(0) =~= pv.drop_first());
    }
    if token.len() == 0 {
        return Err(UrlError::MissingToken);
    }
    if chats.len() == 0 {
        return Err(UrlError::MissingChatId);
    }
    Ok(TelegramTarget { token: string_of(&token), chat_ids: chats })
}

/// A parsed target, kept only when it is usable.
pub open spec fn usable_target(url: Seq<char>) -> Option<(Seq<char>, Seq<Seq<char>>)> {
    match tgram_target(url) {
        Ok(t) => if t.0.len() > 0 && t.1.len() > 0 {
            Some(t)
        } else {
            None
        },
        Err(_) => None,
    }
}

/// Among the groups the tags name whose notification target is not blank, the
/// one with the smallest name (the earliest of equal names).
pub open spec fn notify_group(groups: Seq<TagConfig>, tags: Seq<String>) -> Option<TagConfig>
    decreases groups.len(),
{
    if groups.len() == 0 {
        None
    } else {
        let best = notify_group(groups.drop_last(), tags);
        let g = groups.last();
        if has_tag(tags, g.name@) && trim(g.notify_url@).len() > 0 {
            match best {
                None => Some(g),
                Some(b) => if str_lt(g.name@, b.name@) {
                    Some(g)
                } else {
                    Some(b)
                },
            }
        } else {
            best
        }
    }
}

/// The effective notification target of a source: its group's target when it
/// follows its groups and the chosen group's target is usable, else the
/// global one when usable.
pub open spec fn effective_target(source: SourceConfig, groups: Seq<TagConfig>, global: Seq<char>) -> Option<
    (Seq<char>, Seq<Seq<char>>),
> {
    let fallback = usable_target(global);
    if !source.follow_group || source.tags@.len() == 0 {
        fallback
    } else {
        match notify_group(groups, source.tags@) {
            Some(g) => match usable_target(g.notify_url@) {
                Some(t) => Some(t),
                None => fallback,
            },
            None => fallback,
        }
    }
}

fn usable_target_of(url: &str) -> (r: Option<TelegramTarget>)
    ensures
        match r {
            Some(t) => usable_target(url@) == Some((t.token@, t.chat_ids@.map_values(|c: String| c@))),
            None => usable_target(url@) is None,
        },
{
    match parse_telegram_url(url) {
        Ok(t) => {
            if t.is_valid() {
                Some(t)
            } else {
                None
            }
        },
        Err(_) => None,
    }
}

/// The effective notification target of a source ([`effective_target`]).
pub fn resolve_notify_target(source: &SourceConfig, tags: &[TagConfig], global_url: &str) -> (r: Option<
    TelegramTarget,
>)
    ensures
        match r {
            Some(t) => effective_target(*source, tags@, global_url@) == Some(
                (t.token@, t.chat_ids@.map_values(|c: String| c@)),
            ),
            None => effective_target(*source, tags@, global_url@) is None,
        },
{
    if !source.follow_group || source.tags.len() == 0 {
        return usable_target_of(global_url);
    }
    let mut best: Option<usize> = None;
    let mut k: usize = 0;
    proof {
        assert(tags@.take(0) =~= Seq::<TagConfig>::empty());
    }
    while k < tags.len()
        invariant
            k <= tags.len(),
            match best {
                Some(b) => b < k && notify_group(tags@.take(k as int), source.tags@) == Some(
                    tags@[b as int],
                ),
                None => notify_group(tags@.take(k as int), source.tags@) is None,
            },
        decreases tags.len() - k,
    {
        let name = chars_of(tags[k].name.as_str());
        let url = chars_of(tags[k].notify_url.as_str());
        let url_t = trim_chars(&url);
        proof {
            assert(tags@.take(k + 1).drop_last() =~= tags@.take(k as int));
            assert(tags@.take(k + 1).last() == tags@[k as int]);
        }
        if tag_listed(&source.tags, &name) && url_t.len() > 0 {
            match best {
                None => {
                    best = Some(k);
                },
                Some(b) => {
                    let bn = chars_of(tags[b].name.as_str());
                    if lt_chars(&name, &bn) {
                        best = Some(k);
                    }
                },
            }
        }
        k += 1;
    }
    proof {
        assert(tags@.take(tags.len() as int) =~= tags@);
    }
    match best {
        Some(b) => match usable_target_of(tags[b].notify_url.as_str()) {
            Some(t) => Some(t),
            None => usable_target_of(global_url),
        },
        None => usable_target_of(global_url),
    }
}

/// Among the groups the tags name that configure an extraction, the one with
/// the smallest name (the earliest of equal names).
pub open spec fn extract_group(groups: Seq<TagConfig>, tags: Seq<String>) -> Option<TagConfig>
    decreases groups.len(),
{
    if groups.len() == 0 {
        None
    } else {
        let best = extract_group(groups.drop_last(), tags);
        let g = groups.last();
        if has_tag(tags, g.name@) && g.extract is Some {
            match best {
                None => Some(g),
                Some(b) => if str_lt(g.name@, b.name@) {
                    Some(g)
                } else {
                    Some(b)
                },
            }
        } else {
            best
        }
    }
}

proof fn lemma_extract_group_some(groups: Seq<TagConfig>, tags: Seq<String>)
    ensures
        extract_group(groups, tags) matches Some(g) ==> g.extract is Some,
    decreases groups.len(),
{
    if groups.len() > 0 {
        lemma_extract_group_some(groups.drop_last(), tags);
    }
}

/// The effective extraction of a source: its group's when it follows its
/// groups and one configures an extraction, else its own.
pub open spec fn effective_extract(source: SourceConfig, groups: Seq<TagConfig>) -> ExtractView {
    if !source.follow_group || source.tags@.len() == 0 {
        source.extract@
    } else {
        match extract_group(groups, source.tags@) {
            Some(g) => g.extract->0@,
            None => source.extract@,
        }
    }
}

/// The effective extraction of a source ([`effective_extract`]).
pub fn resolve_effective_extract(source: &SourceConfig, tags: &[TagConfig]) -> (r: ExtractConfig)
    ensures
        r@ == effective_extract(*source, tags@),
{
    if !source.follow_group || source.tags.len() == 0 {
        return source.extract.clone();
    }
    let mut best: Option<usize> = None;
    let mut k: usize = 0;
    proof {
        assert(tags@.take(0) =~= Seq::<TagConfig>::empty());
    }
    while k < tags.len()
        invariant
            k <= tags.len(),
            source.follow_group && source.tags@.len() > 0,
            match best {
                Some(b) => b < k && extract_group(tags@.take(k as int), source.tags@) == Some(
                    tags@[b as int],
                ),
                None => extract_group(tags@.take(k as int), source.tags@) is None,
            },
        decreases tags.len() - k,
    {
        let name = chars_of(tags[k].name.as_str());
        proof {
            assert(tags@.take(k + 1).drop_last() =~= tags@.take(k as int));
            assert(tags@.take(k + 1).last() == tags@[k as int]);
        }
        if tag_listed(&source.tags, &name) && tags[k].extract.is_some() {
            match best {
                None => {
                    best = Some(k);
                },
                Some(b) => {
                    let bn = chars_of(tags[b].name.as_str());
                    if lt_chars(&name, &bn) {
                        best = Some(k);
                    }
                },
            }
        }
        k += 1;
    }
    proof {
        assert(tags@.take(tags.len() as int) =~= tags@);
    }
    proof {
        lemma_extract_group_some(tags@, source.tags@);
    }
    match best {
        Some(b) => match &tags[b].extract {
            Some(e) => e.clone(),
            None => source.extract.clone(),
        },
        None => source.extract.clone(),
    }
}


// ---------------------------------------------------------------------------
// Source ids
// ---------------------------------------------------------------------------

/// CJK unified ideographs (with extension A and compatibility ideographs),
/// kana and Hangul syllables.
pub open spec fn cjk(c: char) -> bool {
    ||| ('\u{4E00}' <= c && c <= '\u{9FFF}')
    ||| ('\u{3400}' <= c && c <= '\u{4DBF}')
    ||| ('\u{F900}' <= c && c <= '\u{FAFF}')
    ||| ('\u{3040}' <= c && c <= '\u{30FF}')
    ||| ('\u{AC00}' <= c && c <= '\u{D7AF}')
}

/// Whether a character is a CJK ideograph, kana or Hangul syllable.
pub fn is_cjk(c: char) -> (r: bool)
    ensures
        r == cjk(c),
{
    ('\u{4E00}' <= c && c <= '\u{9FFF}') || ('\u{3400}' <= c && c <= '\u{4DBF}') || ('\u{F900}'
        <= c && c <= '\u{FAFF}') || ('\u{3040}' <= c && c <= '\u{30FF}') || ('\u{AC00}' <= c && c
        <= '\u{D7AF}')
}

/// What a character becomes in a slug: ASCII letters and digits lower-cased,
/// CJK kept, white space, `-` and `_` as `-`, anything else dropped.
pub open spec fn slug_chars(s: Seq<char>) -> Seq<char>
    decreases s.len(),
{
    if s.len() == 0 {
        seq![]
    } else {
        let c = s[0];
        let head: Seq<char> = if is_ascii_alnum(c) {
            seq![lower_char(c)]
        } else if cjk(c) {
            seq![c]
        } else if is_ws(c) || c == '-' || c == '_' {
            seq!['-']
        } else {
            seq![]
        };
        head + slug_chars(s.drop_first())
    }
}

/// Runs of `-` reduced to one `-`.
pub open spec fn collapse_dashes(s: Seq<char>) -> Seq<char>
    decreases s.len(),
{
    if s.len() < 2 {
        s
    } else if s[0] == '-' && s[1] == '-' {
        collapse_dashes(s.drop_first())
    } else {
        seq![s[0]] + collapse_dashes(s.drop_first())
    }
}

/// Leading and trailing `-` removed.
pub open spec fn trim_dashes(s: Seq<char>) -> Seq<char>
    decreases s.len(),
{
    if s.len() > 0 && s[0] == '-' {
        trim_dashes(s.drop_first())
    } else if s.len() > 0 && s.last() == '-' {
        trim_dashes(s.drop_last())
    } else {
        s
    }
}

/// The lower-case dash-separated slug of a string.
pub open spec fn slug(s: Seq<char>) -> Seq<char> {
    trim_dashes(collapse_dashes(slug_chars(s)))
}

proof fn lemma_trim_dashes_ends(s: Seq<char>, lo: int, hi: int)
    requires
        0 <= lo <= hi <= s.len(),
        forall|j: int| 0 <= j < lo ==> s[j] == '-',
        forall|j: int| hi <= j < s.len() ==> s[j] == '-',
        hi > lo ==> s[lo] != '-' && s[hi - 1] != '-',
        hi == lo ==> lo == s.len() || hi == 0 || (forall|j: int| 0 <= j < s.len() ==> s[j] == '-'),
    ensures
        trim_dashes(s) == s.subrange(lo, hi),
    decreases s.len(),
{
    if s.len() > 0 && s[0] == '-' {
        assert forall|j: int| 0 <= j < lo - 1 implies s.drop_first()[j] == '-' by {
            assert(s.drop_first()[j] == s[j + 1]);
        }
        assert forall|j: int| 0 <= j && hi - 1 <= j < s.len() - 1 implies s.drop_first()[j] == '-' by {
            assert(s.drop_first()[j] == s[j + 1]);
        }
        if lo == 0 {
            assert(hi == lo);
            assert forall|j: int| 0 <= j < s.len() - 1 implies s.drop_first()[j] == '-' by {
                assert(s.drop_first()[j] == s[j + 1]);
            }
            lemma_trim_dashes_ends(s.drop_first(), 0, 0);
            assert(s.subrange(lo, hi) =~= s.drop_first().subrange(0, 0));
        } else {
            lemma_trim_dashes_ends(s.drop_first(), lo - 1, hi - 1);
            assert(s.drop_first().subrange(lo - 1, hi - 1) =~= s.subrange(lo, hi));
        }
    } else if s.len() > 0 && s.last() == '-' {
        assert(lo == 0);
        assert forall|j: int| hi <= j < s.len() - 1 implies s.drop_last()[j] == '-' by {}
        if hi == s.len() {
            assert(hi == lo);
            assert(false);
        }
        lemma_trim_dashes_ends(s.drop_last(), lo, hi);
        assert(s.drop_last().subrange(lo, hi) =~= s.subrange(lo, hi));
    } else {
        if s.len() > 0 {
            assert(lo == 0);
            if hi < s.len() {
                assert(s[s.len() - 1] == '-');
            }
            assert(hi == s.len());
        }
        assert(s.subrange(lo, hi) =~= s);
    }
}

/// The slug of a string: lower-case ASCII letters and digits, CJK characters
/// and single dashes, without leading or trailing dash.
pub fn slugify(s: &str) -> (r: String)
    ensures
        r@ == slug(s@),
{
    let src = chars_of(s);
    let mut raw: Vec<char> = Vec::new();
    let mut i: usize = 0;
    proof {
        assert(src@.skip(0) =~= src@);
        assert(raw@ + slug_chars(src@) =~= slug_chars(src@));
    }
    while i < src.len()
        invariant
            i <= src.len(),
            raw@ + slug_chars(src@.skip(i as int)) == slug_chars(src@),
        decreases src.len() - i,
    {
        let c = src[i];
        let ghost rest = src@.skip(i as int);
        let ghost before = raw@;
        proof {
            assert(rest[0] == c);
            assert(rest.drop_first() =~= src@.skip(i + 1));
        }
        if ('0' <= c && c <= '9') || ('a' <= c && c <= 'z') || ('A' <= c && c <= 'Z') {
            raw.push(crate::text::char_lower(c));
        } else if is_cjk(c) {
            raw.push(c);
        } else if char_is_ws(c) || c == '-' || c == '_' {
            raw.push('-');
        }
        proof {
            assert(raw@ + slug_chars(src@.skip(i + 1)) =~= before + slug_chars(rest));
        }
        i += 1;
    }
    proof {
        assert(src@.skip(i as int) =~= Seq::<char>::empty());
        assert(raw@ =~= slug_chars(src@));
    }
    // collapse runs of dashes
    let mut col: Vec<char> = Vec::new();
    let mut k: usize = 0;
    proof {
        assert(raw@.skip(0) =~= raw@);
        assert(col@ + collapse_dashes(raw@) =~= collapse_dashes(raw@));
    }
    while k < raw.len()
        invariant
            k <= raw.len(),
            col@ + collapse_dashes(raw@.skip(k as int)) == collapse_dashes(raw@),
        decreases raw.len() - k,
    {
        let ghost rest = raw@.skip(k as int);
        let ghost before = col@;
        proof {
            assert(rest.drop_first() =~= raw@.skip(k + 1));
            assert(rest[0] == raw@[k as int]);
            if k + 1 < raw.len() {
                assert(rest[1] == raw@[k + 1]);
            }
        }
        if !(k + 1 < raw.len() && raw[k] == '-' && raw[k + 1] == '-') {
            col.push(raw[k]);
        }
        proof {
            if rest.len() < 2 {
                assert(collapse_dashes(rest) == rest);
                assert(rest =~= seq![raw@[k as int]]);
                assert(raw@.skip(k + 1) =~= Seq::<char>::empty());
            }
            assert(col@ + collapse_dashes(raw@.skip(k + 1)) =~= before + collapse_dashes(rest));
        }
        k += 1;
    }
    proof {
        assert(raw@.skip(k as int) =~= Seq::<char>::empty());
        assert(col@ =~= collapse_dashes(raw@));
    }
    // trim dashes at both ends
    let mut lo: usize = 0;
    while lo < col.len() && col[lo] == '-'
        invariant
            lo <= col.len(),
            forall|j: int| 0 <= j < lo ==> col@[j] == '-',
        decreases col.len() - lo,
    {
        lo += 1;
    }
    let mut hi: usize = col.len();
    if lo == col.len() {
        hi = lo;
    } else {
        while hi > lo && col[hi - 1] == '-'
            invariant
                lo < col.len(),
                col@[lo as int] != '-',
                lo <= hi <= col.len(),
                forall|j: int| hi <= j < col.len() ==> col@[j] == '-',
            decreases hi,
        {
            hi -= 1;
        }
    }
    proof {
        if lo == col.len() {
            assert forall|j: int| 0 <= j < col@.len() implies col@[j] == '-' by {}
        }
        lemma_trim_dashes_ends(col@, lo as int, hi as int);
    }
    let out = slice_chars(&col, lo, hi);
    string_of(&out)
}

/// Hex digit (lower case) of a value below 16.
pub open spec fn hex_digit(d: nat) -> char {
    if d < 10 {
        ('0' as u32 + d) as char
    } else {
        ('a' as u32 + (d - 10)) as char
    }
}

/// The low 24 bits of `n` as six lower-case hex digits (`{:06x}` of `n & 0xffffff`).
pub open spec fn hex6(n: nat) -> Seq<char> {
    seq![
        hex_digit((n / 0x100000) % 16),
        hex_digit((n / 0x10000) % 16),
        hex_digit((n / 0x1000) % 16),
        hex_digit((n / 0x100) % 16),
        hex_digit((n / 0x10) % 16),
        hex_digit(n % 16),
    ]
}

fn hex_char(d: u64) -> (c: char)
    requires
        d < 16,
    ensures
        c == hex_digit(d as nat),
{
    if d < 10 {
        ((d as u8) + 48) as char
    } else {
        ((d as u8) + 87) as char
    }
}

/// A source id: the slug of the name (or, for a blank name, of the URL's host)
/// followed by `-` and six hex digits of `entropy`; `source-` and the digits
/// when the slug is empty.
pub open spec fn source_id(name: Seq<char>, host: Option<Seq<char>>, entropy: nat) -> Seq<char> {
    let base = if trim(name).len() > 0 {
        trim(name)
    } else {
        match host {
            Some(h) => h,
            None => seq![],
        }
    };
    let sl = slug(base);
    if sl.len() > 0 {
        sl + seq!['-'] + hex6(entropy)
    } else {
        seq!['s', 'o', 'u', 'r', 'c', 'e', '-'] + hex6(entropy)
    }
}

/// The host of a URL as `url::Url::parse(..).host_str()` gives it.
pub open spec fn url_host_name(url: Seq<char>) -> Option<Seq<char>> {
    match crate::net_guard::parsed_url(url) {
        Some(p) => match p.host_str {
            Some(h) => Some(h@),
            None => None,
        },
        None => None,
    }
}

/// The host of a URL ([`url_host_name`]), `None` when the URL does not parse
/// or has no host.
pub fn url_host(url: &str) -> (r: Option<String>)
    ensures
        match r {
            Some(h) => url_host_name(url@) == Some(h@),
            None => url_host_name(url@) is None,
        },
{
    match crate::net_guard::parse_url(url) {
        Some(p) => p.host_str,
        None => None,
    }
}

/// `uuid::Uuid::new_v4`, its low 64 bits. Random: nothing is stated of it.
#[verifier::external_body]
fn random_u64() -> u64 {
    uuid::Uuid::new_v4().as_u128() as u64
}

/// The id of [`source_id`] for a given entropy.
pub fn source_id_from(name: &str, host: Option<&str>, entropy: u64) -> (r: String)
    ensures
        r@ == source_id(name@, match host {
            Some(h) => Some(h@),
            None => None,
        }, entropy as nat),
{
    let n = chars_of(name);
    let nt = trim_chars(&n);
    let base: Vec<char> = if nt.len() > 0 {
        nt
    } else {
        match host {
            Some(h) => chars_of(h),
            None => Vec::new(),
        }
    };
    let bs = string_of(&base);
    let sl = slugify(bs.as_str());
    let mut out = chars_of(sl.as_str());
    if out.len() == 0 {
        out.push('s');
        out.push('o');
        out.push('u');
        out.push('r');
        out.push('c');
        out.push('e');
    }
    out.push('-');
    let low = entropy % 0x1000000;
    out.push(hex_char((entropy / 0x100000) % 16));
    out.push(hex_char((entropy / 0x10000) % 16));
    out.push(hex_char((entropy / 0x1000) % 16));
    out.push(hex_char((entropy / 0x100) % 16));
    out.push(hex_char((entropy / 0x10) % 16));
    out.push(hex_char(entropy % 16));
    proof {
        let e = entropy as nat;
        if sl@.len() > 0 {
            assert(out@ =~= sl@ + seq!['-'] + hex6(e));
        } else {
            assert(out@ =~= seq!['s', 'o', 'u', 'r', 'c', 'e', '-'] + hex6(e));
        }
    }
    string_of(&out)
}

/// A fresh source id for a source named `name` fetching `url`: the id of
/// [`source_id`] for some random entropy (mixed with the caller's counter
/// `seq`, so that ids made in a row differ in their suffix).
pub fn generate_source_id(name: &str, url: &str, seq: u64) -> (r: String)
    ensures
        exists|e: u64| r@ == source_id(name@, url_host_name(trim(url@)), e as nat),
{
    let u = chars_of(url);
    let ut = trim_chars(&u);
    let uts = string_of(&ut);
    let host = url_host(uts.as_str());
    let entropy = random_u64() ^ seq;
    let r = match &host {
        Some(h) => source_id_from(name, Some(h.as_str()), entropy),
        None => source_id_from(name, None, entropy),
    };
    proof {
        assert(r@ == source_id(name@, url_host_name(trim(url@)), entropy as nat));
    }
    r
}

// ---------------------------------------------------------------------------
// Editable settings
// ---------------------------------------------------------------------------

/// `iana_time_zone::get_timezone`: the machine's IANA zone name, `None` when it
/// cannot be found. Depends on the machine: nothing is stated of it.
#[verifier::external_body]
fn machine_timezone() -> Option<String> {
    iana_time_zone::get_timezone().ok()
}

/// The zone name found on the machine, or `UTC` when none was found.
pub fn zone_or_utc(found: Option<String>) -> (r: String)
    ensures
        r@ == (match found {
            Some(z) => z@,
            None => "UTC"@,
        }),
{
    match found {
        Some(z) => z,
        None => str_to_string("UTC"),
    }
}

/// The IANA name of the machine's local zone, `UTC` when it cannot be found.
/// The name is whatever the machine's zone setting holds, so no clause on
/// the result holds of every machine; the fallback is [`zone_or_utc`].
pub fn system_local_timezone() -> (r: String) {
    zone_or_utc(machine_timezone())
}

impl Default for EditableSettings {
    /// Defaults of a new database: 16 workers, a queue of 1024, 30 s timeout,
    /// hourly checks, the browser User-Agent, no history limit, no failure
    /// alert, the machine's zone, the built-in template, no target, 10 images.
    fn default() -> (r: Self)
        ensures
            r.concurrency == 16,
            r.queue_capacity == 1024,
            r.default_timeout_secs == 30,
            r.default_cron@ == DEFAULT_CRON@,
            r.default_user_agent@ == DEFAULT_USER_AGENT@,
            r.history_limit_per_source == 0,
            r.failure_notify_threshold == 0,
            r.template@ == DEFAULT_EVENT_TEMPLATE@,
            r.telegram_url@.len() == 0,
            r.max_images_per_event == 10,
    {
        EditableSettings {
            concurrency: 16,
            queue_capacity: 1024,
            default_timeout_secs: 30,
            default_cron: str_to_string(DEFAULT_CRON),
            default_user_agent: str_to_string(DEFAULT_USER_AGENT),
            history_limit_per_source: 0,
            failure_notify_threshold: 0,
            timezone: system_local_timezone(),
            template: str_to_string(DEFAULT_EVENT_TEMPLATE),
            telegram_url: String::new(),
            max_images_per_event: 10,
        }
    }
}

/// Why settings were refused.
#[derive(Debug, Clone, Copy, PartialEq, Eq)]
pub enum SettingsError {
    ZeroConcurrency,
    ZeroQueueCapacity,
    ZeroTimeout,
    InvalidCron(CronError),
    InvalidTimezone,
    InvalidTelegramUrl(UrlError),
}

/// Checks settings before they are saved, given the machine's own zone name:
/// positive concurrency, queue capacity and timeout; a valid default cron
/// expression when not blank; a known IANA zone or `local_zone` when not
/// blank; a parseable target when not blank. The first failing check is
/// reported.
pub fn settings_verdict(s: &EditableSettings, local_zone: &str) -> (r: Result<(), SettingsError>)
    ensures
        s.concurrency == 0 ==> r == Err::<(), SettingsError>(SettingsError::ZeroConcurrency),
        s.concurrency > 0 && s.queue_capacity == 0 ==> r == Err::<(), SettingsError>(
            SettingsError::ZeroQueueCapacity,
        ),
        s.concurrency > 0 && s.queue_capacity > 0 && s.default_timeout_secs == 0 ==> r == Err::<
            (),
            SettingsError,
        >(SettingsError::ZeroTimeout),
        s.concurrency > 0 && s.queue_capacity > 0 && s.default_timeout_secs > 0 && trim(
            s.default_cron@,
        ).len() > 0 ==> (crate::cron_expr::seven_field(s.default_cron@) matches Err(x) ==> r == Err::<
            (),
            SettingsError,
        >(SettingsError::InvalidCron(x))),
        r matches Err(SettingsError::InvalidCron(e)) ==> trim(s.default_cron@).len() > 0,
        r matches Err(SettingsError::InvalidTimezone) ==> trim(s.timezone@).len() > 0
            && !crate::cron_expr::tz_known(s.timezone@) && s.timezone@ != local_zone@,
        s.concurrency > 0 && s.queue_capacity > 0 && s.default_timeout_secs > 0 && !(r matches Err(
            SettingsError::InvalidCron(_),
        )) && trim(s.timezone@).len() > 0 && !crate::cron_expr::tz_known(s.timezone@)
            && s.timezone@ != local_zone@ ==> r == Err::<(), SettingsError>(
            SettingsError::InvalidTimezone,
        ),
        r is Ok ==> (trim(s.timezone@).len() == 0 || crate::cron_expr::tz_known(s.timezone@)
            || s.timezone@ == local_zone@),
        s.concurrency > 0 && s.queue_capacity > 0 && s.default_timeout_secs > 0 && !(r matches Err(
            SettingsError::InvalidCron(_),
        )) && (trim(s.timezone@).len() == 0 || crate::cron_expr::tz_known(s.timezone@)
            || s.timezone@ == local_zone@) && trim(s.telegram_url@).len() > 0 && tgram_target(
            s.telegram_url@,
        ) is Err ==> r == Err::<(), SettingsError>(
            SettingsError::InvalidTelegramUrl(tgram_target(s.telegram_url@)->Err_0),
        ),
        r matches Err(SettingsError::InvalidTelegramUrl(e)) ==> trim(s.telegram_url@).len() > 0
            && tgram_target(s.telegram_url@) == Err::<(Seq<char>, Seq<Seq<char>>), UrlError>(e),
        r is Ok ==> s.concurrency > 0 && s.queue_capacity > 0 && s.default_timeout_secs > 0,
        r is Ok ==> (trim(s.default_cron@).len() == 0 || (crate::cron_expr::seven_field(
            s.default_cron@,
        ) is Ok && crate::cron_expr::cron_accepts(
            crate::cron_expr::seven_field(s.default_cron@)->Ok_0,
        ))),
        r is Ok ==> (trim(s.telegram_url@).len() == 0 || tgram_target(s.telegram_url@) is Ok),
        s.concurrency > 0 && s.queue_capacity > 0 && s.default_timeout_secs > 0 && trim(
            s.default_cron@,
        ).len() == 0 && (trim(s.timezone@).len() == 0 || crate::cron_expr::tz_known(s.timezone@)
            || s.timezone@ == local_zone@) && (trim(s.telegram_url@).len() == 0 || tgram_target(
            s.telegram_url@,
        ) is Ok) ==> r is Ok,
{
    if s.concurrency == 0 {
        return Err(SettingsError::ZeroConcurrency);
    }
    if s.queue_capacity == 0 {
        return Err(SettingsError::ZeroQueueCapacity);
    }
    if s.default_timeout_secs == 0 {
        return Err(SettingsError::ZeroTimeout);
    }
    let cron = chars_of(s.default_cron.as_str());
    if trim_chars(&cron).len() > 0 {
        match validate(s.default_cron.as_str()) {
            Ok(()) => {},
            Err(e) => {
                return Err(SettingsError::InvalidCron(e));
            },
        }
    }
    let tz = chars_of(s.timezone.as_str());
    if trim_chars(&tz).len() > 0 && !crate::cron_expr::tz_parse(s.timezone.as_str()) {
        if !crate::text::seq_eq(&chars_of(s.timezone.as_str()), &chars_of(local_zone)) {
            return Err(SettingsError::InvalidTimezone);
        }
    }
    let url = chars_of(s.telegram_url.as_str());
    if trim_chars(&url).len() > 0 {
        match parse_telegram_url(s.telegram_url.as_str()) {
            Ok(_) => {},
            Err(e) => {
                return Err(SettingsError::InvalidTelegramUrl(e));
            },
        }
    }
    Ok(())
}


/// Checks settings before they are saved: positive concurrency, queue capacity
/// and timeout; a valid default cron expression when not blank; a known IANA
/// zone (or the machine's own zone name) when not blank; a parseable target
/// when not blank. The first failing check is reported.
pub fn validate_settings(s: &EditableSettings) -> (r: Result<(), SettingsError>)
    ensures
        s.concurrency == 0 ==> r == Err::<(), SettingsError>(SettingsError::ZeroConcurrency),
        s.concurrency > 0 && s.queue_capacity == 0 ==> r == Err::<(), SettingsError>(
            SettingsError::ZeroQueueCapacity,
        ),
        s.concurrency > 0 && s.queue_capacity > 0 && s.default_timeout_secs == 0 ==> r == Err::<
            (),
            SettingsError,
        >(SettingsError::ZeroTimeout),
        s.concurrency > 0 && s.queue_capacity > 0 && s.default_timeout_secs > 0 && trim(
            s.default_cron@,
        ).len() > 0 ==> (crate::cron_expr::seven_field(s.default_cron@) matches Err(x) ==> r == Err::<
            (),
            SettingsError,
        >(SettingsError::InvalidCron(x))),
        r matches Err(SettingsError::InvalidCron(e)) ==> trim(s.default_cron@).len() > 0,
        r matches Err(SettingsError::InvalidTimezone) ==> trim(s.timezone@).len() > 0
            && !crate::cron_expr::tz_known(s.timezone@),
        r matches Err(SettingsError::InvalidTelegramUrl(e)) ==> trim(s.telegram_url@).len() > 0
            && tgram_target(s.telegram_url@) == Err::<(Seq<char>, Seq<Seq<char>>), UrlError>(e),
        r is Ok ==> s.concurrency > 0 && s.queue_capacity > 0 && s.default_timeout_secs > 0,
        r is Ok ==> (trim(s.default_cron@).len() == 0 || (crate::cron_expr::seven_field(
            s.default_cron@,
        ) is Ok && crate::cron_expr::cron_accepts(
            crate::cron_expr::seven_field(s.default_cron@)->Ok_0,
        ))),
        r is Ok ==> (trim(s.telegram_url@).len() == 0 || tgram_target(s.telegram_url@) is Ok),
        s.concurrency > 0 && s.queue_capacity > 0 && s.default_timeout_secs > 0 && trim(
            s.default_cron@,
        ).len() == 0 && (trim(s.timezone@).len() == 0 || crate::cron_expr::tz_known(s.timezone@))
            && (trim(s.telegram_url@).len() == 0 || tgram_target(s.telegram_url@) is Ok) ==> r is Ok,
{
    let local = system_local_timezone();
    settings_verdict(s, local.as_str())
}

} // verus!
