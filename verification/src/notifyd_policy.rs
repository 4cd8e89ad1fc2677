//! The rules the notification daemon applies to what it receives: its
//! configuration, timeouts, urgency, progress, stacking, limits on text,
//! actions and images, and the record a notification becomes.
use vstd::prelude::*;

use crate::error::{is_invalid_value, GraphError, Result};
use crate::notifyd::{action_views, make_action, make_action_spec, opt_text, NotificationAction, NotificationActionView, NotificationRecord, NotificationRecordView, NotificationUrgency};
use crate::notifyd_markup::{plain_text, plain_text_spec, sanitized_markup};
use crate::text::{chars_of, decimal, has_prefix, is_blank, owned, starts_with, strip_prefix, text_from_range, trim, trim_spec, u32_text};

verus! {

/// The daemon's configuration.
#[derive(Debug)]
pub struct NotifydConfig {
    pub server_name: String,
    pub vendor: String,
    pub default_timeout_ms: i32,
    pub low_timeout_ms: i32,
    pub critical_timeout_ms: i32,
    pub max_notifications: usize,
    pub max_body_bytes: usize,
    pub max_actions: usize,
    pub markup: bool,
    pub actions: bool,
    pub body_images: bool,
    pub close_on_action: bool,
    pub dnd_enabled: bool,
}

impl Default for NotifydConfig {
    fn default() -> (r: NotifydConfig)
        ensures
            r.server_name@ == "Locus Notifyd"@,
            r.vendor@ == "Locus"@,
            r.default_timeout_ms == 7000,
            r.low_timeout_ms == 4000,
            r.critical_timeout_ms == 0,
            r.max_notifications == 128,
            r.max_body_bytes == 16 * 1024,
            r.max_actions == 12,
            r.markup,
            r.actions,
            r.body_images,
            r.close_on_action,
            !r.dnd_enabled,
    {
        NotifydConfig {
            server_name: owned("Locus Notifyd"),
            vendor: owned("Locus"),
            default_timeout_ms: 7000,
            low_timeout_ms: 4000,
            critical_timeout_ms: 0,
            max_notifications: 128,
            max_body_bytes: 16 * 1024,
            max_actions: 12,
            markup: true,
            actions: true,
            body_images: true,
            close_on_action: true,
            dnd_enabled: false,
        }
    }
}

impl NotifydConfig {
    /// Checks the configuration: the server name must not be blank and the
    /// daemon must keep at least one notification.
    pub fn validate(&self) -> (r: Result<()>)
        ensures
            trim_spec(self.server_name@).len() == 0 ==> (r matches Err(e) && is_invalid_value(
                e,
                "notifyd server_name"@,
                self.server_name@,
                "must not be empty"@,
            )),
            trim_spec(self.server_name@).len() > 0 && self.max_notifications == 0 ==> (r matches Err(
                e,
            ) && is_invalid_value(
                e,
                "notifyd max_notifications"@,
                "0"@,
                "must be greater than zero"@,
            )),
            trim_spec(self.server_name@).len() > 0 && self.max_notifications > 0 ==> r is Ok,
    {
        if is_blank(self.server_name.as_str()) {
            return Err(
                GraphError::InvalidValue {
                    kind: "notifyd server_name",
                    value: self.server_name.clone(),
                    reason: "must not be empty",
                },
            );
        }
        if self.max_notifications == 0 {
            return Err(
                GraphError::InvalidValue {
                    kind: "notifyd max_notifications",
                    value: owned("0"),
                    reason: "must be greater than zero",
                },
            );
        }
        Ok(())
    }
}

/// The timeout a notification gets: the one it asks for, or, when it asks
/// for none (a negative one), the configured default of its urgency.
pub open spec fn effective_timeout_spec(
    expire_timeout: i32,
    urgency: NotificationUrgency,
    config: NotifydConfig,
) -> i32 {
    if expire_timeout >= 0 {
        expire_timeout
    } else {
        match urgency {
            NotificationUrgency::Low => config.low_timeout_ms,
            NotificationUrgency::Normal => config.default_timeout_ms,
            NotificationUrgency::Critical => config.critical_timeout_ms,
        }
    }
}

pub fn effective_timeout(expire_timeout: i32, urgency: NotificationUrgency, config: &NotifydConfig) -> (r: i32)
    ensures
        r == effective_timeout_spec(expire_timeout, urgency, *config),
{
    if expire_timeout >= 0 {
        return expire_timeout;
    }
    match urgency {
        NotificationUrgency::Low => config.low_timeout_ms,
        NotificationUrgency::Normal => config.default_timeout_ms,
        NotificationUrgency::Critical => config.critical_timeout_ms,
    }
}

/// The urgency an urgency level gives: 0 low, 2 critical, anything else,
/// and no level, normal.
pub open spec fn urgency_spec(level: Option<u8>) -> NotificationUrgency {
    match level {
        Some(0) => NotificationUrgency::Low,
        Some(2) => NotificationUrgency::Critical,
        _ => NotificationUrgency::Normal,
    }
}

pub fn urgency_of(level: Option<u8>) -> (r: NotificationUrgency)
    ensures
        r == urgency_spec(level),
{
    let level = match level {
        Some(l) => l,
        None => 1,
    };
    if level == 0 {
        NotificationUrgency::Low
    } else if level == 2 {
        NotificationUrgency::Critical
    } else {
        NotificationUrgency::Normal
    }
}

/// The progress a notification shows: its `value` hint, else its
/// `progress` hint, clamped to 0..=100.
pub open spec fn progress_spec(value: Option<i32>, progress: Option<i32>) -> Option<u32> {
    let v = match value {
        Some(v) => Some(v),
        None => progress,
    };
    match v {
        Some(x) => Some(
            if x < 0 {
                0u32
            } else if x > 100 {
                100u32
            } else {
                x as u32
            },
        ),
        None => None,
    }
}

pub fn progress_of(value: Option<i32>, progress: Option<i32>) -> (r: Option<u32>)
    ensures
        r == progress_spec(value, progress),
{
    let v = match value {
        Some(v) => Some(v),
        None => progress,
    };
    match v {
        Some(x) => Some(
            if x < 0 {
                0u32
            } else if x > 100 {
                100u32
            } else {
                x as u32
            },
        ),
        None => None,
    }
}

/// The key a notification stacks under: its dunst stack tag, else its
/// synchronous hint, unless that is blank.
pub open spec fn stack_key_spec(tag: Option<Seq<char>>, synchronous: Option<Seq<char>>) -> Option<
    Seq<char>,
> {
    let k = match tag {
        Some(t) => Some(t),
        None => synchronous,
    };
    match k {
        Some(t) => if trim_spec(t).len() == 0 {
            None
        } else {
            Some(t)
        },
        None => None,
    }
}

pub fn stack_key_of(tag: Option<String>, synchronous: Option<String>) -> (r: Option<String>)
    ensures
        opt_text(r) == stack_key_spec(opt_text(tag), opt_text(synchronous)),
{
    let k = match tag {
        Some(t) => Some(t),
        None => synchronous,
    };
    match k {
        Some(t) => if is_blank(t.as_str()) {
            None
        } else {
            Some(t)
        },
        None => None,
    }
}

/// The number of bytes UTF-8 takes for a character.
pub open spec fn utf8_len(c: char) -> nat {
    if (c as u32) < 0x80 {
        1
    } else if (c as u32) < 0x800 {
        2
    } else if (c as u32) < 0x10000 {
        3
    } else {
        4
    }
}

/// How many leading characters of `s` fit in `max` bytes of UTF-8.
pub open spec fn fitting_chars(s: Seq<char>, max: nat) -> nat
    decreases s.len(),
{
    if s.len() == 0 {
        0
    } else if utf8_len(s[0]) <= max {
        1 + fitting_chars(s.drop_first(), (max - utf8_len(s[0])) as nat)
    } else {
        0
    }
}

/// A text cut to at most `max` bytes of UTF-8, at a character boundary.
pub open spec fn trim_to_limit_spec(s: Seq<char>, max: nat) -> Seq<char> {
    s.take(fitting_chars(s, max) as int)
}

fn char_utf8_len(c: char) -> (r: usize)
    ensures
        r == utf8_len(c),
{
    let n = c as u32;
    if n < 0x80 {
        1
    } else if n < 0x800 {
        2
    } else if n < 0x10000 {
        3
    } else {
        4
    }
}

proof fn lemma_fitting_bound(s: Seq<char>, max: nat)
    ensures
        fitting_chars(s, max) <= s.len(),
    decreases s.len(),
{
    if s.len() > 0 && utf8_len(s[0]) <= max {
        lemma_fitting_bound(s.drop_first(), (max - utf8_len(s[0])) as nat);
    }
}

/// A text cut to at most `max_bytes` bytes of UTF-8, never inside a
/// character.
pub fn trim_to_limit(value: &str, max_bytes: usize) -> (r: String)
    ensures
        r@ == trim_to_limit_spec(value@, max_bytes as nat),
{
    let v = chars_of(value);
    let mut left: usize = max_bytes;
    let mut i: usize = 0;
    assert(v@.skip(0) =~= v@);
    while i < v.len()
        invariant
            i <= v.len(),
            v@ == value@,
            left <= max_bytes,
            i + fitting_chars(v@.skip(i as int), left as nat) == fitting_chars(value@, max_bytes as nat),
        decreases v.len() - i,
    {
        let n = char_utf8_len(v[i]);
        let ghost rest = v@.skip(i as int);
        assert(rest[0] == v@[i as int]);
        assert(rest.drop_first() =~= v@.skip(i + 1));
        if n > left {
            proof {
                lemma_fitting_bound(value@, max_bytes as nat);
            }
            assert(fitting_chars(rest, left as nat) == 0);
            return text_from_range(v.as_slice(), 0, i);
        }
        left = left - n;
        i += 1;
    }
    assert(v@.skip(v.len() as int) =~= Seq::<char>::empty());
    assert(v@.take(v.len() as int) =~= v@);
    text_from_range(v.as_slice(), 0, v.len())
}

/// The actions a notification offers: its key/label pairs in order, at
/// most `max_actions` of them, none when actions are off; a key without a
/// label is dropped.
pub open spec fn normalized_actions_spec(
    notification_id: Seq<char>,
    actions: Seq<Seq<char>>,
    enabled: bool,
    max_actions: nat,
) -> Seq<NotificationActionView> {
    if !enabled {
        Seq::empty()
    } else {
        let count = if max_actions < actions.len() / 2 {
            max_actions
        } else {
            actions.len() / 2
        };
        Seq::new(
            count,
            |k: int| make_action_spec(notification_id, actions[2 * k], actions[2 * k + 1]),
        )
    }
}

pub fn normalize_actions(notification_id: &str, actions: Vec<String>, config: &NotifydConfig) -> (r: Vec<
    NotificationAction,
>)
    ensures
        action_views(r@) == normalized_actions_spec(
            notification_id@,
            actions@.map_values(|t: String| t@),
            config.actions,
            config.max_actions as nat,
        ),
{
    let ghost texts = actions@.map_values(|t: String| t@);
    let mut out: Vec<NotificationAction> = Vec::new();
    if !config.actions {
        assert(action_views(out@) =~= Seq::<NotificationActionView>::empty());
        return out;
    }
    let pairs = actions.len() / 2;
    let count = if config.max_actions < pairs {
        config.max_actions
    } else {
        pairs
    };
    let mut k: usize = 0;
    while k < count
        invariant
            k <= count,
            count <= actions.len() / 2,
            texts == actions@.map_values(|t: String| t@),
            out@.len() == k,
            forall|q: int|
                0 <= q < k ==> (#[trigger] out@[q])@ == make_action_spec(
                    notification_id@,
                    texts[2 * q],
                    texts[2 * q + 1],
                ),
        decreases count - k,
    {
        let key = actions[2 * k].clone();
        let label = actions[2 * k + 1].clone();
        let action = make_action(notification_id, key, label);
        out.push(action);
        k += 1;
    }
    assert(action_views(out@) =~= normalized_actions_spec(
        notification_id@,
        texts,
        config.actions,
        config.max_actions as nat,
    ));
    out
}

/// The hints of a notification that the daemon reads, as plain values.
#[derive(Debug, Default)]
pub struct NotificationHints {
    pub desktop_entry: Option<String>,
    pub category: Option<String>,
    pub urgency: Option<u8>,
    pub value: Option<i32>,
    pub progress: Option<i32>,
    pub resident: Option<bool>,
    pub transient: Option<bool>,
    pub suppress_sound: Option<bool>,
    pub stack_tag: Option<String>,
    pub synchronous: Option<String>,
    pub image_path: Option<String>,
    pub image_path_alt: Option<String>,
    pub has_image_data: bool,
}

/// The image of a notification.
#[derive(Debug)]
pub struct NormalizedImage {
    pub icon_name: String,
    pub image_path: Option<String>,
    pub image_source: String,
    pub image_width: Option<u32>,
    pub image_height: Option<u32>,
}

pub struct NormalizedImageView {
    pub icon_name: Seq<char>,
    pub image_path: Option<Seq<char>>,
    pub image_source: Seq<char>,
    pub image_width: Option<u32>,
    pub image_height: Option<u32>,
}

impl View for NormalizedImage {
    type V = NormalizedImageView;

    open spec fn view(&self) -> NormalizedImageView {
        NormalizedImageView {
            icon_name: self.icon_name@,
            image_path: opt_text(self.image_path),
            image_source: self.image_source@,
            image_width: self.image_width,
            image_height: self.image_height,
        }
    }
}

/// The file a path or `file://` URL names, when it is absolute.
pub open spec fn file_path_spec(value: Seq<char>) -> Option<Seq<char>> {
    let t = trim_spec(value);
    let p = if has_prefix(t, "file://"@) {
        t.skip(7)
    } else {
        t
    };
    if has_prefix(p, "/"@) {
        Some(p)
    } else {
        None
    }
}

/// The icon shown beside an image: the app icon when it names an icon,
/// else the information icon.
pub open spec fn fallback_icon_spec(app_icon: Seq<char>) -> Seq<char> {
    let t = trim_spec(app_icon);
    if t.len() == 0 || has_prefix(t, "/"@) || has_prefix(t, "file://"@) {
        "dialog-information-symbolic"@
    } else {
        app_icon
    }
}

pub open spec fn image_of(
    icon_name: Seq<char>,
    image_path: Option<Seq<char>>,
    image_source: Seq<char>,
) -> NormalizedImageView {
    NormalizedImageView { icon_name, image_path, image_source, image_width: None, image_height: None }
}

/// The image of a notification: with body images on, an image path hint
/// naming a file, else image data; then an app icon naming a file; else
/// the app icon's name.
pub open spec fn image_spec(app_icon: Seq<char>, hints: NotificationHints, body_images: bool) -> NormalizedImageView {
    let hinted = match opt_text(hints.image_path) {
        Some(p) => Some(p),
        None => opt_text(hints.image_path_alt),
    };
    if body_images && hinted is Some && file_path_spec(hinted->0) is Some {
        image_of(fallback_icon_spec(app_icon), file_path_spec(hinted->0), "image-path"@)
    } else if body_images && hints.has_image_data {
        image_of(fallback_icon_spec(app_icon), None, "image-data"@)
    } else if file_path_spec(app_icon) is Some {
        image_of(Seq::empty(), file_path_spec(app_icon), "app-icon"@)
    } else {
        image_of(
            fallback_icon_spec(app_icon),
            None,
            if trim_spec(app_icon).len() == 0 {
                "none"@
            } else {
                "icon-name"@
            },
        )
    }
}

/// The file a path or `file://` URL names, when it is absolute.
pub fn normalize_file_path(value: &str) -> (r: Option<String>)
    ensures
        opt_text(r) == file_path_spec(value@),
{
    proof {
        reveal_strlit("file://");
        reveal_strlit("/");
    }
    let t = trim(value);
    let p = match strip_prefix(t.as_str(), "file://") {
        Some(rest) => rest,
        None => t,
    };
    if starts_with(p.as_str(), "/") {
        Some(p)
    } else {
        None
    }
}

pub fn fallback_icon(app_icon: &str) -> (r: String)
    ensures
        r@ == fallback_icon_spec(app_icon@),
{
    let t = trim(app_icon);
    if t.as_str().unicode_len() == 0 || starts_with(t.as_str(), "/") || starts_with(
        t.as_str(),
        "file://",
    ) {
        owned("dialog-information-symbolic")
    } else {
        owned(app_icon)
    }
}

pub fn normalize_image(app_icon: &str, hints: &NotificationHints, body_images: bool) -> (r: NormalizedImage)
    ensures
        r@ == image_spec(app_icon@, *hints, body_images),
{
    proof {
        reveal_strlit("");
    }
    if body_images {
        let hinted = match &hints.image_path {
            Some(p) => Some(p),
            None => match &hints.image_path_alt {
                Some(p) => Some(p),
                None => None,
            },
        };
        match hinted {
            Some(path) => match normalize_file_path(path.as_str()) {
                Some(p) => {
                    return NormalizedImage {
                        icon_name: fallback_icon(app_icon),
                        image_path: Some(p),
                        image_source: owned("image-path"),
                        image_width: None,
                        image_height: None,
                    };
                },
                None => {},
            },
            None => {},
        }
        if hints.has_image_data {
            return NormalizedImage {
                icon_name: fallback_icon(app_icon),
                image_path: None,
                image_source: owned("image-data"),
                image_width: None,
                image_height: None,
            };
        }
    }
    match normalize_file_path(app_icon) {
        Some(p) => {
            let r = NormalizedImage {
                icon_name: String::new(),
                image_path: Some(p),
                image_source: owned("app-icon"),
                image_width: None,
                image_height: None,
            };
            assert(r@.icon_name =~= Seq::<char>::empty());
            r
        },
        None => NormalizedImage {
            icon_name: fallback_icon(app_icon),
            image_path: None,
            image_source: if is_blank(app_icon) {
                owned("none")
            } else {
                owned("icon-name")
            },
            image_width: None,
            image_height: None,
        },
    }
}

pub open spec fn text_or_empty(t: Option<String>) -> Seq<char> {
    match t {
        Some(s) => s@,
        None => Seq::empty(),
    }
}

pub open spec fn flag_or(t: Option<bool>, d: bool) -> bool {
    match t {
        Some(b) => b,
        None => d,
    }
}

/// The record a received notification becomes.
pub open spec fn normalized_spec(
    id: u32,
    app_name: Seq<char>,
    app_icon: Seq<char>,
    summary: Seq<char>,
    body: Seq<char>,
    actions: Seq<Seq<char>>,
    hints: NotificationHints,
    expire_timeout: i32,
    now: u64,
    config: NotifydConfig,
) -> NotificationRecordView {
    let local_id = decimal(id as nat);
    let urgency = urgency_spec(hints.urgency);
    let image = image_spec(app_icon, hints, config.body_images);
    NotificationRecordView {
        local_id,
        dbus_id: id,
        created_at_unix_ms: now,
        updated_at_unix_ms: now,
        expire_timeout_ms: effective_timeout_spec(expire_timeout, urgency, config),
        app_name: trim_to_limit_spec(app_name, 512),
        desktop_entry: text_or_empty(hints.desktop_entry),
        app_icon,
        summary: trim_to_limit_spec(summary, 1024),
        body: trim_to_limit_spec(plain_text_spec(body), config.max_body_bytes as nat),
        body_markup: if config.markup && body.contains('<') {
            Some(trim_spec(body))
        } else {
            None
        },
        category: text_or_empty(hints.category),
        urgency,
        progress: progress_spec(hints.value, hints.progress),
        resident: flag_or(hints.resident, false),
        transient: flag_or(hints.transient, false),
        suppress_sound: flag_or(hints.suppress_sound, false),
        icon_name: image.icon_name,
        image_path: image.image_path,
        image_source: image.image_source,
        image_width: image.image_width,
        image_height: image.image_height,
        stack_key: stack_key_spec(opt_text(hints.stack_tag), opt_text(hints.synchronous)),
        actions: normalized_actions_spec(local_id, actions, config.actions, config.max_actions as nat),
    }
}

fn copy_opt(t: &Option<String>) -> (r: Option<String>)
    ensures
        opt_text(r) == opt_text(*t),
{
    match t {
        Some(s) => Some(s.clone()),
        None => None,
    }
}

fn text_or_default(t: &Option<String>) -> (r: String)
    ensures
        r@ == text_or_empty(*t),
{
    match t {
        Some(s) => s.clone(),
        None => {
            let r = String::new();
            assert(r@ =~= Seq::<char>::empty());
            r
        },
    }
}

/// The record a received notification becomes.
pub fn normalized_notification(
    id: u32,
    app_name: &str,
    app_icon: &str,
    summary: &str,
    body: &str,
    actions: Vec<String>,
    hints: &NotificationHints,
    expire_timeout: i32,
    now: u64,
    config: &NotifydConfig,
) -> (r: NotificationRecord)
    ensures
        r@ == normalized_spec(
            id,
            app_name@,
            app_icon@,
            summary@,
            body@,
            actions@.map_values(|t: String| t@),
            *hints,
            expire_timeout,
            now,
            *config,
        ),
{
    let local_id = u32_text(id);
    let urgency = urgency_of(hints.urgency);
    let timeout = effective_timeout(expire_timeout, urgency, config);
    let image = normalize_image(app_icon, hints, config.body_images);
    let body_plain = plain_text(body);
    let acts = normalize_actions(local_id.as_str(), actions, config);
    let markup = sanitized_markup(body, config.markup);
    let r = NotificationRecord {
        local_id,
        dbus_id: id,
        created_at_unix_ms: now,
        updated_at_unix_ms: now,
        expire_timeout_ms: timeout,
        app_name: trim_to_limit(app_name, 512),
        desktop_entry: text_or_default(&hints.desktop_entry),
        app_icon: owned(app_icon),
        summary: trim_to_limit(summary, 1024),
        body: trim_to_limit(body_plain.as_str(), config.max_body_bytes),
        body_markup: markup,
        category: text_or_default(&hints.category),
        urgency,
        progress: progress_of(hints.value, hints.progress),
        resident: match hints.resident {
            Some(b) => b,
            None => false,
        },
        transient: match hints.transient {
            Some(b) => b,
            None => false,
        },
        suppress_sound: match hints.suppress_sound {
            Some(b) => b,
            None => false,
        },
        icon_name: image.icon_name,
        image_path: image.image_path,
        image_source: image.image_source,
        image_width: image.image_width,
        image_height: image.image_height,
        stack_key: stack_key_of(copy_opt(&hints.stack_tag), copy_opt(&hints.synchronous)),
        actions: acts,
    };
    r
}

} // verus!
