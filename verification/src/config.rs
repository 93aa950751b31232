//! The settings that are kept, and which of their values are accepted.

use crate::alert;
use crate::alert::AlertThresholds;
use crate::history;
use crate::text;
use vstd::prelude::*;
use vstd::string::*;

verus! {

pub const DEFAULT_LHM_BASE_URL: &'static str = "http://127.0.0.1:8085";

pub fn default_notification_enabled() -> (r: bool)
    ensures
        r,
{
    true
}

pub fn default_history_range_minutes() -> (r: u32)
    ensures
        r == 1,
{
    1
}

pub fn default_precise_temp_enabled() -> (r: bool)
    ensures
        !r,
{
    false
}

pub fn default_lhm_base_url() -> (r: String)
    ensures
        r@ == "http://127.0.0.1:8085"@,
        r@ == DEFAULT_LHM_BASE_URL@,
{
    DEFAULT_LHM_BASE_URL.to_string()
}

pub fn default_overlay_enabled() -> (r: bool)
    ensures
        !r,
{
    false
}

pub fn default_autostart_enabled() -> (r: bool)
    ensures
        !r,
{
    false
}

pub fn default_overlay_auto_hide() -> (r: bool)
    ensures
        !r,
{
    false
}

pub fn default_overlay_style() -> (r: OverlayStyle)
    ensures
        r == OverlayStyle::Capsule,
{
    OverlayStyle::Capsule
}

/// The shape of the collapsed overlay.
#[derive(Clone, Copy, PartialEq, Eq, Structural, Debug)]
pub enum OverlayStyle {
    Capsule,
    Vertical,
    Numeric,
}

impl OverlayStyle {
    pub open spec fn name(self) -> Seq<char> {
        match self {
            OverlayStyle::Capsule => "capsule"@,
            OverlayStyle::Vertical => "vertical"@,
            OverlayStyle::Numeric => "numeric"@,
        }
    }

    pub fn as_str(self) -> (r: &'static str)
        ensures
            r@ == self.name(),
    {
        match self {
            OverlayStyle::Capsule => "capsule",
            OverlayStyle::Vertical => "vertical",
            OverlayStyle::Numeric => "numeric",
        }
    }

    /// The style that `raw` names, whatever its case and the space around it.
    pub open spec fn named(raw: Seq<char>) -> Option<OverlayStyle> {
        let name = text::lower(text::trim(raw));
        if name == "capsule"@ {
            Some(OverlayStyle::Capsule)
        } else if name == "vertical"@ {
            Some(OverlayStyle::Vertical)
        } else if name == "numeric"@ {
            Some(OverlayStyle::Numeric)
        } else {
            None
        }
    }

    pub fn parse(raw: &str) -> (r: Option<OverlayStyle>)
        ensures
            r == OverlayStyle::named(raw@),
    {
        let name = text::lowered(&text::trimmed(&text::chars_of(raw)));
        if text::is_text(&name, "capsule") {
            Some(OverlayStyle::Capsule)
        } else if text::is_text(&name, "vertical") {
            Some(OverlayStyle::Vertical)
        } else if text::is_text(&name, "numeric") {
            Some(OverlayStyle::Numeric)
        } else {
            None
        }
    }
}

/// The side of the screen that the overlay keeps to.
#[derive(Clone, Copy, PartialEq, Eq, Structural, Debug)]
pub enum OverlayEdgeX {
    Left,
    Right,
}

impl OverlayEdgeX {
    pub fn as_str(self) -> (r: &'static str)
        ensures
            r@ == (match self {
                OverlayEdgeX::Left => "left"@,
                OverlayEdgeX::Right => "right"@,
            }),
    {
        match self {
            OverlayEdgeX::Left => "left",
            OverlayEdgeX::Right => "right",
        }
    }
}

/// The upper or lower edge of the screen that the overlay keeps to.
#[derive(Clone, Copy, PartialEq, Eq, Structural, Debug)]
pub enum OverlayEdgeY {
    Top,
    Bottom,
}

/// The settings.
#[derive(Debug)]
pub struct AppConfig {
    pub alert: AlertThresholds,
    /// Whether alerts are announced by the system.
    pub notification_enabled: bool,
    /// How many minutes the history reaches back: 1, 5, 15 or 60.
    pub history_range_minutes: u32,
    /// Whether LibreHardwareMonitor is asked for temperatures.
    pub precise_temp_enabled: bool,
    /// Where LibreHardwareMonitor serves its report, on this machine.
    pub lhm_base_url: String,
    pub overlay_enabled: bool,
    pub autostart_enabled: bool,
    /// Whether the overlay hides at the edge it keeps to.
    pub overlay_auto_hide: bool,
    pub overlay_style: OverlayStyle,
    /// Where the main panel was; at the tray icon without it.
    pub main_x: Option<i32>,
    pub main_y: Option<i32>,
    /// Where the overlay was; where the system puts it without it.
    pub overlay_x: Option<i32>,
    pub overlay_y: Option<i32>,
    pub overlay_edge_x: Option<OverlayEdgeX>,
    pub overlay_edge_y: Option<OverlayEdgeY>,
}

impl Clone for AppConfig {
    fn clone(&self) -> (r: AppConfig)
        ensures
            r == *self,
    {
        AppConfig {
            alert: self.alert,
            notification_enabled: self.notification_enabled,
            history_range_minutes: self.history_range_minutes,
            precise_temp_enabled: self.precise_temp_enabled,
            lhm_base_url: self.lhm_base_url.clone(),
            overlay_enabled: self.overlay_enabled,
            autostart_enabled: self.autostart_enabled,
            overlay_auto_hide: self.overlay_auto_hide,
            overlay_style: self.overlay_style,
            main_x: self.main_x,
            main_y: self.main_y,
            overlay_x: self.overlay_x,
            overlay_y: self.overlay_y,
            overlay_edge_x: self.overlay_edge_x,
            overlay_edge_y: self.overlay_edge_y,
        }
    }
}

/// Whether these are the default settings.
pub open spec fn is_default(c: AppConfig) -> bool {
    &&& c == AppConfig {
        alert: alert::default_thresholds(),
        notification_enabled: true,
        history_range_minutes: 1,
        precise_temp_enabled: false,
        lhm_base_url: c.lhm_base_url,
        overlay_enabled: false,
        autostart_enabled: false,
        overlay_auto_hide: false,
        overlay_style: OverlayStyle::Capsule,
        main_x: None,
        main_y: None,
        overlay_x: None,
        overlay_y: None,
        overlay_edge_x: None,
        overlay_edge_y: None,
    }
    &&& c.lhm_base_url@ == DEFAULT_LHM_BASE_URL@
}

impl Default for AppConfig {
    fn default() -> (r: AppConfig)
        ensures
            is_default(r),
    {
        AppConfig {
            alert: AlertThresholds::default(),
            notification_enabled: default_notification_enabled(),
            history_range_minutes: default_history_range_minutes(),
            precise_temp_enabled: default_precise_temp_enabled(),
            lhm_base_url: default_lhm_base_url(),
            overlay_enabled: default_overlay_enabled(),
            autostart_enabled: default_autostart_enabled(),
            overlay_auto_hide: default_overlay_auto_hide(),
            overlay_style: default_overlay_style(),
            main_x: None,
            main_y: None,
            overlay_x: None,
            overlay_y: None,
            overlay_edge_x: None,
            overlay_edge_y: None,
        }
    }
}

/// The host of an authority: what stands in brackets, with them, or what stands
/// before the first colon. `None` where a bracket is not closed.
pub open spec fn host_of(authority: Seq<char>) -> Option<Seq<char>> {
    if authority.len() > 0 && authority[0] == '[' {
        let end = text::position(authority, ']');
        if end < authority.len() {
            Some(authority.take(end + 1))
        } else {
            None
        }
    } else {
        Some(authority.take(text::position(authority, ':')))
    }
}

/// Whether the host is this machine.
pub open spec fn is_local(host: Seq<char>) -> bool {
    ||| text::lower(host) == text::lower("localhost"@)
    ||| host == "127.0.0.1"@
    ||| host == "[::1]"@
}

/// What follows the host in an authority.
pub open spec fn port_of(authority: Seq<char>) -> Seq<char> {
    if authority.len() > 0 && authority[0] == '[' {
        authority.skip(text::position(authority, ']') + 1)
    } else {
        authority.skip(text::position(authority, ':'))
    }
}

/// `s` without the colons at its start.
pub open spec fn after_colons(s: Seq<char>) -> Seq<char>
    decreases s.len(),
{
    if s.len() > 0 && s[0] == ':' {
        after_colons(s.drop_first())
    } else {
        s
    }
}

/// Whether this is no port, or the digits of one after colons.
pub open spec fn is_port(s: Seq<char>) -> bool {
    let digits = after_colons(s);
    s.len() == 0 || (digits.len() > 0 && text::all_digits(digits) && text::digits_value(digits)
        <= 0xffff)
}

/// What an address without its scheme is normalized to, or why it is refused.
pub open spec fn normalized_rest(rest: Seq<char>) -> Result<Seq<char>, Seq<char>> {
    let authority = text::trim(rest.take(text::position(rest, '/')));
    if text::position(rest, '@') < rest.len() {
        Err("LHM 地址不允许包含用户信息"@)
    } else if authority.len() == 0 {
        Err("LHM 地址缺少主机"@)
    } else {
        match host_of(authority) {
            None => Err("LHM 地址 IPv6 格式无效"@),
            Some(host) => if !is_local(host) {
                Err("出于安全，仅允许 localhost / 127.0.0.1"@)
            } else if !is_port(port_of(authority)) {
                Err("LHM 端口无效"@)
            } else {
                Ok("http://"@ + host + port_of(authority))
            },
        }
    }
}

/// What an address is normalized to, or why it is refused: the scheme must be
/// `http`, the host this machine; a path is dropped.
pub open spec fn normalized_url(raw: Seq<char>) -> Result<Seq<char>, Seq<char>> {
    let trimmed = text::trim(raw);
    let lower = text::lower(trimmed);
    if trimmed.len() == 0 {
        Err("LHM 地址不能为空"@)
    } else if text::stands_at(lower, "http://"@, 0) {
        normalized_rest(trimmed.skip("http://"@.len() as int))
    } else if text::stands_at(lower, "https://"@, 0) {
        Err("LHM 地址仅支持 http://（本机 Web Server）"@)
    } else {
        Err("LHM 地址须以 http:// 开头"@)
    }
}

/// Whether an outcome is the one that is specified.
pub open spec fn outcome_is(
    r: Result<String, String>,
    specified: Result<Seq<char>, Seq<char>>,
) -> bool {
    match r {
        Ok(s) => specified == Ok::<Seq<char>, Seq<char>>(s@),
        Err(e) => specified == Err::<Seq<char>, Seq<char>>(e@),
    }
}

fn port_ok(v: &Vec<char>) -> (r: bool)
    ensures
        r == is_port(v@),
{
    let n = v.len();
    if n == 0 {
        return true;
    }
    let mut from: usize = 0;
    assert(v@.skip(0) =~= v@);
    while from < n && v[from] == ':'
        invariant
            n == v@.len(),
            from <= n,
            after_colons(v@) == after_colons(v@.skip(from as int)),
        decreases n - from,
    {
        assert(v@.skip(from as int).drop_first() =~= v@.skip(from + 1));
        from = from + 1;
    }
    let digits = text::part(v, from, n);
    assert(digits@ =~= v@.skip(from as int));
    assert(after_colons(v@) == digits@);
    if digits.len() == 0 || !text::digits_only(&digits) {
        return false;
    }
    let mut value: u32 = 0;
    let m = digits.len();
    for i in 0..m
        invariant
            m == digits@.len(),
            text::all_digits(digits@),
            value <= 0xffff,
            value == text::digits_value(digits@.take(i as int)),
            digits@ == after_colons(v@),
            v@.len() > 0,
            m > 0,
    {
        let c = digits[i];
        assert(text::is_digit(digits@[i as int]));
        value = value * 10 + (c as u32 - 48);
        proof {
            assert(digits@.take(i + 1).drop_last() =~= digits@.take(i as int));
            assert(digits@.take(i + 1).last() == c);
        }
        if value > 0xffff {
            proof {
                lemma_digits_grow(digits@, i + 1);
            }
            return false;
        }
    }
    assert(digits@.take(m as int) =~= digits@);
    true
}

proof fn lemma_digits_grow(s: Seq<char>, i: int)
    requires
        0 <= i <= s.len(),
    ensures
        text::digits_value(s.take(i)) <= text::digits_value(s),
    decreases s.len() - i,
{
    if i < s.len() {
        lemma_digits_grow(s, i + 1);
        assert(s.take(i + 1).drop_last() =~= s.take(i));
    } else {
        assert(s.take(i) =~= s);
    }
}

fn normalize_rest(rest: &Vec<char>) -> (r: Result<String, String>)
    ensures
        outcome_is(r, normalized_rest(rest@)),
{
    if text::position_of(rest, '@') < rest.len() {
        return Err("LHM 地址不允许包含用户信息".to_string());
    }
    let slash = text::position_of(rest, '/');
    let before = text::part(rest, 0, slash);
    assert(before@ =~= rest@.take(slash as int));
    let authority = text::trimmed(&before);
    let n = authority.len();
    if n == 0 {
        return Err("LHM 地址缺少主机".to_string());
    }
    let cut = if authority[0] == '[' {
        let end = text::position_of(&authority, ']');
        if end >= n {
            return Err("LHM 地址 IPv6 格式无效".to_string());
        }
        end + 1
    } else {
        text::position_of(&authority, ':')
    };
    let host = text::part(&authority, 0, cut);
    let port = text::part(&authority, cut, n);
    assert(host@ =~= authority@.take(cut as int));
    assert(port@ =~= authority@.skip(cut as int));
    let host_text = text::string_of(&host);
    let local = text::same_ignoring_case(host_text.as_str(), "localhost") || text::is_text(
        &host,
        "127.0.0.1",
    ) || text::is_text(&host, "[::1]");
    if !local {
        return Err("出于安全，仅允许 localhost / 127.0.0.1".to_string());
    }
    if !port_ok(&port) {
        return Err("LHM 端口无效".to_string());
    }
    let mut url = text::pair("http://", host_text.as_str());
    url.append(text::string_of(&port).as_str());
    Ok(url)
}

/// Checks an address of LibreHardwareMonitor and brings it to its normal form:
/// `http`, a host that is this machine, perhaps a port, and no path.
pub fn normalize_lhm_base_url(raw: &str) -> (r: Result<String, String>)
    ensures
        match r {
            Ok(url) => normalized_url(raw@) == Ok::<Seq<char>, Seq<char>>(url@),
            Err(e) => normalized_url(raw@) == Err::<Seq<char>, Seq<char>>(e@),
        },
        outcome_is(r, normalized_url(raw@)),
{
    let trimmed = text::trimmed(&text::chars_of(raw));
    if trimmed.len() == 0 {
        return Err("LHM 地址不能为空".to_string());
    }
    let lower = text::lowered(&trimmed);
    if text::starts_with(&lower, "http://") {
        proof {
            reveal_strlit("http://");
        }
        let rest = text::part(&trimmed, 7, trimmed.len());
        assert(rest@ =~= trimmed@.skip(7));
        normalize_rest(&rest)
    } else if text::starts_with(&lower, "https://") {
        Err("LHM 地址仅支持 http://（本机 Web Server）".to_string())
    } else {
        Err("LHM 地址须以 http:// 开头".to_string())
    }
}

/// An address that was accepted is of this machine: it is `http://`, a local host
/// and a port or none.
pub proof fn law_only_this_machine(raw: Seq<char>)
    ensures
        normalized_url(raw) matches Ok(url) ==> exists|host: Seq<char>, port: Seq<char>|
            is_local(host) && is_port(port) && #[trigger] ("http://"@ + host + port) == url,
{
}

/// An address in its normal form is accepted and left as it is.
pub proof fn law_normal_form_is_stable(raw: Seq<char>)
    ensures
        normalized_url(raw) matches Ok(url) ==> normalized_url(url) == Ok::<Seq<char>, Seq<char>>(
            url,
        ),
{
    if let Ok(url) = normalized_url(raw) {
        reveal_strlit("http://");
        let scheme = "http://"@;
        let rest = text::trim(raw).skip(7);
        let cut = rest.take(text::position(rest, '/'));
        let authority = text::trim(cut);
        let host = host_of(authority)->0;
        let port = port_of(authority);
        text::lemma_position(rest, '/');
        text::lemma_position(rest, '@');
        text::lemma_position(authority, ']');
        text::lemma_position(authority, ':');
        let span = text::law_trim(cut);
        assert(host + port =~= authority);
        assert(url =~= scheme + authority);

        assert(!text::is_white(url[0]));
        assert(url.last() == authority.last());
        assert(text::trim_start(url) == url);
        assert(text::trim(url) == url);
        assert(text::lower(url).subrange(0, 7) =~= scheme);
        assert(text::stands_at(text::lower(url), scheme, 0));
        assert(url.skip(7) =~= authority);

        assert forall|i: int| 0 <= i < authority.len() implies authority[i] != '/' && authority[i]
            != '@' by {
            assert(authority[i] == rest[span.0 + i]);
        }
        text::lemma_first_position(authority, '/', authority.len() as int);
        text::lemma_first_position(authority, '@', authority.len() as int);
        assert(authority.take(authority.len() as int) =~= authority);
    }
}

/// The default address is in its normal form.
pub proof fn law_default_url_is_normal()
    ensures
        normalized_url(DEFAULT_LHM_BASE_URL@) == Ok::<Seq<char>, Seq<char>>(
            DEFAULT_LHM_BASE_URL@,
        ),
{
    reveal_strlit("http://127.0.0.1:8085");
    reveal_strlit("http://");
    reveal_strlit("127.0.0.1");
    let url = "http://127.0.0.1:8085"@;
    let authority = url.skip(7);
    assert(text::trim_start(url) == url);
    assert(text::trim(url) == url);
    assert(text::lower(url).subrange(0, 7) =~= "http://"@);
    text::lemma_first_position(authority, '/', 14);
    text::lemma_first_position(authority, '@', 14);
    text::lemma_first_position(authority, ':', 9);
    assert(authority.take(14) =~= authority);
    assert(text::trim(authority) == authority);
    assert(authority.take(9) =~= "127.0.0.1"@);
    let port = authority.skip(9);
    let digits = port.drop_first();
    assert(after_colons(port) == after_colons(digits));
    assert(after_colons(digits) == digits);
    assert(text::digits_value(digits) == 8085) by {
        reveal_with_fuel(text::digits_value, 5);
        assert(digits.drop_last().drop_last().drop_last().drop_last().len() == 0);
    }
    assert("http://"@ + authority.take(9) + port =~= url);
}

/// The address to use for one that was read: its normal form, or the default
/// where it is refused.
pub open spec fn loaded_url(raw: Seq<char>) -> Seq<char> {
    match normalized_url(raw) {
        Ok(url) => url,
        Err(_) => DEFAULT_LHM_BASE_URL@,
    }
}

/// Whether `r` are the settings to use for those that were read: `c` with the
/// history's range and the address made acceptable.
pub open spec fn is_loaded(r: AppConfig, c: AppConfig) -> bool {
    &&& r == AppConfig {
        history_range_minutes: history::normal_range(c.history_range_minutes),
        lhm_base_url: r.lhm_base_url,
        ..c
    }
    &&& r.lhm_base_url@ == loaded_url(c.lhm_base_url@)
}

/// Settings with an accepted range of the history and an address in normal form.
pub open spec fn is_normal(c: AppConfig) -> bool {
    &&& history::is_allowed_range(c.history_range_minutes)
    &&& normalized_url(c.lhm_base_url@) == Ok::<Seq<char>, Seq<char>>(c.lhm_base_url@)
}

/// Settings that were loaded are normal, whatever the file held.
pub proof fn law_loaded_settings_are_normal(r: AppConfig, c: AppConfig)
    requires
        is_loaded(r, c),
    ensures
        is_normal(r),
{
    law_normal_form_is_stable(c.lhm_base_url@);
    law_default_url_is_normal();
}

/// The default settings are normal.
pub proof fn law_default_settings_are_normal(c: AppConfig)
    requires
        is_default(c),
    ensures
        is_normal(c),
{
    law_default_url_is_normal();
}

/// Normal settings are loaded as they were saved.
pub proof fn law_normal_settings_load_unchanged(c: AppConfig)
    requires
        is_normal(c),
    ensures
        is_loaded(c, c),
{
}

impl AppConfig {
    /// The settings to use for those that were read from their file, or the reason
    /// why they could not be read.
    pub fn load(read: Result<AppConfig, String>) -> (r: Result<AppConfig, String>)
        ensures
            match (r, read) {
                (Ok(loaded), Ok(c)) => is_loaded(loaded, c),
                (Err(e), Err(reason)) => e == reason,
                _ => false,
            },
    {
        match read {
            Ok(c) => {
                let url = match normalize_lhm_base_url(c.lhm_base_url.as_str()) {
                    Ok(url) => url,
                    Err(_) => default_lhm_base_url(),
                };
                let minutes = history::normalize_history_range_minutes(c.history_range_minutes);
                Ok(AppConfig { history_range_minutes: minutes, lhm_base_url: url, ..c })
            },
            Err(e) => Err(e),
        }
    }

    /// The settings to use for those that were read, and the default ones where
    /// they could not be read.
    pub fn load_or_default(read: Result<AppConfig, String>) -> (r: AppConfig)
        ensures
            match read {
                Ok(c) => is_loaded(r, c),
                Err(_) => is_default(r),
            },
    {
        match AppConfig::load(read) {
            Ok(c) => c,
            Err(_) => AppConfig::default(),
        }
    }
}

/// Ends a change of the settings: they change together with their file, or not at
/// all. `saved` is the outcome of writing `next` to the file.
pub fn mutate_config(
    current: &mut AppConfig,
    next: AppConfig,
    saved: Result<(), String>,
) -> (r: Result<(), String>)
    ensures
        r == saved,
        saved is Ok ==> *final(current) == next,
        saved is Err ==> *final(current) == *old(current),
{
    if saved.is_ok() {
        *current = next;
    }
    saved
}

/// The style of a name is the one whose name it is, in any case of letters and with any
/// space around it.
pub proof fn law_styles_by_name(raw: Seq<char>, style: OverlayStyle)
    ensures
        OverlayStyle::named(raw) == Some(style) <==> text::lower(text::trim(raw)) == style.name(),
        OverlayStyle::Capsule.name() == "capsule"@,
        OverlayStyle::Vertical.name() == "vertical"@,
        OverlayStyle::Numeric.name() == "numeric"@,
        OverlayStyle::named(raw) is None <==> {
            &&& text::lower(text::trim(raw)) != "capsule"@
            &&& text::lower(text::trim(raw)) != "vertical"@
            &&& text::lower(text::trim(raw)) != "numeric"@
        },
{
    reveal_strlit("capsule");
    reveal_strlit("vertical");
    reveal_strlit("numeric");
    assert("capsule"@[0] == 'c' && "vertical"@[0] == 'v' && "numeric"@[0] == 'n');
}

proof fn lemma_ports(s: Seq<char>)
    ensures
        0 <= s.len() - after_colons(s).len(),
        after_colons(s) == s.skip(s.len() - after_colons(s).len()),
        forall|i: int| 0 <= i < s.len() - after_colons(s).len() ==> s[i] == ':',
        after_colons(s).len() > 0 ==> after_colons(s)[0] != ':',
    decreases s.len(),
{
    if s.len() > 0 && s[0] == ':' {
        let t = s.drop_first();
        lemma_ports(t);
        let k = t.len() - after_colons(t).len();
        assert(t.skip(k) =~= s.skip(k + 1));
        assert forall|i: int| 0 <= i < k + 1 implies s[i] == ':' by {
            if i > 0 {
                assert(s[i] == t[i - 1]);
            }
        }
    } else {
        assert(s.skip(0) =~= s);
    }
}

/// A port is nothing, or colons and then digits that write at most 65535.
pub proof fn law_ports(s: Seq<char>, k: int)
    requires
        0 <= k <= s.len(),
        forall|i: int| 0 <= i < k ==> s[i] == ':',
        k < s.len() ==> s[k] != ':',
    ensures
        is_port(s) <==> s.len() == 0 || (k < s.len() && (forall|i: int|
            k <= i < s.len() ==> 48 <= (#[trigger] s[i]) as int <= 57) && text::digits_value(
            s.skip(k),
        ) <= 65535),
{
    lemma_ports(s);
    let n = s.len() - after_colons(s).len();
    if n < k {
        assert(after_colons(s)[0] == s[n]);
    } else if k < n {
        assert(s[k] == ':');
    }
    let digits = s.skip(k);
    text::law_all_digits(digits);
    if text::all_digits(digits) {
        assert forall|i: int| k <= i < s.len() implies 48 <= (#[trigger] s[i]) as int <= 57 by {
            assert(s[i] == digits[i - k]);
        }
    }
    if forall|i: int| k <= i < s.len() ==> 48 <= (#[trigger] s[i]) as int <= 57 {
        assert forall|i: int| 0 <= i < digits.len() implies 48 <= (#[trigger] digits[i]) as int
            <= 57 by {
            assert(digits[i] == s[i + k]);
        }
    }
}

/// What becomes of an address that is `http://` in any case of letters, then a host and
/// what follows it with any space around, then a path or nothing, with no `@` in it. Where
/// the host is `localhost` in any case of letters, `127.0.0.1` or `[::1]`, and a port or
/// nothing follows it, the outcome is `http://`, the host and the port. Else it is
/// refused, and the reason says what is wrong.
pub proof fn law_addresses(
    raw: Seq<char>,
    scheme: Seq<char>,
    left: Seq<char>,
    host: Seq<char>,
    port: Seq<char>,
    right: Seq<char>,
    path: Seq<char>,
)
    requires
        text::trim(raw) == scheme + (left + (host + port) + right + path),
        text::lower(scheme) == "http://"@,
        forall|i: int| 0 <= i < left.len() ==> text::is_white(left[i]),
        forall|i: int| 0 <= i < right.len() ==> text::is_white(right[i]),
        path.len() > 0 ==> path[0] == '/',
        forall|i: int| 0 <= i < path.len() ==> path[i] != '@',
        forall|i: int|
            0 <= i < (host + port).len() ==> (#[trigger] (host + port)[i]) != '@' && (host
                + port)[i] != '/',
        (host + port).len() > 0 ==> !text::is_white((host + port)[0]) && !text::is_white(
            (host + port).last(),
        ),
        host.len() > 0 && host[0] == '[' ==> host.last() == ']' && (forall|i: int|
            0 <= i < host.len() - 1 ==> host[i] != ']'),
        !(host.len() > 0 && host[0] == '[') ==> (forall|i: int|
            0 <= i < host.len() ==> host[i] != ':') && (port.len() > 0 ==> port[0] == ':'),
    ensures
        ({
            let local = {
                ||| text::lower(host) == text::lower("localhost"@)
                ||| host == "127.0.0.1"@
                ||| host == "[::1]"@
            };
            let outcome = normalized_url(raw);
            &&& local && is_port(port) ==> outcome == Ok::<Seq<char>, Seq<char>>(
                "http://"@ + host + port,
            )
            &&& local && !is_port(port) ==> outcome == Err::<Seq<char>, Seq<char>>(
                "LHM 端口无效"@,
            )
            &&& !local && (host + port).len() > 0 ==> outcome == Err::<Seq<char>, Seq<char>>(
                "出于安全，仅允许 localhost / 127.0.0.1"@,
            )
            &&& (host + port).len() == 0 ==> outcome == Err::<Seq<char>, Seq<char>>(
                "LHM 地址缺少主机"@,
            )
        }),
{
    reveal_strlit("http://");
    reveal_strlit("localhost");
    reveal_strlit("127.0.0.1");
    reveal_strlit("[::1]");
    let trimmed = text::trim(raw);
    let authority = host + port;
    let front = left + authority + right;
    let rest = front + path;
    assert(scheme.len() == 7);
    assert(trimmed.skip(7) =~= rest);
    assert(text::lower(trimmed).subrange(0, 7) =~= text::lower(scheme));
    assert(text::stands_at(text::lower(trimmed), "http://"@, 0));
    assert forall|i: int| 0 <= i < front.len() implies front[i] != '/' && front[i] != '@' by {
        if i < left.len() {
            assert(front[i] == left[i]);
        } else if i < left.len() + authority.len() {
            assert(front[i] == authority[i - left.len()]);
        } else {
            assert(front[i] == right[i - left.len() - authority.len()]);
        }
    }
    assert forall|i: int| 0 <= i < rest.len() implies rest[i] != '@' by {
        if i < front.len() {
            assert(rest[i] == front[i]);
        } else {
            assert(rest[i] == path[i - front.len()]);
        }
    }
    assert forall|i: int| 0 <= i < front.len() implies rest[i] != '/' by {
        assert(rest[i] == front[i]);
    }
    text::lemma_first_position(rest, '@', rest.len() as int);
    text::lemma_first_position(rest, '/', front.len() as int);
    assert(rest.take(front.len() as int) =~= front);
    text::law_trim_takes_the_space(left, authority, right);
    assert(text::lower(host).len() == host.len());
    assert(text::lower("localhost"@).len() == 9);
    assert(text::trim(rest.take(text::position(rest, '/'))) == authority);
    if authority.len() > 0 {
        if host.len() > 0 && host[0] == '[' {
            let end = host.len() - 1;
            assert(authority[0] == '[');
            assert forall|i: int| 0 <= i < end implies authority[i] != ']' by {
                assert(authority[i] == host[i]);
            }
            assert(authority[end] == host[end]);
            text::lemma_first_position(authority, ']', end);
        } else {
            assert forall|i: int| 0 <= i < host.len() implies authority[i] != ':' by {
                assert(authority[i] == host[i]);
            }
            if host.len() == 0 {
                assert(authority[0] == port[0]);
            } else {
                assert(authority[0] == host[0]);
            }
            if port.len() > 0 {
                assert(authority[host.len() as int] == port[0]);
            }
            text::lemma_first_position(authority, ':', host.len() as int);
        }
        assert(authority.take(host.len() as int) =~= host);
        assert(authority.skip(host.len() as int) =~= port);
    }
}

/// Addresses that are refused before their host is looked at: an empty one, one of
/// another scheme, one with user information, one with a bracket that is not closed.
pub proof fn law_refused_addresses(raw: Seq<char>, i: int)
    ensures
        ({
            let s = text::trim(raw);
            let http = text::stands_at(text::lower(s), "http://"@, 0);
            let https = text::stands_at(text::lower(s), "https://"@, 0);
            let outcome = normalized_url(raw);
            &&& s.len() == 0 ==> outcome == Err::<Seq<char>, Seq<char>>("LHM 地址不能为空"@)
            &&& https ==> outcome == Err::<Seq<char>, Seq<char>>(
                "LHM 地址仅支持 http://（本机 Web Server）"@,
            )
            &&& s.len() > 0 && !http && !https ==> outcome == Err::<Seq<char>, Seq<char>>(
                "LHM 地址须以 http:// 开头"@,
            )
            &&& http && 7 <= i < s.len() && s[i] == '@' ==> outcome == Err::<Seq<char>, Seq<char>>(
                "LHM 地址不允许包含用户信息"@,
            )
            &&& http && s.len() > 7 && s[7] == '[' && (forall|k: int|
                7 <= k < s.len() ==> s[k] != ']' && s[k] != '@') ==> outcome == Err::<
                Seq<char>,
                Seq<char>,
            >("LHM 地址 IPv6 格式无效"@)
        }),
{
    reveal_strlit("http://");
    reveal_strlit("https://");
    let s = text::trim(raw);
    let lower = text::lower(s);
    let rest = s.skip(7);
    text::law_stands_at(lower, "http://"@, 0);
    text::law_stands_at(lower, "https://"@, 0);
    text::lemma_position(rest, '@');
    text::lemma_position(rest, '/');
    assert("http://"@[4] == ':' && "https://"@[4] == 's');
    if text::stands_at(lower, "http://"@, 0) {
        assert(lower[0int + 4] == ':');
    }
    if text::stands_at(lower, "https://"@, 0) {
        assert(lower[0int + 4] == 's');
    }
    if 7 <= i < s.len() {
        assert(rest[i - 7] == s[i]);
    }
    if s.len() > 7 && s[7] == '[' && (forall|k: int|
        7 <= k < s.len() ==> s[k] != ']' && s[k] != '@') {
        assert(rest[0] == '[');
        let at = text::position(rest, '@');
        if at < rest.len() {
            assert(s[at + 7] == '@');
        }
        let cut = rest.take(text::position(rest, '/'));
        let span = text::law_trim(cut);
        let authority = text::trim(cut);
        assert(cut[0] == rest[0]);
        assert(!text::is_white('['));
        if span.0 > 0 {
            assert(text::is_white(cut[0]));
        }
        if span.1 == 0 {
            assert(text::is_white(cut[0]));
        }
        assert(authority[0] == '[');
        text::lemma_position(authority, ']');
        let end = text::position(authority, ']');
        if end < authority.len() {
            assert(authority[end] == rest[end]);
            assert(s[end + 7] == ']');
        }
    }
}

/// The settings of a fresh start.
pub proof fn law_default_settings(c: AppConfig)
    requires
        is_default(c),
    ensures
        c.alert == alert::default_thresholds(),
        c.notification_enabled,
        c.history_range_minutes == 1,
        !c.precise_temp_enabled,
        c.lhm_base_url@ == "http://127.0.0.1:8085"@,
        !c.overlay_enabled && !c.autostart_enabled && !c.overlay_auto_hide,
        c.overlay_style == OverlayStyle::Capsule,
        c.main_x is None && c.main_y is None,
        c.overlay_x is None && c.overlay_y is None,
        c.overlay_edge_x is None && c.overlay_edge_y is None,
{
}

/// Settings that were read are used as they are, but for a range of the history that is
/// none of 1, 5, 15 and 60 minutes, which becomes 1, and for the address, which is
/// brought to its normal form, or replaced where it is refused.
pub proof fn law_settings_are_loaded(r: AppConfig, c: AppConfig)
    requires
        is_loaded(r, c),
    ensures
        r.alert == c.alert,
        r.notification_enabled == c.notification_enabled,
        r.precise_temp_enabled == c.precise_temp_enabled,
        r.overlay_enabled == c.overlay_enabled,
        r.autostart_enabled == c.autostart_enabled,
        r.overlay_auto_hide == c.overlay_auto_hide,
        r.overlay_style == c.overlay_style,
        r.main_x == c.main_x && r.main_y == c.main_y,
        r.overlay_x == c.overlay_x && r.overlay_y == c.overlay_y,
        r.overlay_edge_x == c.overlay_edge_x && r.overlay_edge_y == c.overlay_edge_y,
        r.history_range_minutes == (if c.history_range_minutes == 1 || c.history_range_minutes == 5
            || c.history_range_minutes == 15 || c.history_range_minutes == 60 {
            c.history_range_minutes
        } else {
            1
        }),
        normalized_url(c.lhm_base_url@) is Ok ==> r.lhm_base_url@ == normalized_url(
            c.lhm_base_url@,
        )->Ok_0,
        normalized_url(c.lhm_base_url@) is Err ==> r.lhm_base_url@ == "http://127.0.0.1:8085"@,
{
}

/// An address whose host starts with a bracket that is not closed before the path is
/// refused for it.
pub proof fn law_unclosed_brackets(
    raw: Seq<char>,
    scheme: Seq<char>,
    left: Seq<char>,
    authority: Seq<char>,
    right: Seq<char>,
    path: Seq<char>,
)
    requires
        text::trim(raw) == scheme + (left + authority + right + path),
        text::lower(scheme) == "http://"@,
        forall|i: int| 0 <= i < left.len() ==> text::is_white(left[i]),
        forall|i: int| 0 <= i < right.len() ==> text::is_white(right[i]),
        path.len() > 0 ==> path[0] == '/',
        forall|i: int| 0 <= i < path.len() ==> path[i] != '@',
        authority.len() > 0,
        authority[0] == '[',
        !text::is_white(authority.last()),
        forall|i: int|
            0 <= i < authority.len() ==> (#[trigger] authority[i]) != '@' && authority[i] != '/'
                && authority[i] != ']',
    ensures
        normalized_url(raw) == Err::<Seq<char>, Seq<char>>("LHM 地址 IPv6 格式无效"@),
{
    reveal_strlit("http://");
    let trimmed = text::trim(raw);
    let front = left + authority + right;
    let rest = front + path;
    assert(scheme.len() == 7);
    assert(trimmed.skip(7) =~= rest);
    assert(text::lower(trimmed).subrange(0, 7) =~= text::lower(scheme));
    assert(text::stands_at(text::lower(trimmed), "http://"@, 0));
    assert forall|i: int| 0 <= i < front.len() implies front[i] != '/' && front[i] != '@' by {
        if i < left.len() {
            assert(front[i] == left[i]);
        } else if i < left.len() + authority.len() {
            assert(front[i] == authority[i - left.len()]);
        } else {
            assert(front[i] == right[i - left.len() - authority.len()]);
        }
    }
    assert forall|i: int| 0 <= i < rest.len() implies rest[i] != '@' by {
        if i < front.len() {
            assert(rest[i] == front[i]);
        } else {
            assert(rest[i] == path[i - front.len()]);
        }
    }
    assert forall|i: int| 0 <= i < front.len() implies rest[i] != '/' by {
        assert(rest[i] == front[i]);
    }
    text::lemma_first_position(rest, '@', rest.len() as int);
    text::lemma_first_position(rest, '/', front.len() as int);
    assert(rest.take(front.len() as int) =~= front);
    assert(!text::is_white('['));
    text::law_trim_takes_the_space(left, authority, right);
    text::lemma_first_position(authority, ']', authority.len() as int);
}

} // verus!
