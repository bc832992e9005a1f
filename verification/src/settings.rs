//! User settings: their defaults and the ranges they are held to.
use vstd::prelude::*;
use vstd::string::*;

use crate::model;
use crate::text;

verus! {

/// Bounds on the tmux key list (how many keys, and how long each may be).
pub const MAX_KEYS: usize = 8;

pub const MAX_KEY_LEN: usize = 20;

pub const MAX_DISTRO_LEN: usize = 64;

/// What the user can configure.
#[derive(Debug)]
pub struct Settings {
    /// UI poll interval in seconds.
    pub poll_interval_secs: u64,
    /// Idle below this: green (actively working).
    pub idle_green_secs: i64,
    /// Last entry a user prompt and idle above this: red (likely stuck waiting
    /// on the API).
    pub blocked_after_secs: i64,
    /// Send the resume keys to the terminal once the wait expires.
    pub auto_continue: bool,
    /// How long to wait after a session turns red before sending the keys.
    pub wait_secs: u64,
    /// Keys sent to resume: tmux key names separated by white space.
    pub resume_keys: String,
    /// Most sends per red episode.
    pub max_sends: u32,
    /// Seconds between two sends of one episode.
    pub retry_interval_secs: u64,
    /// WSL distro name; empty for the default distro.
    pub wsl_distro: String,
    /// Hide to the system tray instead of exiting when the window closes.
    pub close_to_tray: bool,
    /// Interface and notification language: `en`, or Chinese for anything else.
    pub language: String,
    /// Notify when a session turns red.
    pub notify_red: bool,
    /// Notify when resume keys were sent.
    pub notify_continue: bool,
    /// Notify when a red session recovers.
    pub notify_recovered: bool,
    /// Notify when a session finished its turn.
    pub notify_turn_end: bool,
    /// Notify when a session's process is gone.
    pub notify_exit: bool,
    /// Play a sound with each notification.
    pub sound_alerts: bool,
    /// Query and show the plan quota.
    pub show_glm_usage: bool,
}

/// Settings as the contracts see them.
pub struct SettingsModel {
    pub poll_interval_secs: int,
    pub idle_green_secs: int,
    pub blocked_after_secs: int,
    pub auto_continue: bool,
    pub wait_secs: int,
    pub resume_keys: Seq<char>,
    pub max_sends: int,
    pub retry_interval_secs: int,
    pub wsl_distro: Seq<char>,
    pub close_to_tray: bool,
    pub language: Seq<char>,
    pub notify_red: bool,
    pub notify_continue: bool,
    pub notify_recovered: bool,
    pub notify_turn_end: bool,
    pub notify_exit: bool,
    pub sound_alerts: bool,
    pub show_glm_usage: bool,
}

impl View for Settings {
    type V = SettingsModel;

    open spec fn view(&self) -> SettingsModel {
        SettingsModel {
            poll_interval_secs: self.poll_interval_secs as int,
            idle_green_secs: self.idle_green_secs as int,
            blocked_after_secs: self.blocked_after_secs as int,
            auto_continue: self.auto_continue,
            wait_secs: self.wait_secs as int,
            resume_keys: self.resume_keys@,
            max_sends: self.max_sends as int,
            retry_interval_secs: self.retry_interval_secs as int,
            wsl_distro: self.wsl_distro@,
            close_to_tray: self.close_to_tray,
            language: self.language@,
            notify_red: self.notify_red,
            notify_continue: self.notify_continue,
            notify_recovered: self.notify_recovered,
            notify_turn_end: self.notify_turn_end,
            notify_exit: self.notify_exit,
            sound_alerts: self.sound_alerts,
            show_glm_usage: self.show_glm_usage,
        }
    }
}

impl Clone for Settings {
    fn clone(&self) -> (r: Settings)
        ensures
            r == *self,
    {
        Settings {
            poll_interval_secs: self.poll_interval_secs,
            idle_green_secs: self.idle_green_secs,
            blocked_after_secs: self.blocked_after_secs,
            auto_continue: self.auto_continue,
            wait_secs: self.wait_secs,
            resume_keys: self.resume_keys.clone(),
            max_sends: self.max_sends,
            retry_interval_secs: self.retry_interval_secs,
            wsl_distro: self.wsl_distro.clone(),
            close_to_tray: self.close_to_tray,
            language: self.language.clone(),
            notify_red: self.notify_red,
            notify_continue: self.notify_continue,
            notify_recovered: self.notify_recovered,
            notify_turn_end: self.notify_turn_end,
            notify_exit: self.notify_exit,
            sound_alerts: self.sound_alerts,
            show_glm_usage: self.show_glm_usage,
        }
    }
}

/// The settings of a fresh installation.
pub open spec fn defaults() -> SettingsModel {
    SettingsModel {
        poll_interval_secs: 5,
        idle_green_secs: 120,
        blocked_after_secs: 300,
        auto_continue: true,
        wait_secs: 18_000,
        resume_keys: "Enter"@,
        max_sends: 3,
        retry_interval_secs: 600,
        wsl_distro: Seq::empty(),
        close_to_tray: true,
        language: "zh"@,
        notify_red: true,
        notify_continue: true,
        notify_recovered: true,
        notify_turn_end: false,
        notify_exit: true,
        sound_alerts: true,
        show_glm_usage: true,
    }
}

impl Default for Settings {
    fn default() -> (r: Settings)
        ensures
            r@ == defaults(),
    {
        Settings {
            poll_interval_secs: 5,
            idle_green_secs: 120,
            blocked_after_secs: 300,
            auto_continue: true,
            wait_secs: 5 * 3600,
            resume_keys: "Enter".to_owned(),
            max_sends: 3,
            retry_interval_secs: 600,
            wsl_distro: String::new(),
            close_to_tray: true,
            language: "zh".to_owned(),
            notify_red: true,
            notify_continue: true,
            notify_recovered: true,
            notify_turn_end: false,
            notify_exit: true,
            sound_alerts: true,
            show_glm_usage: true,
        }
    }
}

// ---- ranges ---------------------------------------------------------------

/// The value of a range that is nearest to `x`.
pub open spec fn clamped(x: int, lo: int, hi: int) -> int {
    if x < lo {
        lo
    } else if x > hi {
        hi
    } else {
        x
    }
}

fn clamp_u64(x: u64, lo: u64, hi: u64) -> (r: u64)
    ensures
        r == clamped(x as int, lo as int, hi as int),
{
    if x < lo {
        lo
    } else if x > hi {
        hi
    } else {
        x
    }
}

fn clamp_i64(x: i64, lo: i64, hi: i64) -> (r: i64)
    ensures
        r == clamped(x as int, lo as int, hi as int),
{
    if x < lo {
        lo
    } else if x > hi {
        hi
    } else {
        x
    }
}

fn clamp_u32(x: u32, lo: u32, hi: u32) -> (r: u32)
    ensures
        r == clamped(x as int, lo as int, hi as int),
{
    if x < lo {
        lo
    } else if x > hi {
        hi
    } else {
        x
    }
}

// ---- resume keys ----------------------------------------------------------

/// A key that tmux reads as a key press: it does not look like an option, and
/// it is no longer than a key name can be.
pub open spec fn usable_key(w: Seq<char>) -> bool {
    !text::starts_with(w, '-') && text::byte_len(w) <= MAX_KEY_LEN
}

/// The usable keys among some words, in order.
pub open spec fn usable_keys(ws: Seq<Seq<char>>) -> Seq<Seq<char>>
    decreases ws.len(),
{
    if ws.len() == 0 {
        ws
    } else if usable_key(ws.last()) {
        usable_keys(ws.drop_last()).push(ws.last())
    } else {
        usable_keys(ws.drop_last())
    }
}

/// At most the first `MAX_KEYS` of some keys.
pub open spec fn first_keys(ks: Seq<Seq<char>>) -> Seq<Seq<char>> {
    if ks.len() <= MAX_KEYS {
        ks
    } else {
        ks.take(MAX_KEYS as int)
    }
}

/// The key list that a raw text stands for: its first usable keys, separated
/// by single spaces; `Enter` where it holds none.
pub open spec fn clean_keys(raw: Seq<char>) -> Seq<char> {
    let ks = first_keys(usable_keys(text::words(raw)));
    if ks.len() == 0 {
        "Enter"@
    } else {
        text::joined(ks)
    }
}

/// The key list that a raw text stands for; see `clean_keys`.
pub fn sanitize_keys(raw: &str) -> (r: String)
    ensures
        r@ == clean_keys(raw@),
{
    let ws = text::split_words(raw);
    let mut keys: Vec<String> = Vec::new();
    let ghost all = model::views(ws@);
    let mut i: usize = 0;
    proof {
        assert(all.take(0) =~= Seq::empty());
        assert(model::views(keys@) =~= all.take(0));
    }
    while i < ws.len()
        invariant
            i <= ws@.len(),
            all == model::views(ws@),
            model::views(keys@) == first_keys(usable_keys(all.take(i as int))),
        decreases ws@.len() - i,
    {
        proof {
            model::lemma_take_step(all, i as int);
        }
        let w: &String = &ws[i];
        let ghost found = usable_keys(all.take(i as int));
        if !text::begins_with(w.as_str(), '-') && text::bytes_of(w.as_str()) <= MAX_KEY_LEN {
            if keys.len() < MAX_KEYS {
                let k = w.clone();
                proof {
                    model::lemma_views_push(keys@, k);
                    assert(model::views(keys@).len() == keys@.len());
                    assert(found.len() < MAX_KEYS);
                }
                keys.push(k);
            } else {
                proof {
                    assert(model::views(keys@).len() == keys@.len());
                    if found.len() > MAX_KEYS {
                        assert(found.push(w@).take(MAX_KEYS as int) =~= found.take(MAX_KEYS as int));
                    } else {
                        assert(found.push(w@).take(MAX_KEYS as int) =~= found);
                    }
                }
            }
        }
        i = i + 1;
    }
    proof {
        model::lemma_take_all(all);
        assert(model::views(keys@).len() == keys@.len());
    }
    if keys.len() == 0 {
        "Enter".to_owned()
    } else {
        text::join_words(&keys)
    }
}

// ---- distro name ----------------------------------------------------------

/// A name that is a single argument of the command line.
pub open spec fn single_name(name: Seq<char>) -> bool {
    &&& name.len() > 0
    &&& text::byte_len(name) <= MAX_DISTRO_LEN
    &&& !text::has_white(name)
    &&& !text::has_control(name)
}

/// The distro that a raw text names: the trimmed text where it is a single
/// name, the default distro otherwise.
pub open spec fn clean_distro(raw: Seq<char>) -> Seq<char> {
    let name = text::trimmed(raw);
    if single_name(name) {
        name
    } else {
        Seq::empty()
    }
}

/// The distro that a raw text names; see `clean_distro`.
pub fn sanitize_distro(raw: &str) -> (r: String)
    ensures
        r@ == clean_distro(raw@),
{
    let name = text::trim(raw);
    let n: &str = name.as_str();
    if !n.is_empty() && text::bytes_of(n) <= MAX_DISTRO_LEN && !text::any_white(n)
        && !text::any_control(n) {
        name
    } else {
        String::new()
    }
}

// ---- the whole record -----------------------------------------------------

/// Settings with every field inside its range.
pub open spec fn sanitized(m: SettingsModel) -> SettingsModel {
    SettingsModel {
        poll_interval_secs: clamped(m.poll_interval_secs, 2, 3600),
        idle_green_secs: clamped(m.idle_green_secs, 5, 86_400),
        blocked_after_secs: clamped(m.blocked_after_secs, 10, 86_400),
        wait_secs: clamped(m.wait_secs, 0, 604_800),
        max_sends: clamped(m.max_sends, 1, 100),
        retry_interval_secs: clamped(m.retry_interval_secs, 5, 86_400),
        resume_keys: clean_keys(m.resume_keys),
        wsl_distro: clean_distro(m.wsl_distro),
        ..m
    }
}

impl Settings {
    /// The settings to run with, given what was decoded from the settings
    /// file; the defaults where nothing could be.
    pub fn load(decoded: Option<Settings>) -> (r: Settings)
        ensures
            r@ == sanitized(
                match decoded {
                    Some(s) => s@,
                    None => defaults(),
                },
            ),
    {
        match decoded {
            Some(s) => s.sanitize(),
            None => Settings::default().sanitize(),
        }
    }

    /// Clamp every field into a usable range.
    ///
    /// The settings file can be edited by hand, so nothing in it can be
    /// trusted: a poll interval of 0 would spin the detector, and a resume key
    /// of `-R` would be read by tmux as an option.
    pub fn sanitize(self) -> (r: Settings)
        ensures
            r@ == sanitized(self@),
    {
        let mut s = self;
        s.poll_interval_secs = clamp_u64(s.poll_interval_secs, 2, 3600);
        s.idle_green_secs = clamp_i64(s.idle_green_secs, 5, 86_400);
        s.blocked_after_secs = clamp_i64(s.blocked_after_secs, 10, 86_400);
        // 0 is meaningful: send as soon as the session turns red
        s.wait_secs = clamp_u64(s.wait_secs, 0, 7 * 86_400);
        s.max_sends = clamp_u32(s.max_sends, 1, 100);
        s.retry_interval_secs = clamp_u64(s.retry_interval_secs, 5, 86_400);
        s.resume_keys = sanitize_keys(s.resume_keys.as_str());
        s.wsl_distro = sanitize_distro(s.wsl_distro.as_str());
        s
    }
}

// ---- laws -----------------------------------------------------------------

proof fn lemma_usable_keys(ws: Seq<Seq<char>>)
    ensures
        usable_keys(ws).len() <= ws.len(),
        forall|i: int|
            0 <= i < usable_keys(ws).len() ==> usable_key(#[trigger] usable_keys(ws)[i])
                && ws.contains(usable_keys(ws)[i]),
        (forall|i: int| 0 <= i < ws.len() ==> usable_key(#[trigger] ws[i])) ==> usable_keys(ws) == ws,
    decreases ws.len(),
{
    if ws.len() > 0 {
        let front = ws.drop_last();
        lemma_usable_keys(front);
        let u = usable_keys(ws);
        assert forall|i: int| 0 <= i < u.len() implies usable_key(#[trigger] u[i]) && ws.contains(
            u[i],
        ) by {
            if i < usable_keys(front).len() {
                assert(u[i] == usable_keys(front)[i]);
                let k = choose|k: int| 0 <= k < front.len() && front[k] == u[i];
                assert(ws[k] == u[i]);
            } else {
                assert(ws[ws.len() - 1] == u[i]);
            }
        }
        if forall|i: int| 0 <= i < ws.len() ==> usable_key(#[trigger] ws[i]) {
            assert forall|i: int| 0 <= i < front.len() implies usable_key(#[trigger] front[i]) by {
                assert(usable_key(ws[i]));
            }
            assert(usable_key(ws[ws.len() - 1]));
            assert(front.push(ws.last()) =~= ws);
        }
    }
}

/// What is kept of a key list: usable words, at most `MAX_KEYS` of them.
proof fn lemma_kept(raw: Seq<char>)
    ensures
        ({
            let ks = first_keys(usable_keys(text::words(raw)));
            &&& ks.len() <= MAX_KEYS
            &&& forall|i: int|
                0 <= i < ks.len() ==> usable_key(#[trigger] ks[i]) && text::is_word(ks[i])
        }),
{
    let ws = text::words(raw);
    let u = usable_keys(ws);
    let ks = first_keys(u);
    lemma_usable_keys(ws);
    text::lemma_words_are_words(raw);
    assert forall|i: int| 0 <= i < ks.len() implies usable_key(#[trigger] ks[i]) && text::is_word(
        ks[i],
    ) by {
        assert(ks[i] == u[i]);
        let k = choose|k: int| 0 <= k < ws.len() && ws[k] == u[i];
        assert(text::is_word(ws[k]));
    }
}

proof fn lemma_enter_is_a_key()
    ensures
        text::words("Enter"@) == seq!["Enter"@],
        usable_key("Enter"@),
{
    reveal_strlit("Enter");
    let e = "Enter"@;
    assert(e.len() == 5);
    assert(text::is_word(e));
    let one = seq![e];
    assert forall|i: int| 0 <= i < one.len() implies text::is_word(#[trigger] one[i]) by {}
    text::law_words_of_joined(one);
    assert(text::joined(one) == e);
    assert(vstd::utf8::is_ascii_chars(e));
    vstd::utf8::is_ascii_chars_encode_utf8(e);
}

/// The keys of a sanitized key list: there is at least one and at most
/// `MAX_KEYS`, none is longer than `MAX_KEY_LEN` bytes, and none can be read
/// by tmux as an option.
pub proof fn law_resume_keys_are_never_options(raw: Seq<char>)
    ensures
        1 <= text::words(clean_keys(raw)).len() <= MAX_KEYS,
        forall|i: int|
            0 <= i < text::words(clean_keys(raw)).len() ==> {
                &&& !text::starts_with(#[trigger] text::words(clean_keys(raw))[i], '-')
                &&& text::byte_len(text::words(clean_keys(raw))[i]) <= MAX_KEY_LEN
            },
{
    let ks = first_keys(usable_keys(text::words(raw)));
    lemma_kept(raw);
    if ks.len() == 0 {
        lemma_enter_is_a_key();
    } else {
        text::law_words_of_joined(ks);
    }
}

/// A sanitized distro name is empty or a single word.
pub proof fn law_distro_is_one_argument(raw: Seq<char>)
    ensures
        clean_distro(raw).len() == 0 || single_name(clean_distro(raw)),
{
}

proof fn lemma_clean_keys_is_idempotent(raw: Seq<char>)
    ensures
        clean_keys(clean_keys(raw)) == clean_keys(raw),
        clean_keys("Enter"@) == "Enter"@,
{
    let ks = first_keys(usable_keys(text::words(raw)));
    lemma_kept(raw);
    lemma_enter_is_a_key();
    let one = seq!["Enter"@];
    lemma_usable_keys(one);
    assert(usable_keys(one) == one);
    assert(text::joined(one) == "Enter"@);
    if ks.len() != 0 {
        text::law_words_of_joined(ks);
        lemma_usable_keys(ks);
        assert(usable_keys(ks) == ks);
    }
}

proof fn lemma_clean_distro_is_idempotent(raw: Seq<char>)
    ensures
        clean_distro(clean_distro(raw)) == clean_distro(raw),
{
    let d = clean_distro(raw);
    text::lemma_trimmed(raw);
    text::lemma_trimmed(d);
    assert(clean_distro(d) =~= d);
}

/// Sanitizing settings that are sane already changes nothing.
pub proof fn law_sanitize_is_idempotent(m: SettingsModel)
    ensures
        sanitized(sanitized(m)) == sanitized(m),
{
    lemma_clean_keys_is_idempotent(m.resume_keys);
    lemma_clean_distro_is_idempotent(m.wsl_distro);
}

/// The defaults are sane.
pub proof fn law_defaults_are_sane()
    ensures
        sanitized(defaults()) == defaults(),
{
    lemma_clean_keys_is_idempotent("Enter"@);
    let d = defaults();
    text::lemma_trimmed(d.wsl_distro);
    assert(clean_distro(d.wsl_distro) =~= d.wsl_distro);
}

/// Sanitizing keeps every switch and the language as the user set them.
pub proof fn law_sanitize_keeps_every_switch(m: SettingsModel)
    ensures
        ({
            let r = sanitized(m);
            &&& r.auto_continue == m.auto_continue
            &&& r.close_to_tray == m.close_to_tray
            &&& r.language == m.language
            &&& r.notify_red == m.notify_red
            &&& r.notify_continue == m.notify_continue
            &&& r.notify_recovered == m.notify_recovered
            &&& r.notify_turn_end == m.notify_turn_end
            &&& r.notify_exit == m.notify_exit
            &&& r.sound_alerts == m.sound_alerts
            &&& r.show_glm_usage == m.show_glm_usage
        }),
{
}

/// Sanitizing moves each number no further than into its range: it keeps one
/// that lies in the range already, and takes the nearest bound otherwise.
pub proof fn law_sanitize_moves_numbers_into_their_range(m: SettingsModel)
    ensures
        ({
            let r = sanitized(m);
            &&& 2 <= r.poll_interval_secs <= 3600
            &&& 5 <= r.idle_green_secs <= 86_400
            &&& 10 <= r.blocked_after_secs <= 86_400
            &&& 0 <= r.wait_secs <= 604_800
            &&& 1 <= r.max_sends <= 100
            &&& 5 <= r.retry_interval_secs <= 86_400
            &&& 2 <= m.poll_interval_secs <= 3600 ==> r.poll_interval_secs == m.poll_interval_secs
            &&& 5 <= m.idle_green_secs <= 86_400 ==> r.idle_green_secs == m.idle_green_secs
            &&& 10 <= m.blocked_after_secs <= 86_400 ==> r.blocked_after_secs
                == m.blocked_after_secs
            &&& 0 <= m.wait_secs <= 604_800 ==> r.wait_secs == m.wait_secs
            &&& 1 <= m.max_sends <= 100 ==> r.max_sends == m.max_sends
            &&& 5 <= m.retry_interval_secs <= 86_400 ==> r.retry_interval_secs
                == m.retry_interval_secs
            &&& m.poll_interval_secs < 2 ==> r.poll_interval_secs == 2
            &&& m.poll_interval_secs > 3600 ==> r.poll_interval_secs == 3600
            &&& m.idle_green_secs < 5 ==> r.idle_green_secs == 5
            &&& m.idle_green_secs > 86_400 ==> r.idle_green_secs == 86_400
            &&& m.blocked_after_secs < 10 ==> r.blocked_after_secs == 10
            &&& m.blocked_after_secs > 86_400 ==> r.blocked_after_secs == 86_400
            &&& m.wait_secs > 604_800 ==> r.wait_secs == 604_800
            &&& m.max_sends < 1 ==> r.max_sends == 1
            &&& m.max_sends > 100 ==> r.max_sends == 100
            &&& m.retry_interval_secs < 5 ==> r.retry_interval_secs == 5
            &&& m.retry_interval_secs > 86_400 ==> r.retry_interval_secs == 86_400
        }),
{
}

/// A word that tmux can take as a key: no option, and at most 20 bytes.
pub open spec fn key_word(w: Seq<char>) -> bool {
    (w.len() > 0 ==> w[0] != '-') && text::byte_len(w) <= 20
}

/// Whether some word of a text is a key.
pub open spec fn names_a_key(raw: Seq<char>) -> bool {
    exists|i: int| 0 <= i < text::words(raw).len() && key_word(#[trigger] text::words(raw)[i])
}

/// A key list is read word by word. A text without a key stands for `Enter`. One
/// more word that is no key changes nothing. One that is a key stands alone
/// where there was none before, is added behind the others while there are
/// fewer than eight, and changes nothing after that.
pub proof fn law_keys_are_read_word_by_word(raw: Seq<char>, w: Seq<char>)
    requires
        text::is_word(w),
    ensures
        ({
            let longer = clean_keys(raw + seq![' '] + w);
            let keys = text::words(clean_keys(raw));
            &&& !names_a_key(raw) ==> clean_keys(raw) == "Enter"@
            &&& !key_word(w) ==> longer == clean_keys(raw)
            &&& key_word(w) && !names_a_key(raw) ==> longer == w
            &&& key_word(w) && names_a_key(raw) && keys.len() < 8 ==> text::words(longer)
                == keys.push(w)
            &&& key_word(w) && names_a_key(raw) && keys.len() >= 8 ==> longer == clean_keys(raw)
        }),
{
    let ws = text::words(raw);
    let all = usable_keys(ws);
    let ks = first_keys(all);
    let e = Seq::<char>::empty();
    text::law_words_are_separated_by_white_space(raw, ' ', w);
    text::law_words_are_separated_by_white_space(w, ' ', e);
    assert(text::words(raw + seq![' '] + w) =~= ws.push(w));
    assert(ws.push(w).drop_last() =~= ws);
    lemma_names_a_key(raw);
    lemma_kept(raw);
    lemma_kept(raw + seq![' '] + w);
    if ks.len() > 0 {
        text::law_words_of_joined(ks);
    }
    if key_word(w) {
        let more = all.push(w);
        assert(usable_keys(ws.push(w)) == more);
        if all.len() < MAX_KEYS {
            text::law_words_of_joined(more);
            if all.len() == 0 {
                assert(more =~= seq![w]);
            }
        } else {
            assert(more.take(MAX_KEYS as int) =~= all.take(MAX_KEYS as int));
            assert(all.take(MAX_KEYS as int) =~= ks);
        }
    }
}

proof fn lemma_names_a_key(raw: Seq<char>)
    ensures
        usable_keys(text::words(raw)).len() > 0 <==> names_a_key(raw),
{
    let ws = text::words(raw);
    lemma_some_usable(ws);
}

proof fn lemma_some_usable(ws: Seq<Seq<char>>)
    ensures
        usable_keys(ws).len() > 0 <==> exists|i: int|
            0 <= i < ws.len() && key_word(#[trigger] ws[i]),
    decreases ws.len(),
{
    if ws.len() > 0 {
        let front = ws.drop_last();
        lemma_some_usable(front);
        assert(ws[ws.len() - 1] == ws.last());
        if exists|i: int| 0 <= i < front.len() && key_word(#[trigger] front[i]) {
            let i = choose|i: int| 0 <= i < front.len() && key_word(#[trigger] front[i]);
            assert(ws[i] == front[i]);
        }
        if exists|i: int| 0 <= i < ws.len() && key_word(#[trigger] ws[i]) {
            let i = choose|i: int| 0 <= i < ws.len() && key_word(#[trigger] ws[i]);
            if i < front.len() {
                assert(front[i] == ws[i]);
            }
        }
    }
}

/// A distro name is kept, without the white space around it, exactly where it is
/// one word of at most 64 bytes without control codes; anything else means the
/// default distro.
pub proof fn law_distro_is_kept_or_dropped_whole(m: SettingsModel)
    ensures
        ({
            let name = text::trimmed(m.wsl_distro);
            let kept = sanitized(m).wsl_distro;
            let fits = text::byte_len(name) <= 64 && forall|i: int|
                0 <= i < name.len() ==> !text::white(#[trigger] name[i]) && !text::control(name[i]);
            &&& fits ==> kept == name
            &&& !fits ==> kept.len() == 0
        }),
{
    let name = text::trimmed(m.wsl_distro);
    if name.len() == 0 {
        assert(clean_distro(m.wsl_distro) =~= name);
    }
}

/// The keys that a monitor runs with are those of the key list, read as such:
/// only its words matter, not the white space between them.
pub proof fn law_sanitized_settings_run_with_clean_keys(m: SettingsModel, other: SettingsModel)
    ensures
        text::words(m.resume_keys) == text::words(other.resume_keys) ==> sanitized(m).resume_keys
            == sanitized(other).resume_keys,
        sanitized(m).resume_keys == clean_keys(m.resume_keys),
{
}

/// What a fresh installation does: it polls every five seconds, counts two
/// minutes without activity as quiet and five without an answer as stuck, and
/// presses Enter after five hours, three times at most and ten minutes apart. It
/// speaks Chinese, runs in the default distro, hides in the tray, and tells of
/// everything but the end of a turn.
pub proof fn law_fresh_installation()
    ensures
        ({
            let d = defaults();
            &&& d.poll_interval_secs == 5
            &&& d.idle_green_secs == 2 * 60
            &&& d.blocked_after_secs == 5 * 60
            &&& d.auto_continue
            &&& d.wait_secs == 5 * 60 * 60
            &&& d.resume_keys == "Enter"@
            &&& d.max_sends == 3
            &&& d.retry_interval_secs == 10 * 60
            &&& d.wsl_distro.len() == 0
            &&& d.close_to_tray
            &&& d.language == "zh"@
            &&& d.notify_red && d.notify_continue && d.notify_recovered && d.notify_exit
            &&& !d.notify_turn_end
            &&& d.sound_alerts
            &&& d.show_glm_usage
        }),
{
}

} // verus!
