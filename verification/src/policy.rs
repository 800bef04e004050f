//! What a profile asks of a session, and when the session acts on it.

use vstd::prelude::*;

use crate::profile::{text_view, RdpProfile};
use crate::settings::{lookup_either, Entries};
use crate::text::{chars_of, parse_unsigned, same_text, text_of, trim, trimmed};

verus! {

/// Nanoseconds of a second.
pub const SECOND: u64 = 1_000_000_000;

/// Nanoseconds of a millisecond.
pub const MILLISECOND: u64 = 1_000_000;

// ---- Switches and numbers ---------------------------------------------------

/// Whether a setting is switched on.
pub open spec fn switched_on(value: Seq<char>) -> bool {
    value == "1"@ || value == "true"@ || value == "yes"@ || value == "on"@
}

/// Whether a setting is switched off.
pub open spec fn switched_off(value: Seq<char>) -> bool {
    value == "0"@ || value == "false"@ || value == "no"@ || value == "off"@
}

/// Whether a setting is switched on.
pub fn is_on(value: &str) -> (on: bool)
    ensures
        on == switched_on(value@),
{
    let chars = chars_of(value);
    let s = chars.as_slice();
    same_text(s, "1") || same_text(s, "true") || same_text(s, "yes") || same_text(s, "on")
}

/// Whether a setting is switched off.
pub fn is_off(value: &str) -> (off: bool)
    ensures
        off == switched_off(value@),
{
    let chars = chars_of(value);
    let s = chars.as_slice();
    same_text(s, "0") || same_text(s, "false") || same_text(s, "no") || same_text(s, "off")
}

/// `n`, or the nearer of `low` and `high` where it lies outside them.
pub open spec fn clamped(n: nat, low: nat, high: nat) -> nat {
    if n < low {
        low
    } else if n > high {
        high
    } else {
        n
    }
}

/// The number that a setting writes, brought between `low` and `high`, or
/// `default` where it writes none up to `max`.
pub open spec fn clamped_setting(
    value: Option<Seq<char>>,
    max: nat,
    low: nat,
    high: nat,
    default: nat,
) -> nat {
    match value {
        Some(text) => match crate::text::parsed(text, max) {
            Some(n) => clamped(n, low, high),
            None => default,
        },
        None => default,
    }
}

fn clamp_setting(value: Option<&String>, max: u64, low: u64, high: u64, default: u64) -> (n: u64)
    requires
        low <= high,
    ensures
        n == clamped_setting(
            match value {
                Some(text) => Some(text@),
                None => None,
            },
            max as nat,
            low as nat,
            high as nat,
            default as nat,
        ),
{
    match value {
        Some(text) => {
            let chars = chars_of(text.as_str());
            match parse_unsigned(chars.as_slice(), max) {
                Some(n) => if n < low {
                    low
                } else if n > high {
                    high
                } else {
                    n
                },
                None => default,
            }
        },
        None => default,
    }
}

// ---- Staying awake ----------------------------------------------------------

/// Whether and how often the remote desktop is kept awake.
#[derive(Clone, Copy, Debug)]
pub struct KeepAwakePolicy {
    pub enabled: bool,
    /// Seconds between two signs of life.
    pub interval_seconds: u64,
}

impl KeepAwakePolicy {
    /// What the settings ask for: on unless switched off, every 30 seconds
    /// unless a number says otherwise, which is brought between 2 and 300.
    pub open spec fn asked(extra: Entries) -> KeepAwakePolicy {
        KeepAwakePolicy {
            enabled: match lookup_either(extra, "portix_keep_awake"@, "keep_awake"@) {
                Some(value) => !switched_off(value),
                None => true,
            },
            interval_seconds: clamped_setting(
                lookup_either(
                    extra,
                    "portix_keep_awake_interval_seconds"@,
                    "keep_awake_interval_seconds"@,
                ),
                u64::MAX as nat,
                2,
                300,
                30,
            ) as u64,
        }
    }

    /// What the profile asks for.
    pub fn from_profile(profile: &RdpProfile) -> (policy: Self)
        ensures
            policy == KeepAwakePolicy::asked(profile.extra@),
    {
        let enabled = match profile.extra.get_either("portix_keep_awake", "keep_awake") {
            Some(value) => !is_off(value.as_str()),
            None => true,
        };
        let interval_seconds = clamp_setting(
            profile.extra.get_either(
                "portix_keep_awake_interval_seconds",
                "keep_awake_interval_seconds",
            ),
            u64::MAX,
            2,
            300,
            30,
        );
        KeepAwakePolicy { enabled, interval_seconds }
    }
}

/// The interval lies between 2 and 300 seconds, whatever is asked for.
pub proof fn keep_awake_interval_bounds(extra: Entries)
    ensures
        2 <= KeepAwakePolicy::asked(extra).interval_seconds <= 300,
{
}

// ---- Unlocking --------------------------------------------------------------

/// Whether a dark desktop is unlocked with the password.
#[derive(Clone, Copy, Debug)]
pub struct AutoUnlockPolicy {
    pub enabled: bool,
    /// Nanoseconds before the desktop is looked at.
    pub initial_delay: u64,
    /// Nanoseconds between waking it and typing.
    pub wake_delay: u64,
}

impl AutoUnlockPolicy {
    /// What the settings ask for: off unless switched on.
    pub open spec fn asked(extra: Entries) -> AutoUnlockPolicy {
        AutoUnlockPolicy {
            enabled: match lookup_either(extra, "portix_auto_unlock"@, "auto_unlock"@) {
                Some(value) => switched_on(value),
                None => false,
            },
            initial_delay: 2_000_000_000,
            wake_delay: 900_000_000,
        }
    }

    /// What the profile asks for.
    pub fn from_profile(profile: &RdpProfile) -> (policy: Self)
        ensures
            policy == AutoUnlockPolicy::asked(profile.extra@),
    {
        let enabled = match profile.extra.get_either("portix_auto_unlock", "auto_unlock") {
            Some(value) => is_on(value.as_str()),
            None => false,
        };
        AutoUnlockPolicy { enabled, initial_delay: 2_000_000_000, wake_delay: 900_000_000 }
    }
}

// ---- Mapped folders ---------------------------------------------------------

/// Which local folder appears on the remote desktop, and under what name.
#[derive(Clone, Debug)]
pub struct DriveRedirectionPolicy {
    pub root: Option<String>,
    pub name: String,
}

/// The folder that the settings name; none where it is blank.
pub open spec fn named_folder(extra: Entries) -> Option<Seq<char>> {
    match lookup_either(extra, "portix_drive_path"@, "drive_path"@) {
        Some(value) if trimmed(value).len() > 0 => Some(trimmed(value)),
        _ => None,
    }
}

pub open spec fn drive_char(c: char) -> bool {
    ('0' <= c && c <= '9') || ('A' <= c && c <= 'Z') || ('a' <= c && c <= 'z') || c == '_'
}

/// The characters of `s` that a drive name may have.
pub open spec fn drive_chars(s: Seq<char>) -> Seq<char>
    decreases s.len(),
{
    if s.len() == 0 {
        s
    } else if drive_char(s.last()) {
        drive_chars(s.drop_last()).push(s.last())
    } else {
        drive_chars(s.drop_last())
    }
}

/// The name that the settings give to the folder: its first seven letters,
/// digits and underscores, or `PORTIX` where there are none.
pub open spec fn drive_name(extra: Entries) -> Seq<char> {
    let asked = match lookup_either(extra, "portix_drive_name"@, "drive_name"@) {
        Some(value) if trimmed(value).len() > 0 => trimmed(value),
        _ => "PORTIX"@,
    };
    let kept = drive_chars(asked);
    if kept.len() == 0 {
        "PORTIX"@
    } else if kept.len() > 7 {
        kept.take(7)
    } else {
        kept
    }
}

proof fn lemma_drive_chars(s: Seq<char>)
    ensures
        forall|i: int| 0 <= i < drive_chars(s).len() ==> drive_char(#[trigger] drive_chars(s)[i]),
    decreases s.len(),
{
    if s.len() > 0 {
        let rest = drive_chars(s.drop_last());
        lemma_drive_chars(s.drop_last());
        assert forall|i: int| 0 <= i < drive_chars(s).len() implies drive_char(
            #[trigger] drive_chars(s)[i],
        ) by {
            if i < rest.len() {
                assert(drive_char(rest[i]));
            }
        }
    }
}

/// A drive name has one to seven characters, all letters, digits or
/// underscores.
pub proof fn drive_name_is_short(extra: Entries)
    ensures
        1 <= drive_name(extra).len() <= 7,
        forall|i: int| 0 <= i < drive_name(extra).len() ==> drive_char(
            #[trigger] drive_name(extra)[i],
        ),
{
    reveal_strlit("PORTIX");
    lemma_drive_chars("PORTIX"@);
    if let Some(value) = lookup_either(extra, "portix_drive_name"@, "drive_name"@) {
        lemma_drive_chars(trimmed(value));
    }
}

fn keep_drive_chars(s: &[char]) -> (kept: Vec<char>)
    ensures
        kept@ == drive_chars(s@),
{
    let mut kept: Vec<char> = Vec::new();
    let mut i: usize = 0;
    assert(s@.take(0) =~= Seq::<char>::empty());
    while i < s.len()
        invariant
            i <= s@.len(),
            kept@ == drive_chars(s@.take(i as int)),
        decreases s@.len() - i,
    {
        let c = s[i];
        assert(s@.take(i + 1).drop_last() =~= s@.take(i as int));
        if ('0' <= c && c <= '9') || ('A' <= c && c <= 'Z') || ('a' <= c && c <= 'z') || c == '_' {
            kept.push(c);
        }
        i += 1;
    }
    assert(s@.take(i as int) =~= s@);
    kept
}

impl DriveRedirectionPolicy {
    /// The folder that the profile names, which is yet to be looked for.
    pub fn wanted_root(profile: &RdpProfile) -> (root: Option<String>)
        ensures
            text_view(root) == named_folder(profile.extra@),
    {
        match profile.extra.get_either("portix_drive_path", "drive_path") {
            Some(value) => {
                let chars = chars_of(value.as_str());
                let path = trim(chars.as_slice());
                if path.len() == 0 {
                    None
                } else {
                    Some(text_of(path))
                }
            },
            None => None,
        }
    }

    /// What the profile asks for, where `root_is_directory` tells whether the
    /// folder that it names is there.
    pub fn from_profile(profile: &RdpProfile, root_is_directory: bool) -> (policy: Self)
        ensures
            text_view(policy.root) == (if root_is_directory {
                named_folder(profile.extra@)
            } else {
                None
            }),
            policy.name@ == drive_name(profile.extra@),
    {
        let root = if root_is_directory {
            DriveRedirectionPolicy::wanted_root(profile)
        } else {
            None
        };
        let mut asked = chars_of("PORTIX");
        if let Some(value) = profile.extra.get_either("portix_drive_name", "drive_name") {
            let chars = chars_of(value.as_str());
            let name = trim(chars.as_slice());
            if name.len() > 0 {
                asked = vstd::slice::slice_to_vec(name);
            }
        }
        let mut kept = keep_drive_chars(asked.as_slice());
        let ghost all = kept@;
        if kept.len() > 7 {
            kept.truncate(7);
            assert(kept@ =~= all.take(7));
        }
        let name = if kept.len() == 0 {
            "PORTIX".to_owned()
        } else {
            text_of(kept.as_slice())
        };
        DriveRedirectionPolicy { root, name }
    }

    /// Whether a folder is mapped.
    pub fn enabled(&self) -> (enabled: bool)
        ensures
            enabled == (self.root is Some),
    {
        self.root.is_some()
    }
}

// ---- Pictures ---------------------------------------------------------------

/// How often the picture is shown, and how.
#[derive(Clone, Copy, Debug)]
pub struct FramePolicy {
    pub max_fps: u16,
    pub bandwidth_saving: bool,
    /// Whether events carry pixels, or only signal a change.
    pub stream_pixels: bool,
}

impl FramePolicy {
    /// What the settings ask for: 60 pictures in a second unless a number says
    /// otherwise, which is brought between 15 and 60; the environment's setting
    /// counts where the settings say nothing about pixels.
    pub open spec fn asked(extra: Entries, environment: Option<Seq<char>>) -> FramePolicy {
        FramePolicy {
            max_fps: clamped_setting(
                lookup_either(extra, "portix_fps"@, "fps"@),
                u16::MAX as nat,
                15,
                60,
                60,
            ) as u16,
            bandwidth_saving: match lookup_either(
                extra,
                "bandwidth_saving"@,
                "portix_bandwidth_saving"@,
            ) {
                Some(value) => switched_on(value),
                None => false,
            },
            stream_pixels: match lookup_either(extra, "stream_pixels"@, "portix_stream_pixels"@) {
                Some(value) => switched_on(value),
                None => environment matches Some(value) && switched_on(value),
            },
        }
    }

    /// What the profile asks for.
    pub fn from_profile(profile: &RdpProfile, environment: Option<&str>) -> (policy: Self)
        ensures
            policy == FramePolicy::asked(
                profile.extra@,
                match environment {
                    Some(value) => Some(value@),
                    None => None,
                },
            ),
    {
        let max_fps = clamp_setting(
            profile.extra.get_either("portix_fps", "fps"),
            u16::MAX as u64,
            15,
            60,
            60,
        ) as u16;
        let bandwidth_saving = match profile.extra.get_either(
            "bandwidth_saving",
            "portix_bandwidth_saving",
        ) {
            Some(value) => is_on(value.as_str()),
            None => false,
        };
        let stream_pixels = match profile.extra.get_either(
            "stream_pixels",
            "portix_stream_pixels",
        ) {
            Some(value) => is_on(value.as_str()),
            None => match environment {
                Some(value) => is_on(value),
                None => false,
            },
        };
        FramePolicy { max_fps, bandwidth_saving, stream_pixels }
    }
}

/// The rate lies between 15 and 60, whatever is asked for.
pub proof fn frame_rate_bounds(extra: Entries, environment: Option<Seq<char>>)
    ensures
        15 <= FramePolicy::asked(extra, environment).max_fps <= 60,
{
}

/// Decides when a changed picture is shown. Times are in nanoseconds.
#[derive(Clone, Copy, Debug)]
pub struct FramePacer {
    pub policy: FramePolicy,
    pub last_emit: u64,
    pub last_input: u64,
}

/// The time from `earlier` to `later`, none where it is not later.
pub open spec fn since(later: u64, earlier: u64) -> nat {
    if later >= earlier {
        (later - earlier) as nat
    } else {
        0
    }
}

fn elapsed(later: u64, earlier: u64) -> (time: u64)
    ensures
        time == since(later, earlier),
{
    if later >= earlier {
        later - earlier
    } else {
        0
    }
}

impl FramePacer {
    /// Pictures in a second at `now`: 15 to save bandwidth, 60 while there is
    /// input within the last quarter of a second, 30 else; never more than the
    /// policy allows.
    pub open spec fn rate(self, now: u64) -> u64 {
        if self.policy.bandwidth_saving {
            15
        } else if since(now, self.last_input) < 250 * MILLISECOND && self.policy.max_fps >= 60 {
            60
        } else if self.policy.max_fps < 30 {
            self.policy.max_fps as u64
        } else {
            30
        }
    }

    /// Nanoseconds between two pictures at `now`, in whole microseconds.
    pub open spec fn interval(self, now: u64) -> nat {
        1_000_000nat / self.rate(now) as nat * 1000
    }

    /// Whether the picture is shown at `now`.
    pub open spec fn due(self, dirty_area: nat, now: u64) -> bool {
        dirty_area > 0 && since(now, self.last_emit) >= self.interval(now)
    }

    /// Begins at `now`, as though the last picture were a second old.
    pub fn new(policy: FramePolicy, now: u64) -> (pacer: Self)
        ensures
            pacer.policy == policy,
            pacer.last_emit == (if now >= SECOND {
                (now - SECOND) as u64
            } else {
                now
            }),
            pacer.last_input == now,
    {
        let last_emit = if now >= SECOND {
            now - SECOND
        } else {
            now
        };
        FramePacer { policy, last_emit, last_input: now }
    }

    /// There is input at `now`.
    pub fn record_input(&mut self, now: u64)
        ensures
            *final(self) == (FramePacer { last_input: now, ..*old(self) }),
    {
        self.last_input = now;
    }

    /// Whether a picture of which `dirty_area` pixels have changed is shown at
    /// `now`, which is then remembered.
    pub fn should_flush(&mut self, dirty_area: usize, now: u64) -> (flush: bool)
        requires
            old(self).policy.bandwidth_saving || old(self).policy.max_fps > 0,
        ensures
            flush == old(self).due(dirty_area as nat, now),
            *final(self) == (if flush {
                FramePacer { last_emit: now, ..*old(self) }
            } else {
                *old(self)
            }),
    {
        if dirty_area == 0 {
            return false;
        }
        let active = elapsed(now, self.last_input) < 250 * MILLISECOND;
        let fps: u64 = if self.policy.bandwidth_saving {
            15
        } else if active && self.policy.max_fps >= 60 {
            60
        } else if self.policy.max_fps < 30 {
            self.policy.max_fps as u64
        } else {
            30
        };
        proof {
            assert(1_000_000u64 / fps <= 1_000_000) by (nonlinear_arith)
                requires
                    fps > 0,
            ;
        }
        let interval = 1_000_000 / fps * 1000;
        if elapsed(now, self.last_emit) >= interval {
            self.last_emit = now;
            true
        } else {
            false
        }
    }
}

/// Two pictures are not shown closer together than the interval allows.
pub proof fn pictures_are_spaced(pacer: FramePacer, first: u64, area: nat, second: u64)
    requires
        first <= second,
        (FramePacer { last_emit: first, ..pacer }).due(area, second),
    ensures
        second - first >= (FramePacer { last_emit: first, ..pacer }).interval(second),
{
}

} // verus!
