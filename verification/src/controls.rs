//! The decisions behind the window controls: the texts shown on screen
//! after an action, the accelerating relative seek, the picture-in-picture
//! toggle and the command that makes a tiling window manager float the
//! window.

use vstd::prelude::*;
use crate::text::{decimal, signed_decimal, push_str, push_signed_decimal};

verus! {

/// The label of a video scale mode (modes above 5 are all `9:16`).
pub open spec fn scale_label(mode: int) -> Seq<char> {
    if mode == 0 { "Fit (Letterbox)"@ }
    else if mode == 1 { "Stretch"@ }
    else if mode == 2 { "Zoom (Crop)"@ }
    else if mode == 3 { "100%"@ }
    else if mode == 4 { "1:1"@ }
    else if mode == 5 { "16:9"@ }
    else { "9:16"@ }
}

/// The label of a video scale mode.
pub fn scale_mode_label(mode: i32) -> (label: &'static str)
    ensures
        label@ == scale_label(mode as int),
{
    match mode {
        0 => "Fit (Letterbox)",
        1 => "Stretch",
        2 => "Zoom (Crop)",
        3 => "100%",
        4 => "1:1",
        5 => "16:9",
        _ => "9:16",
    }
}

/// The on-screen text after the scale mode changed.
pub fn scale_osd_text(mode: i32) -> (text: String)
    ensures
        text@ == "Scale: "@ + scale_label(mode as int),
{
    let mut s = String::new();
    push_str(&mut s, "Scale: ");
    push_str(&mut s, scale_mode_label(mode));
    assert(s@ =~= "Scale: "@ + scale_label(mode as int));
    s
}

/// The on-screen text after the volume changed, given in percent.
pub fn volume_osd_text(percent: i32) -> (text: String)
    ensures
        text@ == "Volume: "@ + signed_decimal(percent as int) + "%"@,
{
    let mut s = String::new();
    push_str(&mut s, "Volume: ");
    push_signed_decimal(&mut s, percent as i64);
    push_str(&mut s, "%");
    assert(s@ =~= "Volume: "@ + signed_decimal(percent as int) + "%"@);
    s
}

/// The on-screen text after the window was pinned on top or unpinned.
pub fn pin_osd_text(pinned: bool) -> (text: String)
    ensures
        text@ == (if pinned { "Pinned"@ } else { "Unpinned"@ }),
{
    if pinned {
        "Pinned".to_owned()
    } else {
        "Unpinned".to_owned()
    }
}

/// The text for an audio delay in milliseconds.
pub open spec fn delay_text(ms: int) -> Seq<char> {
    if ms == 0 {
        "Audio Delay: 0 ms (Synced)"@
    } else if ms > 0 {
        "Audio Delay: +"@ + decimal(ms as nat) + " ms"@
    } else {
        "Audio Delay: "@ + signed_decimal(ms) + " ms"@
    }
}

/// Shifts the audio delay by `step_ms` and gives the new delay with its
/// on-screen text.
pub fn audio_delay_change(current_ms: i32, step_ms: i32) -> (res: (i32, String))
    requires
        i32::MIN <= current_ms + step_ms <= i32::MAX,
    ensures
        res.0 == current_ms + step_ms,
        res.1@ == delay_text(res.0 as int),
{
    let ms = current_ms + step_ms;
    let mut s = String::new();
    if ms == 0 {
        push_str(&mut s, "Audio Delay: 0 ms (Synced)");
    } else if ms > 0 {
        push_str(&mut s, "Audio Delay: +");
        push_signed_decimal(&mut s, ms as i64);
        push_str(&mut s, " ms");
    } else {
        push_str(&mut s, "Audio Delay: ");
        push_signed_decimal(&mut s, ms as i64);
        push_str(&mut s, " ms");
    }
    assert(s@ =~= delay_text(ms as int));
    (ms, s)
}

/// Sets the sleep timer to `mins` minutes: the time until the player
/// quits, in seconds (none when `mins` is not positive), and the
/// on-screen text.
pub fn sleep_timer_change(mins: i32) -> (res: (Option<u64>, String))
    ensures
        mins > 0 ==> res.0 == Some((mins * 60) as u64) && res.1@ == "Sleep timer: "@ + decimal(
            mins as nat,
        ) + "m"@,
        mins <= 0 ==> res.0 is None && res.1@ == "Sleep timer: Off"@,
{
    if mins > 0 {
        let mut s = String::new();
        push_str(&mut s, "Sleep timer: ");
        push_signed_decimal(&mut s, mins as i64);
        push_str(&mut s, "m");
        assert(s@ =~= "Sleep timer: "@ + decimal(mins as nat) + "m"@);
        (Some((mins as u64) * 60), s)
    } else {
        (None, "Sleep timer: Off".to_owned())
    }
}

/// How long a run of relative seeks may pause between two presses and
/// still count as one held key, in milliseconds.
pub const SEEK_HOLD_GAP_MS: u128 = 600;

/// Whether a relative seek continues the previous ones (it came less than
/// `SEEK_HOLD_GAP_MS` after the last), so that it starts from the target
/// of the last seek and counts towards the acceleration.
pub fn continues_seek_hold(since_last_ms: u128) -> (b: bool)
    ensures
        b == (since_last_ms < SEEK_HOLD_GAP_MS),
{
    since_last_ms < SEEK_HOLD_GAP_MS
}

/// The acceleration of a held relative seek.
#[derive(PartialEq, Eq, Structural, Clone, Copy, Debug)]
pub enum SeekBoost {
    /// The step that the key asks for.
    Normal,
    /// Held for two seconds: steps of at least 10 s.
    Fast,
    /// Held for five seconds: steps of at least 15 s.
    Boost,
}

/// The acceleration after the key has been held for `held_ms`.
pub open spec fn boost_for(held_ms: int) -> SeekBoost {
    if held_ms >= 5000 {
        SeekBoost::Boost
    } else if held_ms >= 2000 {
        SeekBoost::Fast
    } else {
        SeekBoost::Normal
    }
}

/// The smallest step, in seconds, of a seek with this acceleration.
pub open spec fn boost_min_step(boost: SeekBoost) -> u32 {
    match boost {
        SeekBoost::Normal => 0u32,
        SeekBoost::Fast => 10u32,
        SeekBoost::Boost => 15u32,
    }
}

/// The size, in seconds, of a relative seek whose key asks for
/// `key_step` seconds after the key has been held for `held_ms`: the key's
/// own step, raised to 10 s after two seconds and to 15 s after five.
pub open spec fn seek_step_for(key_step: int, held_ms: int) -> int {
    let floor = boost_min_step(boost_for(held_ms)) as int;
    if key_step >= floor { key_step } else { floor }
}

/// Holding the seek key longer never makes the steps smaller, and no step
/// is smaller than the key's own step.
pub proof fn lemma_boost_grows_with_hold(key_step: int, shorter_ms: int, longer_ms: int)
    requires
        shorter_ms <= longer_ms,
    ensures
        boost_min_step(boost_for(shorter_ms)) <= boost_min_step(boost_for(longer_ms)),
        seek_step_for(key_step, shorter_ms) <= seek_step_for(key_step, longer_ms),
        seek_step_for(key_step, shorter_ms) >= key_step,
{
}

/// The size of a relative seek, in whole seconds.
pub fn seek_step_secs(key_step: u32, held_ms: u128) -> (step: u32)
    ensures
        step == seek_step_for(key_step as int, held_ms as int),
{
    let floor = seek_boost(held_ms).min_step_secs();
    if key_step >= floor {
        key_step
    } else {
        floor
    }
}

/// The acceleration after the key has been held for `held_ms`.
pub fn seek_boost(held_ms: u128) -> (boost: SeekBoost)
    ensures
        boost == boost_for(held_ms as int),
{
    if held_ms >= 5000 {
        SeekBoost::Boost
    } else if held_ms >= 2000 {
        SeekBoost::Fast
    } else {
        SeekBoost::Normal
    }
}

/// The tag shown after the step of an accelerated seek.
pub open spec fn boost_tag(boost: SeekBoost) -> Seq<char> {
    match boost {
        SeekBoost::Normal => Seq::empty(),
        SeekBoost::Fast => " (10s Fast)"@,
        SeekBoost::Boost => " (15s Boost)"@,
    }
}

impl SeekBoost {
    /// The smallest step, in seconds, of a seek with this acceleration.
    pub fn min_step_secs(&self) -> (secs: u32)
        ensures
            secs == boost_min_step(*self),
    {
        match self {
            SeekBoost::Normal => 0,
            SeekBoost::Fast => 10,
            SeekBoost::Boost => 15,
        }
    }

    /// The tag shown after the step.
    pub fn tag(&self) -> (tag: &'static str)
        ensures
            tag@ == boost_tag(*self),
    {
        match self {
            SeekBoost::Normal => {
                let t = "";
                proof {
                    reveal_strlit("");
                }
                assert(t@ =~= Seq::<char>::empty());
                t
            },
            SeekBoost::Fast => " (10s Fast)",
            SeekBoost::Boost => " (15s Boost)",
        }
    }
}

/// The on-screen text of a relative seek: the new time, then the step in
/// whole seconds with `+` in front when it goes forward, then the tag.
pub fn seek_osd_text(time_text: &str, forward: bool, step_secs: i32, boost: SeekBoost) -> (text:
    String)
    ensures
        text@ == "Seek: "@ + time_text@ + " ("@ + (if forward { "+"@ } else { Seq::empty() })
            + signed_decimal(step_secs as int) + "s"@ + boost_tag(boost) + ")"@,
{
    let mut s = String::new();
    push_str(&mut s, "Seek: ");
    push_str(&mut s, time_text);
    push_str(&mut s, " (");
    if forward {
        push_str(&mut s, "+");
    }
    push_signed_decimal(&mut s, step_secs as i64);
    push_str(&mut s, "s");
    push_str(&mut s, boost.tag());
    push_str(&mut s, ")");
    assert(s@ =~= "Seek: "@ + time_text@ + " ("@ + (if forward { "+"@ } else { Seq::empty() })
        + signed_decimal(step_secs as int) + "s"@ + boost_tag(boost) + ")"@);
    s
}

/// The window size in picture-in-picture mode.
pub const PIP_WIDTH: u32 = 360;
pub const PIP_HEIGHT: u32 = 202;

/// The window title in picture-in-picture mode; window-manager rules match
/// on it to float and pin the window.
pub open spec fn pip_title() -> Seq<char> {
    "Picture-in-Picture"@
}

/// The window title outside picture-in-picture mode.
pub open spec fn player_title() -> Seq<char> {
    "ohhPlayer"@
}

/// The window title after toggling picture-in-picture.
pub open spec fn title_after_toggle(was_pip: bool) -> Seq<char> {
    if was_pip { player_title() } else { pip_title() }
}

/// What toggling picture-in-picture does to the window.
pub struct PipPlan {
    /// Whether the window is now in picture-in-picture mode.
    pub is_pip: bool,
    /// The size to restore when leaving picture-in-picture mode.
    pub saved_size: (u32, u32),
    /// The size to give the window.
    pub window_size: (u32, u32),
    /// Whether the window stays on top of the others.
    pub always_on_top: bool,
    /// Whether the controls are hidden at once.
    pub hide_controls: bool,
    /// Whether a tiling window manager is asked to float the window (else
    /// to tile it again).
    pub float_window: bool,
    /// The on-screen text.
    pub osd: String,
    /// The window title.
    pub title: String,
}

/// The window after toggling picture-in-picture: whether it is then in
/// picture-in-picture mode, the size to restore later, the size to give
/// the window, and whether it stays on top.
pub open spec fn pip_window(was_pip: bool, window_size: (u32, u32), saved_size: (u32, u32), pinned: bool) -> (
    bool,
    (u32, u32),
    (u32, u32),
    bool,
) {
    if !was_pip {
        let saved = if window_size.0 > PIP_WIDTH && window_size.1 > 200 {
            window_size
        } else {
            saved_size
        };
        (true, saved, (PIP_WIDTH, PIP_HEIGHT), true)
    } else {
        (false, saved_size, saved_size, pinned)
    }
}

/// Toggles picture-in-picture.  Entering it remembers the window size
/// (when it is larger than the picture-in-picture window), shrinks the
/// window, keeps it on top, hides the controls and floats the window;
/// leaving restores the remembered size and the pinned setting.
pub fn pip_toggle(was_pip: bool, window_size: (u32, u32), saved_size: (u32, u32), pinned: bool) -> (plan:
    PipPlan)
    ensures
        (plan.is_pip, plan.saved_size, plan.window_size, plan.always_on_top) == pip_window(
            was_pip,
            window_size,
            saved_size,
            pinned,
        ),
        plan.hide_controls == !was_pip,
        plan.float_window == !was_pip,
        plan.osd@ == (if was_pip { "PiP Mode Disabled"@ } else { "PiP Mode Enabled"@ }),
        plan.title@ == title_after_toggle(was_pip),
{
    if !was_pip {
        let saved = if window_size.0 > PIP_WIDTH && window_size.1 > 200 {
            window_size
        } else {
            saved_size
        };
        PipPlan {
            is_pip: true,
            saved_size: saved,
            window_size: (PIP_WIDTH, PIP_HEIGHT),
            always_on_top: true,
            hide_controls: true,
            float_window: true,
            osd: "PiP Mode Enabled".to_owned(),
            title: "Picture-in-Picture".to_owned(),
        }
    } else {
        PipPlan {
            is_pip: false,
            saved_size,
            window_size: saved_size,
            always_on_top: pinned,
            hide_controls: false,
            float_window: false,
            osd: "PiP Mode Disabled".to_owned(),
            title: "ohhPlayer".to_owned(),
        }
    }
}

/// Entering picture-in-picture titles the window "Picture-in-Picture";
/// leaving it again gives the window back its title, the size it had, when
/// it was larger than the picture-in-picture window, and the pinned
/// setting.
pub proof fn lemma_pip_round_trip(window_size: (u32, u32), saved_size: (u32, u32), pinned: bool)
    requires
        window_size.0 > PIP_WIDTH,
        window_size.1 > 200,
    ensures
        ({
            let enter = pip_window(false, window_size, saved_size, pinned);
            let leave = pip_window(true, enter.2, enter.1, pinned);
            &&& enter.0 && !leave.0
            &&& enter.2 == (PIP_WIDTH, PIP_HEIGHT) && enter.3
            &&& title_after_toggle(false) == pip_title()
            &&& leave.2 == window_size
            &&& leave.3 == pinned
            &&& title_after_toggle(true) == player_title()
        }),
{
}

/// Which tiling window managers the environment announces.
#[derive(PartialEq, Eq, Structural, Clone, Copy, Debug)]
pub struct WindowManagers {
    pub niri: bool,
    pub hyprland: bool,
    pub sway: bool,
    pub i3: bool,
}

/// A program to run, with its arguments.
pub struct WmCommand {
    pub program: String,
    pub args: Vec<String>,
}

/// The argument that asks sway or i3 to float the window or to tile it.
pub open spec fn floating_arg(enable: bool) -> Seq<char> {
    if enable { "floating enable"@ } else { "floating disable"@ }
}

/// The niri action that floats the window or tiles it.
pub open spec fn niri_action(enable: bool) -> Seq<char> {
    if enable { "move-window-to-floating"@ } else { "move-window-to-tiling"@ }
}

/// The Hyprland dispatcher that floats the window or tiles it.
pub open spec fn hyprland_dispatcher(enable: bool) -> Seq<char> {
    if enable { "setfloating"@ } else { "settiled"@ }
}

/// The command that makes the window float (or tile again), whatever state
/// it is in: the first window manager that the environment announces
/// decides, in the order niri, Hyprland, sway, i3; with none of them there
/// is no command.
pub open spec fn wm_command(wm: WindowManagers, enable: bool) -> Option<(Seq<char>, Seq<Seq<char>>)> {
    if wm.niri {
        Some(("niri"@, seq!["msg"@, "action"@, niri_action(enable)]))
    } else if wm.hyprland {
        Some(("hyprctl"@, seq!["dispatch"@, hyprland_dispatcher(enable)]))
    } else if wm.sway {
        Some(("swaymsg"@, seq![floating_arg(enable)]))
    } else if wm.i3 {
        Some(("i3-msg"@, seq![floating_arg(enable)]))
    } else {
        None
    }
}

/// The command to run when picture-in-picture is entered (`enable`) or
/// left.
pub fn wm_floating_command(wm: WindowManagers, enable: bool) -> (cmd: Option<WmCommand>)
    ensures
        cmd matches Some(c) ==> wm_command(wm, enable) == Some(
            (c.program@, c.args@.map_values(|a: String| a@)),
        ),
        cmd is None ==> wm_command(wm, enable) is None,
{
    let floating = if enable { "floating enable" } else { "floating disable" };
    if wm.niri {
        let action = if enable { "move-window-to-floating" } else { "move-window-to-tiling" };
        let args = vec!["msg".to_owned(), "action".to_owned(), action.to_owned()];
        assert(args@.map_values(|a: String| a@) =~= seq!["msg"@, "action"@, niri_action(enable)]);
        Some(WmCommand { program: "niri".to_owned(), args })
    } else if wm.hyprland {
        let dispatcher = if enable { "setfloating" } else { "settiled" };
        let args = vec!["dispatch".to_owned(), dispatcher.to_owned()];
        assert(args@.map_values(|a: String| a@) =~= seq!["dispatch"@, hyprland_dispatcher(enable)]);
        Some(WmCommand { program: "hyprctl".to_owned(), args })
    } else if wm.sway {
        let args = vec![floating.to_owned()];
        assert(args@.map_values(|a: String| a@) =~= seq![floating_arg(enable)]);
        Some(WmCommand { program: "swaymsg".to_owned(), args })
    } else if wm.i3 {
        let args = vec![floating.to_owned()];
        assert(args@.map_values(|a: String| a@) =~= seq![floating_arg(enable)]);
        Some(WmCommand { program: "i3-msg".to_owned(), args })
    } else {
        None
    }
}

/// The size of a relative seek, in terms of the key's step and the time
/// the key has been held: never smaller than the key's step; below two
/// seconds exactly the key's step; from two seconds the larger of the key's
/// step and 10 s; from five seconds the larger of the key's step and 15 s,
/// and no more however long the key is held.
pub proof fn lemma_seek_step_sizes(key_step: nat, held_ms: int)
    ensures
        seek_step_for(key_step as int, held_ms) >= key_step,
        held_ms < 2000 ==> seek_step_for(key_step as int, held_ms) == key_step,
        2000 <= held_ms < 5000 ==> seek_step_for(key_step as int, held_ms) == (if key_step >= 10 {
            key_step
        } else {
            10
        }),
        held_ms >= 5000 ==> seek_step_for(key_step as int, held_ms) == (if key_step >= 15 {
            key_step
        } else {
            15
        }),
        seek_step_for(key_step as int, held_ms) <= (if key_step >= 15 { key_step } else { 15 }),
        seek_step_for(key_step as int, held_ms) == key_step || seek_step_for(key_step as int, held_ms) == 10
            || seek_step_for(key_step as int, held_ms) == 15,
{
}

/// The words with which each window manager is asked to float a window.
pub open spec fn is_float_request(arg: Seq<char>) -> bool {
    arg == "move-window-to-floating"@ || arg == "setfloating"@ || arg == "floating enable"@
}

/// The words with which each window manager is asked to tile a window.
pub open spec fn is_tile_request(arg: Seq<char>) -> bool {
    arg == "move-window-to-tiling"@ || arg == "settiled"@ || arg == "floating disable"@
}

/// For every window manager the command does what is asked: entering
/// picture-in-picture asks the window manager to float the window, leaving
/// it asks to tile it, with the same program both ways; and a window
/// manager is asked only when the environment announces one.
pub proof fn lemma_wm_command_follows_request(wm: WindowManagers)
    ensures
        (wm.niri || wm.hyprland || wm.sway || wm.i3) <==> wm_command(wm, true) is Some,
        (wm.niri || wm.hyprland || wm.sway || wm.i3) <==> wm_command(wm, false) is Some,
        wm_command(wm, true) matches Some(c) ==> c.1.len() >= 1 && is_float_request(c.1.last())
            && !is_tile_request(c.1.last()),
        wm_command(wm, false) matches Some(c) ==> c.1.len() >= 1 && is_tile_request(c.1.last())
            && !is_float_request(c.1.last()),
        wm_command(wm, true) matches Some(f) ==> wm_command(wm, false) matches Some(t) && f.0
            == t.0 && f.1.len() == t.1.len(),
{
    reveal_strlit("move-window-to-floating");
    reveal_strlit("move-window-to-tiling");
    reveal_strlit("setfloating");
    reveal_strlit("settiled");
    reveal_strlit("floating enable");
    reveal_strlit("floating disable");
    let f = "move-window-to-floating"@;
    let t = "move-window-to-tiling"@;
    let sf = "setfloating"@;
    let st = "settiled"@;
    let fe = "floating enable"@;
    let fd = "floating disable"@;
    assert(f != t && f != st && f != fd) by {
        assert(f.len() != t.len() && f.len() != st.len() && f.len() != fd.len());
    }
    assert(sf != t && sf != st && sf != fd) by {
        assert(sf.len() != t.len() && sf.len() != fd.len());
        assert(sf[3] != st[3]);
    }
    assert(fe != t && fe != st && fe != fd) by {
        assert(fe.len() != t.len() && fe.len() != st.len() && fe.len() != fd.len());
    }
}

/// The labels of the scale modes, in mode order, as the player lists them.
pub open spec fn scale_mode_names() -> Seq<Seq<char>> {
    seq!["Fit (Letterbox)"@, "Stretch"@, "Zoom (Crop)"@, "100%"@, "1:1"@, "16:9"@, "9:16"@]
}

/// Each scale mode from 0 to 6 is labelled with its own entry of the mode
/// list, every other mode with the last one, and no two modes from 0 to 6
/// share a label.
pub proof fn lemma_scale_labels_follow_mode_list(mode: int)
    ensures
        0 <= mode < 7 ==> scale_label(mode) == scale_mode_names()[mode],
        (mode < 0 || mode >= 7) ==> scale_label(mode) == scale_mode_names()[6],
        forall|a: int, b: int| 0 <= a < b < 7 ==> scale_label(a) != scale_label(b),
{
    reveal_strlit("Fit (Letterbox)");
    reveal_strlit("Stretch");
    reveal_strlit("Zoom (Crop)");
    reveal_strlit("100%");
    reveal_strlit("1:1");
    reveal_strlit("16:9");
    reveal_strlit("9:16");
    let n = scale_mode_names();
    assert forall|a: int, b: int| 0 <= a < b < 7 implies scale_label(a) != scale_label(b) by {
        assert(scale_label(a) == n[a] && scale_label(b) == n[b]);
        assert(n[a].len() != n[b].len() || n[a][0] != n[b][0] || n[a][1] != n[b][1]);
    }
}

} // verus!
