//! The decisions behind the three key actions: which window a rotating key
//! shows, whether a refresh asks for usage, and what a key draws after it.

use vstd::prelude::*;
use crate::pixels::Rgb;
use crate::render::{window_label, Layout};
use crate::settings::{hex_slicing_panics, or_default, text_colour, Settings, DEFAULT_THRESHOLD_RED, DEFAULT_THRESHOLD_YELLOW};
use crate::usage::{percent_by_name, percent_of, percent_of_window, window_percent, UsageData};

verus! {

/// The window at position `i` of the rotation: `5h`, `week`, `month`.
pub open spec fn window_name(i: int) -> Seq<char> {
    if i == 0 {
        "5h"@
    } else if i == 1 {
        "week"@
    } else {
        "month"@
    }
}

/// The window a rotating key shows at rotation index `i`.
pub fn window_at(i: usize) -> (window: &'static str)
    ensures
        window@ == window_name((i % 3) as int),
{
    let k = i % 3;
    if k == 0 {
        "5h"
    } else if k == 1 {
        "week"
    } else {
        "month"
    }
}

/// The rotation index after a press of a rotating key at index `i`.
pub fn next_window_index(i: usize) -> (next: usize)
    requires
        i < usize::MAX,
    ensures
        next == (i + 1) % 3,
{
    (i + 1) % 3
}

/// Three presses of a rotating key bring it back to the window it showed,
/// and the presses go `5h`, `week`, `month`, `5h`.
pub proof fn lemma_rotation_cycles(i: int)
    requires
        0 <= i < 3,
    ensures
        (((i + 1) % 3 + 1) % 3 + 1) % 3 == i,
        window_name(i) == "5h"@ ==> window_name((i + 1) % 3) == "week"@,
        window_name(i) == "week"@ ==> window_name((i + 1) % 3) == "month"@,
        window_name(i) == "month"@ ==> window_name((i + 1) % 3) == "5h"@,
{
    reveal_strlit("5h");
    reveal_strlit("week");
    reveal_strlit("month");
}

/// What a refresh found out about the account's usage.
pub enum Refresh {
    /// No API key is set, so nothing was asked.
    NoApiKey,
    /// The usage was fetched.
    Fetched(UsageData),
    /// Asking for the usage failed.
    Failed,
}

/// What a key draws: a layout, its text colour and the bar thresholds.
pub struct Frame {
    pub layout: Layout,
    pub font: Rgb,
    pub yellow: u8,
    pub red: u8,
}

/// Text colour of a key while no API key is set.
pub open spec fn no_key_colour() -> Rgb {
    (255, 255, 255)
}

/// Text colour of a key whose refresh failed.
pub open spec fn failure_colour() -> Rgb {
    (255, 60, 60)
}

/// Text colour of a key after a refresh.
pub open spec fn frame_colour(settings: Settings, refresh: Refresh) -> Rgb {
    match refresh {
        Refresh::NoApiKey => no_key_colour(),
        Refresh::Fetched(_) => text_colour(settings.font_color@),
        Refresh::Failed => failure_colour(),
    }
}

/// A refresh asks for the usage only when an API key is set.
pub fn should_fetch(settings: &Settings) -> (fetch: bool)
    ensures
        fetch == (settings.api_key@.len() > 0),
{
    !settings.api_key.as_str().is_empty()
}

/// The text colour after a refresh.
fn colour_after(settings: &Settings, refresh: &Refresh) -> (c: Rgb)
    requires
        refresh is Fetched ==> !hex_slicing_panics(settings.font_color@),
    ensures
        c == frame_colour(*settings, *refresh),
{
    match refresh {
        Refresh::NoApiKey => (255, 255, 255),
        Refresh::Fetched(_) => settings.font_rgb(),
        Refresh::Failed => (255, 60, 60),
    }
}

/// What a key showing one window draws after a refresh: the window's
/// percentage when the usage was fetched (0% when the account lacks that
/// window), 0% in white without an API key, 0% in red after a failure.
pub fn single_frame(settings: &Settings, window: &str, refresh: &Refresh) -> (frame: Frame)
    requires
        refresh is Fetched ==> !hex_slicing_panics(settings.font_color@),
    ensures
        frame.layout matches Layout::Single { percent, window: w } && w@ == window@ && percent == (
        match *refresh {
            Refresh::Fetched(u) => match percent_of(u, window@) {
                Some(p) => p,
                None => 0u8,
            },
            _ => 0u8,
        }),
        frame.font == frame_colour(*settings, *refresh),
        frame.yellow == or_default(settings.threshold_yellow as int, DEFAULT_THRESHOLD_YELLOW as int),
        frame.red == or_default(settings.threshold_red as int, DEFAULT_THRESHOLD_RED as int),
{
    let percent = match refresh {
        Refresh::Fetched(u) => match percent_by_name(u, window) {
            Some(p) => p,
            None => 0,
        },
        _ => 0,
    };
    Frame {
        layout: Layout::single(percent, window),
        font: colour_after(settings, refresh),
        yellow: settings.threshold_yellow(),
        red: settings.threshold_red(),
    }
}

/// What a summary key draws after a refresh: the three windows' percentages
/// when the usage was fetched, no values otherwise.
pub fn summary_frame(settings: &Settings, refresh: &Refresh) -> (frame: Frame)
    requires
        refresh is Fetched ==> !hex_slicing_panics(settings.font_color@),
    ensures
        frame.layout == (match *refresh {
            Refresh::Fetched(u) => Layout::Summary {
                rolling: window_percent(u.rolling),
                weekly: window_percent(u.weekly),
                monthly: window_percent(u.monthly),
            },
            _ => Layout::Summary { rolling: None, weekly: None, monthly: None },
        }),
        frame.font == frame_colour(*settings, *refresh),
        frame.yellow == or_default(settings.threshold_yellow as int, DEFAULT_THRESHOLD_YELLOW as int),
        frame.red == or_default(settings.threshold_red as int, DEFAULT_THRESHOLD_RED as int),
{
    let layout = match refresh {
        Refresh::Fetched(u) => Layout::summary(
            percent_of_window(&u.rolling),
            percent_of_window(&u.weekly),
            percent_of_window(&u.monthly),
        ),
        _ => Layout::summary(None, None, None),
    };
    Frame {
        layout,
        font: colour_after(settings, refresh),
        yellow: settings.threshold_yellow(),
        red: settings.threshold_red(),
    }
}

/// A key shows the percentage of the window its label names: the `WK` key
/// the weekly window, the `MO` key the monthly one, and only the `5H` key
/// the rolling one; a name with no window shows nothing.
pub proof fn lemma_label_names_its_window(u: UsageData, w: Seq<char>)
    ensures
        window_label(w) == "WK"@ ==> percent_of(u, w) == window_percent(u.weekly),
        window_label(w) == "MO"@ ==> percent_of(u, w) == window_percent(u.monthly),
        window_label(w) == "5H"@ ==> percent_of(u, w) == window_percent(u.rolling) || percent_of(u, w) is None,
        w == window_name(0) ==> percent_of(u, w) == window_percent(u.rolling),
        w == window_name(1) ==> percent_of(u, w) == window_percent(u.weekly),
        w == window_name(2) ==> percent_of(u, w) == window_percent(u.monthly),
{
    reveal_strlit("WK");
    reveal_strlit("MO");
    reveal_strlit("5H");
    reveal_strlit("5h");
    reveal_strlit("week");
    reveal_strlit("month");
    assert("WK"@[0] != "MO"@[0] && "WK"@[0] != "5H"@[0] && "MO"@[0] != "5H"@[0]);
    assert("WK"@ != "MO"@ && "WK"@ != "5H"@ && "MO"@ != "5H"@);
    assert("week"@.len() != "5h"@.len() && "month"@.len() != "5h"@.len() && "month"@.len() != "week"@.len());
}

} // verus!
