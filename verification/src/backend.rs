//! The options the wallpaper is shown with by the `mpvpaper` backend.

use vstd::prelude::*;
use vstd::string::*;

use crate::display_mode::{AlignX, AlignY, DisplayMode, FitMode};
use crate::text::append_str;

verus! {

/// The `mpv` option that fits the picture as `f` says.
pub open spec fn fit_option(f: FitMode) -> Seq<char> {
    match f {
        FitMode::Cover => "panscan=1"@,
        FitMode::Contain => "panscan=0"@,
        FitMode::Stretch => "video-aspect=0"@,
    }
}

/// The `mpv` horizontal alignment value of `a`.
pub open spec fn align_x_value(a: AlignX) -> Seq<char> {
    match a {
        AlignX::Left => "-1"@,
        AlignX::Center => "0"@,
        AlignX::Right => "1"@,
    }
}

/// The `mpv` vertical alignment value of `a`.
pub open spec fn align_y_value(a: AlignY) -> Seq<char> {
    match a {
        AlignY::Top => "-1"@,
        AlignY::Center => "0"@,
        AlignY::Bottom => "1"@,
    }
}

/// The options passed to `mpvpaper -o` to show a wallpaper in the mode `m`:
/// endless looping, no sound, hardware decoding, no screensaver stop, no
/// on-screen controls, and the fit and the alignments of the mode.
pub open spec fn mpv_options_spec(m: DisplayMode) -> Seq<char> {
    "--loop=inf --image-display-duration=inf --ao=null\n--vo=gpu --hwdec=auto --video-sync=display-resample\n--scale=spline36 --cscale=spline36\n--stop-screensaver=no --osc=no --config=no\nvideo-unscaled=no "@
        + fit_option(m.fit_mode) + " video-align-x="@ + align_x_value(m.align_x)
        + " video-align-y="@ + align_y_value(m.align_y) + "\n"@
}

/// The options passed to `mpvpaper -o` to show a wallpaper in the mode `m`.
pub fn mpv_options(m: &DisplayMode) -> (s: String)
    ensures
        s@ == mpv_options_spec(*m),
{
    let mut s = String::from_str(
        "--loop=inf --image-display-duration=inf --ao=null\n--vo=gpu --hwdec=auto --video-sync=display-resample\n--scale=spline36 --cscale=spline36\n--stop-screensaver=no --osc=no --config=no\nvideo-unscaled=no ",
    );
    append_str(
        &mut s,
        match m.fit_mode {
            FitMode::Cover => "panscan=1",
            FitMode::Contain => "panscan=0",
            FitMode::Stretch => "video-aspect=0",
        },
    );
    append_str(&mut s, " video-align-x=");
    append_str(
        &mut s,
        match m.align_x {
            AlignX::Left => "-1",
            AlignX::Center => "0",
            AlignX::Right => "1",
        },
    );
    append_str(&mut s, " video-align-y=");
    append_str(
        &mut s,
        match m.align_y {
            AlignY::Top => "-1",
            AlignY::Center => "0",
            AlignY::Bottom => "1",
        },
    );
    append_str(&mut s, "\n");
    s
}

/// `mpv` aligns the picture by a value per axis: -1 to the left or top
/// edge, 0 centred, 1 to the right or bottom edge. The options for a mode
/// end with its fit option and those two values, and a side has the same
/// value on both axes (left as top, right as bottom).
pub proof fn mpv_alignment_values(m: DisplayMode)
    ensures
        mpv_options_spec(m) == "--loop=inf --image-display-duration=inf --ao=null\n--vo=gpu --hwdec=auto --video-sync=display-resample\n--scale=spline36 --cscale=spline36\n--stop-screensaver=no --osc=no --config=no\nvideo-unscaled=no "@
            + (if m.fit_mode == FitMode::Cover {
            "panscan=1"@
        } else if m.fit_mode == FitMode::Contain {
            "panscan=0"@
        } else {
            "video-aspect=0"@
        }) + " video-align-x="@ + (if m.align_x == AlignX::Left {
            "-1"@
        } else if m.align_x == AlignX::Center {
            "0"@
        } else {
            "1"@
        }) + " video-align-y="@ + (if m.align_y == AlignY::Top {
            "-1"@
        } else if m.align_y == AlignY::Center {
            "0"@
        } else {
            "1"@
        }) + "\n"@,
        align_x_value(AlignX::Left) == align_y_value(AlignY::Top),
        align_x_value(AlignX::Center) == align_y_value(AlignY::Center),
        align_x_value(AlignX::Right) == align_y_value(AlignY::Bottom),
{
}

} // verus!
