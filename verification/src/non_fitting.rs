//! Finding the wallpapers that do not fit the display: videos whose
//! resolution differs from it, and images in the default mode whose aspect
//! ratio differs from it.

use vstd::prelude::*;
use vstd::string::*;

use crate::display_mode::{default_mode, AlignX, AlignY, DisplayMode, FitMode};
use crate::node::{Wallpaper, WallpaperView};
use crate::outcome::{localized, ActionPerformError};
use crate::resolution::{ratio_display, resolution_display, Resolution};
use crate::text::{append_str, decimal, join, push_decimal};
use crate::wallpaper::wallpaper_views;
use crate::warning::{msg_error_path_line, msg_path_line, Warning};

verus! {

/// A display as the system reports it.
#[derive(Clone, Copy, Debug, PartialEq, Eq, Structural)]
pub struct DisplayEntry {
    pub id: u32,
    pub width: u32,
    pub height: u32,
}

/// `k` is the first display with the id `id`.
pub open spec fn first_with_id(ds: Seq<DisplayEntry>, id: u32, k: int) -> bool {
    &&& 0 <= k < ds.len()
    &&& ds[k].id == id
    &&& forall|j: int| 0 <= j < k ==> ds[j].id != id
}

/// Which display the sizes are compared with: asked by id, the first
/// display with that id, at its own width and height, and an error when
/// none has it; not asked, the only display, and an error when there are
/// several or none.
pub proof fn chosen_display(ds: Seq<DisplayEntry>, id: u32, k: int, is_ru: bool)
    ensures
        (0 <= k < ds.len() && ds[k].id == id && forall|j: int| 0 <= j < k ==> ds[j].id != id)
            ==> display_resolution_spec(Ok(ds), Some(id), is_ru) == Ok::<Resolution, Seq<char>>(
            Resolution { width: ds[k].width as u64, height: ds[k].height as u64 },
        ),
        (forall|j: int| 0 <= j < ds.len() ==> ds[j].id != id) ==> display_resolution_spec(
            Ok(ds),
            Some(id),
            is_ru,
        ) is Err,
        ds.len() == 1 ==> display_resolution_spec(Ok(ds), None, is_ru) == Ok::<
            Resolution,
            Seq<char>,
        >(Resolution { width: ds[0].width as u64, height: ds[0].height as u64 }),
        ds.len() != 1 ==> display_resolution_spec(Ok(ds), None, is_ru) is Err,
{
    if 0 <= k < ds.len() && ds[k].id == id && forall|j: int| 0 <= j < k ==> ds[j].id != id {
        assert(first_with_id(ds, id, k));
        let c = choose|c: int| first_with_id(ds, id, c);
        if c < k {
            assert(ds[c].id != id);
        } else if c > k {
            assert(ds[k].id != id);
        }
    }
}

/// How a display is listed: `#1 (1920x1080)`.
pub open spec fn display_item(d: DisplayEntry) -> Seq<char> {
    "#"@ + decimal(d.id as nat) + " ("@ + decimal(d.width as nat) + "x"@ + decimal(d.height as nat)
        + ")"@
}

/// The displays listed one after another.
pub open spec fn display_items(ds: Seq<DisplayEntry>) -> Seq<Seq<char>> {
    ds.map_values(|d: DisplayEntry| display_item(d))
}

/// The resolution of the display to compare with, or the message of the
/// error: the display with the given id, or the only one.
pub open spec fn display_resolution_spec(
    displays: Result<Seq<DisplayEntry>, Seq<char>>,
    display_id: Option<u32>,
    is_ru: bool,
) -> Result<Resolution, Seq<char>> {
    match displays {
        Err(e) => Err(e),
        Ok(ds) => if ds.len() == 0 {
            Err(localized(is_ru, "No displays are found"@, "Ни один дисплей не найден"@))
        } else {
            match display_id {
                Some(id) => if exists|k: int| first_with_id(ds, id, k) {
                    let k = choose|k: int| first_with_id(ds, id, k);
                    Ok(Resolution { width: ds[k].width as u64, height: ds[k].height as u64 })
                } else {
                    Err(
                        localized(
                            is_ru,
                            "Display with ID "@ + decimal(id as nat) + " not found"@,
                            "Дисплей с ID "@ + decimal(id as nat) + " не найден"@,
                        ),
                    )
                },
                None => if ds.len() == 1 {
                    Ok(Resolution { width: ds[0].width as u64, height: ds[0].height as u64 })
                } else {
                    Err(
                        localized(
                            is_ru,
                            "More than one display was detected. Use --display-id to specify the display id. Available displays: "@,
                            "Обнаружено более одного дисплея. Используйте --display-id чтобы указать id дисплея. Доступные дисплеи: "@,
                        ) + join(display_items(ds), ", "@),
                    )
                },
            }
        },
    }
}

fn push_display_item(s: &mut String, d: DisplayEntry)
    ensures
        final(s)@ == old(s)@ + display_item(d),
{
    append_str(s, "#");
    push_decimal(s, d.id as u64);
    append_str(s, " (");
    push_decimal(s, d.width as u64);
    append_str(s, "x");
    push_decimal(s, d.height as u64);
    append_str(s, ")");
}

/// The resolution of the display to compare with: the one with `display_id`,
/// or the only one; the error when there is none, no such one, or more than
/// one and no id; or the error of reading them, as its text.
pub fn get_display_resolution(
    displays: &Result<Vec<DisplayEntry>, String>,
    display_id: Option<u32>,
    is_ru: bool,
) -> (r: Result<Resolution, ActionPerformError>)
    ensures
        match display_resolution_spec(
            match displays {
                Ok(ds) => Ok(ds@),
                Err(e) => Err(e@),
            },
            display_id,
            is_ru,
        ) {
            Ok(res) => r == Ok::<Resolution, ActionPerformError>(res),
            Err(m) => r matches Err(e) && e.message@ == m,
        },
{
    let ds = match displays {
        Err(e) => {
            return Err(ActionPerformError::new(e.clone()));
        },
        Ok(ds) => ds,
    };
    if ds.len() == 0 {
        return Err(
            ActionPerformError::new(
                if is_ru {
                    String::from_str("Ни один дисплей не найден")
                } else {
                    String::from_str("No displays are found")
                },
            ),
        );
    }
    match display_id {
        Some(id) => {
            let mut k: usize = 0;
            while k < ds.len()
                invariant
                    k <= ds@.len(),
                    ds@.len() > 0,
                    display_id == Some(id),
                    *displays matches Ok(x) && x@ == ds@,
                    forall|j: int| 0 <= j < k ==> ds@[j].id != id,
                decreases ds@.len() - k,
            {
                if ds[k].id == id {
                    assert(first_with_id(ds@, id, k as int));
                    proof {
                        let c = choose|c: int| first_with_id(ds@, id, c);
                        if c < k {
                            assert(ds@[c].id != id);
                        } else if c > k {
                            assert(ds@[k as int].id != id);
                        }
                        assert(c == k);
                    }
                    let res = Resolution::new(ds[k].width as u64, ds[k].height as u64);
                    assert(display_resolution_spec(Ok(ds@), display_id, is_ru) == Ok::<Resolution, Seq<char>>(res));
                    return Ok(res);
                }
                k = k + 1;
            }
            assert forall|c: int| !first_with_id(ds@, id, c) by {
                if 0 <= c < ds@.len() {
                    assert(ds@[c].id != id);
                }
            }
            let mut m = if is_ru {
                String::from_str("Дисплей с ID ")
            } else {
                String::from_str("Display with ID ")
            };
            push_decimal(&mut m, id as u64);
            if is_ru {
                append_str(&mut m, " не найден");
            } else {
                append_str(&mut m, " not found");
            }
            Err(ActionPerformError::new(m))
        },
        None => {
            if ds.len() == 1 {
                return Ok(Resolution::new(ds[0].width as u64, ds[0].height as u64));
            }
            let mut m = if is_ru {
                String::from_str(
                    "Обнаружено более одного дисплея. Используйте --display-id чтобы указать id дисплея. Доступные дисплеи: ",
                )
            } else {
                String::from_str(
                    "More than one display was detected. Use --display-id to specify the display id. Available displays: ",
                )
            };
            let ghost m0 = m@;
            let mut i: usize = 0;
            while i < ds.len()
                invariant
                    i <= ds@.len(),
                    *displays matches Ok(x) && x@ == ds@,
                    m@ == m0 + join(display_items(ds@.take(i as int)), ", "@),
                decreases ds@.len() - i,
            {
                let ghost before = display_items(ds@.take(i as int));
                let ghost after = display_items(ds@.take(i + 1));
                assert(after.drop_last() =~= before);
                assert(after.last() == display_item(ds@[i as int]));
                if i > 0 {
                    append_str(&mut m, ", ");
                } else {
                    assert(after.len() == 1);
                    assert(before.len() == 0);
                }
                push_display_item(&mut m, ds[i]);
                i = i + 1;
            }
            assert(ds@.take(ds@.len() as int) =~= ds@);
            Err(ActionPerformError::new(m))
        },
    }
}

/// A stream of a media file, as `ffprobe` reports it.
pub struct StreamInfo {
    pub codec_type: Option<String>,
    pub width: Option<i64>,
    pub height: Option<i64>,
}

/// Why `ffprobe` could not read a file: an I/O error or another one, by its
/// text.
pub enum VideoError {
    Io(String),
    Other(String),
}

/// What the media probes say of a wallpaper file: the size read as an image,
/// a corrupted image, or, when it is not read as an image, what `ffprobe`
/// says of it.
pub enum FileProbe {
    Image { width: u64, height: u64 },
    CorruptedImage,
    Video(Result<Vec<StreamInfo>, VideoError>),
}

/// A stream as plain values.
pub struct StreamView {
    pub codec_type: Option<Seq<char>>,
    pub width: Option<i64>,
    pub height: Option<i64>,
}

impl View for StreamInfo {
    type V = StreamView;

    open spec fn view(&self) -> StreamView {
        StreamView {
            codec_type: match self.codec_type {
                Some(c) => Some(c@),
                None => None,
            },
            width: self.width,
            height: self.height,
        }
    }
}

/// A probe as plain values.
pub enum ProbeView {
    Image { width: u64, height: u64 },
    CorruptedImage,
    VideoStreams(Seq<StreamView>),
    VideoIoError(Seq<char>),
    VideoError(Seq<char>),
}

impl View for FileProbe {
    type V = ProbeView;

    open spec fn view(&self) -> ProbeView {
        match self {
            FileProbe::Image { width, height } => ProbeView::Image { width: *width, height: *height },
            FileProbe::CorruptedImage => ProbeView::CorruptedImage,
            FileProbe::Video(Ok(streams)) => ProbeView::VideoStreams(
                streams@.map_values(|st: StreamInfo| st@),
            ),
            FileProbe::Video(Err(VideoError::Io(e))) => ProbeView::VideoIoError(e@),
            FileProbe::Video(Err(VideoError::Other(e))) => ProbeView::VideoError(e@),
        }
    }
}

/// The views of a list of probes.
pub open spec fn probe_views(v: Seq<FileProbe>) -> Seq<ProbeView> {
    v.map_values(|p: FileProbe| p@)
}

/// A codec type names a video stream.
pub open spec fn is_video_codec(c: Option<Seq<char>>) -> bool {
    c matches Some(t) && t == "video"@
}

/// Whether the codec type names a video stream.
pub fn is_codec_type_video(codec_type: &Option<String>) -> (b: bool)
    ensures
        b == is_video_codec(match codec_type {
            Some(c) => Some(c@),
            None => None,
        }),
{
    match codec_type {
        Some(c) => crate::clock::str_eq(c.as_str(), "video"),
        None => false,
    }
}

/// `k` is the first video stream of `ss`.
pub open spec fn first_video_at(ss: Seq<StreamView>, k: int) -> bool {
    &&& 0 <= k < ss.len()
    &&& is_video_codec(ss[k].codec_type)
    &&& forall|j: int| 0 <= j < k ==> !is_video_codec(#[trigger] ss[j].codec_type)
}

/// What is known of a wallpaper file whose size could be read.
pub struct FileInfoView {
    pub path: Seq<char>,
    pub resolution: Resolution,
    pub is_video: bool,
    pub mode: DisplayMode,
}

/// The sizes read and the warning text so far.
pub struct InfoSoFar {
    pub infos: Seq<FileInfoView>,
    pub warning: Seq<char>,
}

/// The first pass, over the image sizes: the files read as images, the
/// warnings of corrupted images, and the positions of the files left for
/// `ffprobe`.
pub open spec fn image_pass(ws: Seq<WallpaperView>, ps: Seq<ProbeView>) -> (InfoSoFar, Seq<int>)
    decreases ws.len(),
{
    if ws.len() == 0 || ps.len() == 0 {
        (InfoSoFar { infos: Seq::empty(), warning: Seq::empty() }, Seq::empty())
    } else {
        let r = image_pass(ws.drop_last(), ps.drop_last());
        let w = ws.last();
        match ps.last() {
            ProbeView::Image { width, height } => (
                InfoSoFar {
                    infos: r.0.infos.push(
                        FileInfoView {
                            path: w.path,
                            resolution: Resolution { width, height },
                            is_video: false,
                            mode: w.mode,
                        },
                    ),
                    ..r.0
                },
                r.1,
            ),
            ProbeView::CorruptedImage => (
                InfoSoFar { warning: r.0.warning + msg_path_line("Image corrupted"@, w.path), ..r.0 },
                r.1,
            ),
            _ => (r.0, r.1.push(ws.len() - 1)),
        }
    }
}

/// What `ffprobe` adds for the wallpaper `w`.
pub open spec fn video_step(w: WallpaperView, p: ProbeView, f: InfoSoFar) -> InfoSoFar {
    match p {
        ProbeView::VideoStreams(ss) => if exists|k: int| first_video_at(ss, k) {
            let st = ss[choose|k: int| first_video_at(ss, k)];
            if st.width is Some && st.height is Some {
                InfoSoFar {
                    infos: f.infos.push(
                        FileInfoView {
                            path: w.path,
                            resolution: Resolution {
                                width: st.width->0 as u64,
                                height: st.height->0 as u64,
                            },
                            is_video: true,
                            mode: w.mode,
                        },
                    ),
                    ..f
                }
            } else {
                InfoSoFar {
                    warning: f.warning + msg_path_line("Unable to get video resolution"@, w.path),
                    ..f
                }
            }
        } else {
            InfoSoFar {
                warning: f.warning + msg_path_line("File doesn't contain video stream"@, w.path),
                ..f
            }
        },
        ProbeView::VideoIoError(e) => InfoSoFar {
            warning: f.warning + msg_error_path_line("ffprobe I/O error"@, e, w.path),
            ..f
        },
        ProbeView::VideoError(e) => InfoSoFar {
            warning: f.warning + msg_error_path_line("ffprobe error"@, e, w.path),
            ..f
        },
        _ => f,
    }
}

/// The second pass, with `ffprobe`, over the files at the positions `rest`.
pub open spec fn video_pass(rest: Seq<int>, ws: Seq<WallpaperView>, ps: Seq<ProbeView>, f: InfoSoFar) -> InfoSoFar
    decreases rest.len(),
{
    if rest.len() == 0 {
        f
    } else {
        let i = rest.last();
        video_step(ws[i], ps[i], video_pass(rest.drop_last(), ws, ps, f))
    }
}

/// The sizes of the wallpapers `ws`, probed as `ps` says, and the warnings.
pub open spec fn files_info_spec(ws: Seq<WallpaperView>, ps: Seq<ProbeView>) -> InfoSoFar {
    let first = image_pass(ws, ps);
    video_pass(first.1, ws, ps, first.0)
}

/// The paths of the files whose size was read.
pub open spec fn info_paths(infos: Seq<FileInfoView>) -> Seq<Seq<char>> {
    infos.map_values(|f: FileInfoView| f.path)
}

/// `a` and `b` have the same aspect ratio.
pub open spec fn same_ratio(a: Resolution, b: Resolution) -> bool {
    a.width * b.height == a.height * b.width
}

/// The line that reports `f` when it does not fit `display`: the full
/// message when verbose, else its resolution, ratio and path.
pub open spec fn mismatch_line(f: FileInfoView, display: Resolution, verbose: bool) -> Option<Seq<char>> {
    let short = resolution_display(f.resolution) + ", "@ + ratio_display(
        f.resolution.width as nat,
        f.resolution.height as nat,
    ) + ", "@ + f.path + "\n"@;
    if f.is_video {
        if f.resolution != display {
            Some(
                if verbose {
                    msg_path_line(
                        "video resolution ("@ + resolution_display(f.resolution)
                            + ") doesn't match with display resolution ("@ + resolution_display(
                            display,
                        ) + ")"@,
                        f.path,
                    )
                } else {
                    short
                },
            )
        } else {
            None
        }
    } else if f.mode == default_mode() && !same_ratio(f.resolution, display) {
        Some(
            if verbose {
                msg_path_line(
                    "image ratio ("@ + resolution_display(f.resolution) + ", "@ + ratio_display(
                        f.resolution.width as nat,
                        f.resolution.height as nat,
                    ) + ") doesn't match with display ratio ("@ + resolution_display(display)
                        + ", "@ + ratio_display(display.width as nat, display.height as nat)
                        + ")"@,
                    f.path,
                )
            } else {
                short
            },
        )
    } else {
        None
    }
}

/// The lines that report the files of `infos` that do not fit `display`.
pub open spec fn mismatch_lines(infos: Seq<FileInfoView>, display: Resolution, verbose: bool) -> Seq<char>
    decreases infos.len(),
{
    if infos.len() == 0 {
        Seq::empty()
    } else {
        let r = mismatch_lines(infos.drop_last(), display, verbose);
        match mismatch_line(infos.last(), display, verbose) {
            Some(line) => r + line,
            None => r,
        }
    }
}

/// The warning text of looking for wallpapers that do not fit `display`:
/// that of reading their sizes, then a line for each one that does not fit.
pub open spec fn non_fitting_spec(ws: Seq<WallpaperView>, ps: Seq<ProbeView>, display: Resolution, verbose: bool) -> Seq<char> {
    let f = files_info_spec(ws, ps);
    f.warning + mismatch_lines(f.infos, display, verbose)
}

/// What is known of a wallpaper file whose size could be read.
pub struct FileInfo {
    pub path: String,
    pub resolution: Resolution,
    pub is_video: bool,
    pub mode: DisplayMode,
}

impl View for FileInfo {
    type V = FileInfoView;

    open spec fn view(&self) -> FileInfoView {
        FileInfoView {
            path: self.path@,
            resolution: self.resolution,
            is_video: self.is_video,
            mode: self.mode,
        }
    }
}

/// The views of a list of file infos.
pub open spec fn info_views(v: Seq<FileInfo>) -> Seq<FileInfoView> {
    v.map_values(|f: FileInfo| f@)
}

/// The files left for `ffprobe` are positions of the wallpapers.
proof fn lemma_image_pass_rest(ws: Seq<WallpaperView>, ps: Seq<ProbeView>)
    requires
        ws.len() == ps.len(),
    ensures
        forall|k: int|
            0 <= k < image_pass(ws, ps).1.len() ==> 0 <= #[trigger] image_pass(ws, ps).1[k] < ws.len()
                && image_pass(ws, ps).1[k] < ps.len(),
    decreases ws.len(),
{
    if ws.len() > 0 && ps.len() > 0 {
        lemma_image_pass_rest(ws.drop_last(), ps.drop_last());
        let r = image_pass(ws.drop_last(), ps.drop_last());
        let t = image_pass(ws, ps).1;
        assert forall|k: int| 0 <= k < t.len() implies 0 <= #[trigger] t[k] < ws.len() && t[k]
            < ps.len() by {
            if k < r.1.len() {
                assert(t[k] == r.1[k]);
            }
        }
    }
}

/// The first pass over the first positions agrees with the pass over all.
proof fn lemma_image_pass_prefix(ws: Seq<WallpaperView>, ps: Seq<ProbeView>, i: int)
    requires
        0 <= i < ws.len(),
        ws.len() == ps.len(),
    ensures
        ws.take(i + 1).drop_last() == ws.take(i),
        ps.take(i + 1).drop_last() == ps.take(i),
        ws.take(i + 1).last() == ws[i],
        ps.take(i + 1).last() == ps[i],
{
    assert(ws.take(i + 1).drop_last() =~= ws.take(i));
    assert(ps.take(i + 1).drop_last() =~= ps.take(i));
}

proof fn lemma_mul_u64(x: u64, y: u64)
    ensures
        x * y <= u128::MAX,
{
    assert(x * y <= 0xffff_ffff_ffff_ffffu64 * 0xffff_ffff_ffff_ffffu64) by (nonlinear_arith)
        requires
            x <= 0xffff_ffff_ffff_ffffu64,
            y <= 0xffff_ffff_ffff_ffffu64,
    ;
}

/// Whether `a` and `b` have the same aspect ratio, computed without
/// overflow.
pub fn same_ratio_exec(a: &Resolution, b: &Resolution) -> (r: bool)
    ensures
        r == same_ratio(*a, *b),
{
    proof {
        lemma_mul_u64(a.width, b.height);
        lemma_mul_u64(a.height, b.width);
    }
    let x: u128 = (a.width as u128) * (b.height as u128);
    let y: u128 = (a.height as u128) * (b.width as u128);
    x == y
}

/// The sizes of the wallpapers read in two passes, the images first and then
/// the rest with `ffprobe`, as `probes[i]` says of `wallpapers[i]`; with the
/// warnings of what could not be read.
pub fn get_files_info(wallpapers: &Vec<Wallpaper>, probes: &Vec<FileProbe>) -> (r: (
    Vec<FileInfo>,
    Warning,
))
    requires
        wallpapers@.len() == probes@.len(),
    ensures
        files_info_spec(wallpaper_views(wallpapers@), probe_views(probes@)) == (InfoSoFar {
            infos: info_views(r.0@),
            warning: r.1.message@,
        }),
{
    let ghost ws = wallpaper_views(wallpapers@);
    let ghost ps = probe_views(probes@);
    let mut infos: Vec<FileInfo> = Vec::new();
    let mut warning = Warning::new();
    let mut rest: Vec<usize> = Vec::new();
    assert(info_views(infos@) =~= Seq::<FileInfoView>::empty());
    let mut i: usize = 0;
    while i < wallpapers.len()
        invariant
            i <= wallpapers@.len(),
            wallpapers@.len() == probes@.len(),
            ws == wallpaper_views(wallpapers@),
            ps == probe_views(probes@),
            image_pass(ws.take(i as int), ps.take(i as int)) == (
                InfoSoFar { infos: info_views(infos@), warning: warning.message@ },
                rest@.map_values(|k: usize| k as int),
            ),
        decreases wallpapers@.len() - i,
    {
        proof {
            lemma_image_pass_prefix(ws, ps, i as int);
        }
        assert(ws[i as int] == wallpapers@[i as int]@);
        assert(ps[i as int] == probes@[i as int]@);
        let w = &wallpapers[i];
        match &probes[i] {
            FileProbe::Image { width, height } => {
                let ghost v0 = info_views(infos@);
                infos.push(
                    FileInfo {
                        path: w.path.clone(),
                        resolution: Resolution::new(*width, *height),
                        is_video: false,
                        mode: w.mode,
                    },
                );
                assert(info_views(infos@) =~= v0.push(infos@[i as int - i as int + v0.len()]@));
            },
            FileProbe::CorruptedImage => {
                warning.append_msg_path("Image corrupted", w.path.as_str());
            },
            FileProbe::Video(_) => {
                let ghost r0 = rest@;
                rest.push(i);
                assert(rest@.map_values(|k: usize| k as int) =~= r0.map_values(|k: usize| k as int).push(
                    i as int,
                ));
            },
        }
        i = i + 1;
    }
    assert(ws.take(ws.len() as int) =~= ws);
    assert(ps.take(ps.len() as int) =~= ps);
    let ghost first = image_pass(ws, ps);
    proof {
        lemma_image_pass_rest(ws, ps);
    }
    let ghost restv = rest@.map_values(|k: usize| k as int);
    let mut j: usize = 0;
    assert(restv.take(0) =~= Seq::<int>::empty());
    while j < rest.len()
        invariant
            j <= rest@.len(),
            wallpapers@.len() == probes@.len(),
            ws == wallpaper_views(wallpapers@),
            ps == probe_views(probes@),
            restv == rest@.map_values(|k: usize| k as int),
            restv == first.1,
            forall|k: int| 0 <= k < restv.len() ==> 0 <= #[trigger] restv[k] < ws.len(),
            video_pass(restv.take(j as int), ws, ps, first.0) == (InfoSoFar {
                infos: info_views(infos@),
                warning: warning.message@,
            }),
        decreases rest@.len() - j,
    {
        assert(restv.take(j + 1).drop_last() =~= restv.take(j as int));
        assert(restv.take(j + 1).last() == rest@[j as int] as int);
        let i = rest[j];
        assert(0 <= restv[j as int] < ws.len());
        assert(ws[i as int] == wallpapers@[i as int]@);
        assert(ps[i as int] == probes@[i as int]@);
        let w = &wallpapers[i];
        match &probes[i] {
            FileProbe::Video(Ok(streams)) => {
                let ghost ss = streams@.map_values(|st: StreamInfo| st@);
                let mut k: usize = 0;
                let mut found: Option<usize> = None;
                while k < streams.len() && found.is_none()
                    invariant
                        k <= streams@.len(),
                        ss == streams@.map_values(|st: StreamInfo| st@),
                        match found {
                            Some(f) => f < streams@.len() && is_video_codec(ss[f as int].codec_type)
                                && forall|t: int| 0 <= t < f ==> !is_video_codec(#[trigger] ss[t].codec_type),
                            None => forall|t: int| 0 <= t < k ==> !is_video_codec(#[trigger] ss[t].codec_type),
                        },
                    decreases streams@.len() - k,
                {
                    assert(ss[k as int] == streams@[k as int]@);
                    if is_codec_type_video(&streams[k].codec_type) {
                        found = Some(k);
                    }
                    k = k + 1;
                }
                match found {
                    Some(k) => {
                        assert(first_video_at(ss, k as int));
                        proof {
                            let c = choose|c: int| first_video_at(ss, c);
                            if c < k {
                                assert(!is_video_codec(ss[c].codec_type));
                                assert(false);
                            } else if c > k {
                                assert(!is_video_codec(ss[k as int].codec_type));
                                assert(false);
                            }
                            assert(c == k);
                        }
                        let st = &streams[k];
                        assert(ss[k as int] == st@);
                        match (st.width, st.height) {
                            (Some(wd), Some(ht)) => {
                                let ghost v0 = info_views(infos@);
                                let info = FileInfo {
                                    path: w.path.clone(),
                                    resolution: Resolution::new(wd as u64, ht as u64),
                                    is_video: true,
                                    mode: w.mode,
                                };
                                let ghost iv = info@;
                                infos.push(info);
                                assert(info_views(infos@) =~= v0.push(iv));
                            },
                            _ => {
                                warning.append_msg_path("Unable to get video resolution", w.path.as_str());
                            },
                        }
                    },
                    None => {
                        assert forall|c: int| !first_video_at(ss, c) by {
                            if 0 <= c < ss.len() {
                                assert(!is_video_codec(ss[c].codec_type));
                            }
                        }
                        warning.append_msg_path("File doesn't contain video stream", w.path.as_str());
                    },
                }
            },
            FileProbe::Video(Err(VideoError::Io(e))) => {
                warning.append_msg_error_path("ffprobe I/O error", e.as_str(), w.path.as_str());
            },
            FileProbe::Video(Err(VideoError::Other(e))) => {
                warning.append_msg_error_path("ffprobe error", e.as_str(), w.path.as_str());
            },
            _ => {},
        }
        j = j + 1;
    }
    assert(restv.take(restv.len() as int) =~= restv);
    (infos, warning)
}

/// Appends the line that reports `f` when it does not fit `display`.
fn report_mismatch(warning: &mut Warning, f: &FileInfo, display: &Resolution, verbose: bool)
    ensures
        final(warning).message@ == old(warning).message@ + match mismatch_line(f@, *display, verbose) {
            Some(line) => line,
            None => Seq::empty(),
        },
{
    let fits = if f.is_video {
        f.resolution == *display
    } else {
        !(f.mode.is_default() && !same_ratio_exec(&f.resolution, display))
    };
    if fits {
        assert(warning.message@ + Seq::<char>::empty() =~= warning.message@);
        return;
    }
    let res = f.resolution.to_display_string();
    let ratio = f.resolution.ratio_str();
    if verbose {
        let mut m = if f.is_video {
            String::from_str("video resolution (")
        } else {
            String::from_str("image ratio (")
        };
        append_str(&mut m, res.as_str());
        if f.is_video {
            append_str(&mut m, ") doesn't match with display resolution (");
            let d = display.to_display_string();
            append_str(&mut m, d.as_str());
        } else {
            append_str(&mut m, ", ");
            append_str(&mut m, ratio.as_str());
            append_str(&mut m, ") doesn't match with display ratio (");
            let d = display.to_display_string();
            append_str(&mut m, d.as_str());
            append_str(&mut m, ", ");
            let dr = display.ratio_str();
            append_str(&mut m, dr.as_str());
        }
        append_str(&mut m, ")");
        warning.append_msg_path(m.as_str(), f.path.as_str());
    } else {
        let mut m = res;
        append_str(&mut m, ", ");
        append_str(&mut m, ratio.as_str());
        append_str(&mut m, ", ");
        append_str(&mut m, f.path.as_str());
        warning.append_ln(m.as_str());
    }
}

/// The warning of looking for wallpapers that do not fit `display`, as
/// `probes[i]` says of `wallpapers[i]`: the warnings of reading their sizes,
/// then a line for each video whose resolution differs from the display's
/// and each image in the default mode whose ratio differs from it; the
/// full message when verbose, else the resolution, the ratio and the path.
pub fn find_non_fitting(
    wallpapers: &Vec<Wallpaper>,
    probes: &Vec<FileProbe>,
    display: &Resolution,
    is_verbose: bool,
) -> (w: Warning)
    requires
        wallpapers@.len() == probes@.len(),
        info_paths(files_info_spec(wallpaper_views(wallpapers@), probe_views(probes@)).infos).no_duplicates(),
    ensures
        w.message@ == non_fitting_spec(
            wallpaper_views(wallpapers@),
            probe_views(probes@),
            *display,
            is_verbose,
        ),
{
    let (infos, mut warning) = get_files_info(wallpapers, probes);
    let ghost w0 = warning.message@;
    let ghost iv = info_views(infos@);
    let mut i: usize = 0;
    assert(iv.take(0) =~= Seq::<FileInfoView>::empty());
    while i < infos.len()
        invariant
            i <= infos@.len(),
            iv == info_views(infos@),
            warning.message@ == w0 + mismatch_lines(iv.take(i as int), *display, is_verbose),
        decreases infos@.len() - i,
    {
        assert(iv.take(i + 1).drop_last() =~= iv.take(i as int));
        assert(iv.take(i + 1).last() == infos@[i as int]@);
        report_mismatch(&mut warning, &infos[i], display, is_verbose);
        proof {
            match mismatch_line(infos@[i as int]@, *display, is_verbose) {
                Some(line) => {
                    assert(w0 + mismatch_lines(iv.take(i + 1), *display, is_verbose) =~= w0
                        + mismatch_lines(iv.take(i as int), *display, is_verbose) + line);
                },
                None => {
                    assert(mismatch_lines(iv.take(i + 1), *display, is_verbose) == mismatch_lines(iv.take(i as int), *display, is_verbose));
                },
            }
        }
        i = i + 1;
    }
    assert(iv.take(iv.len() as int) =~= iv);
    warning
}

/// Looks for wallpapers that do not fit the display chosen among
/// `displays` by `display_id`; the warning text, or the error of choosing
/// the display.
pub fn run(
    wallpapers: &Vec<Wallpaper>,
    probes: &Vec<FileProbe>,
    displays: &Result<Vec<DisplayEntry>, String>,
    display_id: Option<u32>,
    is_verbose: bool,
    is_ru: bool,
) -> (r: Result<String, ActionPerformError>)
    requires
        wallpapers@.len() == probes@.len(),
        info_paths(files_info_spec(wallpaper_views(wallpapers@), probe_views(probes@)).infos).no_duplicates(),
    ensures
        match display_resolution_spec(
            match displays {
                Ok(ds) => Ok(ds@),
                Err(e) => Err(e@),
            },
            display_id,
            is_ru,
        ) {
            Ok(res) => r matches Ok(m) && m@ == non_fitting_spec(
                wallpaper_views(wallpapers@),
                probe_views(probes@),
                res,
                is_verbose,
            ),
            Err(m) => r matches Err(e) && e.message@ == m,
        },
{
    let display = get_display_resolution(displays, display_id, is_ru)?;
    let w = find_non_fitting(wallpapers, probes, &display, is_verbose);
    Ok(w.message)
}

/// Which files are reported: a video exactly when its width or its height
/// differs from the display's; an image exactly when it is shown in the
/// default mode (covering, centred both ways) and its width and height are
/// not in the display's proportion. The short line of a reported file is
/// `WxH, a:b, path`, with the ratio in lowest terms.
pub proof fn reported_files(f: FileInfoView, display: Resolution, verbose: bool)
    ensures
        f.is_video ==> (mismatch_line(f, display, verbose) is Some <==> (f.resolution.width
            != display.width || f.resolution.height != display.height)),
        !f.is_video ==> (mismatch_line(f, display, verbose) is Some <==> (f.mode.fit_mode
            == FitMode::Cover && f.mode.align_x == AlignX::Center && f.mode.align_y
            == AlignY::Center && f.resolution.width * display.height != f.resolution.height
            * display.width)),
        !verbose ==> (mismatch_line(f, display, verbose) matches Some(line) ==> line == decimal(
            f.resolution.width as nat,
        ) + "x"@ + decimal(f.resolution.height as nat) + ", "@ + ratio_display(
            f.resolution.width as nat,
            f.resolution.height as nat,
        ) + ", "@ + f.path + "\n"@),
{
    assert(f.resolution == display <==> (f.resolution.width == display.width
        && f.resolution.height == display.height));
    assert(f.mode == default_mode() <==> (f.mode.fit_mode == FitMode::Cover && f.mode.align_x
        == AlignX::Center && f.mode.align_y == AlignY::Center));
}

} // verus!
