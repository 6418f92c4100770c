//! Finding the wallpaper files under the nodes of the database, and
//! choosing one to show.

use vstd::prelude::*;
use vstd::string::*;

use crate::display_mode::DisplayMode;
use crate::node::{apply_settings, fresh_node, none_or_in_bounds, NodeView, Settings, TimePeriod, Wallpaper, WallpaperNode, WallpaperView};
use crate::outcome::{localized, ActionPerformError};
use crate::state::{
    group_index,
    group_not_found_error,
    group_not_found_message,
    group_views,
    has_group,
    has_node,
    is_closest,
    lemma_index_of_unique,
    lemma_node_index,
    lemma_push_node,
    lemma_with_nodes,
    node_index,
    node_paths,
    node_views,
    nodes_at_paths,
    state_wf,
    updated_node,
    with_node,
    with_nodes,
    group_wf,
    GroupView,
    State,
    StateView,
    WallpaperGroup,
};
use crate::time_period::ParsedTimePeriod;
use crate::text::{chars_of, clone_strings, contains_string, is_prefix, range_eq_str, views};
use crate::warning::{msg_error_line, msg_error_path_line, Warning};


verus! {

/// The extensions of the files shown as wallpapers.
pub open spec fn is_wallpaper_extension(e: Seq<char>) -> bool {
    ||| e == "jpg"@
    ||| e == "jpeg"@
    ||| e == "png"@
    ||| e == "apng"@
    ||| e == "webp"@
    ||| e == "gif"@
    ||| e == "bmp"@
    ||| e == "tiff"@
    ||| e == "tif"@
    ||| e == "ico"@
    ||| e == "heic"@
    ||| e == "heif"@
    ||| e == "avif"@
    ||| e == "mp4"@
    ||| e == "m4v"@
    ||| e == "mkv"@
    ||| e == "avi"@
    ||| e == "mov"@
    ||| e == "webm"@
    ||| e == "flv"@
    ||| e == "wmv"@
}

/// `k` is the position of the last `c` in `s` at or after `from`.
pub open spec fn last_at(s: Seq<char>, c: char, from: int, k: int) -> bool {
    &&& from <= k < s.len()
    &&& s[k] == c
    &&& forall|j: int| k < j < s.len() ==> s[j] != c
}

/// Where the file name of `path` starts: after its last `/`.
pub open spec fn name_start(path: Seq<char>) -> int {
    if exists|k: int| last_at(path, '/', 0, k) {
        (choose|k: int| last_at(path, '/', 0, k)) + 1
    } else {
        0
    }
}

/// The extension of the file `path`, as `Path::extension` gives it: what
/// follows the last `.` of the file name, unless that dot starts the name
/// or the name is `..`.
pub open spec fn extension(path: Seq<char>) -> Option<Seq<char>> {
    let a = name_start(path);
    if path.skip(a) == ".."@ {
        None
    } else if exists|k: int| last_at(path, '.', a, k) {
        let k = choose|k: int| last_at(path, '.', a, k);
        if k > a {
            Some(path.skip(k + 1))
        } else {
            None
        }
    } else {
        None
    }
}

/// The file `path` has the extension of a wallpaper.
pub open spec fn ext_matches_spec(path: Seq<char>) -> bool {
    extension(path) matches Some(e) && is_wallpaper_extension(e)
}

proof fn lemma_last_at_is(s: Seq<char>, c: char, from: int, k: int)
    requires
        last_at(s, c, from, k),
    ensures
        exists|j: int| last_at(s, c, from, j),
        (choose|j: int| last_at(s, c, from, j)) == k,
{
    let j = choose|j: int| last_at(s, c, from, j);
    if j < k {
        assert(s[k] == c);
    } else if j > k {
        assert(s[j] == c);
    }
}

/// A file whose name is a non-empty stem, a dot and an extension, in any
/// directory, is a wallpaper exactly when the extension is one of the image
/// and video extensions jpg, jpeg, png, apng, webp, gif, bmp, tiff, tif,
/// ico, heic, heif, avif, mp4, m4v, mkv, avi, mov, webm, flv and wmv
/// (compared as written, so `PNG` is not one). A name that only starts with
/// a dot, such as `.jpg`, has no extension and is never a wallpaper.
pub proof fn wallpaper_files_by_extension(dir: Seq<char>, stem: Seq<char>, e: Seq<char>)
    requires
        dir.len() == 0 || dir.last() == '/',
        forall|i: int| 0 <= i < stem.len() ==> stem[i] != '/',
        forall|i: int| 0 <= i < e.len() ==> e[i] != '/' && e[i] != '.',
        e.len() > 0,
    ensures
        stem.len() > 0 ==> (ext_matches_spec(dir + stem + "."@ + e) <==> (e == "jpg"@ || e
            == "jpeg"@ || e == "png"@ || e == "apng"@ || e == "webp"@ || e == "gif"@ || e
            == "bmp"@ || e == "tiff"@ || e == "tif"@ || e == "ico"@ || e == "heic"@ || e
            == "heif"@ || e == "avif"@ || e == "mp4"@ || e == "m4v"@ || e == "mkv"@ || e
            == "avi"@ || e == "mov"@ || e == "webm"@ || e == "flv"@ || e == "wmv"@)),
        !ext_matches_spec(dir + "."@ + e),
{
    reveal_strlit(".");
    reveal_strlit("..");
    let name = stem + "."@ + e;
    let p = dir + name;
    let a = dir.len() as int;
    assert(p.skip(a) =~= name);
    assert forall|i: int| 0 <= i < name.len() implies name[i] != '/' by {
        if i < stem.len() {
            assert(name[i] == stem[i]);
        } else if i > stem.len() {
            assert(name[i] == e[i - stem.len() - 1]);
        }
    }
    if dir.len() > 0 {
        assert(last_at(p, '/', 0, a - 1)) by {
            assert(p[a - 1] == dir.last());
            assert forall|j: int| a - 1 < j < p.len() implies p[j] != '/' by {
                assert(p[j] == name[j - a]);
            }
        }
        lemma_last_at_is(p, '/', 0, a - 1);
    } else {
        assert(p =~= name);
        assert(!exists|k: int| last_at(p, '/', 0, k));
    }
    assert(name_start(p) == a);
    if stem.len() > 0 {
        let k = a + stem.len();
        assert(last_at(p, '.', a, k)) by {
            assert(p[k] == name[stem.len() as int]);
            assert forall|j: int| k < j < p.len() implies p[j] != '.' by {
                assert(p[j] == e[j - k - 1]);
            }
        }
        lemma_last_at_is(p, '.', a, k);
        assert(name.len() > 2);
        assert(p.skip(a) != ".."@);
        assert(p.skip(k + 1) =~= e);
        assert(extension(p) == Some(e));
        assert(p =~= dir + stem + "."@ + e);
    }
    let q = dir + "."@ + e;
    let qn = "."@ + e;
    assert(q =~= dir + qn);
    assert forall|i: int| 0 <= i < qn.len() implies qn[i] != '/' by {
        if i > 0 {
            assert(qn[i] == e[i - 1]);
        }
    }
    if dir.len() > 0 {
        assert(last_at(q, '/', 0, a - 1)) by {
            assert(q[a - 1] == dir.last());
            assert forall|j: int| a - 1 < j < q.len() implies q[j] != '/' by {
                assert(q[j] == qn[j - a]);
            }
        }
        lemma_last_at_is(q, '/', 0, a - 1);
    } else {
        assert(q =~= qn);
        assert(!exists|k: int| last_at(q, '/', 0, k));
    }
    assert(name_start(q) == a);
    assert(last_at(q, '.', a, a)) by {
        assert(q[a] == '.');
        assert forall|j: int| a < j < q.len() implies q[j] != '.' by {
            assert(q[j] == e[j - a - 1]);
        }
    }
    lemma_last_at_is(q, '.', a, a);
    assert(extension(q) is None);
}

/// The position of the last `c` of `cs` at or after `from`.
fn last_index(cs: &Vec<char>, c: char, from: usize) -> (r: Option<usize>)
    requires
        from <= cs@.len(),
    ensures
        match r {
            Some(k) => last_at(cs@, c, from as int, k as int),
            None => forall|j: int| from <= j < cs@.len() ==> cs@[j] != c,
        },
{
    let mut i = cs.len();
    while i > from
        invariant
            from <= i <= cs@.len(),
            forall|j: int| i <= j < cs@.len() ==> cs@[j] != c,
        decreases i,
    {
        if cs[i - 1] == c {
            return Some(i - 1);
        }
        i = i - 1;
    }
    None
}

/// Whether the file `path` has the extension of a wallpaper.
pub fn ext_matches(path: &str) -> (b: bool)
    ensures
        b == ext_matches_spec(path@),
{
    let cs = chars_of(path);
    let n = cs.len();
    let a = match last_index(&cs, '/', 0) {
        Some(k) => {
            proof {
                let c = choose|c: int| last_at(path@, '/', 0, c);
                if c < k {
                    assert(path@[c] != '/');
                } else if c > k {
                    assert(path@[k as int] != '/');
                }
            }
            k + 1
        },
        None => 0,
    };
    assert(a == name_start(path@));
    if range_eq_str(&cs, a, n, "..") {
        assert(cs@.subrange(a as int, n as int) == path@.skip(a as int));
        return false;
    }
    assert(cs@.subrange(a as int, n as int) == path@.skip(a as int));
    let k = match last_index(&cs, '.', a) {
        Some(k) => k,
        None => {
            return false;
        },
    };
    proof {
        let c = choose|c: int| last_at(path@, '.', a as int, c);
        if c < k {
            assert(path@[c] != '.');
        } else if c > k {
            assert(path@[k as int] != '.');
        }
    }
    if k == a {
        return false;
    }
    let e0 = k + 1;
    assert(cs@.subrange(e0 as int, n as int) == path@.skip(e0 as int));
    range_eq_str(&cs, e0, n, "jpg") || range_eq_str(&cs, e0, n, "jpeg") || range_eq_str(
        &cs,
        e0,
        n,
        "png",
    ) || range_eq_str(&cs, e0, n, "apng") || range_eq_str(&cs, e0, n, "webp") || range_eq_str(
        &cs,
        e0,
        n,
        "gif",
    ) || range_eq_str(&cs, e0, n, "bmp") || range_eq_str(&cs, e0, n, "tiff") || range_eq_str(
        &cs,
        e0,
        n,
        "tif",
    ) || range_eq_str(&cs, e0, n, "ico") || range_eq_str(&cs, e0, n, "heic") || range_eq_str(
        &cs,
        e0,
        n,
        "heif",
    ) || range_eq_str(&cs, e0, n, "avif") || range_eq_str(&cs, e0, n, "mp4") || range_eq_str(
        &cs,
        e0,
        n,
        "m4v",
    ) || range_eq_str(&cs, e0, n, "mkv") || range_eq_str(&cs, e0, n, "avi") || range_eq_str(
        &cs,
        e0,
        n,
        "mov",
    ) || range_eq_str(&cs, e0, n, "webm") || range_eq_str(&cs, e0, n, "flv") || range_eq_str(
        &cs,
        e0,
        n,
        "wmv",
    )
}

/// An entry met while walking a folder node.
pub enum WalkEntry {
    /// A regular file, with the outcome of opening it (the text of the
    /// error when it could not be opened); the outcome is looked at only for
    /// files with a wallpaper extension.
    File { path: String, accessible: Result<(), String> },
    /// A folder or anything else that is not a regular file.
    NotFile,
    /// The walk met an I/O error, with its text.
    IoError(String),
    /// The walk failed otherwise, with the text of the error.
    WalkError(String),
}

/// What the file system says of a node's path.
pub enum PathScan {
    /// Its metadata could not be read; the text of the error.
    MetadataError(String),
    /// A regular file, with the outcome of opening it, looked at only when it
    /// has a wallpaper extension.
    File { accessible: Result<(), String> },
    /// A folder, with the entries of a walk down to the node's recursion
    /// level, the folder itself first.
    Dir(Vec<WalkEntry>),
    /// Anything else.
    Other,
}

/// The outcome of opening a file, as plain values.
pub open spec fn access_view(a: Result<(), String>) -> Result<(), Seq<char>> {
    match a {
        Ok(()) => Ok(()),
        Err(e) => Err(e@),
    }
}

/// A walk entry as plain values.
pub enum EntryView {
    File { path: Seq<char>, accessible: Result<(), Seq<char>> },
    NotFile,
    IoError(Seq<char>),
    WalkError(Seq<char>),
}

impl View for WalkEntry {
    type V = EntryView;

    open spec fn view(&self) -> EntryView {
        match self {
            WalkEntry::File { path, accessible } => EntryView::File {
                path: path@,
                accessible: access_view(*accessible),
            },
            WalkEntry::NotFile => EntryView::NotFile,
            WalkEntry::IoError(e) => EntryView::IoError(e@),
            WalkEntry::WalkError(e) => EntryView::WalkError(e@),
        }
    }
}

/// The views of a list of walk entries.
pub open spec fn entry_views(v: Seq<WalkEntry>) -> Seq<EntryView> {
    v.map_values(|e: WalkEntry| e@)
}

/// A scan as plain values.
pub enum ScanView {
    MetadataError(Seq<char>),
    File { accessible: Result<(), Seq<char>> },
    Dir(Seq<EntryView>),
    Other,
}

impl View for PathScan {
    type V = ScanView;

    open spec fn view(&self) -> ScanView {
        match self {
            PathScan::MetadataError(e) => ScanView::MetadataError(e@),
            PathScan::File { accessible } => ScanView::File { accessible: access_view(*accessible) },
            PathScan::Dir(es) => ScanView::Dir(entry_views(es@)),
            PathScan::Other => ScanView::Other,
        }
    }
}

/// The mode of the node whose path is the longest prefix of `path`, or `d`
/// when there is none.
pub open spec fn closest_mode(s: StateView, path: Seq<char>, d: DisplayMode) -> DisplayMode {
    if exists|i: int| is_closest(s, path, i) {
        s.nodes[choose|i: int| is_closest(s, path, i)].mode
    } else {
        d
    }
}

/// The wallpapers found so far, with the warning text.
pub struct Found {
    pub wallpapers: Seq<WallpaperView>,
    pub warning: Seq<char>,
}

/// `acc` with `w`, unless an equal wallpaper is there.
pub open spec fn insert_wallpaper(acc: Seq<WallpaperView>, w: WallpaperView) -> Seq<WallpaperView> {
    if acc.contains(w) {
        acc
    } else {
        acc.push(w)
    }
}

/// What a walk entry under `node` adds.
pub open spec fn entry_found(s: StateView, node: NodeView, e: EntryView, f: Found) -> Found {
    match e {
        EntryView::File { path, accessible } => if ext_matches_spec(path) {
            match accessible {
                Ok(()) => Found {
                    wallpapers: insert_wallpaper(
                        f.wallpapers,
                        WallpaperView { path, mode: closest_mode(s, path, node.mode) },
                    ),
                    ..f
                },
                Err(err) => Found {
                    warning: f.warning + msg_error_path_line("couldn't open file"@, err, path),
                    ..f
                },
            }
        } else {
            f
        },
        EntryView::NotFile => f,
        EntryView::IoError(err) => Found {
            warning: f.warning + msg_error_path_line("I/O error"@, err, node.path),
            ..f
        },
        EntryView::WalkError(err) => Found {
            warning: f.warning + msg_error_line("Walkdir error"@, err),
            ..f
        },
    }
}

/// What the walk entries `es` under `node` add, in order.
pub open spec fn entries_found(s: StateView, node: NodeView, es: Seq<EntryView>, f: Found) -> Found
    decreases es.len(),
{
    if es.len() == 0 {
        f
    } else {
        entry_found(s, node, es.last(), entries_found(s, node, es.drop_last(), f))
    }
}

/// What the scan of `node` adds.
pub open spec fn scan_found(s: StateView, node: NodeView, scan: ScanView, f: Found) -> Found {
    match scan {
        ScanView::MetadataError(err) => Found {
            warning: f.warning + msg_error_path_line("couldn't get file metadata"@, err, node.path),
            ..f
        },
        ScanView::File { accessible } => if ext_matches_spec(node.path) {
            match accessible {
                Ok(()) => Found {
                    wallpapers: insert_wallpaper(
                        f.wallpapers,
                        WallpaperView { path: node.path, mode: node.mode },
                    ),
                    ..f
                },
                Err(err) => Found {
                    warning: f.warning + msg_error_path_line("couldn't open file"@, err, node.path),
                    ..f
                },
            }
        } else {
            f
        },
        ScanView::Dir(es) => entries_found(s, node, es, f),
        ScanView::Other => f,
    }
}

/// What the scans of `nodes` add, node by node.
pub open spec fn all_found(s: StateView, nodes: Seq<NodeView>, scans: Seq<ScanView>, f: Found) -> Found
    decreases nodes.len(),
{
    if nodes.len() == 0 || scans.len() == 0 {
        f
    } else {
        scan_found(
            s,
            nodes.last(),
            scans.last(),
            all_found(s, nodes.drop_last(), scans.drop_last(), f),
        )
    }
}

/// The views of a list of wallpapers.
pub open spec fn wallpaper_views(v: Seq<Wallpaper>) -> Seq<WallpaperView> {
    v.map_values(|w: Wallpaper| w@)
}

/// The views of a list of scans.
pub open spec fn scan_views(v: Seq<PathScan>) -> Seq<ScanView> {
    v.map_values(|p: PathScan| p@)
}

/// Two nodes that both are closest to `path` are the same.
proof fn lemma_closest_unique(s: StateView, path: Seq<char>, i: int, j: int)
    requires
        state_wf(s),
        is_closest(s, path, i),
        is_closest(s, path, j),
    ensures
        i == j,
{
    assert(s.nodes[i].path.len() == s.nodes[j].path.len());
    assert(s.nodes[i].path =~= path.take(s.nodes[i].path.len() as int));
    assert(s.nodes[j].path =~= path.take(s.nodes[j].path.len() as int));
    assert(node_paths(s.nodes)[i] == node_paths(s.nodes)[j]);
}

/// Adds `w` to `acc` unless an equal wallpaper is there.
fn insert_wallpaper_exec(acc: &mut Vec<Wallpaper>, w: Wallpaper)
    ensures
        wallpaper_views(final(acc)@) == insert_wallpaper(wallpaper_views(old(acc)@), w@),
{
    let ghost v0 = wallpaper_views(acc@);
    let mut i: usize = 0;
    while i < acc.len()
        invariant
            i <= acc@.len(),
            v0 == wallpaper_views(acc@),
            forall|k: int| 0 <= k < i ==> #[trigger] v0[k] != w@,
        decreases acc@.len() - i,
    {
        assert(v0[i as int] == acc@[i as int]@);
        if crate::clock::str_eq(acc[i].path.as_str(), w.path.as_str()) && acc[i].mode == w.mode {
            assert(v0[i as int] == w@);
            return;
        }
        i = i + 1;
    }
    acc.push(w);
    assert(wallpaper_views(acc@) =~= v0.push(w@));
}

impl State {
    /// The display mode of the closest node to `path`, or `d`.
    fn closest_mode_exec(&self, path: &str, d: DisplayMode) -> (m: DisplayMode)
        requires
            state_wf(self@),
        ensures
            m == closest_mode(self@, path@, d),
    {
        match self.find_closest_node(path) {
            Some(i) => {
                proof {
                    let c = choose|c: int| is_closest(self@, path@, c);
                    lemma_closest_unique(self@, path@, i as int, c);
                }
                assert(self@.nodes[i as int] == self.nodes@[i as int]@);
                self.nodes[i].mode
            },
            None => {
                assert forall|c: int| !is_closest(self@, path@, c) by {
                    if 0 <= c < self@.nodes.len() {
                        assert(!is_prefix(self@.nodes[c].path, path@));
                    }
                }
                d
            },
        }
    }

    /// Adds the wallpaper files under `node`, as `scan` says of them, to
    /// `wallpapers`, and to `warning` what could not be read: the node itself
    /// when it is a wallpaper file, else the wallpaper files met by the walk
    /// of a folder, each in the mode of its closest node.
    pub fn add_all_child_wallpapers(
        &self,
        wallpapers: &mut Vec<Wallpaper>,
        warning: &mut Warning,
        node: &WallpaperNode,
        scan: &PathScan,
    )
        requires
            state_wf(self@),
        ensures
            scan_found(
                self@,
                node@,
                scan@,
                Found { wallpapers: wallpaper_views(old(wallpapers)@), warning: old(warning).message@ },
            ) == (Found { wallpapers: wallpaper_views(final(wallpapers)@), warning: final(warning).message@ }),
    {
        match scan {
            PathScan::MetadataError(err) => {
                warning.append_msg_error_path(
                    "couldn't get file metadata",
                    err.as_str(),
                    node.path.as_str(),
                );
            },
            PathScan::File { accessible } => {
                if ext_matches(node.path.as_str()) {
                    match accessible {
                        Ok(()) => {
                            insert_wallpaper_exec(wallpapers, Wallpaper::from_node(node));
                        },
                        Err(err) => {
                            warning.append_msg_error_path(
                                "couldn't open file",
                                err.as_str(),
                                node.path.as_str(),
                            );
                        },
                    }
                }
            },
            PathScan::Dir(entries) => {
                let ghost f0 = Found { wallpapers: wallpaper_views(wallpapers@), warning: warning.message@ };
                let mut k: usize = 0;
                while k < entries.len()
                    invariant
                        k <= entries@.len(),
                        state_wf(self@),
                        entries_found(self@, node@, entry_views(entries@).take(k as int), f0) == (Found {
                            wallpapers: wallpaper_views(wallpapers@),
                            warning: warning.message@,
                        }),
                    decreases entries@.len() - k,
                {
                    let ghost eb = entry_views(entries@).take(k as int);
                    let ghost ea = entry_views(entries@).take(k + 1);
                    assert(ea.drop_last() =~= eb);
                    assert(ea.last() == entries@[k as int]@);
                    match &entries[k] {
                        WalkEntry::File { path, accessible } => {
                            if ext_matches(path.as_str()) {
                                match accessible {
                                    Ok(()) => {
                                        let mode = self.closest_mode_exec(path.as_str(), node.mode);
                                        insert_wallpaper_exec(
                                            wallpapers,
                                            Wallpaper::new(path.clone(), mode),
                                        );
                                    },
                                    Err(err) => {
                                        warning.append_msg_error_path(
                                            "couldn't open file",
                                            err.as_str(),
                                            path.as_str(),
                                        );
                                    },
                                }
                            }
                        },
                        WalkEntry::NotFile => {},
                        WalkEntry::IoError(err) => {
                            warning.append_msg_error_path(
                                "I/O error",
                                err.as_str(),
                                node.path.as_str(),
                            );
                        },
                        WalkEntry::WalkError(err) => {
                            warning.append_msg_error("Walkdir error", err.as_str());
                        },
                    }
                    k = k + 1;
                }
                assert(entry_views(entries@).take(entries@.len() as int) =~= entry_views(
                    entries@,
                ));
            },
            PathScan::Other => {},
        }
    }

    /// The wallpaper files under `nodes`, each with the mode it is shown in,
    /// given what the file system says of them (`scans[i]` for `nodes[i]`);
    /// with the warning text of what could not be read.
    pub fn find_all_child_wallpapers(&self, nodes: &Vec<WallpaperNode>, scans: &Vec<PathScan>) -> (r: (
        Vec<Wallpaper>,
        Warning,
    ))
        requires
            state_wf(self@),
            nodes@.len() == scans@.len(),
        ensures
            all_found(
                self@,
                node_views(nodes@),
                scan_views(scans@),
                Found { wallpapers: Seq::empty(), warning: Seq::empty() },
            ) == (Found { wallpapers: wallpaper_views(r.0@), warning: r.1.message@ }),
    {
        let ghost start = Found { wallpapers: Seq::empty(), warning: Seq::empty() };
        let mut acc: Vec<Wallpaper> = Vec::new();
        let mut warning = Warning::new();
        assert(wallpaper_views(acc@) =~= Seq::<WallpaperView>::empty());
        let mut i: usize = 0;
        while i < nodes.len()
            invariant
                i <= nodes@.len(),
                nodes@.len() == scans@.len(),
                state_wf(self@),
                all_found(
                    self@,
                    node_views(nodes@).take(i as int),
                    scan_views(scans@).take(i as int),
                    start,
                ) == (Found { wallpapers: wallpaper_views(acc@), warning: warning.message@ }),
            decreases nodes@.len() - i,
        {
            let ghost nb = node_views(nodes@).take(i as int);
            let ghost na = node_views(nodes@).take(i + 1);
            let ghost sb = scan_views(scans@).take(i as int);
            let ghost sa = scan_views(scans@).take(i + 1);
            assert(na.drop_last() =~= nb);
            assert(sa.drop_last() =~= sb);
            assert(na.last() == nodes@[i as int]@);
            assert(sa.last() == scans@[i as int]@);
            self.add_all_child_wallpapers(&mut acc, &mut warning, &nodes[i], &scans[i]);
            i = i + 1;
        }
        assert(node_views(nodes@).take(nodes@.len() as int) =~= node_views(nodes@));
        assert(scan_views(scans@).take(scans@.len() as int) =~= scan_views(scans@));
        (acc, warning)
    }
}

/// A number drawn at random below `n`, by `rand::random_range(0..n)`, which
/// panics on an empty range.
#[verifier::external_body]
fn random_below(n: usize) -> (r: usize)
    requires
        n > 0,
    ensures
        r < n,
{
    rand::random_range(0..n)
}

/// `"Can't set random wallpaper because there are no valid paths"`,
/// localized.
pub open spec fn no_valid_paths_message(is_ru: bool) -> Seq<char> {
    localized(
        is_ru,
        "Can't set random wallpaper because there are no valid paths"@,
        "Не удалось установить случайные обои, так как нет допустимых путей"@,
    )
}

/// Chooses at random which of `wallpapers` to show; the error when there is
/// none to choose from.
pub fn pick_random_wallpaper(wallpapers: &Vec<Wallpaper>, is_ru: bool) -> (r: Result<
    usize,
    ActionPerformError,
>)
    ensures
        match r {
            Ok(i) => i < wallpapers@.len(),
            Err(e) => wallpapers@.len() == 0 && e.message@ == no_valid_paths_message(is_ru),
        },
{
    if wallpapers.len() == 0 {
        return Err(
            ActionPerformError::new(
                if is_ru {
                    String::from_str(
                        "Не удалось установить случайные обои, так как нет допустимых путей",
                    )
                } else {
                    String::from_str("Can't set random wallpaper because there are no valid paths")
                },
            ),
        );
    }
    Ok(random_below(wallpapers.len()))
}

/// `warning` followed by `"{en}{path}'"` or `"{ru}{path}'"`.
fn warning_then(warning: &Warning, is_ru: bool, en: &str, ru: &str, path: &str) -> (r: String)
    ensures
        r@ == warning.message@ + localized(is_ru, en@, ru@) + path@ + "'"@,
{
    let mut r = warning.message.clone();
    if is_ru {
        crate::text::append_str(&mut r, ru);
    } else {
        crate::text::append_str(&mut r, en);
    }
    crate::text::append_str(&mut r, path);
    crate::text::append_str(&mut r, "'");
    r
}

/// The answer of showing the wallpaper `path`: the warning, then
/// `"Wallpaper set: '{path}'"`, localized.
pub fn wallpaper_set_message(warning: &Warning, path: &str, is_ru: bool) -> (r: String)
    ensures
        r@ == warning.message@ + localized(is_ru, "Wallpaper set: '"@, "Установлены обои: '"@)
            + path@ + "'"@,
{
    warning_then(warning, is_ru, "Wallpaper set: '", "Установлены обои: '", path)
}

/// The answer of showing the wallpaper `path` of a group: the warning, then
/// `"Wallpaper group set: '{path}'"`, localized.
pub fn group_set_message(warning: &Warning, path: &str, is_ru: bool) -> (r: String)
    ensures
        r@ == warning.message@ + localized(
            is_ru,
            "Wallpaper group set: '"@,
            "Установлена группа: '"@,
        ) + path@ + "'"@,
{
    warning_then(warning, is_ru, "Wallpaper group set: '", "Установлена группа: '", path)
}

/// The answer of setting the wallpaper `path` for a period that has not
/// begun, the period written as `period`.
pub fn scheduled_wallpaper_message(period: &str, path: &str, is_ru: bool) -> (r: String)
    ensures
        r@ == localized(
            is_ru,
            "The wallpaper is scheduled for the "@ + period@ + ": '"@ + path@ + "'"@,
            "Установка обоев запланирована на период "@ + period@ + ": '"@ + path@ + "'"@,
        ),
{
    if is_ru {
        crate::arg_error::concat5(
            "Установка обоев запланирована на период ",
            period,
            ": '",
            path,
            "'",
        )
    } else {
        crate::arg_error::concat5("The wallpaper is scheduled for the ", period, ": '", path, "'")
    }
}

/// The answer of setting the group `name` for a period that has not begun,
/// the period written as `period`.
pub fn scheduled_group_message(name: &str, period: &str, is_ru: bool) -> (r: String)
    ensures
        r@ == localized(
            is_ru,
            "The '"@ + name@ + "' wallpaper group is scheduled for the "@ + period@,
            "Установка группы '"@ + name@ + "' запланирована на период "@ + period@,
        ),
{
    proof {
        reveal_strlit("");
    }
    if is_ru {
        crate::arg_error::concat5(
            "Установка группы '",
            name,
            "' запланирована на период ",
            period,
            "",
        )
    } else {
        crate::arg_error::concat5("The '", name, "' wallpaper group is scheduled for the ", period, "")
    }
}

/// What setting a wallpaper or a group leads to: showing a wallpaper chosen
/// from these nodes now, or nothing before its period begins.
pub enum ShowPlan {
    Show(Vec<WallpaperNode>),
    Scheduled(TimePeriod),
}

/// The period of the node at `path`; none when there is no such node.
pub open spec fn node_period(s: StateView, path: Seq<char>) -> Option<TimePeriod> {
    if has_node(s, path) {
        s.nodes[node_index(s, path)].period
    } else {
        None
    }
}

/// `old` after the period options `p`: kept, removed or replaced.
pub open spec fn next_period(old: Option<TimePeriod>, p: ParsedTimePeriod) -> Option<TimePeriod> {
    match p {
        ParsedTimePeriod::NotSpecified => old,
        ParsedTimePeriod::Reset => None,
        ParsedTimePeriod::Period(tp) => Some(tp),
    }
}

/// `s` with the group at `g` given the period of `p`, and its nodes the
/// settings.
pub open spec fn group_updated(s: StateView, g: int, settings: Settings, p: ParsedTimePeriod) -> StateView {
    StateView {
        nodes: s.nodes.map_values(
            |n: NodeView|
                if s.groups[g].nodes.contains(n.path) {
                    apply_settings(settings, n)
                } else {
                    n
                },
        ),
        groups: s.groups.update(g, GroupView { period: next_period(s.groups[g].period, p), ..s.groups[g] }),
        ..s
    }
}

/// `"No wallpaper is set"`, localized.
pub open spec fn no_wallpaper_message(is_ru: bool) -> Seq<char> {
    localized(is_ru, "No wallpaper is set"@, "Обои не установлены"@)
}

impl State {
    /// The period of the node at `path`; none when there is no such node.
    pub fn period_of(&self, path: &str) -> (p: Option<TimePeriod>)
        requires
            state_wf(self@),
        ensures
            p == node_period(self@, path@),
    {
        match self.find_node(path) {
            Some(i) => {
                proof {
                    lemma_node_index(self@, path@, i as int);
                    assert(node_paths(self@.nodes)[i as int] == path@);
                }
                self.nodes[i].period
            },
            None => None,
        }
    }

    /// Forgets or records the wallpaper shown now.
    pub fn set_current(&mut self, path: Option<String>)
        requires
            state_wf(old(self)@),
        ensures
            state_wf(final(self)@),
            final(self)@ == (StateView {
                current: match path {
                    Some(p) => Some(p@),
                    None => None,
                },
                ..old(self)@
            }),
    {
        self.current_wallpaper_path = path;
    }

    /// The path of the wallpaper shown now, or the error when there is none.
    pub fn get_current(&self, is_ru: bool) -> (r: Result<String, ActionPerformError>)
        ensures
            match self@.current {
                Some(c) => r matches Ok(p) && p@ == c,
                None => r matches Err(e) && e.message@ == no_wallpaper_message(is_ru),
            },
    {
        match &self.current_wallpaper_path {
            Some(c) => Ok(c.clone()),
            None => Err(
                ActionPerformError::new(
                    if is_ru {
                        String::from_str("Обои не установлены")
                    } else {
                        String::from_str("No wallpaper is set")
                    },
                ),
            ),
        }
    }

    /// Gives the node at `path` (added when missing) the settings and the
    /// period. When the node's period holds `now` (or it has none), the plan
    /// is to show a wallpaper from it; else the wallpaper waits for the
    /// period given.
    pub fn set_wallpaper(&mut self, path: &str, settings: &Settings, period: ParsedTimePeriod, now: i64) -> (r:
        ShowPlan)
        requires
            state_wf(old(self)@),
            period is NotSpecified ==> none_or_in_bounds(node_period(old(self)@, path@), now as int),
        ensures
            state_wf(final(self)@),
            final(self)@ == updated_node(old(self)@, path@, *settings, period),
            ({
                let n = final(self)@.nodes[node_index(final(self)@, path@)];
                if none_or_in_bounds(n.period, now as int) {
                    r matches ShowPlan::Show(v) && node_views(v@) == seq![n]
                } else {
                    period is Period && r == ShowPlan::Scheduled(period->Period_0)
                }
            }),
    {
        let ghost s0 = self@;
        let i = self.update_node(path, settings, period);
        proof {
            let s1 = with_node(s0, path@);
            if has_node(s0, path@) {
                let j = choose|j: int| 0 <= j < node_paths(s0.nodes).len() && node_paths(s0.nodes)[j] == path@;
                assert(s1.nodes[j].path == path@);
            } else {
                lemma_push_node(s0, fresh_node(path@));
                assert(s1.nodes[s0.nodes.len() as int].path == path@);
                lemma_node_index(s1, path@, s0.nodes.len() as int);
            }
            let k = node_index(s1, path@);
            assert(0 <= k < s1.nodes.len() && s1.nodes[k].path == path@);
            assert(self@.nodes[k].path == path@);
            lemma_node_index(self@, path@, i as int);
            lemma_node_index(self@, path@, k);
            assert(k == i);
            if has_node(s0, path@) {
                assert(s1 == s0);
            }
            assert(s1.nodes[k].period == node_period(s0, path@));
        }
        if TimePeriod::is_none_or_now(&self.nodes[i].period, now) {
            let v = vec![self.nodes[i].duplicate()];
            assert(node_views(v@) =~= seq![self@.nodes[i as int]]);
            ShowPlan::Show(v)
        } else {
            match period {
                ParsedTimePeriod::Period(p) => ShowPlan::Scheduled(p),
                _ => {
                    assert(false);
                    ShowPlan::Show(Vec::new())
                },
            }
        }
    }

    /// Gives the group `name` the period, and its nodes the settings that are
    /// set. When the group's period holds `now` (or it has none), the plan is
    /// to show a wallpaper from its nodes; else the group waits for the
    /// period given. The error when there is no such group.
    pub fn set_group(
        &mut self,
        name: &str,
        settings: &Settings,
        period: ParsedTimePeriod,
        now: i64,
        is_ru: bool,
    ) -> (r: Result<ShowPlan, ActionPerformError>)
        requires
            state_wf(old(self)@),
            has_group(old(self)@, name@) && period is NotSpecified ==> none_or_in_bounds(
                old(self)@.groups[group_index(old(self)@, name@)].period,
                now as int,
            ),
        ensures
            state_wf(final(self)@),
            match r {
                Ok(plan) => {
                    let g = group_index(old(self)@, name@);
                    let s1 = group_updated(old(self)@, g, *settings, period);
                    &&& has_group(old(self)@, name@)
                    &&& final(self)@ == s1
                    &&& if none_or_in_bounds(s1.groups[g].period, now as int) {
                        plan matches ShowPlan::Show(v) && nodes_at_paths(
                            s1,
                            s1.groups[g].nodes,
                            node_views(v@),
                        )
                    } else {
                        period is Period && plan == ShowPlan::Scheduled(period->Period_0)
                    }
                },
                Err(e) => !has_group(old(self)@, name@) && final(self)@ == old(self)@
                    && e.message@ == group_not_found_message(name@, is_ru),
            },
    {
        let ghost s0 = self@;
        let g = match self.find_group(name) {
            Some(g) => g,
            None => {
                return Err(group_not_found_error(name, is_ru));
            },
        };
        proof {
            lemma_index_of_unique(s0.group_names, g as int, name@);
        }
        assert(has_group(s0, name@));
        let ghost members = s0.groups[g as int].nodes;
        assert(members == views(self.groups@[g as int].nodes@));
        let mut i: usize = 0;
        while i < self.nodes.len()
            invariant
                i <= self.nodes@.len(),
                self.nodes@.len() == s0.nodes.len(),
                g < self.groups@.len(),
                self.groups == old(self).groups,
                self.group_names == old(self).group_names,
                self.current_wallpaper_path == old(self).current_wallpaper_path,
                s0 == old(self)@,
                members == views(self.groups@[g as int].nodes@),
                forall|k: int|
                    0 <= k < i ==> #[trigger] self.nodes@[k]@ == (if members.contains(s0.nodes[k].path) {
                        apply_settings(*settings, s0.nodes[k])
                    } else {
                        s0.nodes[k]
                    }),
                forall|k: int| i <= k < self.nodes@.len() ==> #[trigger] self.nodes@[k]@ == s0.nodes[k],
            decreases self.nodes@.len() - i,
        {
            assert(self.nodes@[i as int]@ == s0.nodes[i as int]);
            if contains_string(&self.groups[g].nodes, self.nodes[i].path.as_str()) {
                let mut n = self.nodes[i].duplicate();
                settings.update_node(&mut n);
                self.nodes.set(i, n);
            }
            assert(self.nodes@[i as int]@ == (if members.contains(s0.nodes[i as int].path) {
                apply_settings(*settings, s0.nodes[i as int])
            } else {
                s0.nodes[i as int]
            }));
            i = i + 1;
        }
        let new_period = match period {
            ParsedTimePeriod::NotSpecified => self.groups[g].period,
            ParsedTimePeriod::Reset => None,
            ParsedTimePeriod::Period(p) => Some(p),
        };
        let grp = WallpaperGroup { nodes: clone_strings(&self.groups[g].nodes), period: new_period };
        self.groups.set(g, grp);
        let ghost s1 = group_updated(s0, g as int, *settings, period);
        assert(node_views(self.nodes@) =~= s1.nodes);
        assert(group_views(self.groups@) =~= s1.groups);
        assert(self@ == s1);
        proof {
            assert(node_paths(s1.nodes) =~= node_paths(s0.nodes));
            assert forall|j: int| 0 <= j < s1.groups.len() implies group_wf(#[trigger] s1.groups[j], s1.nodes) by {
                assert(group_wf(s0.groups[j], s0.nodes));
            }
            assert(group_wf(s1.groups[g as int], s1.nodes));
        }
        if TimePeriod::is_none_or_now(&new_period, now) {
            let ps = clone_strings(&self.groups[g].nodes);
            assert(views(ps@) == s1.groups[g as int].nodes);
            assert forall|k: int| 0 <= k < views(ps@).len() implies has_node(s1, #[trigger] views(ps@)[k]) by {
                assert(group_wf(s1.groups[g as int], s1.nodes));
            }
            let v = self.nodes_at(&ps);
            Ok(ShowPlan::Show(v))
        } else {
            match period {
                ParsedTimePeriod::Period(p) => Ok(ShowPlan::Scheduled(p)),
                _ => {
                    assert(false);
                    Ok(ShowPlan::Show(Vec::new()))
                },
            }
        }
    }

    /// The node a restored wallpaper is chosen from: the current wallpaper's
    /// path with the settings of its closest node; when no node is a prefix
    /// of it, a node is added at the path with default settings. `None`
    /// when no wallpaper is current.
    pub fn restore_wallpaper(&mut self) -> (r: Option<WallpaperNode>)
        requires
            state_wf(old(self)@),
        ensures
            state_wf(final(self)@),
            match old(self)@.current {
                None => r is None && final(self)@ == old(self)@,
                Some(c) => if exists|i: int| is_closest(old(self)@, c, i) {
                    let i = choose|i: int| is_closest(old(self)@, c, i);
                    &&& final(self)@ == old(self)@
                    &&& r matches Some(n) && n@ == (NodeView { path: c, ..old(self)@.nodes[i] })
                } else {
                    &&& final(self)@ == with_node(old(self)@, c)
                    &&& r matches Some(n) && n@ == fresh_node(c)
                },
            },
    {
        let ghost s0 = self@;
        let c = match &self.current_wallpaper_path {
            Some(c) => c.clone(),
            None => {
                return None;
            },
        };
        match self.find_closest_node(c.as_str()) {
            Some(i) => {
                proof {
                    let k = choose|k: int| is_closest(s0, c@, k);
                    lemma_closest_unique(s0, c@, i as int, k);
                }
                assert(self@.nodes[i as int] == self.nodes@[i as int]@);
                Some(self.nodes[i].with_path(c))
            },
            None => {
                assert forall|k: int| !is_closest(s0, c@, k) by {
                    if 0 <= k < s0.nodes.len() {
                        assert(!is_prefix(s0.nodes[k].path, c@));
                    }
                }
                assert(!has_node(s0, c@)) by {
                    assert(c@.take(c@.len() as int) =~= c@);
                    if has_node(s0, c@) {
                        let k = choose|k: int| 0 <= k < node_paths(s0.nodes).len() && node_paths(s0.nodes)[k] == c@;
                        assert(is_prefix(s0.nodes[k].path, c@));
                    }
                }
                let k = self.get_or_insert_node(c.as_str());
                proof {
                    assert(self@.nodes[s0.nodes.len() as int] == fresh_node(c@));
                    lemma_node_index(self@, c@, k as int);
                    lemma_node_index(self@, c@, s0.nodes.len() as int);
                }
                assert(self@.nodes[k as int] == self.nodes@[k as int]@);
                Some(self.nodes[k].duplicate())
            },
        }
    }

    /// The nodes to look for non-fitting wallpapers in: all of them when no
    /// path is given, else the nodes at the paths, added when missing.
    pub fn non_fitting_nodes(&mut self, paths: &Vec<String>) -> (r: Vec<WallpaperNode>)
        requires
            state_wf(old(self)@),
        ensures
            state_wf(final(self)@),
            if paths@.len() == 0 {
                final(self)@ == old(self)@ && node_views(r@) == old(self)@.nodes
            } else {
                final(self)@ == with_nodes(old(self)@, views(paths@)) && nodes_at_paths(
                    final(self)@,
                    views(paths@),
                    node_views(r@),
                )
            },
    {
        if paths.len() == 0 {
            let mut all: Vec<WallpaperNode> = Vec::new();
            let mut j: usize = 0;
            while j < self.nodes.len()
                invariant
                    j <= self.nodes@.len(),
                    all@.len() == j,
                    forall|k: int| 0 <= k < j ==> #[trigger] all@[k]@ == self.nodes@[k]@,
                decreases self.nodes@.len() - j,
            {
                all.push(self.nodes[j].duplicate());
                j = j + 1;
            }
            assert(node_views(all@) =~= node_views(self.nodes@));
            return all;
        }
        let ghost s0 = self@;
        let ghost ps = views(paths@);
        let mut i: usize = 0;
        while i < paths.len()
            invariant
                i <= paths@.len(),
                ps == views(paths@),
                state_wf(self@),
                self@ == with_nodes(s0, ps.take(i as int)),
            decreases paths@.len() - i,
        {
            let ghost before = ps.take(i as int);
            let ghost after = ps.take(i + 1);
            assert(after.drop_last() =~= before);
            assert(after.last() == paths@[i as int]@);
            self.get_or_insert_node(paths[i].as_str());
            i = i + 1;
        }
        assert(ps.take(ps.len() as int) =~= ps);
        proof {
            lemma_with_nodes(s0, ps);
        }
        self.nodes_at(paths)
    }
}

impl State {
    /// The path of the wallpaper shown now, if any.
    pub fn get_current_wallpaper_path(&self) -> (p: &Option<String>)
        ensures
            match self@.current {
                Some(c) => *p matches Some(s) && s@ == c,
                None => *p is None,
            },
    {
        &self.current_wallpaper_path
    }

    /// Adds the paths to the group `name`, creating it when missing; nodes
    /// are added for paths that have none.
    pub fn add_to_group(&mut self, name: String, paths: &Vec<String>)
        requires
            state_wf(old(self)@),
        ensures
            state_wf(final(self)@),
            final(self)@ == crate::state::grouped(old(self)@, name@, views(paths@)),
    {
        self.new_group(name, paths)
    }

    /// Copies of the nodes to choose a random wallpaper from at `now`, as
    /// `find_actual_nodes` gives them.
    pub fn set_random_wallpaper(&self, now: i64) -> (r: Vec<WallpaperNode>)
        requires
            state_wf(self@),
        ensures
            nodes_at_paths(self@, crate::state::actual_paths(self@, now as int), node_views(r@)),
    {
        self.find_actual_nodes(now)
    }
}

/// Resets the wallpaper: afterwards none is recorded as shown, and nothing
/// else changes. Stopping the process that draws it is the caller's part.
pub fn reset(state: &mut State)
    requires
        state_wf(old(state)@),
    ensures
        state_wf(final(state)@),
        final(state)@ == (StateView { current: None, ..old(state)@ }),
{
    state.set_current(None);
}

/// `"Wallpaper already restored"`, localized.
pub open spec fn already_restored_message(is_ru: bool) -> Seq<char> {
    localized(is_ru, "Wallpaper already restored"@, "Обои уже восстановлены"@)
}

/// Restores the wallpaper after a start: refused while a wallpaper is being
/// shown (`backend_running`); otherwise the node to show from, as
/// `restore_wallpaper` gives it (none when no wallpaper was recorded).
pub fn restore(state: &mut State, backend_running: bool, is_ru: bool) -> (r: Result<
    Option<WallpaperNode>,
    ActionPerformError,
>)
    requires
        state_wf(old(state)@),
    ensures
        state_wf(final(state)@),
        backend_running ==> (r matches Err(e) && e.message@ == already_restored_message(is_ru)
            && final(state)@ == old(state)@),
        !backend_running ==> (r matches Ok(n) && match old(state)@.current {
            None => n is None && final(state)@ == old(state)@,
            Some(c) => if exists|i: int| is_closest(old(state)@, c, i) {
                let i = choose|i: int| is_closest(old(state)@, c, i);
                &&& final(state)@ == old(state)@
                &&& n matches Some(x) && x@ == (NodeView { path: c, ..old(state)@.nodes[i] })
            } else {
                &&& final(state)@ == with_node(old(state)@, c)
                &&& n matches Some(x) && x@ == fresh_node(c)
            },
        }),
{
    if backend_running {
        Err(
            ActionPerformError::new(
                if is_ru {
                    String::from_str("Обои уже восстановлены")
                } else {
                    String::from_str("Wallpaper already restored")
                },
            ),
        )
    } else {
        Ok(state.restore_wallpaper())
    }
}

} // verus!
