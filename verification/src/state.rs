//! The daemon's database: the files and folders it knows with their
//! settings, the groups of them, and the wallpaper shown now.

use vstd::prelude::*;

use crate::node::{apply_settings, expired, some_and_in_bounds, fresh_node, NodeView, Settings, TimePeriod, WallpaperNode};
use crate::display_mode::DisplayMode;
use crate::text::{append_str, clone_strings, contains_string, is_prefix, join, join_strings, starts_with, views};
use crate::time_period::ParsedTimePeriod;
use crate::arg_error::concat5;
use crate::outcome::{localized, ActionPerformError};

verus! {

/// A group: the paths of its files and folders, each of them a node of the
/// database, and the period it is set for.
pub struct WallpaperGroup {
    pub nodes: Vec<String>,
    pub period: Option<TimePeriod>,
}

/// What a group holds, as plain values.
pub struct GroupView {
    pub nodes: Seq<Seq<char>>,
    pub period: Option<TimePeriod>,
}

impl View for WallpaperGroup {
    type V = GroupView;

    open spec fn view(&self) -> GroupView {
        GroupView { nodes: views(self.nodes@), period: self.period }
    }
}

/// The database. Groups are kept by name: `group_names[i]` names
/// `groups[i]`.
pub struct State {
    pub current_wallpaper_path: Option<String>,
    pub nodes: Vec<WallpaperNode>,
    pub group_names: Vec<String>,
    pub groups: Vec<WallpaperGroup>,
}

/// What the database holds, as plain values.
pub struct StateView {
    pub current: Option<Seq<char>>,
    pub nodes: Seq<NodeView>,
    pub group_names: Seq<Seq<char>>,
    pub groups: Seq<GroupView>,
}

/// The views of a list of nodes.
pub open spec fn node_views(v: Seq<WallpaperNode>) -> Seq<NodeView> {
    v.map_values(|n: WallpaperNode| n@)
}

/// The views of a list of groups.
pub open spec fn group_views(v: Seq<WallpaperGroup>) -> Seq<GroupView> {
    v.map_values(|g: WallpaperGroup| g@)
}

impl View for State {
    type V = StateView;

    open spec fn view(&self) -> StateView {
        StateView {
            current: match self.current_wallpaper_path {
                Some(p) => Some(p@),
                None => None,
            },
            nodes: node_views(self.nodes@),
            group_names: views(self.group_names@),
            groups: group_views(self.groups@),
        }
    }
}

/// The paths of a list of nodes.
pub open spec fn node_paths(nodes: Seq<NodeView>) -> Seq<Seq<char>> {
    nodes.map_values(|n: NodeView| n.path)
}

/// A group lists each of its paths once, and each of them is a node's.
pub open spec fn group_wf(g: GroupView, nodes: Seq<NodeView>) -> bool {
    &&& g.nodes.no_duplicates()
    &&& forall|k: int| 0 <= k < g.nodes.len() ==> node_paths(nodes).contains(#[trigger] g.nodes[k])
}

/// The database is well formed: one node per path, one group per name, and
/// each group well formed.
pub open spec fn state_wf(s: StateView) -> bool {
    &&& node_paths(s.nodes).no_duplicates()
    &&& s.group_names.no_duplicates()
    &&& s.group_names.len() == s.groups.len()
    &&& forall|g: int| 0 <= g < s.groups.len() ==> group_wf(#[trigger] s.groups[g], s.nodes)
}

/// The database has a node at `path`.
pub open spec fn has_node(s: StateView, path: Seq<char>) -> bool {
    node_paths(s.nodes).contains(path)
}

/// The position of the node at `path`.
pub open spec fn node_index(s: StateView, path: Seq<char>) -> int {
    choose|i: int| 0 <= i < s.nodes.len() && s.nodes[i].path == path
}

/// The position of the group named `name`.
pub open spec fn group_index(s: StateView, name: Seq<char>) -> int {
    choose|i: int| 0 <= i < s.group_names.len() && s.group_names[i] == name
}

/// `s`, with a fresh node at `path` when it has none there.
pub open spec fn with_node(s: StateView, path: Seq<char>) -> StateView {
    if has_node(s, path) {
        s
    } else {
        StateView { nodes: s.nodes.push(fresh_node(path)), ..s }
    }
}

/// `n` with the period that `p` gives: kept, removed or replaced.
pub open spec fn apply_period(n: NodeView, p: ParsedTimePeriod) -> NodeView {
    match p {
        ParsedTimePeriod::NotSpecified => n,
        ParsedTimePeriod::Reset => NodeView { period: None, ..n },
        ParsedTimePeriod::Period(tp) => NodeView { period: Some(tp), ..n },
    }
}

/// `s` with the node at `path` (added if missing) given the settings and
/// the period.
pub open spec fn updated_node(s: StateView, path: Seq<char>, settings: Settings, p: ParsedTimePeriod) -> StateView {
    let s1 = with_node(s, path);
    let i = node_index(s1, path);
    StateView {
        nodes: s1.nodes.update(i, apply_period(apply_settings(settings, s1.nodes[i]), p)),
        ..s1
    }
}

/// The only position of a path in a list without duplicates.
pub proof fn lemma_unique_index(s: Seq<Seq<char>>, i: int, j: int)
    requires
        s.no_duplicates(),
        0 <= i < s.len(),
        0 <= j < s.len(),
        s[i] == s[j],
    ensures
        i == j,
{
}

/// The node at `path`, in a well-formed database that has one, sits at
/// `node_index`.
pub proof fn lemma_node_index(s: StateView, path: Seq<char>, i: int)
    requires
        state_wf(s),
        0 <= i < s.nodes.len(),
        s.nodes[i].path == path,
    ensures
        node_index(s, path) == i,
{
    let k = node_index(s, path);
    assert(node_paths(s.nodes)[i] == path);
    assert(node_paths(s.nodes)[k] == path);
}

/// Replacing a node by one at the same path keeps the database well formed.
pub proof fn lemma_same_path_update(s: StateView, i: int, n: NodeView)
    requires
        state_wf(s),
        0 <= i < s.nodes.len(),
        n.path == s.nodes[i].path,
    ensures
        state_wf(StateView { nodes: s.nodes.update(i, n), ..s }),
        node_paths(s.nodes.update(i, n)) == node_paths(s.nodes),
{
    assert(node_paths(s.nodes.update(i, n)) =~= node_paths(s.nodes));
}

/// Adding a node at a new path keeps the database well formed.
pub proof fn lemma_push_node(s: StateView, n: NodeView)
    requires
        state_wf(s),
        !has_node(s, n.path),
    ensures
        state_wf(StateView { nodes: s.nodes.push(n), ..s }),
        node_paths(s.nodes.push(n)) == node_paths(s.nodes).push(n.path),
{
    let t = StateView { nodes: s.nodes.push(n), ..s };
    assert(node_paths(s.nodes.push(n)) =~= node_paths(s.nodes).push(n.path));
    assert forall|g: int| 0 <= g < t.groups.len() implies group_wf(#[trigger] t.groups[g], t.nodes) by {
        assert(group_wf(s.groups[g], s.nodes));
        assert forall|k: int| 0 <= k < t.groups[g].nodes.len() implies node_paths(t.nodes).contains(
            #[trigger] t.groups[g].nodes[k],
        ) by {
            let j = choose|j: int| 0 <= j < node_paths(s.nodes).len() && node_paths(s.nodes)[j] == t.groups[g].nodes[k];
            assert(node_paths(t.nodes)[j] == t.groups[g].nodes[k]);
        }
    }
}

impl State {
    /// An empty database.
    pub fn new() -> (s: Self)
        ensures
            s@ == (StateView {
                current: None,
                nodes: Seq::empty(),
                group_names: Seq::empty(),
                groups: Seq::empty(),
            }),
            state_wf(s@),
    {
        let s = State {
            current_wallpaper_path: None,
            nodes: Vec::new(),
            group_names: Vec::new(),
            groups: Vec::new(),
        };
        assert(node_views(s.nodes@) =~= Seq::<NodeView>::empty());
        assert(views(s.group_names@) =~= Seq::<Seq<char>>::empty());
        assert(group_views(s.groups@) =~= Seq::<GroupView>::empty());
        s
    }

    /// The position of the node at `path`.
    pub fn find_node(&self, path: &str) -> (r: Option<usize>)
        ensures
            match r {
                Some(i) => i < self@.nodes.len() && self@.nodes[i as int].path == path@,
                None => !has_node(self@, path@),
            },
    {
        let mut i: usize = 0;
        while i < self.nodes.len()
            invariant
                i <= self.nodes@.len(),
                forall|k: int| 0 <= k < i ==> self.nodes@[k].path@ != path@,
            decreases self.nodes@.len() - i,
        {
            if crate::clock::str_eq(self.nodes[i].path.as_str(), path) {
                return Some(i);
            }
            i = i + 1;
        }
        assert forall|k: int| 0 <= k < node_paths(self@.nodes).len() implies node_paths(self@.nodes)[k]
            != path@ by {
            assert(node_paths(self@.nodes)[k] == self.nodes@[k].path@);
        }
        None
    }

    /// The position of the group named `name`.
    pub fn find_group(&self, name: &str) -> (r: Option<usize>)
        ensures
            match r {
                Some(i) => i < self@.group_names.len() && self@.group_names[i as int] == name@,
                None => !self@.group_names.contains(name@),
            },
    {
        let mut i: usize = 0;
        while i < self.group_names.len()
            invariant
                i <= self.group_names@.len(),
                forall|k: int| 0 <= k < i ==> self.group_names@[k]@ != name@,
            decreases self.group_names@.len() - i,
        {
            if crate::clock::str_eq(self.group_names[i].as_str(), name) {
                return Some(i);
            }
            i = i + 1;
        }
        assert forall|k: int| 0 <= k < self@.group_names.len() implies self@.group_names[k]
            != name@ by {
            assert(self@.group_names[k] == self.group_names@[k]@);
        }
        None
    }

    /// The node at `path`, added with default settings when missing; its
    /// position.
    pub fn get_or_insert_node(&mut self, path: &str) -> (i: usize)
        requires
            state_wf(old(self)@),
        ensures
            state_wf(final(self)@),
            final(self)@ == with_node(old(self)@, path@),
            i < final(self)@.nodes.len(),
            final(self)@.nodes[i as int].path == path@,
    {
        match self.find_node(path) {
            Some(i) => {
                assert(has_node(old(self)@, path@)) by {
                    assert(node_paths(old(self)@.nodes)[i as int] == path@);
                }
                i
            },
            None => {
                let n = WallpaperNode::new(
                    String::from_str(path),
                    DisplayMode::new(),
                    crate::node::default_recursive_level(),
                    None,
                );
                proof {
                    lemma_push_node(old(self)@, n@);
                }
                self.nodes.push(n);
                assert(node_views(self.nodes@) =~= node_views(old(self).nodes@).push(n@));
                (self.nodes.len() - 1)
            },
        }
    }

    /// Gives the node at `path` (added when missing) the settings that are
    /// set and the period; its position.
    pub fn update_node(&mut self, path: &str, settings: &Settings, period: ParsedTimePeriod) -> (i:
        usize)
        requires
            state_wf(old(self)@),
        ensures
            state_wf(final(self)@),
            final(self)@ == updated_node(old(self)@, path@, *settings, period),
            i < final(self)@.nodes.len(),
            final(self)@.nodes[i as int].path == path@,
    {
        let i = self.get_or_insert_node(path);
        let ghost s1 = self@;
        proof {
            lemma_node_index(s1, path@, i as int);
        }
        let mut n = self.nodes[i].duplicate();
        settings.update_node(&mut n);
        match period {
            ParsedTimePeriod::NotSpecified => {},
            ParsedTimePeriod::Reset => {
                n.period = None;
            },
            ParsedTimePeriod::Period(p) => {
                n.period = Some(p);
            },
        }
        proof {
            lemma_same_path_update(s1, i as int, n@);
        }
        self.nodes.set(i, n);
        assert(node_views(self.nodes@) =~= s1.nodes.update(i as int, n@));
        i
    }
}

/// `i` is the node whose path is the longest prefix of `path`.
pub open spec fn is_closest(s: StateView, path: Seq<char>, i: int) -> bool {
    &&& 0 <= i < s.nodes.len()
    &&& is_prefix(s.nodes[i].path, path)
    &&& forall|j: int|
        0 <= j < s.nodes.len() && is_prefix(#[trigger] s.nodes[j].path, path) ==> s.nodes[j].path.len()
            <= s.nodes[i].path.len()
}

/// The earliest start after `now` among the periods of `nodes`.
pub open spec fn next_start(nodes: Seq<NodeView>, now: int) -> Option<i64>
    decreases nodes.len(),
{
    if nodes.len() == 0 {
        None
    } else {
        let r = next_start(nodes.drop_last(), now);
        match nodes.last().period {
            Some(p) => if p.since > now {
                match r {
                    Some(t) => Some(
                        if p.since < t {
                            p.since
                        } else {
                            t
                        },
                    ),
                    None => Some(p.since),
                }
            } else {
                r
            },
            None => r,
        }
    }
}

/// The milliseconds to wait from `now` for the next period to start, at most
/// `i32::MAX`; `None` when no period starts later.
pub open spec fn timeout_spec(s: StateView, now: int) -> Option<i32> {
    match next_start(s.nodes, now) {
        None => None,
        Some(t) => Some(
            if t - now <= i32::MAX {
                (t - now) as i32
            } else {
                i32::MAX
            },
        ),
    }
}

/// `p`, or none once it has ended by `now`.
pub open spec fn cleared(p: Option<TimePeriod>, now: int) -> Option<TimePeriod> {
    match p {
        Some(tp) => if expired(tp, now) {
            None
        } else {
            p
        },
        None => None,
    }
}

/// `s` with every period that has ended by `now` removed.
pub open spec fn without_expired(s: StateView, now: int) -> StateView {
    StateView {
        nodes: s.nodes.map_values(|n: NodeView| NodeView { period: cleared(n.period, now), ..n }),
        groups: s.groups.map_values(
            |g: GroupView| GroupView { period: cleared(g.period, now), ..g },
        ),
        ..s
    }
}

impl State {
    /// The node whose path is the longest prefix of `path`, if any.
    pub fn find_closest_node(&self, path: &str) -> (r: Option<usize>)
        ensures
            match r {
                Some(i) => is_closest(self@, path@, i as int),
                None => forall|j: int|
                    0 <= j < self@.nodes.len() ==> !is_prefix(#[trigger] self@.nodes[j].path, path@),
            },
    {
        let mut best: Option<usize> = None;
        let mut best_len: usize = 0;
        let mut i: usize = 0;
        while i < self.nodes.len()
            invariant
                i <= self.nodes@.len(),
                self@.nodes == node_views(self.nodes@),
                match best {
                    Some(b) => {
                        &&& b < i
                        &&& is_prefix(self@.nodes[b as int].path, path@)
                        &&& best_len == self@.nodes[b as int].path.len()
                        &&& forall|j: int|
                            0 <= j < i && is_prefix(#[trigger] self@.nodes[j].path, path@)
                                ==> self@.nodes[j].path.len() <= best_len
                    },
                    None => forall|j: int|
                        0 <= j < i ==> !is_prefix(#[trigger] self@.nodes[j].path, path@),
                },
            decreases self.nodes@.len() - i,
        {
            assert(self@.nodes[i as int] == self.nodes@[i as int]@);
            if starts_with(path, self.nodes[i].path.as_str()) {
                let len = crate::text::chars_of(self.nodes[i].path.as_str()).len();
                match best {
                    Some(_) => {
                        if len >= best_len {
                            best = Some(i);
                            best_len = len;
                        }
                    },
                    None => {
                        best = Some(i);
                        best_len = len;
                    },
                }
            }
            i = i + 1;
        }
        best
    }

    /// The milliseconds to wait from `now` until the next period of a node
    /// starts, at most `i32::MAX`; `None` when none starts later.
    pub fn get_timeout(&self, now: i64) -> (r: Option<i32>)
        ensures
            r == timeout_spec(self@, now as int),
    {
        let mut next: Option<i64> = None;
        let mut i: usize = 0;
        while i < self.nodes.len()
            invariant
                i <= self.nodes@.len(),
                self@.nodes == node_views(self.nodes@),
                next == next_start(self@.nodes.take(i as int), now as int),
            decreases self.nodes@.len() - i,
        {
            let ghost before = self@.nodes.take(i as int);
            let ghost after = self@.nodes.take(i + 1);
            assert(after.drop_last() =~= before);
            assert(after.last() == self.nodes@[i as int]@);
            if let Some(p) = self.nodes[i].period {
                if p.since > now {
                    next = match next {
                        Some(t) => Some(
                            if p.since < t {
                                p.since
                            } else {
                                t
                            },
                        ),
                        None => Some(p.since),
                    };
                }
            }
            i = i + 1;
        }
        assert(self@.nodes.take(self@.nodes.len() as int) =~= self@.nodes);
        match next {
            None => None,
            Some(t) => {
                let d: i128 = (t as i128) - (now as i128);
                if d <= 2147483647 {
                    Some(d as i32)
                } else {
                    Some(2147483647)
                }
            },
        }
    }

    /// Removes every period that has ended by `now`.
    pub fn clear_expired_peroids(&mut self, now: i64)
        requires
            state_wf(old(self)@),
        ensures
            state_wf(final(self)@),
            final(self)@ == without_expired(old(self)@, now as int),
    {
        let ghost s0 = self@;
        let mut i: usize = 0;
        while i < self.nodes.len()
            invariant
                i <= self.nodes@.len(),
                self.nodes@.len() == s0.nodes.len(),
                forall|k: int|
                    0 <= k < i ==> #[trigger] self.nodes@[k]@ == (NodeView {
                        period: cleared(s0.nodes[k].period, now as int),
                        ..s0.nodes[k]
                    }),
                forall|k: int| i <= k < self.nodes@.len() ==> #[trigger] self.nodes@[k]@ == s0.nodes[k],
                s0 == old(self)@,
                self.group_names == old(self).group_names,
                self.groups == old(self).groups,
                self.current_wallpaper_path == old(self).current_wallpaper_path,
            decreases self.nodes@.len() - i,
        {
            let expired = match self.nodes[i].period {
                Some(p) => p.is_expired(now),
                None => false,
            };
            if expired {
                let mut n = self.nodes[i].duplicate();
                n.period = None;
                self.nodes.set(i, n);
            }
            i = i + 1;
        }
        let mut g: usize = 0;
        while g < self.groups.len()
            invariant
                g <= self.groups@.len(),
                self.groups@.len() == s0.groups.len(),
                forall|k: int|
                    0 <= k < g ==> #[trigger] self.groups@[k]@ == (GroupView {
                        period: cleared(s0.groups[k].period, now as int),
                        ..s0.groups[k]
                    }),
                forall|k: int| g <= k < self.groups@.len() ==> #[trigger] self.groups@[k]@ == s0.groups[k],
                node_views(self.nodes@) == without_expired(s0, now as int).nodes,
                s0 == old(self)@,
                self.group_names == old(self).group_names,
                self.current_wallpaper_path == old(self).current_wallpaper_path,
            decreases self.groups@.len() - g,
        {
            let expired = match self.groups[g].period {
                Some(p) => p.is_expired(now),
                None => false,
            };
            assert(self.groups@[g as int]@ == s0.groups[g as int]);
            if expired {
                let grp = WallpaperGroup { nodes: clone_strings(&self.groups[g].nodes), period: None };
                self.groups.set(g, grp);
            }
            assert(self.groups@[g as int]@ == (GroupView {
                period: cleared(s0.groups[g as int].period, now as int),
                ..s0.groups[g as int]
            }));
            g = g + 1;
        }
        assert(node_views(self.nodes@) =~= without_expired(s0, now as int).nodes);
        assert(group_views(self.groups@) =~= without_expired(s0, now as int).groups);
        assert(node_paths(self@.nodes) =~= node_paths(s0.nodes));
        assert forall|k: int| 0 <= k < self@.groups.len() implies group_wf(#[trigger] self@.groups[k], self@.nodes) by {
            assert(group_wf(s0.groups[k], s0.nodes));
            assert(self@.groups[k].nodes == s0.groups[k].nodes);
        }
    }
}

/// `acc` followed by the elements of `xs` that it lacks, each once, in
/// order.
pub open spec fn push_new(acc: Seq<Seq<char>>, xs: Seq<Seq<char>>) -> Seq<Seq<char>>
    decreases xs.len(),
{
    if xs.len() == 0 {
        acc
    } else {
        let r = push_new(acc, xs.drop_last());
        if r.contains(xs.last()) {
            r
        } else {
            r.push(xs.last())
        }
    }
}

/// The paths of the nodes whose own period holds `now`.
pub open spec fn nodes_in_period(nodes: Seq<NodeView>, now: int) -> Seq<Seq<char>>
    decreases nodes.len(),
{
    if nodes.len() == 0 {
        Seq::empty()
    } else {
        let r = nodes_in_period(nodes.drop_last(), now);
        if some_and_in_bounds(nodes.last().period, now) {
            r.push(nodes.last().path)
        } else {
            r
        }
    }
}

/// `acc` followed by the paths of the groups whose period holds `now` that
/// it lacks.
pub open spec fn groups_in_period(acc: Seq<Seq<char>>, groups: Seq<GroupView>, now: int) -> Seq<
    Seq<char>,
>
    decreases groups.len(),
{
    if groups.len() == 0 {
        acc
    } else {
        let r = groups_in_period(acc, groups.drop_last(), now);
        if some_and_in_bounds(groups.last().period, now) {
            push_new(r, groups.last().nodes)
        } else {
            r
        }
    }
}

/// The paths to choose a wallpaper from at `now`: those of the nodes and
/// groups whose period holds `now`, each once; all nodes when there is none.
pub open spec fn actual_paths(s: StateView, now: int) -> Seq<Seq<char>> {
    let v = groups_in_period(nodes_in_period(s.nodes, now), s.groups, now);
    if v.len() == 0 {
        node_paths(s.nodes)
    } else {
        v
    }
}

/// Every element of `ps` is the path of a node.
pub open spec fn all_nodes(s: StateView, ps: Seq<Seq<char>>) -> bool {
    forall|k: int| 0 <= k < ps.len() ==> has_node(s, #[trigger] ps[k])
}

/// `res` holds, in order, the nodes at the paths `ps`.
pub open spec fn nodes_at_paths(s: StateView, ps: Seq<Seq<char>>, res: Seq<NodeView>) -> bool {
    &&& res.len() == ps.len()
    &&& forall|k: int| 0 <= k < ps.len() ==> #[trigger] res[k] == s.nodes[node_index(s, ps[k])]
}

impl State {
    /// Copies of the nodes at the paths `ps`, in order.
    pub fn nodes_at(&self, ps: &Vec<String>) -> (res: Vec<WallpaperNode>)
        requires
            state_wf(self@),
            all_nodes(self@, views(ps@)),
        ensures
            nodes_at_paths(self@, views(ps@), node_views(res@)),
    {
        let mut res: Vec<WallpaperNode> = Vec::new();
        let mut k: usize = 0;
        while k < ps.len()
            invariant
                k <= ps@.len(),
                state_wf(self@),
                all_nodes(self@, views(ps@)),
                res@.len() == k,
                forall|j: int|
                    0 <= j < k ==> #[trigger] res@[j]@ == self@.nodes[node_index(self@, ps@[j]@)],
            decreases ps@.len() - k,
        {
            assert(views(ps@)[k as int] == ps@[k as int]@);
            assert(has_node(self@, ps@[k as int]@));
            match self.find_node(ps[k].as_str()) {
                Some(i) => {
                    proof {
                        lemma_node_index(self@, ps@[k as int]@, i as int);
                    }
                    res.push(self.nodes[i].duplicate());
                },
                None => {
                    assert(false);
                },
            }
            k = k + 1;
        }
        assert forall|j: int| 0 <= j < views(ps@).len() implies #[trigger] node_views(res@)[j]
            == self@.nodes[node_index(self@, views(ps@)[j])] by {
            assert(views(ps@)[j] == ps@[j]@);
        }
        res
    }

    /// Copies of the nodes to choose a wallpaper from at `now`: those whose
    /// own period or whose group's period holds `now`, each once; all nodes
    /// when there is none.
    pub fn find_actual_nodes(&self, now: i64) -> (res: Vec<WallpaperNode>)
        requires
            state_wf(self@),
        ensures
            nodes_at_paths(self@, actual_paths(self@, now as int), node_views(res@)),
    {
        let ghost s = self@;
        let mut acc: Vec<String> = Vec::new();
        let mut i: usize = 0;
        assert(views(acc@) =~= nodes_in_period(s.nodes.take(0), now as int));
        while i < self.nodes.len()
            invariant
                i <= self.nodes@.len(),
                s == self@,
                state_wf(s),
                views(acc@) == nodes_in_period(s.nodes.take(i as int), now as int),
                all_nodes(s, views(acc@)),
            decreases self.nodes@.len() - i,
        {
            let ghost before = s.nodes.take(i as int);
            let ghost after = s.nodes.take(i + 1);
            assert(after.drop_last() =~= before);
            assert(after.last() == self.nodes@[i as int]@);
            if TimePeriod::is_some_and_datetime_in_bounds(&self.nodes[i].period, now) {
                let ghost a0 = views(acc@);
                acc.push(self.nodes[i].path.clone());
                assert(views(acc@) =~= a0.push(s.nodes[i as int].path));
                assert(node_paths(s.nodes)[i as int] == s.nodes[i as int].path);
                assert forall|k: int| 0 <= k < views(acc@).len() implies has_node(
                    s,
                    #[trigger] views(acc@)[k],
                ) by {
                    if k < a0.len() {
                        assert(views(acc@)[k] == a0[k]);
                    }
                }
            }
            i = i + 1;
        }
        assert(s.nodes.take(s.nodes.len() as int) =~= s.nodes);
        let ghost base = views(acc@);
        let mut g: usize = 0;
        while g < self.groups.len()
            invariant
                g <= self.groups@.len(),
                s == self@,
                state_wf(s),
                views(acc@) == groups_in_period(base, s.groups.take(g as int), now as int),
                all_nodes(s, views(acc@)),
            decreases self.groups@.len() - g,
        {
            let ghost before = s.groups.take(g as int);
            let ghost after = s.groups.take(g + 1);
            assert(after.drop_last() =~= before);
            assert(after.last() == self.groups@[g as int]@);
            if TimePeriod::is_some_and_datetime_in_bounds(&self.groups[g].period, now) {
                let ghost r = views(acc@);
                let ghost members = s.groups[g as int].nodes;
                assert(group_wf(s.groups[g as int], s.nodes));
                let mut k: usize = 0;
                assert(members.take(0) =~= Seq::<Seq<char>>::empty());
                while k < self.groups[g].nodes.len()
                    invariant
                        k <= self.groups@[g as int].nodes@.len(),
                        g < self.groups@.len(),
                        s == self@,
                        state_wf(s),
                        members == views(self.groups@[g as int].nodes@),
                        group_wf(s.groups[g as int], s.nodes),
                        views(acc@) == push_new(r, members.take(k as int)),
                        all_nodes(s, views(acc@)),
                    decreases self.groups@[g as int].nodes@.len() - k,
                {
                    let ghost mb = members.take(k as int);
                    let ghost ma = members.take(k + 1);
                    assert(ma.drop_last() =~= mb);
                    assert(ma.last() == self.groups@[g as int].nodes@[k as int]@);
                    let p = &self.groups[g].nodes[k];
                    if !contains_string(&acc, p.as_str()) {
                        let ghost a0 = views(acc@);
                        acc.push(p.clone());
                        assert(views(acc@) =~= a0.push(p@));
                        assert(has_node(s, members[k as int]));
                        assert forall|j: int| 0 <= j < views(acc@).len() implies has_node(
                            s,
                            #[trigger] views(acc@)[j],
                        ) by {
                            if j < a0.len() {
                                assert(views(acc@)[j] == a0[j]);
                            }
                        }
                    }
                    k = k + 1;
                }
                assert(members.take(members.len() as int) =~= members);
            }
            g = g + 1;
        }
        assert(s.groups.take(s.groups.len() as int) =~= s.groups);
        if acc.len() == 0 {
            let mut all: Vec<WallpaperNode> = Vec::new();
            let mut j: usize = 0;
            while j < self.nodes.len()
                invariant
                    j <= self.nodes@.len(),
                    s == self@,
                    state_wf(s),
                    all@.len() == j,
                    forall|k: int| 0 <= k < j ==> #[trigger] all@[k]@ == s.nodes[k],
                decreases self.nodes@.len() - j,
            {
                all.push(self.nodes[j].duplicate());
                j = j + 1;
            }
            assert forall|k: int| 0 <= k < node_paths(s.nodes).len() implies #[trigger] node_views(
                all@,
            )[k] == s.nodes[node_index(s, node_paths(s.nodes)[k])] by {
                lemma_node_index(s, node_paths(s.nodes)[k], k);
            }
            all
        } else {
            self.nodes_at(&acc)
        }
    }
}

/// The list of the database's paths, as the `list` action shows it.
pub open spec fn node_list_spec(s: StateView) -> Seq<char> {
    if s.nodes.len() == 0 {
        "No wallpapers are found"@
    } else {
        "Wallpapers:\n"@ + join(node_paths(s.nodes), "\n"@)
    }
}

/// `s` after giving each path of `ps` in turn the settings and the period.
pub open spec fn added_nodes(s: StateView, ps: Seq<Seq<char>>, settings: Settings, p: ParsedTimePeriod) -> StateView
    decreases ps.len(),
{
    if ps.len() == 0 {
        s
    } else {
        updated_node(added_nodes(s, ps.drop_last(), settings, p), ps.last(), settings, p)
    }
}

/// Some path of `ps` starts with the current wallpaper's path.
pub open spec fn touches_current(s: StateView, ps: Seq<Seq<char>>) -> bool {
    s.current matches Some(c) && exists|k: int| 0 <= k < ps.len() && is_prefix(c, #[trigger] ps[k])
}

/// `xs` without `p`.
pub open spec fn without_path(xs: Seq<Seq<char>>, p: Seq<char>) -> Seq<Seq<char>> {
    if xs.contains(p) {
        xs.remove(xs.index_of(p))
    } else {
        xs
    }
}

/// `s` without the node at `p`, which also leaves every group, and without
/// the current wallpaper when it is `p`.
pub open spec fn removed_node(s: StateView, p: Seq<char>) -> StateView {
    StateView {
        current: if s.current == Some(p) {
            None
        } else {
            s.current
        },
        nodes: if has_node(s, p) {
            s.nodes.remove(node_index(s, p))
        } else {
            s.nodes
        },
        groups: s.groups.map_values(|g: GroupView| GroupView { nodes: without_path(g.nodes, p), ..g }),
        ..s
    }
}

/// `s` after removing each path of `ps` in turn.
pub open spec fn removed_nodes(s: StateView, ps: Seq<Seq<char>>) -> StateView
    decreases ps.len(),
{
    if ps.len() == 0 {
        s
    } else {
        removed_node(removed_nodes(s, ps.drop_last()), ps.last())
    }
}

/// No node is at `p` and no group holds it.
pub open spec fn forgotten(s: StateView, p: Seq<char>) -> bool {
    &&& !has_node(s, p)
    &&& forall|g: int| 0 <= g < s.groups.len() ==> !(#[trigger] s.groups[g]).nodes.contains(p)
}

/// Removing another path keeps a forgotten path forgotten.
proof fn lemma_removal_keeps_forgotten(s: StateView, p: Seq<char>, q: Seq<char>)
    requires
        state_wf(s),
        forgotten(s, q),
    ensures
        forgotten(removed_node(s, p), q),
{
    let t = removed_node(s, p);
    if has_node(s, p) {
        let k = node_index(s, p);
        assert(node_paths(t.nodes) =~= node_paths(s.nodes).remove(k));
        if has_node(t, q) {
            let j = choose|j: int| 0 <= j < node_paths(t.nodes).len() && node_paths(t.nodes)[j] == q;
            let j2 = if j < k { j } else { j + 1 };
            assert(node_paths(s.nodes)[j2] == q);
        }
    }
    assert forall|g: int| 0 <= g < t.groups.len() implies !(#[trigger] t.groups[g]).nodes.contains(q) by {
        assert(group_wf(s.groups[g], s.nodes));
        lemma_without_path(s.groups[g].nodes, p);
        if q != p {
            assert(!s.groups[g].nodes.contains(q));
        }
    }
}

/// Removing a path from a list without duplicates.
proof fn lemma_without_path(xs: Seq<Seq<char>>, p: Seq<char>)
    requires
        xs.no_duplicates(),
    ensures
        without_path(xs, p).no_duplicates(),
        !without_path(xs, p).contains(p),
        forall|q: Seq<char>| q != p ==> (without_path(xs, p).contains(q) == xs.contains(q)),
{
    if xs.contains(p) {
        let i = xs.index_of(p);
        let r = xs.remove(i);
        assert forall|a: int, b: int| 0 <= a < r.len() && 0 <= b < r.len() && a != b implies r[a]
            != r[b] by {
            let a2 = if a < i { a } else { a + 1 };
            let b2 = if b < i { b } else { b + 1 };
            assert(r[a] == xs[a2]);
            assert(r[b] == xs[b2]);
        }
        assert forall|k: int| 0 <= k < r.len() implies r[k] != p by {
            let k2 = if k < i { k } else { k + 1 };
            assert(r[k] == xs[k2]);
        }
        assert forall|q: Seq<char>| q != p implies (r.contains(q) == xs.contains(q)) by {
            if xs.contains(q) {
                let k = xs.index_of(q);
                if k < i {
                    assert(r[k] == q);
                } else {
                    assert(k != i);
                    assert(r[k - 1] == q);
                }
            }
            if r.contains(q) {
                let k = choose|k: int| 0 <= k < r.len() && r[k] == q;
                let k2 = if k < i { k } else { k + 1 };
                assert(xs[k2] == q);
            }
        }
    }
}

impl State {
    /// The list of the database's paths.
    pub fn get_wallpaper_list(&self) -> (r: String)
        ensures
            r@ == node_list_spec(self@),
    {
        if self.nodes.len() == 0 {
            return String::from_str("No wallpapers are found");
        }
        let mut ps: Vec<String> = Vec::new();
        let mut i: usize = 0;
        while i < self.nodes.len()
            invariant
                i <= self.nodes@.len(),
                ps@.len() == i,
                forall|k: int| 0 <= k < i ==> #[trigger] ps@[k]@ == self.nodes@[k].path@,
            decreases self.nodes@.len() - i,
        {
            ps.push(self.nodes[i].path.clone());
            i = i + 1;
        }
        assert(views(ps@) =~= node_paths(self@.nodes));
        let mut r = String::from_str("Wallpapers:\n");
        let joined = join_strings(&ps, "\n");
        append_str(&mut r, joined.as_str());
        r
    }

    /// Gives each path of `paths` the settings and the period, adding nodes
    /// that are missing. When one of the paths starts with the current
    /// wallpaper's path, the current wallpaper (its node added if missing)
    /// is returned, to be shown again with its new settings.
    pub fn add_nodes(&mut self, paths: &Vec<String>, settings: &Settings, period: ParsedTimePeriod) -> (r:
        Option<crate::node::Wallpaper>)
        requires
            state_wf(old(self)@),
        ensures
            state_wf(final(self)@),
            ({
                let added = added_nodes(old(self)@, views(paths@), *settings, period);
                if touches_current(old(self)@, views(paths@)) {
                    let c = old(self)@.current->0;
                    let s2 = with_node(added, c);
                    &&& final(self)@ == s2
                    &&& r matches Some(w) && w.path@ == c && w.mode == s2.nodes[node_index(s2, c)].mode
                } else {
                    &&& final(self)@ == added
                    &&& r is None
                }
            }),
    {
        let ghost s0 = self@;
        let mut touches = false;
        let mut i: usize = 0;
        while i < paths.len()
            invariant
                i <= paths@.len(),
                state_wf(self@),
                self@ == added_nodes(s0, views(paths@).take(i as int), *settings, period),
                self@.current == s0.current,
                touches == touches_current(s0, views(paths@).take(i as int)),
            decreases paths@.len() - i,
        {
            let ghost before = views(paths@).take(i as int);
            let ghost after = views(paths@).take(i + 1);
            assert(after.drop_last() =~= before);
            assert(after.last() == paths@[i as int]@);
            self.update_node(paths[i].as_str(), settings, period);
            let hit = match &self.current_wallpaper_path {
                Some(c) => starts_with(paths[i].as_str(), c.as_str()),
                None => false,
            };
            proof {
                if touches {
                    let k = choose|k: int| 0 <= k < before.len() && is_prefix(s0.current->0, #[trigger] before[k]);
                    assert(after[k] == before[k]);
                }
                if hit {
                    assert(is_prefix(s0.current->0, after[i as int]));
                }
                if touches_current(s0, after) {
                    let k = choose|k: int| 0 <= k < after.len() && is_prefix(s0.current->0, #[trigger] after[k]);
                    if k < i {
                        assert(before[k] == after[k]);
                    }
                }
            }
            touches = touches || hit;
            i = i + 1;
        }
        assert(views(paths@).take(paths@.len() as int) =~= views(paths@));
        if touches {
            let c = match &self.current_wallpaper_path {
                Some(c) => c.clone(),
                None => {
                    assert(false);
                    String::new()
                },
            };
            let k = self.get_or_insert_node(c.as_str());
            proof {
                lemma_node_index(self@, c@, k as int);
            }
            Some(crate::node::Wallpaper::new(c, self.nodes[k].mode))
        } else {
            None
        }
    }

    /// Removes the node at `path`, from the groups too. Returns whether it was
    /// the current wallpaper, which is then forgotten.
    pub fn remove_node(&mut self, path: &str) -> (hit: bool)
        requires
            state_wf(old(self)@),
        ensures
            state_wf(final(self)@),
            final(self)@ == removed_node(old(self)@, path@),
            hit == (old(self)@.current == Some(path@)),
            forgotten(final(self)@, path@),
    {
        let ghost s0 = self@;
        let hit = match &self.current_wallpaper_path {
            Some(c) => crate::clock::str_eq(c.as_str(), path),
            None => false,
        };
        if hit {
            self.current_wallpaper_path = None;
        }
        let mut g: usize = 0;
        while g < self.groups.len()
            invariant
                g <= self.groups@.len(),
                self.groups@.len() == s0.groups.len(),
                forall|k: int|
                    0 <= k < g ==> #[trigger] self.groups@[k]@ == (GroupView {
                        nodes: without_path(s0.groups[k].nodes, path@),
                        ..s0.groups[k]
                    }),
                forall|k: int| g <= k < self.groups@.len() ==> #[trigger] self.groups@[k]@ == s0.groups[k],
                self.nodes == old(self).nodes,
                self.group_names == old(self).group_names,
                s0 == old(self)@,
                state_wf(s0),
                self@.current == (if hit {
                    None
                } else {
                    s0.current
                }),
            decreases self.groups@.len() - g,
        {
            assert(self.groups@[g as int]@ == s0.groups[g as int]);
            assert(group_wf(s0.groups[g as int], s0.nodes));
            match index_of_string(&self.groups[g].nodes, path) {
                Some(k) => {
                    let ghost xs = s0.groups[g as int].nodes;
                    proof {
                        lemma_index_of_unique(xs, k as int, path@);
                    }
                    let mut members = clone_strings(&self.groups[g].nodes);
                    members.remove(k);
                    assert(views(members@) =~= xs.remove(k as int));
                    let grp = WallpaperGroup { nodes: members, period: self.groups[g].period };
                    self.groups.set(g, grp);
                },
                None => {},
            }
            assert(self.groups@[g as int]@ == (GroupView {
                nodes: without_path(s0.groups[g as int].nodes, path@),
                ..s0.groups[g as int]
            }));
            g = g + 1;
        }
        assert(group_views(self.groups@) =~= s0.groups.map_values(
            |gv: GroupView| GroupView { nodes: without_path(gv.nodes, path@), ..gv },
        ));
        match self.find_node(path) {
            Some(k) => {
                proof {
                    lemma_node_index(s0, path@, k as int);
                    assert(node_paths(s0.nodes)[k as int] == path@);
                }
                self.nodes.remove(k);
                assert(node_views(self.nodes@) =~= s0.nodes.remove(k as int));
                assert(node_paths(self@.nodes) =~= node_paths(s0.nodes).remove(k as int));
                proof {
                    lemma_index_of_unique(node_paths(s0.nodes), k as int, path@);
                }
            },
            None => {
                assert(node_paths(self@.nodes) == node_paths(s0.nodes));
            },
        }
        proof {
            let ps0 = node_paths(s0.nodes);
            assert(node_paths(self@.nodes) == without_path(ps0, path@));
            lemma_without_path(ps0, path@);
            assert forall|k: int| 0 <= k < self@.groups.len() implies group_wf(
                #[trigger] self@.groups[k],
                self@.nodes,
            ) by {
                assert(group_wf(s0.groups[k], s0.nodes));
                let xs = s0.groups[k].nodes;
                lemma_without_path(xs, path@);
                assert forall|j: int| 0 <= j < self@.groups[k].nodes.len() implies node_paths(
                    self@.nodes,
                ).contains(#[trigger] self@.groups[k].nodes[j]) by {
                    let q = self@.groups[k].nodes[j];
                    assert(without_path(xs, path@).contains(q));
                    assert(q != path@);
                    assert(xs.contains(q));
                    let j2 = choose|j2: int| 0 <= j2 < xs.len() && xs[j2] == q;
                    assert(ps0.contains(xs[j2]));
                }
            }
            assert forall|k: int| 0 <= k < self@.groups.len() implies !(#[trigger] self@.groups[k]).nodes.contains(path@) by {
                lemma_without_path(s0.groups[k].nodes, path@);
            }
        }
        hit
    }

    /// Removes the nodes at `paths`, from the groups too. Returns whether the
    /// current wallpaper was among them: it is then forgotten, and the
    /// caller stops showing it.
    pub fn remove_nodes(&mut self, paths: &Vec<String>) -> (stop: bool)
        requires
            state_wf(old(self)@),
        ensures
            state_wf(final(self)@),
            final(self)@ == removed_nodes(old(self)@, views(paths@)),
            stop == (old(self)@.current matches Some(c) && views(paths@).contains(c)),
            forall|k: int| 0 <= k < paths@.len() ==> forgotten(final(self)@, #[trigger] views(paths@)[k]),
    {
        let ghost s0 = self@;
        let mut stop = false;
        let mut i: usize = 0;
        while i < paths.len()
            invariant
                i <= paths@.len(),
                state_wf(self@),
                self@ == removed_nodes(s0, views(paths@).take(i as int)),
                stop == (s0.current matches Some(c) && views(paths@).take(i as int).contains(c)),
                self@.current == (if stop {
                    None
                } else {
                    s0.current
                }),
                forall|k: int| 0 <= k < i ==> forgotten(self@, #[trigger] views(paths@)[k]),
            decreases paths@.len() - i,
        {
            let ghost before = views(paths@).take(i as int);
            let ghost after = views(paths@).take(i + 1);
            assert(after.drop_last() =~= before);
            assert(after.last() == paths@[i as int]@);
            let ghost s_before = self@;
            let hit = self.remove_node(paths[i].as_str());
            proof {
                assert forall|k: int| 0 <= k < i + 1 implies forgotten(self@, #[trigger] views(paths@)[k]) by {
                    if k < i {
                        lemma_removal_keeps_forgotten(s_before, paths@[i as int]@, views(paths@)[k]);
                    } else {
                        assert(views(paths@)[k] == paths@[i as int]@);
                    }
                }
            }
            proof {
                if let Some(c) = s0.current {
                    if before.contains(c) {
                        let k = choose|k: int| 0 <= k < before.len() && before[k] == c;
                        assert(after[k] == c);
                    }
                    if after.contains(c) && !before.contains(c) {
                        let k = choose|k: int| 0 <= k < after.len() && after[k] == c;
                        if k < i {
                            assert(before[k] == c);
                        }
                        assert(k == i);
                    }
                }
            }
            stop = stop || hit;
            i = i + 1;
        }
        assert(views(paths@).take(paths@.len() as int) =~= views(paths@));
        stop
    }

    /// Empties the database: no wallpaper, node or group is left.
    pub fn clear_nodes(&mut self)
        ensures
            final(self)@ == (StateView {
                current: None,
                nodes: Seq::empty(),
                group_names: Seq::empty(),
                groups: Seq::empty(),
            }),
            state_wf(final(self)@),
    {
        self.current_wallpaper_path = None;
        self.nodes.clear();
        self.group_names.clear();
        self.groups.clear();
        assert(node_views(self.nodes@) =~= Seq::<NodeView>::empty());
        assert(views(self.group_names@) =~= Seq::<Seq<char>>::empty());
        assert(group_views(self.groups@) =~= Seq::<GroupView>::empty());
    }
}

/// The position of `p` in a list without duplicates is the one it is at.
pub proof fn lemma_index_of_unique(xs: Seq<Seq<char>>, i: int, p: Seq<char>)
    requires
        xs.no_duplicates(),
        0 <= i < xs.len(),
        xs[i] == p,
    ensures
        xs.contains(p),
        xs.index_of(p) == i,
{
    assert(xs.contains(p));
}

/// The position of the first string of `list` with the characters of `s`.
pub fn index_of_string(list: &Vec<String>, s: &str) -> (r: Option<usize>)
    ensures
        match r {
            Some(i) => i < list@.len() && views(list@)[i as int] == s@,
            None => !views(list@).contains(s@),
        },
{
    let mut i: usize = 0;
    while i < list.len()
        invariant
            i <= list@.len(),
            forall|k: int| 0 <= k < i ==> list@[k]@ != s@,
        decreases list@.len() - i,
    {
        if crate::clock::str_eq(list[i].as_str(), s) {
            return Some(i);
        }
        i = i + 1;
    }
    assert forall|k: int| 0 <= k < views(list@).len() implies views(list@)[k] != s@ by {
        assert(views(list@)[k] == list@[k]@);
    }
    None
}

/// The database has a group named `name`.
pub open spec fn has_group(s: StateView, name: Seq<char>) -> bool {
    s.group_names.contains(name)
}

/// The list of the groups' names, as the `group-list` action shows it.
pub open spec fn group_list_spec(s: StateView, is_ru: bool) -> Seq<char> {
    if s.groups.len() == 0 {
        localized(is_ru, "No groups are found"@, "Ни одна группа не найдена"@)
    } else {
        localized(is_ru, "Groups: ['"@, "Группы: ['"@) + join(s.group_names, "', '"@) + "']"@
    }
}

/// `"Group '{name}' not found"`, localized.
pub open spec fn group_not_found_message(name: Seq<char>, is_ru: bool) -> Seq<char> {
    localized(is_ru, "Group '"@ + name + "' not found"@, "Группа '"@ + name + "' не найдена"@)
}

/// `s` with a node at each path of `ps`, added when missing.
pub open spec fn with_nodes(s: StateView, ps: Seq<Seq<char>>) -> StateView
    decreases ps.len(),
{
    if ps.len() == 0 {
        s
    } else {
        with_node(with_nodes(s, ps.drop_last()), ps.last())
    }
}

/// `s` after adding the paths `ps` to the group `name`, which is created when
/// missing; nodes are added for paths that have none.
pub open spec fn grouped(s: StateView, name: Seq<char>, ps: Seq<Seq<char>>) -> StateView {
    let s1 = with_nodes(s, ps);
    if has_group(s1, name) {
        let g = group_index(s1, name);
        StateView {
            groups: s1.groups.update(
                g,
                GroupView { nodes: push_new(s1.groups[g].nodes, ps), ..s1.groups[g] },
            ),
            ..s1
        }
    } else {
        StateView {
            group_names: s1.group_names.push(name),
            groups: s1.groups.push(GroupView { nodes: push_new(Seq::empty(), ps), period: None }),
            ..s1
        }
    }
}

/// `xs` without each path of `ps`.
pub open spec fn without_paths(xs: Seq<Seq<char>>, ps: Seq<Seq<char>>) -> Seq<Seq<char>>
    decreases ps.len(),
{
    if ps.len() == 0 {
        xs
    } else {
        without_path(without_paths(xs, ps.drop_last()), ps.last())
    }
}

/// `s` with the group at position `g` holding `nodes`.
pub open spec fn with_members(s: StateView, g: int, nodes: Seq<Seq<char>>) -> StateView {
    StateView { groups: s.groups.update(g, GroupView { nodes, ..s.groups[g] }), ..s }
}

/// `acc` followed by new elements keeps no duplicates, and holds exactly
/// the elements of both.
proof fn lemma_push_new(acc: Seq<Seq<char>>, xs: Seq<Seq<char>>)
    requires
        acc.no_duplicates(),
    ensures
        push_new(acc, xs).no_duplicates(),
        forall|q: Seq<char>| #[trigger] push_new(acc, xs).contains(q) <==> (acc.contains(q) || xs.contains(q)),
    decreases xs.len(),
{
    if xs.len() > 0 {
        lemma_push_new(acc, xs.drop_last());
        let r = push_new(acc, xs.drop_last());
        assert forall|q: Seq<char>| #[trigger] push_new(acc, xs).contains(q) <==> (acc.contains(q)
            || xs.contains(q)) by {
            if xs.drop_last().contains(q) {
                let k = choose|k: int| 0 <= k < xs.drop_last().len() && xs.drop_last()[k] == q;
                assert(xs[k] == q);
            }
            if xs.contains(q) && q != xs.last() {
                let k = choose|k: int| 0 <= k < xs.len() && xs[k] == q;
                assert(xs.drop_last()[k] == q);
            }
            if !r.contains(xs.last()) {
                assert(r.push(xs.last())[r.len() as int] == xs.last());
                if r.push(xs.last()).contains(q) && q != xs.last() {
                    let k = choose|k: int| 0 <= k < r.push(xs.last()).len() && r.push(xs.last())[k] == q;
                    assert(r[k] == q);
                }
                if r.contains(q) {
                    let k = choose|k: int| 0 <= k < r.len() && r[k] == q;
                    assert(r.push(xs.last())[k] == q);
                }
            }
        }
    }
}

/// The paths of `with_nodes` hold those before and those added.
pub proof fn lemma_with_nodes(s: StateView, ps: Seq<Seq<char>>)
    requires
        state_wf(s),
    ensures
        state_wf(with_nodes(s, ps)),
        with_nodes(s, ps).current == s.current,
        with_nodes(s, ps).group_names == s.group_names,
        with_nodes(s, ps).groups == s.groups,
        forall|q: Seq<char>| has_node(s, q) ==> #[trigger] has_node(with_nodes(s, ps), q),
        forall|k: int| 0 <= k < ps.len() ==> has_node(with_nodes(s, ps), #[trigger] ps[k]),
    decreases ps.len(),
{
    if ps.len() > 0 {
        let r = with_nodes(s, ps.drop_last());
        lemma_with_nodes(s, ps.drop_last());
        if !has_node(r, ps.last()) {
            lemma_push_node(r, fresh_node(ps.last()));
            assert forall|q: Seq<char>| has_node(r, q) implies #[trigger] has_node(with_node(r, ps.last()), q) by {
                let j = choose|j: int| 0 <= j < node_paths(r.nodes).len() && node_paths(r.nodes)[j] == q;
                assert(node_paths(with_node(r, ps.last()).nodes)[j] == q);
            }
            assert(node_paths(with_node(r, ps.last()).nodes)[r.nodes.len() as int] == ps.last());
        }
        assert forall|k: int| 0 <= k < ps.len() implies has_node(with_nodes(s, ps), #[trigger] ps[k]) by {
            if k < ps.len() - 1 {
                assert(ps.drop_last()[k] == ps[k]);
                assert(has_node(r, ps[k]));
            }
        }
    }
}

/// The error of a group that does not exist.
pub fn group_not_found_error(name: &str, is_ru: bool) -> (e: ActionPerformError)
    ensures
        e.message@ == group_not_found_message(name@, is_ru),
{
    let m = if is_ru {
        concat5("Группа '", name, "' не найдена", "", "")
    } else {
        concat5("Group '", name, "' not found", "", "")
    };
    proof {
        reveal_strlit("");
    }
    ActionPerformError::new(m)
}

impl State {
    /// The list of the groups' names.
    pub fn get_group_list(&self, is_ru: bool) -> (r: String)
        ensures
            r@ == group_list_spec(self@, is_ru),
    {
        if self.groups.len() == 0 {
            return if is_ru {
                String::from_str("Ни одна группа не найдена")
            } else {
                String::from_str("No groups are found")
            };
        }
        let mut r = if is_ru {
            String::from_str("Группы: ['")
        } else {
            String::from_str("Groups: ['")
        };
        let joined = join_strings(&self.group_names, "', '");
        append_str(&mut r, joined.as_str());
        append_str(&mut r, "']");
        r
    }

    /// A copy of the group named `name`, or the error when there is none.
    pub fn get_group_info(&self, name: &str, is_ru: bool) -> (r: Result<WallpaperGroup, ActionPerformError>)
        requires
            state_wf(self@),
        ensures
            match r {
                Ok(g) => has_group(self@, name@) && g@ == self@.groups[group_index(self@, name@)],
                Err(e) => !has_group(self@, name@) && e.message@ == group_not_found_message(name@, is_ru),
            },
    {
        match self.find_group(name) {
            Some(g) => {
                proof {
                    lemma_index_of_unique(self@.group_names, g as int, name@);
                }
                assert(self@.group_names.contains(name@));
                Ok(WallpaperGroup { nodes: clone_strings(&self.groups[g].nodes), period: self.groups[g].period })
            },
            None => Err(group_not_found_error(name, is_ru)),
        }
    }

    /// Adds the paths to the group `name`, creating it when missing; nodes
    /// are added for paths that have none.
    pub fn new_group(&mut self, name: String, paths: &Vec<String>)
        requires
            state_wf(old(self)@),
        ensures
            state_wf(final(self)@),
            final(self)@ == grouped(old(self)@, name@, views(paths@)),
    {
        let ghost s0 = self@;
        let ghost ps = views(paths@);
        let mut i: usize = 0;
        while i < paths.len()
            invariant
                i <= paths@.len(),
                ps == views(paths@),
                state_wf(self@),
                self@ == with_nodes(s0, ps.take(i as int)),
            decreases paths@.len() - i,
        {
            let ghost before = ps.take(i as int);
            let ghost after = ps.take(i + 1);
            assert(after.drop_last() =~= before);
            assert(after.last() == paths@[i as int]@);
            self.get_or_insert_node(paths[i].as_str());
            i = i + 1;
        }
        assert(ps.take(ps.len() as int) =~= ps);
        let ghost s1 = self@;
        proof {
            lemma_with_nodes(s0, ps);
        }
        match self.find_group(name.as_str()) {
            Some(g) => {
                proof {
                    lemma_index_of_unique(s1.group_names, g as int, name@);
                }
                assert(has_group(s1, name@));
                let ghost m0 = s1.groups[g as int].nodes;
                assert(group_wf(s1.groups[g as int], s1.nodes));
                let mut members = clone_strings(&self.groups[g].nodes);
                let mut k: usize = 0;
                assert(ps.take(0) =~= Seq::<Seq<char>>::empty());
                while k < paths.len()
                    invariant
                        k <= paths@.len(),
                        ps == views(paths@),
                        views(members@) == push_new(m0, ps.take(k as int)),
                    decreases paths@.len() - k,
                {
                    let ghost before = ps.take(k as int);
                    let ghost after = ps.take(k + 1);
                    assert(after.drop_last() =~= before);
                    assert(after.last() == paths@[k as int]@);
                    if !contains_string(&members, paths[k].as_str()) {
                        let ghost v0 = views(members@);
                        members.push(paths[k].clone());
                        assert(views(members@) =~= v0.push(paths@[k as int]@));
                    }
                    k = k + 1;
                }
                assert(ps.take(ps.len() as int) =~= ps);
                let grp = WallpaperGroup { nodes: members, period: self.groups[g].period };
                self.groups.set(g, grp);
                assert(group_views(self.groups@) =~= s1.groups.update(
                    g as int,
                    GroupView { nodes: push_new(m0, ps), ..s1.groups[g as int] },
                ));
                proof {
                    lemma_push_new(m0, ps);
                    assert forall|j: int| 0 <= j < self@.groups.len() implies group_wf(
                        #[trigger] self@.groups[j],
                        self@.nodes,
                    ) by {
                        assert(group_wf(s1.groups[j], s1.nodes));
                        if j == g {
                            assert forall|t: int| 0 <= t < self@.groups[j].nodes.len() implies node_paths(
                                self@.nodes,
                            ).contains(#[trigger] self@.groups[j].nodes[t]) by {
                                let q = self@.groups[j].nodes[t];
                                assert(push_new(m0, ps).contains(q));
                                if m0.contains(q) {
                                    let u = choose|u: int| 0 <= u < m0.len() && m0[u] == q;
                                    assert(node_paths(s1.nodes).contains(m0[u]));
                                } else {
                                    let u = choose|u: int| 0 <= u < ps.len() && ps[u] == q;
                                    assert(has_node(s1, ps[u]));
                                }
                            }
                        }
                    }
                }
            },
            None => {
                let mut members: Vec<String> = Vec::new();
                let mut k: usize = 0;
                assert(ps.take(0) =~= Seq::<Seq<char>>::empty());
                assert(views(members@) =~= Seq::<Seq<char>>::empty());
                while k < paths.len()
                    invariant
                        k <= paths@.len(),
                        ps == views(paths@),
                        views(members@) == push_new(Seq::empty(), ps.take(k as int)),
                    decreases paths@.len() - k,
                {
                    let ghost before = ps.take(k as int);
                    let ghost after = ps.take(k + 1);
                    assert(after.drop_last() =~= before);
                    assert(after.last() == paths@[k as int]@);
                    if !contains_string(&members, paths[k].as_str()) {
                        let ghost v0 = views(members@);
                        members.push(paths[k].clone());
                        assert(views(members@) =~= v0.push(paths@[k as int]@));
                    }
                    k = k + 1;
                }
                assert(ps.take(ps.len() as int) =~= ps);
                let ghost nm = name@;
                self.group_names.push(name);
                self.groups.push(WallpaperGroup { nodes: members, period: None });
                assert(views(self.group_names@) =~= s1.group_names.push(nm));
                assert(group_views(self.groups@) =~= s1.groups.push(
                    GroupView { nodes: push_new(Seq::empty(), ps), period: None },
                ));
                proof {
                    lemma_push_new(Seq::empty(), ps);
                    assert forall|j: int| 0 <= j < self@.groups.len() implies group_wf(
                        #[trigger] self@.groups[j],
                        self@.nodes,
                    ) by {
                        if j < s1.groups.len() {
                            assert(group_wf(s1.groups[j], s1.nodes));
                        } else {
                            assert forall|t: int| 0 <= t < self@.groups[j].nodes.len() implies node_paths(
                                self@.nodes,
                            ).contains(#[trigger] self@.groups[j].nodes[t]) by {
                                let q = self@.groups[j].nodes[t];
                                assert(push_new(Seq::empty(), ps).contains(q));
                                let u = choose|u: int| 0 <= u < ps.len() && ps[u] == q;
                                assert(has_node(s1, ps[u]));
                            }
                        }
                    }
                    assert forall|a: int, b: int| 0 <= a < self@.group_names.len() && 0 <= b < self@.group_names.len() && a != b implies self@.group_names[a] != self@.group_names[b] by {
                        if a < s1.group_names.len() && b < s1.group_names.len() {
                        } else if a < s1.group_names.len() {
                            assert(self@.group_names[a] == s1.group_names[a]);
                        } else {
                            assert(self@.group_names[b] == s1.group_names[b]);
                        }
                    }
                }
            },
        }
    }
}

/// `s` without the group named `name`, if it has one.
pub open spec fn ungrouped(s: StateView, name: Seq<char>) -> StateView {
    if has_group(s, name) {
        let g = group_index(s, name);
        StateView { group_names: s.group_names.remove(g), groups: s.groups.remove(g), ..s }
    } else {
        s
    }
}

impl State {
    /// Removes the paths from the group `name`; the error when there is no
    /// such group.
    pub fn remove_from_group(&mut self, name: &str, paths: &Vec<String>, is_ru: bool) -> (r: Result<
        (),
        ActionPerformError,
    >)
        requires
            state_wf(old(self)@),
        ensures
            state_wf(final(self)@),
            match r {
                Ok(()) => has_group(old(self)@, name@) && final(self)@ == with_members(
                    old(self)@,
                    group_index(old(self)@, name@),
                    without_paths(old(self)@.groups[group_index(old(self)@, name@)].nodes, views(paths@)),
                ),
                Err(e) => !has_group(old(self)@, name@) && final(self)@ == old(self)@
                    && e.message@ == group_not_found_message(name@, is_ru),
            },
    {
        let ghost s0 = self@;
        let g = match self.find_group(name) {
            Some(g) => g,
            None => {
                return Err(group_not_found_error(name, is_ru));
            },
        };
        proof {
            lemma_index_of_unique(s0.group_names, g as int, name@);
        }
        assert(has_group(s0, name@));
        let ghost m0 = s0.groups[g as int].nodes;
        let ghost ps = views(paths@);
        assert(group_wf(s0.groups[g as int], s0.nodes));
        let mut members = clone_strings(&self.groups[g].nodes);
        let mut k: usize = 0;
        assert(ps.take(0) =~= Seq::<Seq<char>>::empty());
        while k < paths.len()
            invariant
                k <= paths@.len(),
                ps == views(paths@),
                views(members@) == without_paths(m0, ps.take(k as int)),
                views(members@).no_duplicates(),
                forall|q: Seq<char>| views(members@).contains(q) ==> m0.contains(q),
            decreases paths@.len() - k,
        {
            let ghost before = ps.take(k as int);
            let ghost after = ps.take(k + 1);
            assert(after.drop_last() =~= before);
            assert(after.last() == paths@[k as int]@);
            let ghost v0 = views(members@);
            proof {
                lemma_without_path(v0, paths@[k as int]@);
            }
            match index_of_string(&members, paths[k].as_str()) {
                Some(j) => {
                    proof {
                        lemma_index_of_unique(v0, j as int, paths@[k as int]@);
                    }
                    members.remove(j);
                    assert(views(members@) =~= v0.remove(j as int));
                },
                None => {},
            }
            k = k + 1;
        }
        assert(ps.take(ps.len() as int) =~= ps);
        let grp = WallpaperGroup { nodes: members, period: self.groups[g].period };
        self.groups.set(g, grp);
        assert(group_views(self.groups@) =~= s0.groups.update(
            g as int,
            GroupView { nodes: without_paths(m0, ps), ..s0.groups[g as int] },
        ));
        proof {
            assert forall|j: int| 0 <= j < self@.groups.len() implies group_wf(
                #[trigger] self@.groups[j],
                self@.nodes,
            ) by {
                assert(group_wf(s0.groups[j], s0.nodes));
                if j == g {
                    assert forall|t: int| 0 <= t < self@.groups[j].nodes.len() implies node_paths(
                        self@.nodes,
                    ).contains(#[trigger] self@.groups[j].nodes[t]) by {
                        let q = self@.groups[j].nodes[t];
                        assert(m0.contains(q));
                        let u = choose|u: int| 0 <= u < m0.len() && m0[u] == q;
                        assert(node_paths(s0.nodes).contains(m0[u]));
                    }
                }
            }
        }
        Ok(())
    }

    /// Empties the group `name`; the error when there is no such group.
    pub fn clear_group(&mut self, name: &str, is_ru: bool) -> (r: Result<(), ActionPerformError>)
        requires
            state_wf(old(self)@),
        ensures
            state_wf(final(self)@),
            match r {
                Ok(()) => has_group(old(self)@, name@) && final(self)@ == with_members(
                    old(self)@,
                    group_index(old(self)@, name@),
                    Seq::empty(),
                ),
                Err(e) => !has_group(old(self)@, name@) && final(self)@ == old(self)@
                    && e.message@ == group_not_found_message(name@, is_ru),
            },
    {
        let ghost s0 = self@;
        let g = match self.find_group(name) {
            Some(g) => g,
            None => {
                return Err(group_not_found_error(name, is_ru));
            },
        };
        proof {
            lemma_index_of_unique(s0.group_names, g as int, name@);
        }
        assert(has_group(s0, name@));
        let empty: Vec<String> = Vec::new();
        assert(views(empty@) =~= Seq::<Seq<char>>::empty());
        let grp = WallpaperGroup { nodes: empty, period: self.groups[g].period };
        self.groups.set(g, grp);
        assert(group_views(self.groups@) =~= s0.groups.update(
            g as int,
            GroupView { nodes: Seq::empty(), ..s0.groups[g as int] },
        ));
        proof {
            assert forall|j: int| 0 <= j < self@.groups.len() implies group_wf(
                #[trigger] self@.groups[j],
                self@.nodes,
            ) by {
                assert(group_wf(s0.groups[j], s0.nodes));
            }
        }
        Ok(())
    }

    /// Removes the group `name`, if there is one.
    pub fn remove_group(&mut self, name: &str)
        requires
            state_wf(old(self)@),
        ensures
            state_wf(final(self)@),
            final(self)@ == ungrouped(old(self)@, name@),
    {
        let ghost s0 = self@;
        match self.find_group(name) {
            Some(g) => {
                proof {
                    lemma_index_of_unique(s0.group_names, g as int, name@);
                }
                self.group_names.remove(g);
                self.groups.remove(g);
                assert(views(self.group_names@) =~= s0.group_names.remove(g as int));
                assert(group_views(self.groups@) =~= s0.groups.remove(g as int));
                proof {
                    assert forall|a: int, b: int|
                        0 <= a < self@.group_names.len() && 0 <= b < self@.group_names.len() && a
                            != b implies self@.group_names[a] != self@.group_names[b] by {
                        let a2 = if a < g { a } else { a + 1 };
                        let b2 = if b < g { b } else { b + 1 };
                        assert(self@.group_names[a] == s0.group_names[a2]);
                        assert(self@.group_names[b] == s0.group_names[b2]);
                    }
                    assert forall|j: int| 0 <= j < self@.groups.len() implies group_wf(
                        #[trigger] self@.groups[j],
                        self@.nodes,
                    ) by {
                        let j2 = if j < g { j } else { j + 1 };
                        assert(self@.groups[j] == s0.groups[j2]);
                        assert(group_wf(s0.groups[j2], s0.nodes));
                    }
                }
            },
            None => {},
        }
    }
}

/// `xs` with the paths of `ys` that are paths of `nodes` and that it lacks.
pub open spec fn kept_members(acc: Seq<Seq<char>>, ys: Seq<Seq<char>>, nodes: Seq<NodeView>) -> Seq<
    Seq<char>,
>
    decreases ys.len(),
{
    if ys.len() == 0 {
        acc
    } else {
        let r = kept_members(acc, ys.drop_last(), nodes);
        if node_paths(nodes).contains(ys.last()) && !r.contains(ys.last()) {
            r.push(ys.last())
        } else {
            r
        }
    }
}

impl WallpaperGroup {
    /// An empty group with no period.
    pub fn new() -> (g: Self)
        ensures
            g@ == (GroupView { nodes: Seq::empty(), period: None }),
    {
        let v: Vec<String> = Vec::new();
        assert(views(v@) =~= Seq::<Seq<char>>::empty());
        WallpaperGroup { nodes: v, period: None }
    }

    /// The paths of the group.
    pub fn nodes(&self) -> (r: &Vec<String>)
        ensures
            views(r@) == self@.nodes,
    {
        &self.nodes
    }

    /// Adds `path`, unless the group has it.
    pub fn add(&mut self, path: String)
        ensures
            final(self)@ == (GroupView {
                nodes: if old(self)@.nodes.contains(path@) {
                    old(self)@.nodes
                } else {
                    old(self)@.nodes.push(path@)
                },
                ..old(self)@
            }),
    {
        if !contains_string(&self.nodes, path.as_str()) {
            let ghost v0 = views(self.nodes@);
            let ghost p = path@;
            self.nodes.push(path);
            assert(views(self.nodes@) =~= v0.push(p));
        }
    }

    /// Adds each of `paths` that the group lacks, in order.
    pub fn add_all(&mut self, paths: &Vec<String>)
        ensures
            final(self)@ == (GroupView { nodes: push_new(old(self)@.nodes, views(paths@)), ..old(self)@ }),
    {
        let ghost g0 = self@;
        let mut k: usize = 0;
        assert(views(paths@).take(0) =~= Seq::<Seq<char>>::empty());
        while k < paths.len()
            invariant
                k <= paths@.len(),
                self@ == (GroupView { nodes: push_new(g0.nodes, views(paths@).take(k as int)), ..g0 }),
            decreases paths@.len() - k,
        {
            let ghost before = views(paths@).take(k as int);
            let ghost after = views(paths@).take(k + 1);
            assert(after.drop_last() =~= before);
            assert(after.last() == paths@[k as int]@);
            self.add(paths[k].clone());
            k = k + 1;
        }
        assert(views(paths@).take(paths@.len() as int) =~= views(paths@));
    }

    /// Removes `path` from the group.
    pub fn remove(&mut self, path: &str)
        requires
            old(self)@.nodes.no_duplicates(),
        ensures
            final(self)@ == (GroupView { nodes: without_path(old(self)@.nodes, path@), ..old(self)@ }),
    {
        match index_of_string(&self.nodes, path) {
            Some(k) => {
                let ghost v0 = views(self.nodes@);
                proof {
                    lemma_index_of_unique(v0, k as int, path@);
                }
                self.nodes.remove(k);
                assert(views(self.nodes@) =~= v0.remove(k as int));
            },
            None => {},
        }
    }

    /// Removes every path from the group; its period stays.
    pub fn clear(&mut self)
        ensures
            final(self)@ == (GroupView { nodes: Seq::empty(), ..old(self)@ }),
    {
        self.nodes.clear();
        assert(views(self.nodes@) =~= Seq::<Seq<char>>::empty());
    }

    /// The group as it is written to the configuration: its paths and its
    /// period.
    pub fn as_dto(&self) -> (d: WallpaperGroup)
        ensures
            d@ == self@,
    {
        WallpaperGroup { nodes: clone_strings(&self.nodes), period: self.period }
    }

    /// A group read from the configuration: its paths that are paths of
    /// `nodes`, each once, and its period.
    pub fn from_dto(dto: &WallpaperGroup, nodes: &Vec<WallpaperNode>) -> (g: Self)
        ensures
            g@ == (GroupView {
                nodes: kept_members(Seq::empty(), dto@.nodes, node_views(nodes@)),
                period: dto.period,
            }),
    {
        let ghost ns = node_views(nodes@);
        let mut members: Vec<String> = Vec::new();
        let mut k: usize = 0;
        assert(dto@.nodes.take(0) =~= Seq::<Seq<char>>::empty());
        assert(views(members@) =~= Seq::<Seq<char>>::empty());
        while k < dto.nodes.len()
            invariant
                k <= dto.nodes@.len(),
                ns == node_views(nodes@),
                views(members@) == kept_members(Seq::empty(), dto@.nodes.take(k as int), ns),
            decreases dto.nodes@.len() - k,
        {
            let ghost before = dto@.nodes.take(k as int);
            let ghost after = dto@.nodes.take(k + 1);
            assert(after.drop_last() =~= before);
            assert(after.last() == dto.nodes@[k as int]@);
            let p = &dto.nodes[k];
            let known = node_known(nodes, p.as_str());
            if known && !contains_string(&members, p.as_str()) {
                let ghost v0 = views(members@);
                members.push(p.clone());
                assert(views(members@) =~= v0.push(p@));
            }
            k = k + 1;
        }
        assert(dto@.nodes.take(dto@.nodes.len() as int) =~= dto@.nodes);
        WallpaperGroup { nodes: members, period: dto.period }
    }
}

/// Whether some node of `nodes` is at `path`.
fn node_known(nodes: &Vec<WallpaperNode>, path: &str) -> (b: bool)
    ensures
        b == node_paths(node_views(nodes@)).contains(path@),
{
    let mut i: usize = 0;
    while i < nodes.len()
        invariant
            i <= nodes@.len(),
            forall|k: int| 0 <= k < i ==> nodes@[k].path@ != path@,
        decreases nodes@.len() - i,
    {
        if crate::clock::str_eq(nodes[i].path.as_str(), path) {
            assert(node_paths(node_views(nodes@))[i as int] == path@);
            return true;
        }
        i = i + 1;
    }
    assert forall|k: int| 0 <= k < node_paths(node_views(nodes@)).len() implies node_paths(
        node_views(nodes@),
    )[k] != path@ by {
        assert(node_paths(node_views(nodes@))[k] == nodes@[k].path@);
    }
    false
}

/// The database as it is written to the configuration and read back from
/// it: the current wallpaper, the nodes, and the groups by name
/// (`group_names[i]` names `groups[i]`). Nothing here is checked yet.
pub struct StateDto {
    pub current_wallpaper_path: Option<String>,
    pub nodes: Vec<WallpaperNode>,
    pub group_names: Vec<String>,
    pub groups: Vec<WallpaperGroup>,
}

impl View for StateDto {
    type V = StateView;

    open spec fn view(&self) -> StateView {
        StateView {
            current: match self.current_wallpaper_path {
                Some(p) => Some(p@),
                None => None,
            },
            nodes: node_views(self.nodes@),
            group_names: views(self.group_names@),
            groups: group_views(self.groups@),
        }
    }
}

/// `ns` with `n`, which replaces the node at its path if there is one.
pub open spec fn insert_node_view(ns: Seq<NodeView>, n: NodeView) -> Seq<NodeView> {
    if node_paths(ns).contains(n.path) {
        ns.update(node_paths(ns).index_of(n.path), n)
    } else {
        ns.push(n)
    }
}

/// The nodes read back: one per path, the last one given for each path.
pub open spec fn dto_nodes(ns: Seq<NodeView>) -> Seq<NodeView>
    decreases ns.len(),
{
    if ns.len() == 0 {
        ns
    } else {
        insert_node_view(dto_nodes(ns.drop_last()), ns.last())
    }
}

/// The groups read back, by name: one per name, the last one given for each
/// name, each keeping the paths that are paths of `nodes`, once.
pub open spec fn dto_groups(names: Seq<Seq<char>>, groups: Seq<GroupView>, nodes: Seq<NodeView>) -> (
    Seq<Seq<char>>,
    Seq<GroupView>,
)
    decreases names.len(),
{
    if names.len() == 0 || groups.len() == 0 {
        (Seq::empty(), Seq::empty())
    } else {
        let r = dto_groups(names.drop_last(), groups.drop_last(), nodes);
        let g = GroupView {
            nodes: kept_members(Seq::empty(), groups.last().nodes, nodes),
            period: groups.last().period,
        };
        if r.0.contains(names.last()) {
            (r.0, r.1.update(r.0.index_of(names.last()), g))
        } else {
            (r.0.push(names.last()), r.1.push(g))
        }
    }
}

/// The database that the configuration `d` gives.
pub open spec fn from_dto_spec(d: StateView) -> StateView {
    let nodes = dto_nodes(d.nodes);
    let groups = dto_groups(d.group_names, d.groups, nodes);
    StateView { current: d.current, nodes, group_names: groups.0, groups: groups.1 }
}

/// `kept_members` keeps no duplicates and only paths of the nodes.
proof fn lemma_kept_members(ys: Seq<Seq<char>>, nodes: Seq<NodeView>)
    ensures
        kept_members(Seq::empty(), ys, nodes).no_duplicates(),
        forall|k: int|
            0 <= k < kept_members(Seq::empty(), ys, nodes).len() ==> node_paths(nodes).contains(
                #[trigger] kept_members(Seq::empty(), ys, nodes)[k],
            ),
    decreases ys.len(),
{
    if ys.len() > 0 {
        lemma_kept_members(ys.drop_last(), nodes);
        let r = kept_members(Seq::empty(), ys.drop_last(), nodes);
        if node_paths(nodes).contains(ys.last()) && !r.contains(ys.last()) {
            let t = r.push(ys.last());
            assert forall|a: int, b: int| 0 <= a < t.len() && 0 <= b < t.len() && a != b implies t[a]
                != t[b] by {
                if a == r.len() && b < r.len() {
                    assert(r[b] != ys.last());
                } else if b == r.len() && a < r.len() {
                    assert(r[a] != ys.last());
                }
            }
            assert forall|k: int| 0 <= k < t.len() implies node_paths(nodes).contains(#[trigger] t[k]) by {
                if k < r.len() {
                    assert(t[k] == r[k]);
                }
            }
        }
    }
}

/// The nodes read back have one per path.
proof fn lemma_dto_nodes(ns: Seq<NodeView>)
    ensures
        node_paths(dto_nodes(ns)).no_duplicates(),
    decreases ns.len(),
{
    if ns.len() > 0 {
        lemma_dto_nodes(ns.drop_last());
        let r = dto_nodes(ns.drop_last());
        let n = ns.last();
        if node_paths(r).contains(n.path) {
            let i = node_paths(r).index_of(n.path);
            assert(node_paths(r.update(i, n)) =~= node_paths(r));
        } else {
            let t = node_paths(r.push(n));
            assert(t =~= node_paths(r).push(n.path));
            assert forall|a: int, b: int| 0 <= a < t.len() && 0 <= b < t.len() && a != b implies t[a]
                != t[b] by {
                if a == r.len() && b < r.len() {
                    assert(node_paths(r)[b] != n.path);
                } else if b == r.len() && a < r.len() {
                    assert(node_paths(r)[a] != n.path);
                }
            }
        }
    }
}

/// The groups read back have one per name, each well formed.
proof fn lemma_dto_groups(names: Seq<Seq<char>>, groups: Seq<GroupView>, nodes: Seq<NodeView>)
    ensures
        dto_groups(names, groups, nodes).0.no_duplicates(),
        dto_groups(names, groups, nodes).0.len() == dto_groups(names, groups, nodes).1.len(),
        forall|g: int|
            0 <= g < dto_groups(names, groups, nodes).1.len() ==> group_wf(
                #[trigger] dto_groups(names, groups, nodes).1[g],
                nodes,
            ),
    decreases names.len(),
{
    if names.len() > 0 && groups.len() > 0 {
        lemma_dto_groups(names.drop_last(), groups.drop_last(), nodes);
        lemma_kept_members(groups.last().nodes, nodes);
        let r = dto_groups(names.drop_last(), groups.drop_last(), nodes);
        let nm = names.last();
        if !r.0.contains(nm) {
            let t = r.0.push(nm);
            assert forall|a: int, b: int| 0 <= a < t.len() && 0 <= b < t.len() && a != b implies t[a]
                != t[b] by {
                if a == r.0.len() && b < r.0.len() {
                    assert(r.0[b] != nm);
                } else if b == r.0.len() && a < r.0.len() {
                    assert(r.0[a] != nm);
                }
            }
        }
    }
}

/// Read back, a well-formed database's own nodes come out unchanged.
proof fn lemma_dto_nodes_same(ns: Seq<NodeView>)
    requires
        node_paths(ns).no_duplicates(),
    ensures
        dto_nodes(ns) == ns,
    decreases ns.len(),
{
    if ns.len() > 0 {
        let d = ns.drop_last();
        assert(node_paths(d) =~= node_paths(ns).drop_last());
        lemma_dto_nodes_same(d);
        assert(!node_paths(d).contains(ns.last().path)) by {
            if node_paths(d).contains(ns.last().path) {
                let k = choose|k: int| 0 <= k < node_paths(d).len() && node_paths(d)[k] == ns.last().path;
                assert(node_paths(ns)[k] == node_paths(ns)[ns.len() - 1]);
            }
        }
        assert(d.push(ns.last()) =~= ns);
    }
}

/// Read back, the paths of a well-formed group come out unchanged.
proof fn lemma_kept_same(ys: Seq<Seq<char>>, nodes: Seq<NodeView>)
    requires
        ys.no_duplicates(),
        forall|k: int| 0 <= k < ys.len() ==> node_paths(nodes).contains(#[trigger] ys[k]),
    ensures
        kept_members(Seq::empty(), ys, nodes) == ys,
    decreases ys.len(),
{
    if ys.len() > 0 {
        let d = ys.drop_last();
        assert forall|k: int| 0 <= k < d.len() implies node_paths(nodes).contains(#[trigger] d[k]) by {
            assert(d[k] == ys[k]);
        }
        lemma_kept_same(d, nodes);
        assert(node_paths(nodes).contains(ys[ys.len() - 1]));
        assert(!d.contains(ys.last())) by {
            if d.contains(ys.last()) {
                let k = choose|k: int| 0 <= k < d.len() && d[k] == ys.last();
                assert(ys[k] == ys[ys.len() - 1]);
            }
        }
        assert(d.push(ys.last()) =~= ys);
    }
}

/// Read back, a well-formed database's own groups come out unchanged.
proof fn lemma_dto_groups_same(names: Seq<Seq<char>>, groups: Seq<GroupView>, nodes: Seq<NodeView>)
    requires
        names.no_duplicates(),
        names.len() == groups.len(),
        forall|g: int| 0 <= g < groups.len() ==> group_wf(#[trigger] groups[g], nodes),
    ensures
        dto_groups(names, groups, nodes) == (names, groups),
    decreases names.len(),
{
    if names.len() > 0 {
        let dn = names.drop_last();
        let dg = groups.drop_last();
        assert forall|g: int| 0 <= g < dg.len() implies group_wf(#[trigger] dg[g], nodes) by {
            assert(dg[g] == groups[g]);
        }
        lemma_dto_groups_same(dn, dg, nodes);
        let last = groups.last();
        assert(group_wf(groups[groups.len() - 1], nodes));
        lemma_kept_same(last.nodes, nodes);
        assert(!dn.contains(names.last())) by {
            if dn.contains(names.last()) {
                let k = choose|k: int| 0 <= k < dn.len() && dn[k] == names.last();
                assert(names[k] == names[names.len() - 1]);
            }
        }
        assert(dn.push(names.last()) =~= names);
        assert(dg.push(GroupView { nodes: last.nodes, period: last.period }) =~= groups);
    }
}

/// What is written to the configuration is read back unchanged: for a
/// well-formed database, reading its own configuration gives it again.
pub proof fn config_roundtrip(s: StateView)
    requires
        state_wf(s),
    ensures
        from_dto_spec(s) == s,
{
    lemma_dto_nodes_same(s.nodes);
    lemma_dto_groups_same(s.group_names, s.groups, s.nodes);
}

/// Whatever the configuration holds, the database read from it is well
/// formed.
pub proof fn config_read_is_well_formed(d: StateView)
    ensures
        state_wf(from_dto_spec(d)),
{
    lemma_dto_nodes(d.nodes);
    lemma_dto_groups(d.group_names, d.groups, dto_nodes(d.nodes));
}

impl State {
    /// The database as it is written to the configuration.
    pub fn as_dto(&self) -> (d: StateDto)
        ensures
            d@ == self@,
    {
        let mut nodes: Vec<WallpaperNode> = Vec::new();
        let mut i: usize = 0;
        while i < self.nodes.len()
            invariant
                i <= self.nodes@.len(),
                nodes@.len() == i,
                forall|k: int| 0 <= k < i ==> #[trigger] nodes@[k]@ == self.nodes@[k]@,
            decreases self.nodes@.len() - i,
        {
            nodes.push(self.nodes[i].duplicate());
            i = i + 1;
        }
        let mut groups: Vec<WallpaperGroup> = Vec::new();
        let mut g: usize = 0;
        while g < self.groups.len()
            invariant
                g <= self.groups@.len(),
                groups@.len() == g,
                forall|k: int| 0 <= k < g ==> #[trigger] groups@[k]@ == self.groups@[k]@,
            decreases self.groups@.len() - g,
        {
            groups.push(self.groups[g].as_dto());
            g = g + 1;
        }
        let current = match &self.current_wallpaper_path {
            Some(c) => Some(c.clone()),
            None => None,
        };
        let d = StateDto {
            current_wallpaper_path: current,
            nodes,
            group_names: clone_strings(&self.group_names),
            groups,
        };
        assert(node_views(d.nodes@) =~= node_views(self.nodes@));
        assert(group_views(d.groups@) =~= group_views(self.groups@));
        d
    }

    /// The database that a configuration gives: one node per path and one
    /// group per name, the last given winning; a group keeps only the paths
    /// of nodes.
    pub fn from_dto(dto: StateDto) -> (s: Self)
        requires
            dto.group_names@.len() == dto.groups@.len(),
        ensures
            state_wf(s@),
            s@ == from_dto_spec(dto@),
    {
        let ghost d = dto@;
        let mut st = State::new();
        let mut i: usize = 0;
        assert(d.nodes.take(0) =~= Seq::<NodeView>::empty());
        while i < dto.nodes.len()
            invariant
                i <= dto.nodes@.len(),
                d == dto@,
                st@.nodes == dto_nodes(d.nodes.take(i as int)),
                st@.current is None,
                st@.group_names == Seq::<Seq<char>>::empty(),
                st@.groups == Seq::<GroupView>::empty(),
            decreases dto.nodes@.len() - i,
        {
            let ghost before = d.nodes.take(i as int);
            let ghost after = d.nodes.take(i + 1);
            assert(after.drop_last() =~= before);
            assert(after.last() == dto.nodes@[i as int]@);
            let n = dto.nodes[i].duplicate();
            proof {
                lemma_dto_nodes(before);
            }
            match st.find_node(n.path.as_str()) {
                Some(k) => {
                    proof {
                        lemma_index_of_unique(node_paths(st@.nodes), k as int, n.path@);
                    }
                    let ghost ns0 = st@.nodes;
                    st.nodes.set(k, n);
                    assert(node_views(st.nodes@) =~= ns0.update(k as int, dto.nodes@[i as int]@));
                },
                None => {
                    let ghost ns0 = st@.nodes;
                    st.nodes.push(n);
                    assert(node_views(st.nodes@) =~= ns0.push(dto.nodes@[i as int]@));
                },
            }
            i = i + 1;
        }
        assert(d.nodes.take(d.nodes.len() as int) =~= d.nodes);
        let ghost nodes = dto_nodes(d.nodes);
        let mut g: usize = 0;
        assert(d.group_names.take(0) =~= Seq::<Seq<char>>::empty());
        while g < dto.groups.len()
            invariant
                g <= dto.groups@.len(),
                dto.group_names@.len() == dto.groups@.len(),
                d == dto@,
                st@.nodes == nodes,
                st@.current is None,
                (st@.group_names, st@.groups) == dto_groups(
                    d.group_names.take(g as int),
                    d.groups.take(g as int),
                    nodes,
                ),
            decreases dto.groups@.len() - g,
        {
            let ghost nb = d.group_names.take(g as int);
            let ghost na = d.group_names.take(g + 1);
            let ghost gb = d.groups.take(g as int);
            let ghost ga = d.groups.take(g + 1);
            assert(na.drop_last() =~= nb);
            assert(ga.drop_last() =~= gb);
            assert(na.last() == dto.group_names@[g as int]@);
            assert(ga.last() == dto.groups@[g as int]@);
            proof {
                lemma_dto_groups(nb, gb, nodes);
            }
            let grp = WallpaperGroup::from_dto(&dto.groups[g], &st.nodes);
            match st.find_group(dto.group_names[g].as_str()) {
                Some(k) => {
                    proof {
                        lemma_index_of_unique(st@.group_names, k as int, dto.group_names@[g as int]@);
                    }
                    let ghost gs0 = st@.groups;
                    let ghost gv = grp@;
                    st.groups.set(k, grp);
                    assert(group_views(st.groups@) =~= gs0.update(k as int, gv));
                },
                None => {
                    let ghost gs0 = st@.groups;
                    let ghost ns0 = st@.group_names;
                    let ghost gv = grp@;
                    st.group_names.push(dto.group_names[g].clone());
                    st.groups.push(grp);
                    assert(group_views(st.groups@) =~= gs0.push(gv));
                    assert(views(st.group_names@) =~= ns0.push(dto.group_names@[g as int]@));
                },
            }
            g = g + 1;
        }
        assert(d.group_names.take(d.group_names.len() as int) =~= d.group_names);
        assert(d.groups.take(d.groups.len() as int) =~= d.groups);
        let current = match &dto.current_wallpaper_path {
            Some(c) => Some(c.clone()),
            None => None,
        };
        st.current_wallpaper_path = current;
        proof {
            config_read_is_well_formed(d);
        }
        st
    }
}

proof fn lemma_next_start_after(nodes: Seq<NodeView>, now: int)
    ensures
        next_start(nodes, now) matches Some(t) ==> t > now,
    decreases nodes.len(),
{
    if nodes.len() > 0 {
        lemma_next_start_after(nodes.drop_last(), now);
    }
}

/// The node's period starts after `now`.
pub open spec fn starts_after(n: NodeView, now: int) -> bool {
    n.period matches Some(p) && p.since > now
}

proof fn lemma_next_start_is_earliest(nodes: Seq<NodeView>, now: int)
    ensures
        next_start(nodes, now) is None <==> (forall|i: int|
            0 <= i < nodes.len() ==> !starts_after(#[trigger] nodes[i], now)),
        next_start(nodes, now) matches Some(t) ==> (exists|i: int|
            0 <= i < nodes.len() && starts_after(#[trigger] nodes[i], now) && nodes[i].period->0.since
                == t),
        next_start(nodes, now) matches Some(t) ==> (forall|j: int|
            0 <= j < nodes.len() && starts_after(#[trigger] nodes[j], now) ==> t
                <= nodes[j].period->0.since),
    decreases nodes.len(),
{
    if nodes.len() > 0 {
        let init = nodes.drop_last();
        lemma_next_start_is_earliest(init, now);
        let last = nodes.len() - 1;
        assert(nodes[last] == nodes.last());
        assert forall|i: int| 0 <= i < init.len() implies nodes[i] == init[i] by {}
        if next_start(nodes, now) is None {
            assert forall|i: int| 0 <= i < nodes.len() implies !starts_after(#[trigger] nodes[i], now) by {
                if i < last {
                    assert(nodes[i] == init[i]);
                }
            }
        }
        match next_start(nodes, now) {
            Some(t) => {
                if starts_after(nodes.last(), now) && (next_start(init, now) is None
                    || nodes.last().period->0.since < next_start(init, now)->0) {
                    assert(nodes[last].period->0.since == t);
                } else {
                    let i = choose|i: int|
                        0 <= i < init.len() && starts_after(#[trigger] init[i], now)
                            && init[i].period->0.since == t;
                    assert(nodes[i] == init[i]);
                }
                assert forall|j: int| 0 <= j < nodes.len() && starts_after(#[trigger] nodes[j], now)
                    implies t <= nodes[j].period->0.since by {
                    if j < last {
                        assert(nodes[j] == init[j]);
                    }
                }
            },
            None => {},
        }
    }
}

/// The daemon wakes up when the next period starts: there is no wait
/// exactly when no period starts after now; otherwise the wait is the time
/// until the earliest such start, at most `i32::MAX` milliseconds.
pub proof fn timeout_waits_for_next_start(s: StateView, now: int)
    ensures
        timeout_spec(s, now) is None <==> (forall|i: int|
            0 <= i < s.nodes.len() ==> !starts_after(#[trigger] s.nodes[i], now)),
        timeout_spec(s, now) matches Some(w) ==> (exists|i: int|
            0 <= i < s.nodes.len() && starts_after(#[trigger] s.nodes[i], now) && w == (if s.nodes[i].period->0.since
                - now <= i32::MAX {
                s.nodes[i].period->0.since - now
            } else {
                i32::MAX as int
            }) && forall|j: int|
                0 <= j < s.nodes.len() && starts_after(#[trigger] s.nodes[j], now)
                    ==> s.nodes[i].period->0.since <= s.nodes[j].period->0.since),
{
    lemma_next_start_is_earliest(s.nodes, now);
    lemma_next_start_after(s.nodes, now);
    if let Some(t) = next_start(s.nodes, now) {
        let i = choose|i: int|
            0 <= i < s.nodes.len() && starts_after(#[trigger] s.nodes[i], now)
                && s.nodes[i].period->0.since == t;
        assert(starts_after(s.nodes[i], now));
    }
}

/// The wait until the next period starts is never zero or negative: the
/// daemon waits at least a millisecond.
pub proof fn timeout_is_positive(s: StateView, now: int)
    ensures
        timeout_spec(s, now) matches Some(t) ==> t >= 1,
{
    lemma_next_start_after(s.nodes, now);
}

/// After the ended periods are removed, no period left has ended.
pub proof fn no_expired_period_left(s: StateView, now: int)
    ensures
        forall|i: int|
            0 <= i < without_expired(s, now).nodes.len() ==> ((#[trigger] without_expired(s, now).nodes[i]).period matches Some(p) ==> !expired(p, now)),
        forall|g: int|
            0 <= g < without_expired(s, now).groups.len() ==> ((#[trigger] without_expired(s, now).groups[g]).period matches Some(p) ==> !expired(p, now)),
{
}

/// A database with nodes always has some to choose a wallpaper from.
pub proof fn actual_paths_nonempty(s: StateView, now: int)
    requires
        s.nodes.len() > 0,
    ensures
        actual_paths(s, now).len() > 0,
{
}

proof fn lemma_with_nodes_names(s: StateView, ps: Seq<Seq<char>>)
    ensures
        with_nodes(s, ps).group_names == s.group_names,
        with_nodes(s, ps).groups == s.groups,
        with_nodes(s, ps).current == s.current,
    decreases ps.len(),
{
    if ps.len() > 0 {
        lemma_with_nodes_names(s, ps.drop_last());
    }
}

/// Adding paths to a group: the group then exists and holds each of the
/// paths, and each of them is a node.
pub proof fn grouped_holds_paths(s: StateView, name: Seq<char>, ps: Seq<Seq<char>>)
    requires
        state_wf(s),
    ensures
        has_group(grouped(s, name, ps), name),
        forall|k: int|
            0 <= k < ps.len() ==> has_node(grouped(s, name, ps), #[trigger] ps[k]) && grouped(
                s,
                name,
                ps,
            ).groups[group_index(grouped(s, name, ps), name)].nodes.contains(ps[k]),
{
    lemma_with_nodes(s, ps);
    let s1 = with_nodes(s, ps);
    let t = grouped(s, name, ps);
    if has_group(s1, name) {
        let g = group_index(s1, name);
        lemma_push_new(s1.groups[g].nodes, ps);
        assert(t.group_names == s1.group_names);
        assert(t.group_names[g] == name);
        assert(group_index(t, name) == g) by {
            let c = group_index(t, name);
            lemma_unique_index(t.group_names, c, g);
        }
        assert forall|k: int| 0 <= k < ps.len() implies has_node(t, #[trigger] ps[k]) && t.groups[group_index(t, name)].nodes.contains(ps[k]) by {
            assert(ps.contains(ps[k]));
            assert(node_paths(t.nodes) == node_paths(s1.nodes));
        }
    } else {
        let g = s1.group_names.len() as int;
        lemma_push_new(Seq::empty(), ps);
        assert(t.group_names[g] == name);
        assert(t.group_names.contains(name));
        assert(group_index(t, name) == g) by {
            let c = group_index(t, name);
            if c < g {
                assert(s1.group_names[c] == name);
            }
        }
        assert(t.groups[g].nodes == push_new(Seq::empty(), ps));
        assert forall|k: int| 0 <= k < ps.len() implies has_node(t, #[trigger] ps[k]) && t.groups[group_index(t, name)].nodes.contains(ps[k]) by {
            assert(ps.contains(ps[k]));
            assert(node_paths(t.nodes) == node_paths(s1.nodes));
        }
    }
}

} // verus!
