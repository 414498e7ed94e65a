use vstd::prelude::*;

use crate::config::{Config, ConfigView};
use crate::fsmodel::{
    fs_entry_view, fs_height, fs_height_seq, lemma_contains_height, lemma_dir_views,
    lemma_sort_membership, lemma_sorted_height, sort_indices, spec_sort, views_at, views_of,
    FsEntry, FsEntryView, FsNode, FsNodeView,
};
use crate::strutil::{
    ends_with_md, is_hidden, join_path, spec_ends_with_md, spec_is_hidden, spec_join, spec_strip,
    str_eq, strip_path_prefix,
};
use crate::title::{extract_title, title_of};

verus! {

broadcast use vstd::seq::axiom_seq_index_decreases, vstd::std_specs::vec::group_vec_axioms;

/// One node of the document tree: a folder that earned its place by
/// holding an index chapter, or a chapter file.
pub enum DocStructure {
    Folder(DocFolder),
    File(DocFile),
}

/// A folder of the tree. Its title comes from its index chapter, falling
/// back to the folder's name; the folder is only in the tree at all when
/// the index chapter exists.
pub struct DocFolder {
    /// The folder's display title.
    pub title: String,
    /// The folder's path; absolute as discovered, root-relative after
    /// `relative_to`.
    pub path: String,
    /// The nodes directly inside, in discovery order.
    pub children: Vec<DocStructure>,
    /// How far below the source root the folder sits; the root is 0.
    pub depth: u16,
    /// The name of the folder's index chapter file.
    pub index: String,
}

/// A chapter of the tree.
pub struct DocFile {
    /// The chapter's display title.
    pub title: String,
    /// The chapter's path; absolute as discovered, root-relative after
    /// `relative_to`.
    pub path: String,
    /// How far below the source root the chapter sits.
    pub depth: u16,
}

/// The mathematical shape of a tree node.
pub enum TreeView {
    Folder {
        title: Seq<char>,
        path: Seq<char>,
        children: Seq<TreeView>,
        depth: u16,
        index: Seq<char>,
    },
    File { title: Seq<char>, path: Seq<char>, depth: u16 },
}

pub open spec fn doc_view(d: DocStructure) -> TreeView
    decreases d, 1int, 0int,
{
    match d {
        DocStructure::Folder(f) => TreeView::Folder {
            title: f.title@,
            path: f.path@,
            children: doc_views_upto(f.children@, f.children@.len() as int),
            depth: f.depth,
            index: f.index@,
        },
        DocStructure::File(f) => TreeView::File { title: f.title@, path: f.path@, depth: f.depth },
    }
}

/// The views of the first `n` nodes of a sequence, in order.
pub open spec fn doc_views_upto(s: Seq<DocStructure>, n: int) -> Seq<TreeView>
    decreases s, 0int, n,
{
    if n <= 0 || n > s.len() {
        Seq::empty()
    } else {
        doc_views_upto(s, n - 1).push(doc_view(s[n - 1]))
    }
}

/// The views of a sequence of nodes, in order.
pub open spec fn doc_views_of(s: Seq<DocStructure>) -> Seq<TreeView> {
    Seq::new(s.len(), |i: int| doc_view(s[i]))
}

proof fn lemma_doc_views_upto(s: Seq<DocStructure>, n: int)
    requires
        0 <= n <= s.len(),
    ensures
        doc_views_upto(s, n) == doc_views_of(s).take(n),
    decreases n,
{
    if n == 0 {
        assert(doc_views_upto(s, n) =~= doc_views_of(s).take(n));
    } else {
        lemma_doc_views_upto(s, n - 1);
        assert(doc_views_upto(s, n) =~= doc_views_of(s).take(n));
    }
}

/// A node's view lists exactly the views of its children, in order.
pub proof fn lemma_doc_children_views(s: Seq<DocStructure>)
    ensures
        doc_views_upto(s, s.len() as int) == doc_views_of(s),
{
    lemma_doc_views_upto(s, s.len() as int);
    assert(doc_views_of(s).take(s.len() as int) =~= doc_views_of(s));
}

impl View for DocStructure {
    type V = TreeView;

    open spec fn view(&self) -> TreeView {
        doc_view(*self)
    }
}

impl View for DocFolder {
    type V = TreeView;

    open spec fn view(&self) -> TreeView {
        doc_view(DocStructure::Folder(*self))
    }
}

impl View for DocFile {
    type V = TreeView;

    open spec fn view(&self) -> TreeView {
        doc_view(DocStructure::File(*self))
    }
}

/// What discovery makes of a file entry: nothing unless the name carries
/// the chapter extension, nothing for a hidden name when those are
/// ignored, nothing for an unreadable file; otherwise a chapter titled
/// from its lines.
pub open spec fn spec_build_file(
    name: Seq<char>,
    content: Option<Seq<Seq<char>>>,
    path: Seq<char>,
    cfg: ConfigView,
    depth: u16,
) -> Option<TreeView> {
    if !spec_ends_with_md(name) {
        None
    } else if cfg.ignore_hidden && spec_is_hidden(name) {
        None
    } else {
        match content {
            None => None,
            Some(lines) => Some(
                TreeView::File { title: title_of(lines, name), path, depth },
            ),
        }
    }
}

/// What discovery makes of any entry when treated as a file: a directory
/// yields nothing.
pub open spec fn spec_file_of(
    e: FsEntryView,
    path: Seq<char>,
    cfg: ConfigView,
    depth: u16,
) -> Option<TreeView> {
    match e.node {
        FsNodeView::Dir(_) => None,
        FsNodeView::File(content) => spec_build_file(e.name, content, path, cfg, depth),
    }
}

/// The first entry of a listing carrying the given name, if any.
pub open spec fn find_entry(entries: Seq<FsEntryView>, name: Seq<char>) -> Option<FsEntryView>
    decreases entries.len(),
{
    if entries.len() == 0 {
        None
    } else if entries[0].name == name {
        Some(entries[0])
    } else {
        find_entry(entries.drop_first(), name)
    }
}

/// What discovery makes of an entry. A directory is gated on its index
/// chapter: absent, unreadable or disqualified, the directory and all it
/// holds stay out. A qualifying directory is titled by its index chapter,
/// falling back to the directory's own name when that title is literally
/// the index file's name; its children are its direct entries in sorted
/// name order, the index file and any `SUMMARY.md` left out, directories
/// and chapter files kept, and every entry discovery rejects dropped.
pub open spec fn spec_build(
    e: FsEntryView,
    path: Seq<char>,
    cfg: ConfigView,
    depth: u16,
) -> Option<TreeView>
    decreases fs_height(e), 0int, 0int,
    via spec_build_dec
{
    match e.node {
        FsNodeView::File(content) => spec_build_file(e.name, content, path, cfg, depth),
        FsNodeView::Dir(entries) => match find_entry(entries, cfg.index_name) {
            None => None,
            Some(ie) => match spec_file_of(
                ie,
                spec_join(path, cfg.index_name),
                cfg,
                (depth + 1) as u16,
            ) {
                None => None,
                Some(TreeView::File { title: t, .. }) => Some(
                    TreeView::Folder {
                        title: if t == cfg.index_name {
                            e.name
                        } else {
                            t
                        },
                        path,
                        children: spec_children(
                            spec_sort(entries),
                            path,
                            cfg,
                            (depth + 1) as u16,
                            spec_sort(entries).len() as int,
                        ),
                        depth,
                        index: cfg.index_name,
                    },
                ),
                Some(TreeView::Folder { .. }) => None,
            },
        },
    }
}

/// The nodes the first `n` entries of a sorted listing contribute, in
/// order.
pub open spec fn spec_children(
    s: Seq<FsEntryView>,
    dirpath: Seq<char>,
    cfg: ConfigView,
    depth: u16,
    n: int,
) -> Seq<TreeView>
    decreases fs_height_seq(s, s.len() as int), 1int, n,
    via spec_children_dec
{
    if n <= 0 || n > s.len() {
        Seq::empty()
    } else {
        let rest = spec_children(s, dirpath, cfg, depth, n - 1);
        let x = s[n - 1];
        if x.name == cfg.index_name || x.name == "SUMMARY.md"@ {
            rest
        } else if !(x.node is Dir) && !spec_ends_with_md(x.name) {
            rest
        } else {
            match spec_build(x, spec_join(dirpath, x.name), cfg, depth) {
                None => rest,
                Some(t) => rest.push(t),
            }
        }
    }
}

#[via_fn]
proof fn spec_build_dec(e: FsEntryView, path: Seq<char>, cfg: ConfigView, depth: u16) {
    match e.node {
        FsNodeView::Dir(entries) => {
            lemma_sorted_height(entries);
        },
        _ => {},
    }
}

#[via_fn]
proof fn spec_children_dec(
    s: Seq<FsEntryView>,
    dirpath: Seq<char>,
    cfg: ConfigView,
    depth: u16,
    n: int,
) {
    if 0 < n <= s.len() {
        crate::fsmodel::lemma_height_elem(s, s.len() as int, n - 1);
    }
}

fn find_index_entry(entries: &Vec<FsEntry>, name: &str) -> (r: Option<usize>)
    ensures
        match r {
            Some(i) => i < entries@.len() && entries@[i as int].name@ == name@ && find_entry(
                views_of(entries@),
                name@,
            ) == Some(fs_entry_view(entries@[i as int])),
            None => find_entry(views_of(entries@), name@) is None,
        },
{
    let ghost evs = views_of(entries@);
    let mut i: usize = 0;
    proof {
        assert(evs.skip(0) =~= evs);
    }
    while i < entries.len()
        invariant
            i <= entries@.len(),
            evs == views_of(entries@),
            find_entry(evs, name@) == find_entry(evs.skip(i as int), name@),
        decreases entries@.len() - i,
    {
        proof {
            assert(evs.skip(i as int)[0] == evs[i as int]);
        }
        if str_eq(entries[i].name.as_str(), name) {
            return Some(i);
        }
        proof {
            assert(evs.skip(i as int).drop_first() =~= evs.skip(i as int + 1));
        }
        i = i + 1;
    }
    proof {
        assert(evs.skip(i as int).len() == 0);
    }
    None
}

impl DocFile {
    pub fn new(title: String, path: String, depth: u16) -> (r: DocFile)
        ensures
            r@ == (TreeView::File { title: title@, path: path@, depth }),
    {
        DocFile { title, path, depth }
    }

    /// Discover a single chapter from a snapshot entry. A directory, a
    /// name without the chapter extension, a hidden name when those are
    /// ignored, and an unreadable file all yield nothing.
    pub fn from_path(entry: &FsEntry, path: &str, config: &Config, depth: u16) -> (r: Option<
        DocFile,
    >)
        ensures
            match r {
                Some(f) => spec_file_of(entry@, path@, config@, depth) == Some(f@),
                None => spec_file_of(entry@, path@, config@, depth) is None,
            },
            r matches Some(f) ==> f.path@ == path@ && f.depth == depth && f.title@.len() > 0,
    {
        match &entry.node {
            FsNode::Dir(_) => None,
            FsNode::File(content) => {
                if !ends_with_md(entry.name.as_str()) {
                    return None;
                }
                if config.ignore_hidden && is_hidden(entry.name.as_str()) {
                    return None;
                }
                match content {
                    None => None,
                    Some(lines) => {
                        let title = extract_title(lines, entry.name.as_str());
                        proof {
                            crate::title::lemma_title_never_empty(
                                lines.deep_view(),
                                entry.name@,
                            );
                        }
                        Some(DocFile::new(title, String::from_str(path), depth))
                    },
                }
            },
        }
    }
}

impl DocFolder {
    pub fn new(
        title: String,
        path: String,
        children: Vec<DocStructure>,
        depth: u16,
        index_name: String,
    ) -> (r: DocFolder)
        ensures
            r@ == (TreeView::Folder {
                title: title@,
                path: path@,
                children: doc_views_of(children@),
                depth,
                index: index_name@,
            }),
    {
        let r = DocFolder { title, path, children, depth, index: index_name };
        proof {
            lemma_doc_children_views(r.children@);
        }
        r
    }

    /// Discover a folder from a snapshot entry: gated on its index
    /// chapter, titled from it, its children discovered recursively in
    /// sorted name order.
    #[verifier::loop_isolation(false)]
    pub fn from_path(entry: &FsEntry, path: &str, config: &Config, depth: u16) -> (r: Option<
        DocFolder,
    >)
        requires
            depth + fs_height(entry@) <= u16::MAX,
        ensures
            !(entry@.node is Dir) ==> r is None,
            match r {
                Some(f) => spec_build(entry@, path@, config@, depth) == Some(f@),
                None => entry@.node is Dir ==> spec_build(entry@, path@, config@, depth) is None,
            },
            r matches Some(f) ==> f.path@ == path@ && f.index@ == config@.index_name && (
            entry@.name.len() > 0 ==> f.title@.len() > 0),
        decreases fs_height(entry@), 0int,
    {
        let entries = match &entry.node {
            FsNode::File(_) => {
                return None;
            },
            FsNode::Dir(entries) => entries,
        };
        proof {
            lemma_dir_views(entries@);
        }
        let i = match find_index_entry(entries, config.index_name.as_str()) {
            None => {
                return None;
            },
            Some(i) => i,
        };
        let ie = &entries[i];
        let index_path = join_path(path, config.index_name.as_str());
        proof {
            assert(fs_height(entry@) >= 1);
        }
        let index_doc = match DocFile::from_path(ie, index_path.as_str(), config, depth + 1) {
            None => {
                return None;
            },
            Some(d) => d,
        };
        let title = if str_eq(index_doc.title.as_str(), config.index_name.as_str()) {
            entry.name.clone()
        } else {
            index_doc.title
        };

        let idxs = sort_indices(entries);
        let ghost sorted = spec_sort(views_of(entries@));
        let ghost d1 = (depth + 1) as u16;
        let mut children: Vec<DocStructure> = Vec::new();
        let mut j: usize = 0;
        while j < idxs.len()
            invariant
                j <= idxs@.len(),
                idxs@.len() == sorted.len(),
                forall|k: int| 0 <= k < idxs@.len() ==> idxs@[k] < entries@.len(),
                views_at(entries@, idxs@) == sorted,
                doc_views_of(children@) == spec_children(sorted, path@, config@, d1, j as int),
            decreases idxs@.len() - j,
        {
            let ghost pre = doc_views_of(children@);
            let idx = idxs[j];
            let child = &entries[idx];
            proof {
                assert(child@ == views_at(entries@, idxs@)[j as int]);
            }
            let excluded = str_eq(child.name.as_str(), config.index_name.as_str()) || str_eq(
                child.name.as_str(),
                "SUMMARY.md",
            );
            if !excluded {
                let qualifies = match &child.node {
                    FsNode::Dir(_) => true,
                    FsNode::File(_) => ends_with_md(child.name.as_str()),
                };
                if qualifies {
                    let child_path = join_path(path, child.name.as_str());
                    proof {
                        lemma_sort_membership(views_of(entries@));
                        assert(views_of(entries@).contains(sorted[j as int]));
                        lemma_contains_height(views_of(entries@), sorted[j as int]);
                    }
                    match DocStructure::from_path(child, child_path.as_str(), config, depth + 1) {
                        Some(n) => {
                            children.push(n);
                            proof {
                                assert(doc_views_of(children@) =~= pre.push(n@));
                            }
                        },
                        None => {},
                    }
                }
            }
            j = j + 1;
        }
        proof {
            assert(spec_children(sorted, path@, config@, d1, sorted.len() as int) == doc_views_of(
                children@,
            ));
        }
        Some(
            DocFolder::new(
                title,
                String::from_str(path),
                children,
                depth,
                config.index_name.clone(),
            ),
        )
    }
}

/// The error `relative_to` reports when some node's path is not rooted
/// under the given root.
#[derive(Debug, Clone, Copy, PartialEq, Eq)]
pub enum PathError {
    NotRooted,
}

/// The tree with every path rewritten relative to `root`, or nothing when
/// some node's path is not rooted there. Rewriting an already relative
/// tree fails rather than re-rooting it.
pub open spec fn spec_relativize(t: TreeView, root: Seq<char>) -> Option<TreeView>
    decreases t, 1int, 0int,
{
    match t {
        TreeView::File { title, path, depth } => match spec_strip(path, root) {
            None => None,
            Some(p) => Some(TreeView::File { title, path: p, depth }),
        },
        TreeView::Folder { title, path, children, depth, index } => match spec_strip(path, root) {
            None => None,
            Some(p) => match spec_rel_children(children, root, children.len() as int) {
                None => None,
                Some(cs) => Some(
                    TreeView::Folder { title, path: p, children: cs, depth, index },
                ),
            },
        },
    }
}

/// The first `n` children relativized, or nothing when any of them fails.
pub open spec fn spec_rel_children(s: Seq<TreeView>, root: Seq<char>, n: int) -> Option<
    Seq<TreeView>,
>
    decreases s, 0int, n,
{
    if n <= 0 || n > s.len() {
        Some(Seq::empty())
    } else {
        match (spec_rel_children(s, root, n - 1), spec_relativize(s[n - 1], root)) {
            (Some(cs), Some(c)) => Some(cs.push(c)),
            _ => None,
        }
    }
}

proof fn lemma_rel_children_none(s: Seq<TreeView>, root: Seq<char>, m: int, n: int)
    requires
        0 <= m <= n <= s.len(),
        spec_rel_children(s, root, m) is None,
    ensures
        spec_rel_children(s, root, n) is None,
    decreases n,
{
    if n > m {
        lemma_rel_children_none(s, root, m, n - 1);
    }
}

proof fn lemma_find_entry_none(entries: Seq<FsEntryView>, name: Seq<char>)
    requires
        forall|i: int| 0 <= i < entries.len() ==> entries[i].name != name,
    ensures
        find_entry(entries, name) is None,
    decreases entries.len(),
{
    if entries.len() > 0 {
        lemma_find_entry_none(entries.drop_first(), name);
    }
}

/// Index-gating: a directory without an entry named like the index file
/// contributes no node at all, whatever it contains.
pub proof fn lemma_missing_index_excluded(
    e: FsEntryView,
    entries: Seq<FsEntryView>,
    path: Seq<char>,
    cfg: ConfigView,
    depth: u16,
)
    requires
        e.node == FsNodeView::Dir(entries),
        forall|i: int| 0 <= i < entries.len() ==> entries[i].name != cfg.index_name,
    ensures
        spec_build(e, path, cfg, depth) is None,
{
    lemma_find_entry_none(entries, cfg.index_name);
}

/// Whether an entry contributes nothing to its parent's children.
pub open spec fn empty_contribution(
    x: FsEntryView,
    p: Seq<char>,
    cfg: ConfigView,
    depth: u16,
) -> bool {
    ||| x.name == cfg.index_name
    ||| x.name == "SUMMARY.md"@
    ||| (!(x.node is Dir) && !spec_ends_with_md(x.name))
    ||| spec_build(x, spec_join(p, x.name), cfg, depth) is None
}

proof fn lemma_children_drop_empty(
    s: Seq<FsEntryView>,
    p: Seq<char>,
    cfg: ConfigView,
    depth: u16,
    k: int,
    n: int,
)
    requires
        0 <= k < s.len(),
        empty_contribution(s[k], p, cfg, depth),
        0 <= n <= s.len(),
    ensures
        spec_children(s, p, cfg, depth, n) == spec_children(
            s.remove(k),
            p,
            cfg,
            depth,
            if n <= k {
                n
            } else {
                n - 1
            },
        ),
    decreases n,
{
    let r = s.remove(k);
    if n > 0 {
        lemma_children_drop_empty(s, p, cfg, depth, k, n - 1);
        if n - 1 < k {
            assert(r[n - 1] == s[n - 1]);
        } else if n - 1 > k {
            assert(r[n - 2] == s[n - 1]);
        }
    }
}

/// Index-gating seen from the output: a sibling directory that lacks its
/// index chapter leaves a folder's children exactly as they would be
/// were the directory not there at all — nothing for it or anything
/// under it reaches the rendering.
pub proof fn lemma_gated_directory_invisible(
    s: Seq<FsEntryView>,
    sub: Seq<FsEntryView>,
    p: Seq<char>,
    cfg: ConfigView,
    depth: u16,
    k: int,
)
    requires
        0 <= k < s.len(),
        s[k].node == FsNodeView::Dir(sub),
        forall|i: int| 0 <= i < sub.len() ==> sub[i].name != cfg.index_name,
    ensures
        spec_children(s, p, cfg, depth, s.len() as int) == spec_children(
            s.remove(k),
            p,
            cfg,
            depth,
            s.len() as int - 1,
        ),
{
    lemma_missing_index_excluded(s[k], sub, spec_join(p, s[k].name), cfg, depth);
    lemma_children_drop_empty(s, p, cfg, depth, k, s.len() as int);
}

/// Depth bookkeeping: the node carries the given depth, and every child
/// sits exactly one level below its parent.
pub open spec fn depth_consistent(t: TreeView, d: u16) -> bool
    decreases t, 1int, 0int,
{
    match t {
        TreeView::File { depth, .. } => depth == d,
        TreeView::Folder { depth, children, .. } => depth == d && depth_consistent_upto(
            children,
            (d + 1) as u16,
            children.len() as int,
        ),
    }
}

pub open spec fn depth_consistent_upto(s: Seq<TreeView>, d: u16, n: int) -> bool
    decreases s, 0int, n,
{
    if n <= 0 || n > s.len() {
        true
    } else {
        depth_consistent_upto(s, d, n - 1) && depth_consistent(s[n - 1], d)
    }
}

proof fn lemma_depth_upto_push(s: Seq<TreeView>, x: TreeView, d: u16, n: int)
    requires
        0 <= n <= s.len(),
    ensures
        depth_consistent_upto(s.push(x), d, n) == depth_consistent_upto(s, d, n),
    decreases n,
{
    if n > 0 {
        lemma_depth_upto_push(s, x, d, n - 1);
        assert(s.push(x)[n - 1] == s[n - 1]);
    }
}

proof fn lemma_build_depths(e: FsEntryView, p: Seq<char>, cfg: ConfigView, depth: u16)
    ensures
        match spec_build(e, p, cfg, depth) {
            Some(t) => depth_consistent(t, depth),
            None => true,
        },
    decreases fs_height(e), 0int, 0int,
{
    match e.node {
        FsNodeView::File(_) => {},
        FsNodeView::Dir(entries) => {
            lemma_sorted_height(entries);
            let sorted = spec_sort(entries);
            lemma_children_depths(sorted, p, cfg, (depth + 1) as u16, sorted.len() as int);
        },
    }
}

proof fn lemma_children_depths(
    s: Seq<FsEntryView>,
    p: Seq<char>,
    cfg: ConfigView,
    depth: u16,
    n: int,
)
    ensures
        ({
            let cs = spec_children(s, p, cfg, depth, n);
            depth_consistent_upto(cs, depth, cs.len() as int)
        }),
    decreases fs_height_seq(s, s.len() as int), 1int, n,
{
    if 0 < n <= s.len() {
        lemma_children_depths(s, p, cfg, depth, n - 1);
        let rest = spec_children(s, p, cfg, depth, n - 1);
        let x = s[n - 1];
        if x.name == cfg.index_name || x.name == "SUMMARY.md"@ {
        } else if !(x.node is Dir) && !spec_ends_with_md(x.name) {
        } else {
            crate::fsmodel::lemma_height_elem(s, s.len() as int, n - 1);
            lemma_build_depths(x, spec_join(p, x.name), cfg, depth);
            match spec_build(x, spec_join(p, x.name), cfg, depth) {
                None => {},
                Some(t) => {
                    lemma_depth_upto_push(rest, t, depth, rest.len() as int);
                },
            }
        }
    }
}

/// The tree invariant of discovery: the root node carries depth 0, and
/// all the way down every child's depth is its parent's plus one.
pub proof fn lemma_tree_depths(e: FsEntryView, src_path: Seq<char>, cfg: ConfigView, t: TreeView)
    requires
        spec_build(e, src_path, cfg, 0) == Some(t),
    ensures
        depth_consistent(t, 0),
{
    lemma_build_depths(e, src_path, cfg, 0);
}

proof fn lemma_rel_children_push(s: Seq<TreeView>, x: TreeView, root: Seq<char>, n: int)
    requires
        0 <= n <= s.len(),
    ensures
        spec_rel_children(s.push(x), root, n) == spec_rel_children(s, root, n),
    decreases n,
{
    if n > 0 {
        lemma_rel_children_push(s, x, root, n - 1);
        assert(s.push(x)[n - 1] == s[n - 1]);
    }
}

/// A path discovery could have built under `root`: the root itself, or
/// one whose strip leaves a nonempty remainder.
pub open spec fn root_extending(p: Seq<char>, root: Seq<char>) -> bool {
    p == root || (match spec_strip(p, root) {
        Some(q) => q.len() > 0,
        None => false,
    })
}

proof fn lemma_strip_extends(p: Seq<char>, root: Seq<char>, name: Seq<char>)
    requires
        root.len() > 0,
        root_extending(p, root),
        crate::fsmodel::clean_name(name),
    ensures
        spec_strip(spec_join(p, name), root) is Some,
        root_extending(spec_join(p, name), root),
{
    reveal_strlit("/");
    let j = spec_join(p, name);
    assert(p.len() >= root.len());
    assert(j == p + "/"@ + name);
    assert(j.len() > root.len() + 1);
    if p == root {
        assert(j.take(root.len() as int) =~= root);
        assert(j[root.len() as int] == '/');
        assert(j[root.len() as int + 1] == name[0]);
    } else {
        match spec_strip(p, root) {
            Some(q) => {
                assert(p.len() > root.len() + 1);
                assert(q[0] == p[root.len() as int + 1]);
                assert(j.take(root.len() as int) =~= p.take(root.len() as int));
                assert(j[root.len() as int] == p[root.len() as int]);
                assert(j[root.len() as int + 1] == p[root.len() as int + 1]);
            },
            None => {
                assert(false);
            },
        }
    }
}

proof fn lemma_built_relativizes(
    e: FsEntryView,
    p: Seq<char>,
    cfg: ConfigView,
    depth: u16,
    root: Seq<char>,
)
    requires
        root.len() > 0,
        root_extending(p, root),
        crate::fsmodel::clean_names(e),
    ensures
        match spec_build(e, p, cfg, depth) {
            Some(t) => spec_relativize(t, root) is Some,
            None => true,
        },
    decreases fs_height(e), 0int, 0int,
{
    assert(spec_strip(p, root) is Some);
    match e.node {
        FsNodeView::File(_) => {},
        FsNodeView::Dir(entries) => {
            lemma_sorted_height(entries);
            lemma_sort_membership(entries);
            let sorted = spec_sort(entries);
            assert forall|j: int| 0 <= j < sorted.len() implies crate::fsmodel::clean_name(
                sorted[j].name,
            ) && crate::fsmodel::clean_names(sorted[j]) by {
                assert(entries.contains(sorted[j]));
                let w = choose|w: int| 0 <= w < entries.len() && entries[w] == sorted[j];
                crate::fsmodel::lemma_clean_names_elem(entries, entries.len() as int, w);
            }
            lemma_children_relativize(
                sorted,
                p,
                cfg,
                (depth + 1) as u16,
                sorted.len() as int,
                root,
            );
        },
    }
}

proof fn lemma_children_relativize(
    s: Seq<FsEntryView>,
    p: Seq<char>,
    cfg: ConfigView,
    depth: u16,
    n: int,
    root: Seq<char>,
)
    requires
        root.len() > 0,
        root_extending(p, root),
        forall|j: int|
            0 <= j < s.len() ==> crate::fsmodel::clean_name(s[j].name)
                && crate::fsmodel::clean_names(s[j]),
    ensures
        ({
            let cs = spec_children(s, p, cfg, depth, n);
            spec_rel_children(cs, root, cs.len() as int) is Some
        }),
    decreases fs_height_seq(s, s.len() as int), 1int, n,
{
    if 0 < n <= s.len() {
        lemma_children_relativize(s, p, cfg, depth, n - 1, root);
        let rest = spec_children(s, p, cfg, depth, n - 1);
        let x = s[n - 1];
        if x.name == cfg.index_name || x.name == "SUMMARY.md"@ {
        } else if !(x.node is Dir) && !spec_ends_with_md(x.name) {
        } else {
            crate::fsmodel::lemma_height_elem(s, s.len() as int, n - 1);
            lemma_strip_extends(p, root, x.name);
            lemma_built_relativizes(x, spec_join(p, x.name), cfg, depth, root);
            match spec_build(x, spec_join(p, x.name), cfg, depth) {
                None => {},
                Some(t) => {
                    lemma_rel_children_push(rest, t, root, rest.len() as int);
                },
            }
        }
    }
}

/// Every tree discovery builds relativizes cleanly: each path it put in
/// the tree extends the path discovery started from. The snapshot's
/// names must be real entry names — nonempty, with no leading separator.
pub proof fn lemma_built_tree_relativizes(
    e: FsEntryView,
    src_path: Seq<char>,
    cfg: ConfigView,
    t: TreeView,
)
    requires
        src_path.len() > 0,
        crate::fsmodel::clean_names(e),
        spec_build(e, src_path, cfg, 0) == Some(t),
    ensures
        spec_relativize(t, src_path) is Some,
{
    lemma_built_relativizes(e, src_path, cfg, 0, src_path);
}

/// Relativization is one-way: under an absolute root, a tree that one
/// call has already rewritten is refused by the next, never silently
/// re-rooted.
pub proof fn lemma_relativize_once(t: TreeView, t2: TreeView, root: Seq<char>)
    requires
        root.len() > 0,
        root[0] == '/',
        spec_relativize(t, root) == Some(t2),
    ensures
        spec_relativize(t2, root) is None,
{
    match t {
        TreeView::File { path, .. } => {
            crate::strutil::lemma_strip_one_way(path, root);
        },
        TreeView::Folder { path, .. } => {
            crate::strutil::lemma_strip_one_way(path, root);
        },
    }
}

impl DocStructure {
    /// A copy of this tree with every path rewritten relative to `root`,
    /// or nothing when some node's path is not rooted there.
    #[verifier::loop_isolation(false)]
    pub fn relativized(&self, root: &str) -> (r: Option<DocStructure>)
        ensures
            match r {
                Some(n) => spec_relativize(self@, root@) == Some(n@),
                None => spec_relativize(self@, root@) is None,
            },
        decreases *self,
    {
        match self {
            DocStructure::File(f) => match strip_path_prefix(f.path.as_str(), root) {
                None => None,
                Some(p) => Some(DocStructure::File(DocFile::new(f.title.clone(), p, f.depth))),
            },
            DocStructure::Folder(f) => {
                let p = match strip_path_prefix(f.path.as_str(), root) {
                    None => {
                        return None;
                    },
                    Some(p) => p,
                };
                let ghost cvs = doc_views_of(f.children@);
                proof {
                    lemma_doc_children_views(f.children@);
                }
                let mut new_children: Vec<DocStructure> = Vec::new();
                let mut i: usize = 0;
                while i < f.children.len()
                    invariant
                        i <= f.children@.len(),
                        spec_rel_children(cvs, root@, i as int) == Some(
                            doc_views_of(new_children@),
                        ),
                    decreases f.children@.len() - i,
                {
                    let ghost pre = doc_views_of(new_children@);
                    let child = &f.children[i];
                    proof {
                        assert(child@ == cvs[i as int]);
                    }
                    match child.relativized(root) {
                        None => {
                            proof {
                                lemma_rel_children_none(
                                    cvs,
                                    root@,
                                    i as int + 1,
                                    cvs.len() as int,
                                );
                            }
                            return None;
                        },
                        Some(c) => {
                            new_children.push(c);
                            proof {
                                assert(doc_views_of(new_children@) =~= pre.push(c@));
                            }
                        },
                    }
                    i = i + 1;
                }
                Some(
                    DocStructure::Folder(
                        DocFolder::new(
                            f.title.clone(),
                            p,
                            new_children,
                            f.depth,
                            f.index.clone(),
                        ),
                    ),
                )
            },
        }
    }

    /// Rewrite every contained path to be relative to `root`, in place.
    /// On failure the tree is left untouched and the error is reported.
    pub fn relative_to(&mut self, root: &str) -> (r: Result<(), PathError>)
        ensures
            match r {
                Ok(_) => spec_relativize(old(self)@, root@) == Some(final(self)@),
                Err(_) => spec_relativize(old(self)@, root@) is None && *final(self) == *old(
                    self,
                ),
            },
    {
        match self.relativized(root) {
            Some(t) => {
                *self = t;
                Ok(())
            },
            None => Err(PathError::NotRooted),
        }
    }

    /// Discover the whole tree from the source root's snapshot entry.
    pub fn from_src(src: &FsEntry, src_path: &str, config: &Config) -> (r: Option<DocStructure>)
        requires
            fs_height(src@) <= u16::MAX,
        ensures
            match r {
                Some(n) => spec_build(src@, src_path@, config@, 0) == Some(n@),
                None => spec_build(src@, src_path@, config@, 0) is None,
            },
    {
        Self::from_path(src, src_path, config, 0)
    }

    /// Discover the tree below one snapshot entry, sitting at the given
    /// depth under the source root.
    pub fn from_path(entry: &FsEntry, path: &str, config: &Config, depth: u16) -> (r: Option<
        DocStructure,
    >)
        requires
            depth + fs_height(entry@) <= u16::MAX,
        ensures
            match r {
                Some(n) => spec_build(entry@, path@, config@, depth) == Some(n@),
                None => spec_build(entry@, path@, config@, depth) is None,
            },
        decreases fs_height(entry@), 1int,
    {
        match &entry.node {
            FsNode::Dir(_) => match DocFolder::from_path(entry, path, config, depth) {
                Some(f) => Some(DocStructure::Folder(f)),
                None => None,
            },
            FsNode::File(_) => match DocFile::from_path(entry, path, config, depth) {
                Some(f) => Some(DocStructure::File(f)),
                None => None,
            },
        }
    }
}

} // verus!
