use vstd::prelude::*;

use crate::config::ConfigView;
use crate::fsmodel::{FsEntryView, FsNodeView};
use crate::parser::{doc_views_of, lemma_doc_children_views, lemma_gated_directory_invisible,
    spec_children, DocFile, DocFolder, DocStructure, TreeView};
use crate::strutil::{join_path, spaces, spec_join, spec_spaces};

verus! {

broadcast use vstd::seq::axiom_seq_index_decreases, vstd::std_specs::vec::group_vec_axioms;

/// An unindented link line, the form the root folder and top-level
/// chapters take.
pub open spec fn spec_plain_line(title: Seq<char>, target: Seq<char>) -> Seq<char> {
    "["@ + title + "]("@ + target + ")\n"@
}

/// A list-item line at the given depth: 2·(depth−1) spaces, a dash, then
/// the link.
pub open spec fn spec_bullet_line(title: Seq<char>, target: Seq<char>, depth: u16) -> Seq<char> {
    spec_spaces((2 * (depth - 1)) as nat) + "- ["@ + title + "]("@ + target + ")\n"@
}

/// The line a folder renders as: its link points at its index chapter,
/// unindented for the root, a list item below it.
pub open spec fn spec_folder_line(
    title: Seq<char>,
    path: Seq<char>,
    index: Seq<char>,
    depth: u16,
) -> Seq<char> {
    if depth == 0 {
        spec_plain_line(title, spec_join(path, index))
    } else {
        spec_bullet_line(title, spec_join(path, index), depth)
    }
}

/// The line a chapter renders as: unindented beside the root at depth 0
/// or 1, a list item below that.
pub open spec fn spec_file_line(title: Seq<char>, path: Seq<char>, depth: u16) -> Seq<char> {
    if depth <= 1 {
        spec_plain_line(title, path)
    } else {
        spec_bullet_line(title, path, depth)
    }
}

/// The canonical text of a tree node: its own line, then its chapter
/// children in order, then its folder children in order.
pub open spec fn spec_render(t: TreeView) -> Seq<char>
    decreases t, 1int, 0int,
{
    match t {
        TreeView::File { title, path, depth } => spec_file_line(title, path, depth),
        TreeView::Folder { title, path, children, depth, index } => spec_folder_line(
            title,
            path,
            index,
            depth,
        ) + spec_render_files(children, children.len() as int) + spec_render_folders(
            children,
            children.len() as int,
        ),
    }
}

/// The renderings of the chapters among the first `n` children, in order.
pub open spec fn spec_render_files(s: Seq<TreeView>, n: int) -> Seq<char>
    decreases s, 0int, n,
{
    if n <= 0 || n > s.len() {
        Seq::empty()
    } else {
        spec_render_files(s, n - 1) + (if s[n - 1] is File {
            spec_render(s[n - 1])
        } else {
            Seq::empty()
        })
    }
}

/// The renderings of the folders among the first `n` children, in order.
pub open spec fn spec_render_folders(s: Seq<TreeView>, n: int) -> Seq<char>
    decreases s, 0int, n,
{
    if n <= 0 || n > s.len() {
        Seq::empty()
    } else {
        spec_render_folders(s, n - 1) + (if s[n - 1] is Folder {
            spec_render(s[n - 1])
        } else {
            Seq::empty()
        })
    }
}

/// Ordering: a folder's rendering decomposes into its own line, then all
/// its chapter children's renderings in discovery order, then all its
/// folder children's — so every sibling chapter line stands before every
/// sibling subfolder line, whatever order discovery found them in.
pub proof fn lemma_files_before_folders(
    title: Seq<char>,
    path: Seq<char>,
    children: Seq<TreeView>,
    depth: u16,
    index: Seq<char>,
)
    ensures
        spec_render((TreeView::Folder { title, path, children, depth, index }))
            == spec_folder_line(title, path, index, depth) + spec_render_files(
            children,
            children.len() as int,
        ) + spec_render_folders(children, children.len() as int),
{
}

/// Depth rendering: a chapter at depth 0 or 1 renders as a bare link line
/// with no indentation and no list marker; a deeper chapter renders as a
/// list item behind exactly 2·(depth−1) leading spaces.
pub proof fn lemma_chapter_indentation(title: Seq<char>, path: Seq<char>, depth: u16)
    ensures
        depth <= 1 ==> spec_render((TreeView::File { title, path, depth })) == spec_plain_line(
            title,
            path,
        ),
        depth > 1 ==> spec_render((TreeView::File { title, path, depth })) == spec_spaces(
            (2 * (depth - 1)) as nat,
        ) + "- ["@ + title + "]("@ + path + ")\n"@,
        depth == 3 ==> spec_render((TreeView::File { title, path, depth })) == spec_spaces(4)
            + "- ["@ + title + "]("@ + path + ")\n"@,
{
}

/// Index-gating reaches the text: a folder whose listing holds a
/// directory without its index chapter renders to the very bytes it
/// renders to with that directory dropped from the listing — no line for
/// the directory or for anything under it is ever emitted.
pub proof fn lemma_gated_directory_absent_from_text(
    title: Seq<char>,
    path: Seq<char>,
    index: Seq<char>,
    depth: u16,
    s: Seq<FsEntryView>,
    sub: Seq<FsEntryView>,
    cfg: ConfigView,
    cdepth: u16,
    k: int,
)
    requires
        0 <= k < s.len(),
        s[k].node == FsNodeView::Dir(sub),
        forall|i: int| 0 <= i < sub.len() ==> sub[i].name != cfg.index_name,
    ensures
        spec_render(
            (TreeView::Folder {
                title,
                path,
                children: spec_children(s, path, cfg, cdepth, s.len() as int),
                depth,
                index,
            }),
        ) == spec_render(
            (TreeView::Folder {
                title,
                path,
                children: spec_children(s.remove(k), path, cfg, cdepth, s.len() as int - 1),
                depth,
                index,
            }),
        ),
{
    lemma_gated_directory_invisible(s, sub, path, cfg, cdepth, k);
}

fn render_line(title: &str, target: &str, plain: bool, depth: u16) -> (r: String)
    requires
        plain || depth >= 1,
    ensures
        plain ==> r@ == spec_plain_line(title@, target@),
        !plain ==> r@ == spec_bullet_line(title@, target@, depth),
{
    let mut s = if plain {
        let mut t = String::new();
        t.append("[");
        t
    } else {
        let mut t = spaces(2 * ((depth - 1) as usize));
        t.append("- [");
        t
    };
    s.append(title);
    s.append("](");
    s.append(target);
    s.append(")\n");
    s
}

impl DocFile {
    /// The single line this chapter renders as.
    pub fn render(&self) -> (r: String)
        ensures
            r@ == spec_render(self@),
    {
        render_line(self.title.as_str(), self.path.as_str(), self.depth <= 1, self.depth)
    }
}

impl DocFolder {
    /// The text this folder renders as: its own line, then its chapter
    /// children, then its folder children.
    #[verifier::loop_isolation(false)]
    pub fn render(&self) -> (r: String)
        ensures
            r@ == spec_render(self@),
        decreases *self, 0int,
    {
        let target = join_path(self.path.as_str(), self.index.as_str());
        let mut s = render_line(
            self.title.as_str(),
            target.as_str(),
            self.depth == 0,
            self.depth,
        );
        proof {
            lemma_doc_children_views(self.children@);
        }
        let ghost cvs = doc_views_of(self.children@);
        let ghost line = s@;
        let n = self.children.len();
        let mut i: usize = 0;
        proof {
            assert(s@ =~= line + spec_render_files(cvs, 0));
        }
        while i < n
            invariant
                i <= n,
                s@ == line + spec_render_files(cvs, i as int),
            decreases n - i,
        {
            let child = &self.children[i];
            proof {
                assert(child@ == cvs[i as int]);
            }
            match child {
                DocStructure::File(_) => {
                    let cr = child.render();
                    s.append(cr.as_str());
                },
                DocStructure::Folder(_) => {},
            }
            proof {
                assert(s@ =~= line + spec_render_files(cvs, i as int + 1));
            }
            i = i + 1;
        }
        let ghost mid = s@;
        let mut j: usize = 0;
        proof {
            assert(s@ =~= mid + spec_render_folders(cvs, 0));
        }
        while j < n
            invariant
                j <= n,
                s@ == mid + spec_render_folders(cvs, j as int),
            decreases n - j,
        {
            let child = &self.children[j];
            proof {
                assert(child@ == cvs[j as int]);
            }
            match child {
                DocStructure::Folder(_) => {
                    let cr = child.render();
                    s.append(cr.as_str());
                },
                DocStructure::File(_) => {},
            }
            proof {
                assert(s@ =~= mid + spec_render_folders(cvs, j as int + 1));
            }
            j = j + 1;
        }
        s
    }
}

impl DocStructure {
    /// The canonical text of this node.
    pub fn render(&self) -> (r: String)
        ensures
            r@ == spec_render(self@),
        decreases *self, 1int,
    {
        match self {
            DocStructure::Folder(f) => f.render(),
            DocStructure::File(f) => f.render(),
        }
    }
}

} // verus!
