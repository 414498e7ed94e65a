pub mod config;
pub mod fsmodel;
pub mod parser;
pub mod render;
pub mod strutil;
pub mod title;

use vstd::prelude::*;

use sha2::Digest;

use crate::config::{Config, ConfigView};
use crate::fsmodel::{fs_height, FsEntry, FsEntryView};
use crate::parser::{spec_build, spec_relativize, DocStructure};
use crate::render::spec_render;
use crate::title::{trim_end_spec, trim_end_str};

verus! {

/// Names the digest that SHA-256 assigns to a text. Two texts carry equal
/// fingerprints exactly when SHA-256 maps them to the same digest;
/// nothing more is assumed of the function.
pub uninterp spec fn fingerprint_of(s: Seq<char>) -> Seq<u8>;

/// Relies on sha2's `Sha256` through its `Digest` trait: a one-shot
/// digest over the text's bytes. The digest depends on the input text
/// alone, which is all this contract states of it.
#[verifier::external_body]
fn sha256_of(s: &str) -> (r: Vec<u8>)
    ensures
        r@ == fingerprint_of(s@),
{
    sha2::Sha256::digest(s.as_bytes()).to_vec()
}

fn bytes_eq(a: &Vec<u8>, b: &Vec<u8>) -> (r: bool)
    ensures
        r == (a@ == b@),
{
    if a.len() != b.len() {
        return false;
    }
    let mut i: usize = 0;
    while i < a.len()
        invariant
            i <= a@.len(),
            a@.len() == b@.len(),
            forall|j: int| 0 <= j < i ==> a@[j] == b@[j],
        decreases a@.len() - i,
    {
        if a[i] != b[i] {
            return false;
        }
        i = i + 1;
    }
    proof {
        assert(a@ =~= b@);
    }
    true
}

/// Whether a freshly generated summary must be written: always when no
/// summary exists yet, and otherwise exactly when the existing text's
/// fingerprint differs from the fresh text's.
pub open spec fn spec_should_write(generated: Seq<char>, existing: Option<Seq<char>>) -> bool {
    match existing {
        None => true,
        Some(e) => fingerprint_of(e) != fingerprint_of(generated),
    }
}

pub open spec fn opt_content_view(existing: Option<&String>) -> Option<Seq<char>> {
    match existing {
        Some(s) => Some(s@),
        None => None,
    }
}

/// The skip-if-unchanged decision: compare fingerprints of the fresh text
/// and of the existing summary, if one is there.
pub fn should_write(generated: &str, existing: Option<&String>) -> (r: bool)
    ensures
        r == spec_should_write(generated@, opt_content_view(existing)),
{
    match existing {
        None => true,
        Some(e) => {
            let gh = sha256_of(generated);
            let eh = sha256_of(e.as_str());
            !bytes_eq(&eh, &gh)
        },
    }
}

/// The complete summary text for a snapshot: the disclaimer header, a
/// blank line, then the rendered tree with trailing whitespace trimmed
/// and exactly one closing line break — or nothing when the root earns no
/// node or some discovered path is not rooted under the source path.
pub open spec fn spec_summary(src: FsEntryView, src_path: Seq<char>, cfg: ConfigView) -> Option<
    Seq<char>,
> {
    match spec_build(src, src_path, cfg, 0) {
        None => None,
        Some(t) => match spec_relativize(t, src_path) {
            None => None,
            Some(rt) => Some(
                "<!-- Generated by mdbook-autosummary v0.1.0 - do not edit manually! -->\n\n"@
                    + trim_end_spec(spec_render(rt)) + "\n"@,
            ),
        },
    }
}

/// The summary generator: it discovers the document tree from a snapshot
/// of the source directory, rewrites its paths relative to the root,
/// renders it, and decides whether the result must be written.
pub struct AutoSummary;

impl AutoSummary {
    pub fn new() -> AutoSummary {
        AutoSummary
    }

    /// Generate the summary text for a source snapshot rooted at
    /// `src_path`. Nothing comes back when the root directory has no
    /// qualifying index chapter, the fatal condition the caller reports;
    /// for a nonempty source path that is the only such case
    /// (`lemma_summary_iff_root_qualifies`).
    pub fn gen_summary(&self, src: &FsEntry, src_path: &str, config: &Config) -> (r: Option<
        String,
    >)
        requires
            fs_height(src@) <= u16::MAX,
        ensures
            match r {
                Some(s) => spec_summary(src@, src_path@, config@) == Some(s@),
                None => spec_summary(src@, src_path@, config@) is None,
            },
    {
        let mut doc = match DocStructure::from_src(src, src_path, config) {
            None => {
                return None;
            },
            Some(d) => d,
        };
        match doc.relative_to(src_path) {
            Err(_) => None,
            Ok(_) => {
                let rendered = doc.render();
                let trimmed = trim_end_str(rendered.as_str());
                let mut out = String::from_str(
                    "<!-- Generated by mdbook-autosummary v0.1.0 - do not edit manually! -->\n\n",
                );
                out.append(trimmed.as_str());
                out.append("\n");
                Some(out)
            },
        }
    }
}

/// The one fatal gate: for a nonempty source path and a snapshot with
/// real entry names, the pipeline produces a summary exactly when the
/// source root itself earns a node — a root without its qualifying index
/// chapter is the only way to come away empty.
pub proof fn lemma_summary_iff_root_qualifies(
    src: FsEntryView,
    src_path: Seq<char>,
    cfg: ConfigView,
)
    requires
        src_path.len() > 0,
        crate::fsmodel::clean_names(src),
    ensures
        (spec_summary(src, src_path, cfg) is Some) <==> (spec_build(src, src_path, cfg, 0)
            is Some),
{
    match spec_build(src, src_path, cfg, 0) {
        Some(t) => {
            crate::parser::lemma_built_tree_relativizes(src, src_path, cfg, t);
        },
        None => {},
    }
}

/// Determinism: the summary is a function of the snapshot, the source
/// path and the configuration alone, so two runs over the same inputs
/// yield byte-identical output.
pub proof fn lemma_summary_deterministic(
    a: FsEntryView,
    b: FsEntryView,
    src_path: Seq<char>,
    cfg: ConfigView,
)
    requires
        a == b,
    ensures
        spec_summary(a, src_path, cfg) == spec_summary(b, src_path, cfg),
{
}

/// Idempotence: once a run has written its summary, a second run over an
/// unchanged snapshot generates the same text, its fingerprint matches
/// the one on disk, and no second write happens.
pub proof fn lemma_second_run_skips(
    src: FsEntryView,
    src_path: Seq<char>,
    cfg: ConfigView,
    g: Seq<char>,
)
    requires
        spec_summary(src, src_path, cfg) == Some(g),
    ensures
        !spec_should_write(g, Some(g)),
{
}

} // verus!
