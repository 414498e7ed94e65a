use vstd::prelude::*;

use crate::strutil::{lex_le, str_le};

verus! {

broadcast use vstd::seq::axiom_seq_index_decreases, vstd::std_specs::vec::group_vec_axioms;

/// One entry of the directory snapshot that discovery walks: a name
/// together with what the entry is. The snapshot is plain data; whoever
/// produces it reads the real directory tree and hands the result over.
pub struct FsEntry {
    pub name: String,
    pub node: FsNode,
}

/// What an entry is: a directory with its own direct entries, or a file
/// whose text is given line by line (`None` when the file could not be
/// opened).
pub enum FsNode {
    Dir(Vec<FsEntry>),
    File(Option<Vec<String>>),
}

/// The mathematical shape of an entry, with names and lines as character
/// sequences.
pub struct FsEntryView {
    pub name: Seq<char>,
    pub node: FsNodeView,
}

pub enum FsNodeView {
    Dir(Seq<FsEntryView>),
    File(Option<Seq<Seq<char>>>),
}

pub open spec fn fs_entry_view(e: FsEntry) -> FsEntryView
    decreases e, 1int, 0int,
{
    FsEntryView {
        name: e.name@,
        node: match e.node {
            FsNode::Dir(entries) => FsNodeView::Dir(
                fs_views_upto(entries@, entries@.len() as int),
            ),
            FsNode::File(content) => FsNodeView::File(
                match content {
                    Some(lines) => Some(lines.deep_view()),
                    None => None,
                },
            ),
        },
    }
}

/// The views of the first `n` entries of a sequence, in order.
pub open spec fn fs_views_upto(es: Seq<FsEntry>, n: int) -> Seq<FsEntryView>
    decreases es, 0int, n,
{
    if n <= 0 || n > es.len() {
        Seq::empty()
    } else {
        fs_views_upto(es, n - 1).push(fs_entry_view(es[n - 1]))
    }
}

proof fn lemma_fs_views_upto(es: Seq<FsEntry>, n: int)
    requires
        0 <= n <= es.len(),
    ensures
        fs_views_upto(es, n) == views_of(es).take(n),
    decreases n,
{
    if n == 0 {
        assert(fs_views_upto(es, n) =~= views_of(es).take(n));
    } else {
        lemma_fs_views_upto(es, n - 1);
        assert(fs_views_upto(es, n) =~= views_of(es).take(n));
    }
}

/// The children field of a directory's view holds exactly the views of its
/// entries, in order.
pub proof fn lemma_dir_views(es: Seq<FsEntry>)
    ensures
        fs_views_upto(es, es.len() as int) == views_of(es),
{
    lemma_fs_views_upto(es, es.len() as int);
    assert(views_of(es).take(es.len() as int) =~= views_of(es));
}

impl View for FsEntry {
    type V = FsEntryView;

    open spec fn view(&self) -> FsEntryView {
        fs_entry_view(*self)
    }
}

/// The height of an entry: 1 for a file, one more than the tallest child
/// for a directory. It bounds how far discovery can descend.
pub open spec fn fs_height(e: FsEntryView) -> nat
    decreases e, 1int, 0int,
{
    match e.node {
        FsNodeView::File(_) => 1,
        FsNodeView::Dir(entries) => 1 + fs_height_seq(entries, entries.len() as int),
    }
}

/// The tallest among the first `n` entries of a sequence.
pub open spec fn fs_height_seq(entries: Seq<FsEntryView>, n: int) -> nat
    decreases entries, 0int, n,
{
    if n <= 0 || n > entries.len() {
        0
    } else {
        let h = fs_height(entries[n - 1]);
        let r = fs_height_seq(entries, n - 1);
        if h > r {
            h
        } else {
            r
        }
    }
}

pub proof fn lemma_height_elem(entries: Seq<FsEntryView>, n: int, i: int)
    requires
        0 <= i < n <= entries.len(),
    ensures
        fs_height(entries[i]) <= fs_height_seq(entries, n),
    decreases n,
{
    if i < n - 1 {
        lemma_height_elem(entries, n - 1, i);
    }
}

/// Sorted insertion by name, the order `sort_indices` establishes.
pub open spec fn spec_insert(x: FsEntryView, s: Seq<FsEntryView>) -> Seq<FsEntryView>
    decreases s.len(),
{
    if s.len() == 0 {
        seq![x]
    } else if lex_le(x.name, s[0].name) {
        seq![x] + s
    } else {
        seq![s[0]] + spec_insert(x, s.drop_first())
    }
}

/// The entries of a directory listing in case-sensitive lexicographic
/// order of their names, equal names keeping their relative order.
pub open spec fn spec_sort(s: Seq<FsEntryView>) -> Seq<FsEntryView>
    decreases s.len(),
{
    if s.len() == 0 {
        s
    } else {
        spec_insert(s[0], spec_sort(s.drop_first()))
    }
}

pub proof fn lemma_insert_membership(x: FsEntryView, s: Seq<FsEntryView>)
    ensures
        spec_insert(x, s).len() == s.len() + 1,
        forall|j: int|
            0 <= j < spec_insert(x, s).len() ==> spec_insert(x, s)[j] == x || s.contains(
                spec_insert(x, s)[j],
            ),
    decreases s.len(),
{
    if s.len() == 0 {
    } else if lex_le(x.name, s[0].name) {
        assert forall|j: int| 0 <= j < spec_insert(x, s).len() implies spec_insert(x, s)[j] == x
            || s.contains(spec_insert(x, s)[j]) by {
            if j > 0 {
                assert(spec_insert(x, s)[j] == s[j - 1]);
            }
        }
    } else {
        lemma_insert_membership(x, s.drop_first());
        assert forall|j: int| 0 <= j < spec_insert(x, s).len() implies spec_insert(x, s)[j] == x
            || s.contains(spec_insert(x, s)[j]) by {
            let t = spec_insert(x, s.drop_first());
            if j == 0 {
                assert(spec_insert(x, s)[0] == s[0]);
                assert(s.contains(s[0]));
            } else {
                assert(spec_insert(x, s)[j] == t[j - 1]);
                if t[j - 1] != x {
                    let w = choose|w: int|
                        0 <= w < s.drop_first().len() && s.drop_first()[w] == t[j - 1];
                    assert(s[w + 1] == t[j - 1]);
                }
            }
        }
    }
}

pub proof fn lemma_sort_membership(s: Seq<FsEntryView>)
    ensures
        spec_sort(s).len() == s.len(),
        forall|j: int| 0 <= j < spec_sort(s).len() ==> s.contains(spec_sort(s)[j]),
    decreases s.len(),
{
    if s.len() > 0 {
        lemma_sort_membership(s.drop_first());
        lemma_insert_membership(s[0], spec_sort(s.drop_first()));
        assert forall|j: int| 0 <= j < spec_sort(s).len() implies s.contains(spec_sort(s)[j]) by {
            let v = spec_sort(s)[j];
            if v == s[0] {
                assert(s.contains(s[0]));
            } else {
                assert(spec_sort(s.drop_first()).contains(v));
                let w = choose|w: int|
                    0 <= w < spec_sort(s.drop_first()).len() && spec_sort(s.drop_first())[w] == v;
                let u = choose|u: int|
                    0 <= u < s.drop_first().len() && s.drop_first()[u] == spec_sort(
                        s.drop_first(),
                    )[w];
                assert(s[u + 1] == v);
            }
        }
    }
}

/// An entry name as a real directory produces it: nonempty, and never
/// beginning with a path separator.
pub open spec fn clean_name(n: Seq<char>) -> bool {
    n.len() > 0 && n[0] != '/'
}

/// Every name in the snapshot, all the way down, is a clean entry name.
pub open spec fn clean_names(e: FsEntryView) -> bool
    decreases e, 1int, 0int,
{
    match e.node {
        FsNodeView::File(_) => true,
        FsNodeView::Dir(entries) => clean_names_upto(entries, entries.len() as int),
    }
}

pub open spec fn clean_names_upto(s: Seq<FsEntryView>, n: int) -> bool
    decreases s, 0int, n,
{
    if n <= 0 || n > s.len() {
        true
    } else {
        clean_names_upto(s, n - 1) && clean_name(s[n - 1].name) && clean_names(s[n - 1])
    }
}

pub proof fn lemma_clean_names_elem(s: Seq<FsEntryView>, n: int, i: int)
    requires
        0 <= i < n <= s.len(),
        clean_names_upto(s, n),
    ensures
        clean_name(s[i].name),
        clean_names(s[i]),
    decreases n,
{
    if i < n - 1 {
        lemma_clean_names_elem(s, n - 1, i);
    }
}

/// Names come in order: each entry's name sorts no later than any later
/// entry's.
pub open spec fn sorted_by_name(s: Seq<FsEntryView>) -> bool {
    forall|i: int, j: int| 0 <= i < j < s.len() ==> lex_le(s[i].name, s[j].name)
}

proof fn lemma_insert_keeps_sorted(x: FsEntryView, s: Seq<FsEntryView>)
    requires
        sorted_by_name(s),
    ensures
        sorted_by_name(spec_insert(x, s)),
        spec_insert(x, s).to_multiset() == s.to_multiset().insert(x),
    decreases s.len(),
{
    broadcast use vstd::seq_lib::group_to_multiset_ensures, vstd::multiset::group_multiset_axioms;

    let r = spec_insert(x, s);
    if s.len() == 0 {
        assert(seq![x] =~= Seq::<FsEntryView>::empty().push(x));
        assert(r.to_multiset() =~= s.to_multiset().insert(x));
    } else if lex_le(x.name, s[0].name) {
        assert forall|i: int, j: int| 0 <= i < j < r.len() implies lex_le(
            r[i].name,
            r[j].name,
        ) by {
            if i == 0 && j > 1 {
                crate::strutil::lemma_lex_le_trans(x.name, s[0].name, s[j - 1].name);
            }
        }
        vstd::seq_lib::lemma_multiset_commutative(seq![x], s);
        assert(seq![x] =~= Seq::<FsEntryView>::empty().push(x));
        assert(r.to_multiset() =~= s.to_multiset().insert(x));
    } else {
        let d = s.drop_first();
        assert(sorted_by_name(d)) by {
            assert forall|i: int, j: int| 0 <= i < j < d.len() implies lex_le(
                d[i].name,
                d[j].name,
            ) by {
                assert(d[i] == s[i + 1] && d[j] == s[j + 1]);
            }
        }
        lemma_insert_keeps_sorted(x, d);
        lemma_insert_membership(x, d);
        let t = spec_insert(x, d);
        assert forall|k: int| 0 <= k < t.len() implies lex_le(s[0].name, t[k].name) by {
            if t[k] == x {
                crate::strutil::lemma_lex_le_total(x.name, s[0].name);
            } else {
                let w = choose|w: int| 0 <= w < d.len() && d[w] == t[k];
                assert(s[w + 1] == t[k]);
            }
        }
        assert forall|i: int, j: int| 0 <= i < j < r.len() implies lex_le(
            r[i].name,
            r[j].name,
        ) by {
            if i > 0 {
                assert(r[i] == t[i - 1] && r[j] == t[j - 1]);
            }
        }
        vstd::seq_lib::lemma_multiset_commutative(seq![s[0]], t);
        vstd::seq_lib::lemma_multiset_commutative(seq![s[0]], d);
        assert(s =~= seq![s[0]] + d);
        assert(seq![s[0]] =~= Seq::<FsEntryView>::empty().push(s[0]));
        assert(r.to_multiset() =~= s.to_multiset().insert(x));
    }
}

/// The arrangement discovery walks a directory in is truly the sorted
/// one: ordered by name, and made of exactly the directory's entries.
pub proof fn lemma_sort_sorted(s: Seq<FsEntryView>)
    ensures
        sorted_by_name(spec_sort(s)),
        spec_sort(s).to_multiset() == s.to_multiset(),
    decreases s.len(),
{
    broadcast use vstd::seq_lib::group_to_multiset_ensures, vstd::multiset::group_multiset_axioms;

    if s.len() > 0 {
        let d = s.drop_first();
        lemma_sort_sorted(d);
        lemma_insert_keeps_sorted(s[0], spec_sort(d));
        vstd::seq_lib::lemma_multiset_commutative(seq![s[0]], d);
        assert(s =~= seq![s[0]] + d);
        assert(seq![s[0]] =~= Seq::<FsEntryView>::empty().push(s[0]));
        assert(spec_sort(s).to_multiset() =~= s.to_multiset());
    }
}

pub proof fn lemma_contains_height(s: Seq<FsEntryView>, x: FsEntryView)
    requires
        s.contains(x),
    ensures
        fs_height(x) <= fs_height_seq(s, s.len() as int),
{
    let i = choose|i: int| 0 <= i < s.len() && s[i] == x;
    lemma_height_elem(s, s.len() as int, i);
}

pub proof fn lemma_height_seq_le(a: Seq<FsEntryView>, b: Seq<FsEntryView>, n: int)
    requires
        0 <= n <= a.len(),
        forall|j: int| 0 <= j < a.len() ==> b.contains(a[j]),
    ensures
        fs_height_seq(a, n) <= fs_height_seq(b, b.len() as int),
    decreases n,
{
    if n > 0 {
        lemma_height_seq_le(a, b, n - 1);
        lemma_contains_height(b, a[n - 1]);
    }
}

/// Sorting a directory listing never makes it taller: its entries are the
/// same ones.
pub proof fn lemma_sorted_height(entries: Seq<FsEntryView>)
    ensures
        fs_height_seq(spec_sort(entries), spec_sort(entries).len() as int) <= fs_height_seq(
            entries,
            entries.len() as int,
        ),
{
    lemma_sort_membership(entries);
    lemma_height_seq_le(spec_sort(entries), entries, spec_sort(entries).len() as int);
}

impl FsEntry {
    /// The entry's height, when it fits the depth counter; callers use it
    /// to test that discovery can number every level.
    #[verifier::loop_isolation(false)]
    pub fn height_capped(&self) -> (r: Option<u16>)
        ensures
            match r {
                Some(h) => fs_height(self@) == h,
                None => fs_height(self@) > u16::MAX,
            },
        decreases *self, 1int,
    {
        match &self.node {
            FsNode::File(_) => Some(1),
            FsNode::Dir(entries) => {
                proof {
                    lemma_dir_views(entries@);
                }
                let ghost evs = views_of(entries@);
                let mut m: u16 = 0;
                let mut i: usize = 0;
                while i < entries.len()
                    invariant
                        i <= entries@.len(),
                        m == fs_height_seq(evs, i as int),
                    decreases entries@.len() - i,
                {
                    let child = &entries[i];
                    proof {
                        assert(child@ == evs[i as int]);
                    }
                    match child.height_capped() {
                        None => {
                            proof {
                                lemma_height_elem(evs, evs.len() as int, i as int);
                            }
                            return None;
                        },
                        Some(h) => {
                            if h > m {
                                m = h;
                            }
                        },
                    }
                    i = i + 1;
                }
                if m == u16::MAX {
                    None
                } else {
                    Some(m + 1)
                }
            },
        }
    }
}

/// The views of a sequence of entries, in order.
pub open spec fn views_of(es: Seq<FsEntry>) -> Seq<FsEntryView> {
    Seq::new(es.len(), |i: int| fs_entry_view(es[i]))
}

/// The views of the entries a sequence of indices picks out, in order.
pub open spec fn views_at(es: Seq<FsEntry>, idxs: Seq<usize>) -> Seq<FsEntryView> {
    Seq::new(idxs.len(), |k: int| fs_entry_view(es[idxs[k] as int]))
}

fn insert_index(entries: &Vec<FsEntry>, x: usize, sorted: Vec<usize>) -> (r: Vec<usize>)
    requires
        x < entries@.len(),
        forall|k: int| 0 <= k < sorted@.len() ==> sorted@[k] < entries@.len(),
    ensures
        forall|k: int| 0 <= k < r@.len() ==> r@[k] < entries@.len(),
        views_at(entries@, r@) == spec_insert(
            fs_entry_view(entries@[x as int]),
            views_at(entries@, sorted@),
        ),
    decreases sorted@.len(),
{
    let ghost vs = views_at(entries@, sorted@);
    if sorted.len() == 0 {
        let mut r = sorted;
        r.push(x);
        proof {
            assert(views_at(entries@, r@) =~= seq![fs_entry_view(entries@[x as int])]);
        }
        r
    } else {
        let first = sorted[0];
        if str_le(entries[x].name.as_str(), entries[first].name.as_str()) {
            let mut r = sorted;
            r.insert(0, x);
            proof {
                assert(views_at(entries@, r@) =~= seq![fs_entry_view(entries@[x as int])] + vs);
            }
            r
        } else {
            let mut s = sorted;
            let h = s.remove(0);
            let r0 = insert_index(entries, x, s);
            let mut r = r0;
            r.insert(0, h);
            proof {
                assert(views_at(entries@, s@) =~= vs.drop_first());
                assert(views_at(entries@, r@) =~= seq![fs_entry_view(entries@[h as int])]
                    + views_at(entries@, r0@));
                assert(vs[0] == fs_entry_view(entries@[h as int]));
                assert(views_at(entries@, r@) =~= seq![vs[0]] + spec_insert(
                    fs_entry_view(entries@[x as int]),
                    vs.drop_first(),
                ));
            }
            r
        }
    }
}

/// The order discovery walks a directory in: the indices of `entries`
/// arranged so that the names they pick out come sorted.
pub fn sort_indices(entries: &Vec<FsEntry>) -> (r: Vec<usize>)
    ensures
        forall|k: int| 0 <= k < r@.len() ==> r@[k] < entries@.len(),
        views_at(entries@, r@) == spec_sort(views_of(entries@)),
{
    let n = entries.len();
    let mut r: Vec<usize> = Vec::new();
    let mut k: usize = n;
    proof {
        assert(views_at(entries@, r@) =~= spec_sort(views_of(entries@).skip(n as int)));
    }
    while k > 0
        invariant
            k <= n,
            n == entries@.len(),
            forall|j: int| 0 <= j < r@.len() ==> r@[j] < entries@.len(),
            views_at(entries@, r@) == spec_sort(views_of(entries@).skip(k as int)),
        decreases k,
    {
        k = k - 1;
        r = insert_index(entries, k, r);
        proof {
            assert(views_of(entries@).skip(k as int).drop_first() =~= views_of(entries@).skip(
                k as int + 1,
            ));
            assert(views_of(entries@).skip(k as int)[0] == fs_entry_view(entries@[k as int]));
        }
    }
    proof {
        assert(views_of(entries@).skip(0) =~= views_of(entries@));
    }
    r
}

} // verus!
