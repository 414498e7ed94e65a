use vstd::prelude::*;

use crate::strutil::{is_space, is_space_char};

verus! {

pub open spec fn trim_start_spec(s: Seq<char>) -> Seq<char>
    decreases s.len(),
{
    if s.len() > 0 && is_space(s[0]) {
        trim_start_spec(s.drop_first())
    } else {
        s
    }
}

pub open spec fn trim_end_spec(s: Seq<char>) -> Seq<char>
    decreases s.len(),
{
    if s.len() > 0 && is_space(s[s.len() - 1]) {
        trim_end_spec(s.drop_last())
    } else {
        s
    }
}

/// What `str::trim` leaves: the sequence with leading and trailing
/// whitespace removed.
pub open spec fn trim_spec(s: Seq<char>) -> Seq<char> {
    trim_end_spec(trim_start_spec(s))
}

proof fn lemma_trim_start_step(s: Seq<char>, i: int)
    requires
        0 <= i < s.len(),
        is_space(s[i]),
    ensures
        trim_start_spec(s.skip(i)) == trim_start_spec(s.skip(i + 1)),
{
    assert(s.skip(i).drop_first() =~= s.skip(i + 1));
}

proof fn lemma_trim_end_step(s: Seq<char>, a: int, b: int)
    requires
        0 <= a < b <= s.len(),
        is_space(s[b - 1]),
    ensures
        trim_end_spec(s.subrange(a, b)) == trim_end_spec(s.subrange(a, b - 1)),
{
    assert(s.subrange(a, b).drop_last() =~= s.subrange(a, b - 1));
}

pub fn trim_str(s: &str) -> (r: String)
    ensures
        r@ == trim_spec(s@),
{
    let n = s.unicode_len();
    let mut a: usize = 0;
    proof {
        assert(s@.skip(0) =~= s@);
    }
    while a < n && is_space_char(s.get_char(a))
        invariant
            a <= n,
            n == s@.len(),
            trim_start_spec(s@) == trim_start_spec(s@.skip(a as int)),
        decreases n - a,
    {
        proof {
            lemma_trim_start_step(s@, a as int);
        }
        a = a + 1;
    }
    proof {
        assert(s@.skip(0) =~= s@);
        if a < n {
            assert(s@.skip(a as int)[0] == s@[a as int]);
        }
        assert(trim_start_spec(s@) == s@.skip(a as int));
    }
    let mut b: usize = n;
    proof {
        assert(s@.skip(a as int) =~= s@.subrange(a as int, n as int));
    }
    while b > a && is_space_char(s.get_char(b - 1))
        invariant
            a <= b <= n,
            n == s@.len(),
            trim_start_spec(s@) == s@.skip(a as int),
            trim_end_spec(s@.skip(a as int)) == trim_end_spec(s@.subrange(a as int, b as int)),
        decreases b,
    {
        proof {
            assert(s@.skip(a as int) =~= s@.subrange(a as int, n as int));
            lemma_trim_end_step(s@, a as int, b as int);
        }
        b = b - 1;
    }
    let r = s.substring_char(a, b);
    proof {
        assert(s@.skip(a as int) =~= s@.subrange(a as int, n as int));
        if b > a {
            assert(s@.subrange(a as int, b as int)[b - a - 1] == s@[b as int - 1]);
        }
        assert(trim_end_spec(s@.subrange(a as int, b as int)) == s@.subrange(a as int, b as int));
    }
    String::from_str(r)
}

pub fn trim_end_str(s: &str) -> (r: String)
    ensures
        r@ == trim_end_spec(s@),
{
    let n = s.unicode_len();
    let mut b: usize = n;
    proof {
        assert(s@.subrange(0, n as int) =~= s@);
    }
    while b > 0 && is_space_char(s.get_char(b - 1))
        invariant
            b <= n,
            n == s@.len(),
            trim_end_spec(s@) == trim_end_spec(s@.subrange(0, b as int)),
        decreases b,
    {
        proof {
            lemma_trim_end_step(s@, 0, b as int);
        }
        b = b - 1;
    }
    let r = s.substring_char(0, b);
    proof {
        if b > 0 {
            assert(s@.subrange(0, b as int)[b - 1] == s@[b as int - 1]);
        }
        assert(trim_end_spec(s@.subrange(0, b as int)) == s@.subrange(0, b as int));
        assert(r@ =~= s@.subrange(0, b as int));
    }
    String::from_str(r)
}

/// Whether the four characters of a comment opener `<!--` stand at
/// position `i`.
pub open spec fn marker_at(s: Seq<char>, i: int) -> bool {
    0 <= i && i + 4 <= s.len() && s[i] == '<' && s[i + 1] == '!' && s[i + 2] == '-' && s[i + 3]
        == '-'
}

/// The position of the first comment opener `<!--`, if any.
pub open spec fn find_marker(s: Seq<char>) -> Option<int>
    decreases s.len(),
{
    if s.len() < 4 {
        None
    } else if marker_at(s, 0) {
        Some(0)
    } else {
        match find_marker(s.drop_first()) {
            None => None,
            Some(i) => Some(i + 1),
        }
    }
}

pub proof fn lemma_find_marker_props(s: Seq<char>)
    ensures
        match find_marker(s) {
            Some(i) => 0 <= i && i + 4 <= s.len() && marker_at(s, i),
            None => true,
        },
    decreases s.len(),
{
    if s.len() >= 4 && !marker_at(s, 0) {
        lemma_find_marker_props(s.drop_first());
        match find_marker(s.drop_first()) {
            Some(i) => {
                assert(s.drop_first()[i] == s[i + 1]);
                assert(s.drop_first()[i + 1] == s[i + 2]);
                assert(s.drop_first()[i + 2] == s[i + 3]);
                assert(s.drop_first()[i + 3] == s[i + 4]);
            },
            None => {},
        }
    }
}

proof fn lemma_find_marker_step(s: Seq<char>, i: int)
    requires
        0 <= i,
        i + 4 <= s.len(),
        !marker_at(s, i),
    ensures
        find_marker(s.skip(i)) == match find_marker(s.skip(i + 1)) {
            None => None::<int>,
            Some(j) => Some(j + 1),
        },
{
    assert(s.skip(i).drop_first() =~= s.skip(i + 1));
    assert(!marker_at(s.skip(i), 0)) by {
        assert(s.skip(i)[0] == s[i]);
        assert(s.skip(i)[1] == s[i + 1]);
        assert(s.skip(i)[2] == s[i + 2]);
        assert(s.skip(i)[3] == s[i + 3]);
    }
}

fn marker_here(s: &str, i: usize) -> (r: bool)
    requires
        i + 4 <= s@.len(),
        s@.len() <= usize::MAX,
    ensures
        r == marker_at(s@, i as int),
{
    s.get_char(i) == '<' && s.get_char(i + 1) == '!' && s.get_char(i + 2) == '-' && s.get_char(
        i + 3,
    ) == '-'
}

pub fn find_comment(s: &str) -> (r: Option<usize>)
    ensures
        match r {
            Some(i) => find_marker(s@) == Some(i as int),
            None => find_marker(s@) is None,
        },
{
    let n = s.unicode_len();
    let mut i: usize = 0;
    proof {
        assert(s@.skip(0) =~= s@);
    }
    while n - i >= 4
        invariant
            i <= n,
            n == s@.len(),
            find_marker(s@) == match find_marker(s@.skip(i as int)) {
                None => None::<int>,
                Some(j) => Some(j + i),
            },
        decreases n - i,
    {
        if marker_here(s, i) {
            proof {
                assert(s@.skip(i as int)[0] == s@[i as int]);
                assert(s@.skip(i as int)[1] == s@[i as int + 1]);
                assert(s@.skip(i as int)[2] == s@[i as int + 2]);
                assert(s@.skip(i as int)[3] == s@[i as int + 3]);
                assert(marker_at(s@.skip(i as int), 0));
                assert(find_marker(s@.skip(i as int)) == Some(0int));
            }
            return Some(i);
        }
        proof {
            lemma_find_marker_step(s@, i as int);
        }
        i = i + 1;
    }
    proof {
        assert(s@.skip(i as int).len() < 4);
        assert(find_marker(s@.skip(i as int)) is None);
    }
    None
}

/// A first-level heading line: it starts with the two-character marker
/// `"# "`.
pub open spec fn is_heading(l: Seq<char>) -> bool {
    l.len() >= 2 && l[0] == '#' && l[1] == ' '
}

/// The title a heading line yields: everything after the marker, cut at the
/// first `<!--` if one occurs, and trimmed.
pub open spec fn heading_title(l: Seq<char>) -> Seq<char> {
    let rest = l.skip(2);
    match find_marker(rest) {
        Some(i) => trim_spec(rest.take(i)),
        None => trim_spec(rest),
    }
}

/// The title of a chapter given its lines: the first heading line's title,
/// or the file's full name when no line is a heading or the heading's
/// text is empty once trimmed — a title is never left empty.
pub open spec fn title_of(lines: Seq<Seq<char>>, filename: Seq<char>) -> Seq<char>
    decreases lines.len(),
{
    if lines.len() == 0 {
        filename
    } else if is_heading(lines[0]) {
        if heading_title(lines[0]).len() == 0 {
            filename
        } else {
            heading_title(lines[0])
        }
    } else {
        title_of(lines.drop_first(), filename)
    }
}

/// A title is never empty: it falls back to the file's name, which speaks
/// for itself.
pub proof fn lemma_title_never_empty(lines: Seq<Seq<char>>, filename: Seq<char>)
    requires
        filename.len() > 0,
    ensures
        title_of(lines, filename).len() > 0,
    decreases lines.len(),
{
    if lines.len() > 0 && !is_heading(lines[0]) {
        lemma_title_never_empty(lines.drop_first(), filename);
    }
}

fn heading_line(l: &str) -> (r: bool)
    ensures
        r == is_heading(l@),
{
    let n = l.unicode_len();
    n >= 2 && l.get_char(0) == '#' && l.get_char(1) == ' '
}

pub fn extract_title(lines: &Vec<String>, filename: &str) -> (t: String)
    ensures
        t@ == title_of(lines.deep_view(), filename@),
{
    let mut k: usize = 0;
    proof {
        assert(lines.deep_view().skip(0) =~= lines.deep_view());
    }
    while k < lines.len()
        invariant
            k <= lines@.len(),
            title_of(lines.deep_view(), filename@) == title_of(
                lines.deep_view().skip(k as int),
                filename@,
            ),
        decreases lines@.len() - k,
    {
        let line = &lines[k];
        proof {
            assert(lines.deep_view().skip(k as int)[0] == lines.deep_view()[k as int]);
        }
        if heading_line(line.as_str()) {
            let l = line.as_str();
            let n = l.unicode_len();
            let rest = l.substring_char(2, n);
            proof {
                assert(rest@ =~= l@.skip(2));
            }
            let t = match find_comment(rest) {
                Some(i) => {
                    proof {
                        lemma_find_marker_props(rest@);
                    }
                    let before = rest.substring_char(0, i);
                    proof {
                        assert(before@ =~= rest@.take(i as int));
                    }
                    trim_str(before)
                },
                None => trim_str(rest),
            };
            proof {
                assert(t@ == heading_title(l@));
            }
            if t.as_str().unicode_len() == 0 {
                return String::from_str(filename);
            }
            return t;
        }
        proof {
            assert(lines.deep_view().skip(k as int).drop_first() =~= lines.deep_view().skip(
                k as int + 1,
            ));
        }
        k = k + 1;
    }
    proof {
        assert(lines.deep_view().skip(k as int).len() == 0);
    }
    String::from_str(filename)
}

/// Only the first qualifying line counts: when the first line is a
/// heading, the title comes from it alone, whatever follows — except
/// that an empty heading text falls back to the file's name.
pub proof fn lemma_first_heading_wins(lines: Seq<Seq<char>>, filename: Seq<char>)
    requires
        lines.len() > 0,
        is_heading(lines[0]),
        heading_title(lines[0]).len() > 0,
    ensures
        title_of(lines, filename) == heading_title(lines[0]),
{
}

/// The title never leaves the heading's text behind: a chapter without any
/// heading line is titled by its file name.
pub proof fn lemma_no_heading_title(lines: Seq<Seq<char>>, filename: Seq<char>)
    requires
        forall|i: int| 0 <= i < lines.len() ==> !is_heading(lines[i]),
    ensures
        title_of(lines, filename) == filename,
    decreases lines.len(),
{
    if lines.len() > 0 {
        assert(!is_heading(lines[0]));
        lemma_no_heading_title(lines.drop_first(), filename);
    }
}

} // verus!
