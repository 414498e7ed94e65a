use vstd::prelude::*;

verus! {

/// Whitespace as the trimming rules understand it: the characters with the
/// Unicode `White_Space` property, which is what `str::trim` removes.
pub open spec fn is_space(c: char) -> bool {
    c == ' ' || c == '\t' || c == '\n' || c == '\r' || c == '\u{b}' || c == '\u{c}'
        || c == '\u{85}' || c == '\u{a0}' || c == '\u{1680}' || c == '\u{2000}'
        || c == '\u{2001}' || c == '\u{2002}' || c == '\u{2003}' || c == '\u{2004}'
        || c == '\u{2005}' || c == '\u{2006}' || c == '\u{2007}' || c == '\u{2008}'
        || c == '\u{2009}' || c == '\u{200a}' || c == '\u{2028}' || c == '\u{2029}'
        || c == '\u{202f}' || c == '\u{205f}' || c == '\u{3000}'
}

pub fn is_space_char(c: char) -> (r: bool)
    ensures
        r == is_space(c),
{
    c == ' ' || c == '\t' || c == '\n' || c == '\r' || c == '\u{b}' || c == '\u{c}'
        || c == '\u{85}' || c == '\u{a0}' || c == '\u{1680}' || c == '\u{2000}'
        || c == '\u{2001}' || c == '\u{2002}' || c == '\u{2003}' || c == '\u{2004}'
        || c == '\u{2005}' || c == '\u{2006}' || c == '\u{2007}' || c == '\u{2008}'
        || c == '\u{2009}' || c == '\u{200a}' || c == '\u{2028}' || c == '\u{2029}'
        || c == '\u{202f}' || c == '\u{205f}' || c == '\u{3000}'
}

/// Case-sensitive lexicographic order on character sequences, comparing
/// scalar values position by position; a prefix sorts before its extensions.
pub open spec fn lex_le(a: Seq<char>, b: Seq<char>) -> bool
    decreases a.len(),
{
    if a.len() == 0 {
        true
    } else if b.len() == 0 {
        false
    } else if (a[0] as u32) < (b[0] as u32) {
        true
    } else if (b[0] as u32) < (a[0] as u32) {
        false
    } else {
        lex_le(a.drop_first(), b.drop_first())
    }
}

/// The name order is total: of two names, one sorts no later than the
/// other.
pub proof fn lemma_lex_le_total(a: Seq<char>, b: Seq<char>)
    ensures
        lex_le(a, b) || lex_le(b, a),
    decreases a.len(),
{
    if a.len() > 0 && b.len() > 0 && !((a[0] as u32) < (b[0] as u32)) && !((b[0] as u32) < (
    a[0] as u32)) {
        lemma_lex_le_total(a.drop_first(), b.drop_first());
    }
}

/// The name order is transitive.
pub proof fn lemma_lex_le_trans(a: Seq<char>, b: Seq<char>, c: Seq<char>)
    requires
        lex_le(a, b),
        lex_le(b, c),
    ensures
        lex_le(a, c),
    decreases a.len(),
{
    if a.len() > 0 && b.len() > 0 && c.len() > 0 && (a[0] as u32) == (b[0] as u32) && (
    b[0] as u32) == (c[0] as u32) {
        lemma_lex_le_trans(a.drop_first(), b.drop_first(), c.drop_first());
    }
}

pub fn str_le(a: &str, b: &str) -> (r: bool)
    ensures
        r == lex_le(a@, b@),
    decreases a@.len(),
{
    let alen = a.unicode_len();
    let blen = b.unicode_len();
    if alen == 0 {
        true
    } else if blen == 0 {
        false
    } else {
        let ca = a.get_char(0);
        let cb = b.get_char(0);
        if (ca as u32) < (cb as u32) {
            true
        } else if (cb as u32) < (ca as u32) {
            false
        } else {
            let ra = a.substring_char(1, alen);
            let rb = b.substring_char(1, blen);
            proof {
                assert(ra@ =~= a@.drop_first());
                assert(rb@ =~= b@.drop_first());
            }
            str_le(ra, rb)
        }
    }
}

pub fn str_eq(a: &str, b: &str) -> (r: bool)
    ensures
        r == (a@ == b@),
{
    let alen = a.unicode_len();
    let blen = b.unicode_len();
    if alen != blen {
        return false;
    }
    let mut i: usize = 0;
    while i < alen
        invariant
            i <= alen,
            alen == a@.len(),
            alen == b@.len(),
            forall|j: int| 0 <= j < i ==> a@[j] == b@[j],
        decreases alen - i,
    {
        if a.get_char(i) != b.get_char(i) {
            return false;
        }
        i = i + 1;
    }
    proof {
        assert(a@ =~= b@);
    }
    true
}

/// A chapter file is recognised by the `.md` suffix on its name.
pub open spec fn spec_ends_with_md(s: Seq<char>) -> bool {
    s.len() >= 3 && s[s.len() - 3] == '.' && s[s.len() - 2] == 'm' && s[s.len() - 1] == 'd'
}

pub fn ends_with_md(s: &str) -> (r: bool)
    ensures
        r == spec_ends_with_md(s@),
{
    let n = s.unicode_len();
    n >= 3 && s.get_char(n - 3) == '.' && s.get_char(n - 2) == 'm' && s.get_char(n - 1) == 'd'
}

/// A hidden entry: a name starting with `.` or `_`.
pub open spec fn spec_is_hidden(s: Seq<char>) -> bool {
    s.len() > 0 && (s[0] == '.' || s[0] == '_')
}

pub fn is_hidden(s: &str) -> (r: bool)
    ensures
        r == spec_is_hidden(s@),
{
    let n = s.unicode_len();
    n > 0 && {
        let c = s.get_char(0);
        c == '.' || c == '_'
    }
}

/// Joining a path and an entry name with a forward slash; an empty path
/// stands for the current directory, so joining onto it yields the name
/// alone.
pub open spec fn spec_join(p: Seq<char>, n: Seq<char>) -> Seq<char> {
    if p.len() == 0 {
        n
    } else {
        p + "/"@ + n
    }
}

pub fn join_path(p: &str, n: &str) -> (r: String)
    ensures
        r@ == spec_join(p@, n@),
{
    if p.unicode_len() == 0 {
        String::from_str(n)
    } else {
        let mut s = String::from_str(p);
        s.append("/");
        s.append(n);
        s
    }
}

pub open spec fn spec_spaces(n: nat) -> Seq<char> {
    Seq::new(n, |i| ' ')
}

pub fn spaces(n: usize) -> (r: String)
    ensures
        r@ == spec_spaces(n as nat),
{
    let mut s = String::new();
    let mut i: usize = 0;
    while i < n
        invariant
            i <= n,
            s@ == spec_spaces(i as nat),
        decreases n - i,
    {
        s.append(" ");
        i = i + 1;
        proof {
            reveal_strlit(" ");
            assert(s@ =~= spec_spaces(i as nat));
        }
    }
    s
}

/// Stripping a root prefix from a path: the root itself becomes the empty
/// path, and a path of the form `root/rest` becomes `rest`; any other
/// path is not rooted there and has no relative form. A remainder that
/// would begin with another separator is refused, so what a strip under
/// an absolute root returns can never be stripped again.
pub open spec fn spec_strip(p: Seq<char>, root: Seq<char>) -> Option<Seq<char>> {
    if p == root {
        Some(Seq::empty())
    } else if p.len() > root.len() && p.take(root.len() as int) == root && p[root.len() as int]
        == '/' && !(p.len() > root.len() + 1 && p[root.len() as int + 1] == '/') {
        Some(p.skip(root.len() as int + 1))
    } else {
        None
    }
}

/// One-way: under an absolute root, anything a successful strip returns
/// is itself unstrippable — relative results carry no leading separator,
/// while the root starts with one.
pub proof fn lemma_strip_one_way(p: Seq<char>, root: Seq<char>)
    requires
        root.len() > 0,
        root[0] == '/',
    ensures
        match spec_strip(p, root) {
            Some(q) => spec_strip(q, root) is None,
            None => true,
        },
{
    match spec_strip(p, root) {
        Some(q) => {
            if p != root {
                if q.len() > 0 {
                    assert(q[0] == p[root.len() as int + 1]);
                }
                if q.len() > root.len() && q.take(root.len() as int) == root {
                    assert(q.take(root.len() as int)[0] == q[0]);
                }
            }
        },
        None => {},
    }
}

pub fn strip_path_prefix(p: &str, root: &str) -> (r: Option<String>)
    ensures
        match r {
            Some(s) => spec_strip(p@, root@) == Some(s@),
            None => spec_strip(p@, root@) is None,
        },
{
    let plen = p.unicode_len();
    let rlen = root.unicode_len();
    if str_eq(p, root) {
        return Some(String::new());
    }
    if plen > rlen {
        let head = p.substring_char(0, rlen);
        if str_eq(head, root) && p.get_char(rlen) == '/' && !(plen > rlen + 1 && p.get_char(
            rlen + 1,
        ) == '/') {
            let rest = p.substring_char(rlen + 1, plen);
            proof {
                assert(head@ =~= p@.take(rlen as int));
                assert(rest@ =~= p@.skip(rlen as int + 1));
            }
            return Some(String::from_str(rest));
        }
    }
    None
}

} // verus!
