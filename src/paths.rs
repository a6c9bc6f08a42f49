use vstd::prelude::*;
use vstd::string::*;

verus! {

/// `p` is `base` itself or lies below it, component-wise.
pub open spec fn path_within(base: Seq<char>, p: Seq<char>) -> bool {
    p == base || (base.len() < p.len() && p.subrange(0, base.len() as int) == base && p[base.len() as int] == '/')
}

/// One of the two paths lies inside the other.
pub open spec fn paths_overlap(a: Seq<char>, b: Seq<char>) -> bool {
    path_within(a, b) || path_within(b, a)
}

/// A relative path appended to a directory, with exactly one separator between them.
pub open spec fn joined(dir: Seq<char>, rel: Seq<char>) -> Seq<char> {
    if dir.len() == 0 {
        rel
    } else if dir.last() == '/' {
        dir + rel
    } else {
        dir + seq!['/'] + rel
    }
}

/// The path with its trailing separators removed, keeping a lone root separator.
pub open spec fn trim_trailing_separators(p: Seq<char>) -> Seq<char>
    decreases p.len(),
{
    if p.len() > 1 && p.last() == '/' {
        trim_trailing_separators(p.drop_last())
    } else {
        p
    }
}

pub fn is_path_within(base: &str, p: &str) -> (r: bool)
    ensures
        r == path_within(base@, p@),
{
    let bl = base.unicode_len();
    let pl = p.unicode_len();
    if bl > pl {
        return false;
    }
    let mut i: usize = 0;
    while i < bl
        invariant
            i <= bl <= pl,
            bl == base@.len(),
            pl == p@.len(),
            forall|k: int| 0 <= k < i ==> base@[k] == p@[k],
        decreases bl - i,
    {
        if base.get_char(i) != p.get_char(i) {
            assert(p@.subrange(0, bl as int)[i as int] != base@[i as int]);
            return false;
        }
        i += 1;
    }
    if bl == pl {
        assert(base@ =~= p@);
        true
    } else {
        assert(p@.subrange(0, bl as int) =~= base@);
        p.get_char(bl) == '/'
    }
}

pub fn do_paths_overlap(a: &str, b: &str) -> (r: bool)
    ensures
        r == paths_overlap(a@, b@),
{
    is_path_within(a, b) || is_path_within(b, a)
}

pub fn join_path(dir: &str, rel: &str) -> (r: String)
    ensures
        r@ == joined(dir@, rel@),
{
    let n = dir.unicode_len();
    if n == 0 {
        return String::from_str(rel);
    }
    let mut r = String::from_str(dir);
    if dir.get_char(n - 1) != '/' {
        proof {
            reveal_strlit("/");
        }
        r.append("/");
    }
    r.append(rel);
    r
}

pub fn trim_separators(p: &str) -> (r: String)
    ensures
        r@ == trim_trailing_separators(p@),
{
    let mut n = p.unicode_len();
    assert(p@.subrange(0, n as int) =~= p@);
    while n > 1 && p.get_char(n - 1) == '/'
        invariant
            n <= p@.len(),
            trim_trailing_separators(p@) == trim_trailing_separators(p@.subrange(0, n as int)),
        decreases n,
    {
        assert(p@.subrange(0, n as int).drop_last() =~= p@.subrange(0, n - 1));
        n -= 1;
    }
    String::from_str(p.substring_char(0, n))
}

/// Appending a separator to a non-empty path leaves its trimmed form unchanged.
pub proof fn lemma_trim_trailing_separator(p: Seq<char>)
    requires
        p.len() > 0,
    ensures
        trim_trailing_separators(p.push('/')) == trim_trailing_separators(p),
{
    assert(p.push('/').drop_last() =~= p);
}

/// Appending any number of separators to a non-empty path leaves its trimmed form
/// unchanged.
pub proof fn lemma_trim_trailing_separators(p: Seq<char>, k: nat)
    requires
        p.len() > 0,
    ensures
        trim_trailing_separators(p + Seq::new(k, |i: int| '/')) == trim_trailing_separators(p),
    decreases k,
{
    if k > 0 {
        let q = p + Seq::new((k - 1) as nat, |i: int| '/');
        lemma_trim_trailing_separators(p, (k - 1) as nat);
        assert(p + Seq::new(k, |i: int| '/') =~= q.push('/'));
        lemma_trim_trailing_separator(q);
    } else {
        assert(p + Seq::new(0, |i: int| '/') =~= p);
    }
}

} // verus!
