use vstd::prelude::*;
use vstd::string::*;

verus! {

/// The names of a path, as values.
pub open spec fn path_view(p: Seq<String>) -> Seq<Seq<char>> {
    p.map_values(|s: String| s@)
}

/// `j` is the position of the first `/` in `s`.
pub open spec fn is_first_slash(s: Seq<char>, j: int) -> bool {
    &&& 0 <= j < s.len()
    &&& s[j] == '/'
    &&& forall|k: int| 0 <= k < j ==> s[k] != '/'
}

/// The components of `s` split on `/`, with the empty ones dropped.
pub open spec fn segments(s: Seq<char>) -> Seq<Seq<char>>
    decreases s.len(),
{
    if exists|j: int| is_first_slash(s, j) {
        let j = choose|j: int| is_first_slash(s, j);
        let head = s.take(j);
        let tail = segments(s.skip(j + 1));
        if head.len() == 0 {
            tail
        } else {
            seq![head] + tail
        }
    } else if s.len() == 0 {
        Seq::empty()
    } else {
        seq![s]
    }
}

/// The names joined by `/`.
pub open spec fn joined(p: Seq<Seq<char>>) -> Seq<char>
    decreases p.len(),
{
    if p.len() == 0 {
        Seq::empty()
    } else if p.len() == 1 {
        p[0]
    } else {
        joined(p.drop_last()) + "/"@ + p.last()
    }
}

proof fn lemma_first_slash_unique(s: Seq<char>, j: int, k: int)
    requires
        is_first_slash(s, j),
        is_first_slash(s, k),
    ensures
        j == k,
{
}

/// Splits a path on `/` into its non-empty components, in order. No `.` or
/// `..` handling takes place: both `""` and `"/"` give no components.
pub fn resolve_path(path: &str) -> (r: Vec<String>)
    ensures
        path_view(r@) == segments(path@),
{
    let n = path.unicode_len();
    let ghost s = path@;
    let mut out: Vec<String> = Vec::new();
    let mut start: usize = 0;
    let mut i: usize = 0;
    assert(s.skip(0) =~= s);
    assert(path_view(out@) =~= Seq::<Seq<char>>::empty());
    assert(path_view(out@) + segments(s) =~= segments(s));
    while i < n
        invariant
            n == s.len(),
            s == path@,
            start <= i <= n,
            forall|k: int| start <= k < i ==> s[k] != '/',
            path_view(out@) + segments(s.skip(start as int)) == segments(s),
        decreases n - i,
    {
        let c = path.get_char(i);
        if c == '/' {
            let ghost rest = s.skip(start as int);
            assert(is_first_slash(rest, i - start));
            let ghost j = choose|j: int| is_first_slash(rest, j);
            proof {
                lemma_first_slash_unique(rest, j, i - start);
            }
            assert(rest.take(i - start) =~= s.subrange(start as int, i as int));
            assert(rest.skip(i - start + 1) =~= s.skip(i + 1));
            if start < i {
                let seg = path.substring_char(start, i).to_owned();
                proof {
                    assert(path_view(out@.push(seg)) =~= path_view(out@) + seq![seg@]);
                }
                out.push(seg);
            }
            start = i + 1;
        }
        i = i + 1;
    }
    let ghost rest = s.skip(start as int);
    assert(!exists|j: int| is_first_slash(rest, j));
    if start < n {
        let seg = path.substring_char(start, n).to_owned();
        assert(rest =~= seg@);
        proof {
            assert(path_view(out@.push(seg)) =~= path_view(out@) + seq![seg@]);
        }
        out.push(seg);
    } else {
        assert(path_view(out@) + segments(rest) =~= path_view(out@));
    }
    out
}

/// A copy of the names.
pub fn clone_path(p: &Vec<String>) -> (r: Vec<String>)
    ensures
        path_view(r@) == path_view(p@),
{
    let mut r: Vec<String> = Vec::new();
    let mut i: usize = 0;
    while i < p.len()
        invariant
            i <= p.len(),
            r.len() == i,
            path_view(r@) == path_view(p@).take(i as int),
        decreases p.len() - i,
    {
        let s = p[i].clone();
        proof {
            assert(s == p@[i as int]);
            assert(path_view(r@.push(s)).len() == i + 1);
            assert forall|k: int| 0 <= k < i + 1 implies path_view(r@.push(s))[k] == path_view(p@).take(i + 1)[k] by {
                if k < i {
                    assert(path_view(r@)[k] == path_view(p@).take(i as int)[k]);
                }
            }
            assert(path_view(r@.push(s)) =~= path_view(p@).take(i + 1));
        }
        r.push(s);
        i = i + 1;
    }
    assert(path_view(p@).take(p.len() as int) =~= path_view(p@));
    r
}

/// Joins the names with `/` between them.
pub fn join_path(p: &Vec<String>) -> (r: String)
    ensures
        r@ == joined(path_view(p@)),
{
    let mut out = String::new();
    let mut i: usize = 0;
    while i < p.len()
        invariant
            0 <= i <= p.len(),
            out@ == joined(path_view(p@).take(i as int)),
        decreases p.len() - i,
    {
        proof {
            assert(path_view(p@).take(i + 1).drop_last() =~= path_view(p@).take(i as int));
        }
        if i > 0 {
            out.append("/");
        }
        out.append(p[i].as_str());
        i = i + 1;
    }
    assert(path_view(p@).take(p.len() as int) =~= path_view(p@));
    out
}

} // verus!
