//! Paths as strings with `/` separators: joining, prefixes and components.
use vstd::prelude::*;
use crate::text::{chars_eq, chars_of, push_all, string_of};

verus! {

/// Whether `p` is an absolute path (it starts at the root).
pub open spec fn is_abs(p: Seq<char>) -> bool {
    p.len() > 0 && p[0] == '/'
}

/// Joining `b` onto `a`: an absolute `b` replaces `a`, an empty `a` gives `b`,
/// and otherwise one separator stands between them.
pub open spec fn path_join(a: Seq<char>, b: Seq<char>) -> Seq<char> {
    if is_abs(b) || a.len() == 0 {
        b
    } else if a.last() == '/' {
        a + b
    } else {
        a + seq!['/'] + b
    }
}

/// Joining `b` onto `a` where an absolute `b` is taken relative to `a`
/// (a leading `.` is put before it), so the result never leaves `a`.
pub open spec fn join_no_clobber(a: Seq<char>, b: Seq<char>) -> Seq<char> {
    if is_abs(b) {
        path_join(a, seq!['.'] + b)
    } else {
        path_join(a, b)
    }
}

/// Whether `base` is a leading part of `child` that ends at a component boundary.
pub open spec fn is_path_prefix(base: Seq<char>, child: Seq<char>) -> bool {
    &&& base.len() <= child.len()
    &&& child.subrange(0, base.len() as int) == base
    &&& (base.len() == child.len() || base.len() == 0 || base.last() == '/' || child[base.len() as int]
        == '/')
}

/// What remains of `child` once the leading path `base` and its separator are removed.
pub open spec fn postfix_of(base: Seq<char>, child: Seq<char>) -> Seq<char> {
    if base.len() == child.len() || base.len() == 0 || base.last() == '/' {
        child.subrange(base.len() as int, child.len() as int)
    } else {
        child.subrange(base.len() as int + 1, child.len() as int)
    }
}

/// Splitting what is left of `s` from position `i`, with `cur` the part of a
/// segment already read: segments are the non-empty runs between separators.
pub open spec fn segments_from(s: Seq<char>, i: int, cur: Seq<char>) -> Seq<Seq<char>>
    decreases s.len() - i,
{
    if i >= s.len() {
        if cur.len() > 0 {
            seq![cur]
        } else {
            seq![]
        }
    } else if s[i] == '/' {
        (if cur.len() > 0 {
            seq![cur]
        } else {
            seq![]
        }) + segments_from(s, i + 1, seq![])
    } else {
        segments_from(s, i + 1, cur.push(s[i]))
    }
}

/// The character sequences held by `v`, in order.
pub open spec fn views(v: Seq<Vec<char>>) -> Seq<Seq<char>> {
    v.map_values(|x: Vec<char>| x@)
}

/// The non-empty runs of characters between separators in `s`.
pub open spec fn segments(s: Seq<char>) -> Seq<Seq<char>> {
    segments_from(s, 0, seq![])
}

/// The components of a path: the root (written `/`) for an absolute path,
/// then its segments.
pub open spec fn components(p: Seq<char>) -> Seq<Seq<char>> {
    if is_abs(p) {
        seq![seq!['/']] + segments(p)
    } else {
        segments(p)
    }
}

/// The first `n` segments joined by separators.
pub open spec fn joined(segs: Seq<Seq<char>>, n: int) -> Seq<char>
    decreases n,
{
    if n <= 0 {
        seq![]
    } else if n == 1 {
        segs[0]
    } else {
        joined(segs, n - 1) + seq!['/'] + segs[n - 1]
    }
}

/// The path made of the first `n` segments of `p`, rooted as `p` is.
pub open spec fn leading_path(p: Seq<char>, n: int) -> Seq<char> {
    if is_abs(p) {
        seq!['/'] + joined(segments(p), n)
    } else {
        joined(segments(p), n)
    }
}

pub fn path_join_chars(a: &Vec<char>, b: &Vec<char>) -> (r: Vec<char>)
    ensures
        r@ == path_join(a@, b@),
{
    if (b.len() > 0 && b[0] == '/') || a.len() == 0 {
        return b.clone();
    }
    let mut out = a.clone();
    if a[a.len() - 1] != '/' {
        out.push('/');
    }
    push_all(&mut out, b);
    out
}

pub fn join_no_clobber_chars(a: &Vec<char>, b: &Vec<char>) -> (r: Vec<char>)
    ensures
        r@ == join_no_clobber(a@, b@),
{
    if b.len() > 0 && b[0] == '/' {
        let mut rel: Vec<char> = Vec::new();
        rel.push('.');
        push_all(&mut rel, b);
        path_join_chars(a, &rel)
    } else {
        path_join_chars(a, b)
    }
}

/// Joins `b` onto `a` as a path: an absolute `b` replaces `a`.
pub fn join(a: &str, b: &str) -> (r: String)
    ensures
        r@ == path_join(a@, b@),
{
    string_of(&path_join_chars(&chars_of(a), &chars_of(b)))
}

/// Joins `b` onto `a`, treating an absolute `b` as relative to `a`.
pub fn join_good(a: &str, b: &str) -> (r: String)
    ensures
        r@ == join_no_clobber(a@, b@),
        !is_abs(b@) ==> r@ == path_join(a@, b@),
{
    string_of(&join_no_clobber_chars(&chars_of(a), &chars_of(b)))
}

/// The part of `child` below `base`.
pub fn extract_postfix(base: &str, child: &str) -> (r: String)
    requires
        is_path_prefix(base@, child@),
    ensures
        r@ == postfix_of(base@, child@),
{
    let b = chars_of(base);
    let c = chars_of(child);
    let from = if b.len() == c.len() || b.len() == 0 || b[b.len() - 1] == '/' {
        b.len()
    } else {
        b.len() + 1
    };
    string_of(&crate::text::slice_chars(&c, from, c.len()))
}

/// The segments of `s`, in order.
pub fn split_segments(s: &Vec<char>) -> (r: Vec<Vec<char>>)
    ensures
        views(r@) == segments(s@),
{
    let mut out: Vec<Vec<char>> = Vec::new();
    let mut cur: Vec<char> = Vec::new();
    let mut i: usize = 0;
    while i < s.len()
        invariant
            i <= s.len(),
            views(out@) + segments_from(s@, i as int, cur@) == segments(s@),
        decreases s.len() - i,
    {
        let ghost old_out = views(out@);
        let ghost old_cur = cur@;
        if s[i] == '/' {
            if cur.len() > 0 {
                out.push(cur);
                assert(views(out@) =~= old_out.push(old_cur));
            }
            cur = Vec::new();
            assert(views(out@) + segments_from(s@, i + 1, seq![]) =~= old_out + segments_from(
                s@,
                i as int,
                old_cur,
            ));
            assert(cur@ =~= seq![]);
        } else {
            cur.push(s[i]);
        }
        i = i + 1;
    }
    if cur.len() > 0 {
        let ghost old_out = views(out@);
        out.push(cur);
        assert(views(out@) =~= old_out.push(cur@));
    }
    assert(views(out@) =~= segments(s@));
    out
}

/// The components of `p`, in order.
pub fn path_components(p: &Vec<char>) -> (r: Vec<Vec<char>>)
    ensures
        views(r@) == components(p@),
{
    let segs = split_segments(p);
    if p.len() > 0 && p[0] == '/' {
        let mut out: Vec<Vec<char>> = Vec::new();
        let mut root: Vec<char> = Vec::new();
        root.push('/');
        out.push(root);
        let mut rest = segs;
        let ghost segs_v = views(rest@);
        out.append(&mut rest);
        assert(views(out@) =~= seq![seq!['/']] + segs_v);
        out
    } else {
        segs
    }
}

/// Whether `base` is a leading part of `child` ending at a component boundary.
pub fn is_path_prefix_exec(base: &str, child: &str) -> (r: bool)
    ensures
        r == is_path_prefix(base@, child@),
{
    let b = chars_of(base);
    let c = chars_of(child);
    if !crate::text::starts_with(&c, &b) {
        return false;
    }
    b.len() == c.len() || b.len() == 0 || b[b.len() - 1] == '/' || c[b.len()] == '/'
}

/// The number of trailing components that `a` and `b` share.
pub open spec fn suffix_len(a: Seq<Seq<char>>, b: Seq<Seq<char>>) -> nat
    decreases a.len(),
{
    if a.len() == 0 || b.len() == 0 || a.last() != b.last() {
        0
    } else {
        1 + suffix_len(a.drop_last(), b.drop_last())
    }
}

pub fn common_suffix(a: &Vec<Vec<char>>, b: &Vec<Vec<char>>) -> (r: usize)
    ensures
        r == suffix_len(views(a@), views(b@)),
{
    let ghost av = views(a@);
    let ghost bv = views(b@);
    let mut i: usize = 0;
    assert(av.subrange(0, av.len() as int) =~= av);
    assert(bv.subrange(0, bv.len() as int) =~= bv);
    loop
        invariant
            av == views(a@),
            bv == views(b@),
            i <= a@.len(),
            i <= b@.len(),
            suffix_len(av, bv) == i + suffix_len(
                av.subrange(0, a@.len() - i),
                bv.subrange(0, b@.len() - i),
            ),
        decreases a@.len() - i,
    {
        let ghost sa = av.subrange(0, a@.len() - i);
        let ghost sb = bv.subrange(0, b@.len() - i);
        if i >= a.len() || i >= b.len() {
            return i;
        }
        if !chars_eq(&a[a.len() - 1 - i], &b[b.len() - 1 - i]) {
            assert(sa.last() != sb.last());
            return i;
        }
        assert(sa.drop_last() =~= av.subrange(0, a@.len() - i - 1));
        assert(sb.drop_last() =~= bv.subrange(0, b@.len() - i - 1));
        i = i + 1;
    }
}

/// The path made of the first `k` components of `p`.
pub open spec fn first_components(p: Seq<char>, k: int) -> Seq<char> {
    if k <= 0 {
        seq![]
    } else if is_abs(p) {
        seq!['/'] + joined(segments(p), k - 1)
    } else {
        joined(segments(p), k)
    }
}

/// The first `m` segments joined by separators.
pub fn join_segments(segs: &Vec<Vec<char>>, m: usize) -> (r: Vec<char>)
    requires
        m <= segs@.len(),
    ensures
        r@ == joined(views(segs@), m as int),
{
    let mut cur: Vec<char> = Vec::new();
    let mut i: usize = 0;
    while i < m
        invariant
            m <= segs@.len(),
            i <= m,
            cur@ == joined(views(segs@), i as int),
        decreases m - i,
    {
        if i > 0 {
            cur.push('/');
        }
        push_all(&mut cur, &segs[i]);
        assert(cur@ =~= joined(views(segs@), i + 1));
        i = i + 1;
    }
    cur
}

/// The leading part of `base` that is left once the trailing components it
/// shares with `child` are taken off.
pub fn extract_prefix(base: &str, child: &str) -> (r: String)
    requires
        suffix_len(components(base@), components(child@)) >= 1,
    ensures
        r@ == first_components(base@, components(base@).len() - suffix_len(components(base@), components(child@))),
{
    extract_prefix_of(base, &path_components(&chars_of(child)))
}

/// `extract_prefix` for a child given by its components.
pub fn extract_prefix_of(base: &str, child: &Vec<Vec<char>>) -> (r: String)
    requires
        suffix_len(components(base@), views(child@)) >= 1,
    ensures
        r@ == first_components(base@, components(base@).len() - suffix_len(components(base@), views(child@))),
{
    let b = chars_of(base);
    let cb = path_components(&b);
    let shared = common_suffix(&cb, child);
    proof {
        lemma_suffix_len_bound(components(base@), views(child@));
    }
    let k = cb.len() - shared;
    let segs = split_segments(&b);
    if k == 0 {
        return String::new();
    }
    if b.len() > 0 && b[0] == '/' {
        assert(k - 1 <= segs@.len());
        let mut out: Vec<char> = Vec::new();
        out.push('/');
        push_all(&mut out, &join_segments(&segs, k - 1));
        string_of(&out)
    } else {
        string_of(&join_segments(&segs, k))
    }
}

proof fn lemma_suffix_len_bound(a: Seq<Seq<char>>, b: Seq<Seq<char>>)
    ensures
        suffix_len(a, b) <= a.len(),
        suffix_len(a, b) <= b.len(),
    decreases a.len(),
{
    if a.len() > 0 && b.len() > 0 && a.last() == b.last() {
        lemma_suffix_len_bound(a.drop_last(), b.drop_last());
    }
}

/// Relies on `dirs::cache_dir`: the host's cache directory, where it has one.
#[verifier::external_body]
fn host_cache_dir() -> (r: Option<String>) {
    dirs::cache_dir().and_then(|p| p.to_str().map(|s| s.to_string()))
}

/// This program's directory under a host directory `base`; without one, the
/// folder `name` under `~/.cinc`.
pub open spec fn app_dir_of(base: Option<Seq<char>>, home: Option<Seq<char>>, name: Seq<char>) -> Option<Seq<char>> {
    match base {
        Some(b) => Some(path_join(b, "cinc"@)),
        None => match home {
            Some(h) => Some(path_join(path_join(h, ".cinc"@), name)),
            None => None,
        },
    }
}

pub fn app_dir(base: Option<String>, home: Option<String>, name: &str) -> (r: Option<String>)
    ensures
        crate::manifest::opt_view(r) == app_dir_of(crate::manifest::opt_view(base), crate::manifest::opt_view(home), name@),
{
    match base {
        Some(b) => Some(join(b.as_str(), "cinc")),
        None => match home {
            Some(h) => Some(join(join(h.as_str(), ".cinc").as_str(), name)),
            None => None,
        },
    }
}

/// Where this program keeps its data.
pub fn data_dir() -> (r: Option<String>)
    ensures
        r matches Some(d) ==> (exists|b: Seq<char>| #[trigger] path_join(b, "cinc"@) == d@) || (exists|h: Seq<char>|
            #[trigger] path_join(path_join(h, ".cinc"@), "data"@) == d@),
{
    app_dir(crate::manifest::host_data_dir(), crate::manifest::host_home_dir(), "data")
}

/// Where this program keeps its configuration.
pub fn config_dir() -> (r: Option<String>)
    ensures
        r matches Some(d) ==> (exists|b: Seq<char>| #[trigger] path_join(b, "cinc"@) == d@) || (exists|h: Seq<char>|
            #[trigger] path_join(path_join(h, ".cinc"@), "config"@) == d@),
{
    app_dir(crate::manifest::host_config_dir(), crate::manifest::host_home_dir(), "config")
}

/// Where this program keeps its cache.
pub fn cache_dir() -> (r: Option<String>)
    ensures
        r matches Some(d) ==> (exists|b: Seq<char>| #[trigger] path_join(b, "cinc"@) == d@) || (exists|h: Seq<char>|
            #[trigger] path_join(path_join(h, ".cinc"@), "cache"@) == d@),
{
    app_dir(host_cache_dir(), crate::manifest::host_home_dir(), "cache")
}

/// Where this program writes its logs: `logs` under the cache directory.
pub fn log_dir() -> (r: Option<String>)
    ensures
        r matches Some(l) ==> exists|c: Seq<char>| #[trigger] path_join(c, "logs"@) == l@,
{
    let c = cache_dir();
    match &c {
        Some(d) => {
            let r = Some(join(d.as_str(), "logs"));
            assert(path_join(d@, "logs"@) == r->Some_0@);
            r
        },
        None => None,
    }
}

proof fn lemma_segments_shift(x: Seq<char>, y: Seq<char>, j: int, cur: Seq<char>)
    requires
        0 <= j <= y.len(),
    ensures
        segments_from(x + y, x.len() + j, cur) == segments_from(y, j, cur),
    decreases y.len() - j,
{
    let w = x + y;
    if j < y.len() {
        assert(w[x.len() + j] == y[j]);
        lemma_segments_shift(x, y, j + 1, seq![]);
        lemma_segments_shift(x, y, j + 1, cur.push(y[j]));
    }
}

proof fn lemma_segments_sep_from(a: Seq<char>, b: Seq<char>, i: int, cur: Seq<char>)
    requires
        0 <= i <= a.len(),
    ensures
        segments_from(a + seq!['/'] + b, i, cur) == segments_from(a, i, cur) + segments_from(b, 0, seq![]),
    decreases a.len() - i,
{
    let w = a + seq!['/'] + b;
    if i == a.len() {
        assert(w[i] == '/');
        assert(w =~= (a + seq!['/']) + b);
        lemma_segments_shift(a + seq!['/'], b, 0, seq![]);
        let e: Seq<Seq<char>> = if cur.len() > 0 {
            seq![cur]
        } else {
            seq![]
        };
        assert(segments_from(a, i, cur) == e);
        assert(segments_from(w, i, cur) == e + segments_from(w, i + 1, seq![]));
    } else {
        assert(w[i] == a[i]);
        lemma_segments_sep_from(a, b, i + 1, seq![]);
        lemma_segments_sep_from(a, b, i + 1, cur.push(a[i]));
        if a[i] == '/' {
            let e: Seq<Seq<char>> = if cur.len() > 0 {
                seq![cur]
            } else {
                seq![]
            };
            assert(e + (segments_from(a, i + 1, seq![]) + segments_from(b, 0, seq![])) =~= (e
                + segments_from(a, i + 1, seq![])) + segments_from(b, 0, seq![]));
        }
    }
}

/// The segments of two paths joined by a separator are those of each, in order.
pub proof fn lemma_segments_sep(a: Seq<char>, b: Seq<char>)
    ensures
        segments(a + seq!['/'] + b) == segments(a) + segments(b),
{
    lemma_segments_sep_from(a, b, 0, seq![]);
}

/// A doubled separator after a path ending in one changes no component.
pub proof fn lemma_components_double_sep(l: Seq<char>, post: Seq<char>)
    requires
        l.len() > 0,
        l.last() == '/',
    ensures
        components(l + seq!['/'] + post) == components(l + post),
{
    let l0 = l.drop_last();
    assert(l =~= l0 + seq!['/']);
    assert(l + seq!['/'] + post =~= l0 + seq!['/'] + (seq!['/'] + post));
    assert(l + post =~= l0 + seq!['/'] + post);
    lemma_segments_sep(l0, seq!['/'] + post);
    lemma_segments_sep(l0, post);
    lemma_segments_sep(seq![], post);
    assert(seq![] + seq!['/'] + post =~= seq!['/'] + post);
    assert(segments(seq![]) =~= seq![]) by {
        assert(segments_from(seq![], 0, seq![]) == Seq::<Seq<char>>::empty());
    };
    assert((l + seq!['/'] + post)[0] == l[0]);
    assert((l + post)[0] == l[0]);
}

/// A trailing separator changes no component.
pub proof fn lemma_components_trailing_sep(l: Seq<char>)
    requires
        l.len() > 0,
    ensures
        components(l + seq!['/']) == components(l),
{
    lemma_segments_sep(l, seq![]);
    assert(l + seq!['/'] + seq![] =~= l + seq!['/']);
    assert(segments(seq![]) =~= seq![]) by {
        assert(segments_from(seq![], 0, seq![]) == Seq::<Seq<char>>::empty());
    };
    assert(segments(l) + seq![] =~= segments(l));
    assert((l + seq!['/'])[0] == l[0]);
}

} // verus!
