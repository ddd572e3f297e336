//! Lexical paths: texts whose components are separated by `/`. Nothing here
//! looks at a disk.
use vstd::prelude::*;
use vstd::slice::slice_subrange;

use crate::text::{chars_of, string_of};

verus! {

/// The path begins at the root.
pub open spec fn is_rooted(p: Seq<char>) -> bool {
    p.len() > 0 && p[0] == '/'
}

/// The path begins with the component `.`.
pub open spec fn leads_with_dot(p: Seq<char>) -> bool {
    p.len() > 0 && p[0] == '.' && (p.len() == 1 || p[1] == '/')
}

/// The length of what comes before the ordinary components: the root, or a
/// leading `.`.
pub open spec fn base_len(p: Seq<char>) -> nat {
    if is_rooted(p) || leads_with_dot(p) {
        1
    } else {
        0
    }
}

/// Where the last component of `p` starts: right behind the last separator, or
/// behind the base.
pub open spec fn tail_start(p: Seq<char>, end: int) -> int
    decreases end,
{
    if end <= base_len(p) {
        base_len(p) as int
    } else if p[end - 1] == '/' {
        end
    } else {
        tail_start(p, end - 1)
    }
}

/// The text behind the last separator.
pub open spec fn tail(p: Seq<char>) -> Seq<char> {
    p.skip(tail_start(p, p.len() as int))
}

/// The text before the last separator.
pub open spec fn head(p: Seq<char>) -> Seq<char> {
    let t = tail_start(p, p.len() as int);
    if t > base_len(p) {
        p.take(t - 1)
    } else {
        p.take(base_len(p) as int)
    }
}

proof fn lemma_tail_start(p: Seq<char>, end: int)
    requires
        0 <= end <= p.len(),
        base_len(p) <= end,
    ensures
        base_len(p) <= tail_start(p, end) <= end,
        tail_start(p, end) > base_len(p) ==> p[tail_start(p, end) - 1] == '/',
        forall|j: int| tail_start(p, end) <= j < end ==> #[trigger] p[j] != '/',
    decreases end,
{
    if end > base_len(p) && p[end - 1] != '/' {
        lemma_tail_start(p, end - 1);
    }
}

/// A component that only stands for the directory it is in.
pub open spec fn is_idle(c: Seq<char>) -> bool {
    c.len() == 0 || c == seq!['.']
}

/// `p` without the separators and `.` components at its end.
pub open spec fn settled(p: Seq<char>) -> Seq<char>
    decreases p.len(),
    via settled_decreases
{
    if p.len() > base_len(p) && is_idle(tail(p)) {
        settled(head(p))
    } else {
        p
    }
}

#[via_fn]
proof fn settled_decreases(p: Seq<char>) {
    if p.len() > base_len(p) {
        lemma_tail_start(p, p.len() as int);
    }
}

/// The name that `p` ends with, unless it ends with the root, with `..`, or
/// holds no name at all.
pub open spec fn name_of(p: Seq<char>) -> Option<Seq<char>> {
    let q = settled(p);
    if q.len() > base_len(q) && tail(q) != seq!['.', '.'] {
        Some(tail(q))
    } else {
        None
    }
}

/// `p` without its last component; nothing for the root and for the empty path.
pub open spec fn parent_of(p: Seq<char>) -> Option<Seq<char>> {
    let q = settled(p);
    if q.len() > base_len(q) {
        Some(settled(head(q)))
    } else if leads_with_dot(q) {
        Some(seq![])
    } else {
        None
    }
}

/// `rel` below `base`; a rooted `rel` stands for itself.
pub open spec fn under(base: Seq<char>, rel: Seq<char>) -> Seq<char> {
    if is_rooted(rel) {
        rel
    } else if base.len() == 0 || base.last() == '/' {
        base + rel
    } else {
        base + seq!['/'] + rel
    }
}

/// The number of components of `p[from..]` that name something.
pub open spec fn named_from(p: Seq<char>, from: int) -> nat
    decreases p.len() - from,
{
    if from >= p.len() || from < 0 {
        0
    } else {
        let i = crate::text::cut(p.skip(from), seq!['/']) as int;
        let c = p.skip(from).take(i);
        (if is_idle(c) {
            0nat
        } else {
            1nat
        }) + (if from + i < p.len() {
            named_from(p, from + i + 1)
        } else {
            0
        })
    }
}

/// The number of components of `p`, its base counted as one.
pub open spec fn depth(p: Seq<char>) -> nat {
    base_len(p) + named_from(p, base_len(p) as int)
}

/// The length of a file name without its extension. A name that only begins
/// with a dot has none.
pub open spec fn stem_len(n: Seq<char>, end: int) -> int
    decreases end,
{
    if end <= 1 {
        n.len() as int
    } else if n[end - 1] == '.' {
        end - 1
    } else {
        stem_len(n, end - 1)
    }
}

/// `p` with the extension of its name, if it has one, replaced by `ext`, or taken
/// off where `ext` is empty.
pub open spec fn extended(p: Seq<char>, ext: Seq<char>) -> Seq<char> {
    match name_of(p) {
        Some(n) => p.take(settled(p).len() - n.len() + stem_len(n, n.len() as int)) + (if ext.len()
            == 0 {
            seq![]
        } else {
            seq!['.'] + ext
        }),
        None => p,
    }
}

/// The part of a file name behind its last dot. A dot at the start of a name does
/// not count.
pub open spec fn extension_of(p: Seq<char>) -> Option<Seq<char>> {
    match name_of(p) {
        Some(n) => {
            let k = stem_len(n, n.len() as int);
            if k < n.len() {
                Some(n.skip(k + 1))
            } else {
                None
            }
        },
        None => None,
    }
}

/// The length of the base of `v`.
fn base(v: &[char]) -> (n: usize)
    ensures
        n == base_len(v@),
        n <= v.len(),
{
    if v.len() > 0 && (v[0] == '/' || (v[0] == '.' && (v.len() == 1 || v[1] == '/'))) {
        1
    } else {
        0
    }
}

/// Where the last component of `v` starts.
fn last_start(v: &[char]) -> (t: usize)
    ensures
        t == tail_start(v@, v.len() as int),
        base_len(v@) <= t <= v.len(),
{
    let b = base(v);
    let mut end: usize = v.len();
    proof {
        lemma_tail_start(v@, end as int);
    }
    while end > b && v[end - 1] != '/'
        invariant
            b == base_len(v@),
            b <= end <= v.len(),
            tail_start(v@, end as int) == tail_start(v@, v.len() as int),
        decreases end,
    {
        end -= 1;
    }
    end
}

/// The length of `v` without the idle components at its end.
fn settle(v: &[char]) -> (n: usize)
    ensures
        n <= v.len(),
        v@.take(n as int) == settled(v@),
{
    let mut n: usize = v.len();
    assert(v@.take(n as int) =~= v@);
    loop
        invariant
            n <= v.len(),
            settled(v@.take(n as int)) == settled(v@),
        ensures
            n <= v.len(),
            v@.take(n as int) == settled(v@),
        decreases n,
    {
        let q = slice_subrange(v, 0, n);
        assert(q@ =~= v@.take(n as int));
        let b = base(q);
        if n <= b {
            break;
        }
        let t = last_start(q);
        let idle = t == n || (n - t == 1 && q[t] == '.');
        proof {
            lemma_tail_start(q@, n as int);
            let c = tail(q@);
            assert(c.len() == n - t);
            if n - t == 1 {
                assert(c[0] == q@[t as int]);
                assert(c[0] == '.' ==> c =~= seq!['.']);
            }
        }
        assert(idle == is_idle(tail(q@)));
        if !idle {
            break;
        }
        let m = if t > b {
            t - 1
        } else {
            b
        };
        assert(head(q@) =~= v@.take(m as int));
        n = m;
    }
    n
}

/// `Path::file_name`, lexically.
pub fn file_name(p: &str) -> (r: Option<String>)
    ensures
        crate::text::opt_text(r) == name_of(p@),
{
    let v = chars_of(p);
    let n = settle(v.as_slice());
    let q = slice_subrange(v.as_slice(), 0, n);
    assert(q@ =~= settled(p@));
    if n > base(q) {
        let t = last_start(q);
        let c = slice_subrange(q, t, n);
        assert(c@ =~= tail(q@));
        if c.len() == 2 && c[0] == '.' && c[1] == '.' {
            assert(c@ =~= seq!['.', '.']);
            None
        } else {
            assert(c@ != seq!['.', '.']) by {
                if c@ == seq!['.', '.'] {
                    assert(c@[0] == '.' && c@[1] == '.' && c@.len() == 2);
                }
            }
            Some(string_of(c))
        }
    } else {
        None
    }
}

/// `Path::parent`, lexically.
pub fn parent(p: &str) -> (r: Option<String>)
    ensures
        crate::text::opt_text(r) == parent_of(p@),
{
    let v = chars_of(p);
    let n = settle(v.as_slice());
    let q = slice_subrange(v.as_slice(), 0, n);
    assert(q@ =~= settled(p@));
    let b = base(q);
    if n > b {
        let t = last_start(q);
        let m = if t > b {
            t - 1
        } else {
            b
        };
        let h = slice_subrange(q, 0, m);
        assert(h@ =~= head(q@));
        let k = settle(h);
        let r = string_of(slice_subrange(h, 0, k));
        assert(r@ =~= h@.take(k as int));
        Some(r)
    } else if n > 0 && q[0] == '.' {
        assert(b == 1 || !leads_with_dot(q@));
        assert(leads_with_dot(q@));
        let r = String::new();
        assert(r@ =~= seq![]);
        Some(r)
    } else {
        None
    }
}

/// `Path::join`, lexically.
pub fn join(base: &str, rel: &str) -> (r: String)
    ensures
        r@ == under(base@, rel@),
{
    let b = chars_of(base);
    let l = chars_of(rel);
    if l.len() > 0 && l[0] == '/' {
        rel.to_owned()
    } else {
        let mut r = base.to_owned();
        if b.len() > 0 && b[b.len() - 1] != '/' {
            r.push('/');
            assert(r@ =~= base@ + seq!['/']);
        }
        r.append(rel);
        r
    }
}

/// The number of components of `p`.
pub fn components(p: &str) -> (n: usize)
    ensures
        n == depth(p@),
{
    let v = chars_of(p);
    let b = base(v.as_slice());
    let mut n: usize = b;
    let mut from: usize = b;
    while from < v.len()
        invariant
            v@ == p@,
            b == base_len(v@),
            b <= from <= v.len(),
            n <= from,
            n + named_from(v@, from as int) == b + named_from(v@, b as int),
        decreases v.len() - from,
    {
        let ghost rest = v@.skip(from as int);
        let mut i: usize = from;
        while i < v.len() && v[i] != '/'
            invariant
                v@ == p@,
                rest == v@.skip(from as int),
                from <= i <= v.len(),
                crate::text::cut(rest, seq!['/']) == (i - from) + crate::text::cut(
                    v@.skip(i as int),
                    seq!['/'],
                ),
            decreases v.len() - i,
        {
            let ghost here = v@.skip(i as int);
            assert(!seq!['/'].contains(here[0]));
            assert(here.skip(1) =~= v@.skip(i + 1));
            i += 1;
        }
        let ghost c = rest.take(i - from);
        proof {
            if i < v.len() {
                assert(seq!['/'][0] == '/');
                assert(seq!['/'].contains(v@.skip(i as int)[0]));
            }
            assert(crate::text::cut(rest, seq!['/']) == i - from);
            if c.len() == 1 {
                assert(c[0] == v@[from as int]);
                assert(c[0] == '.' ==> c =~= seq!['.']);
            }
        }
        let idle = i == from || (i - from == 1 && v[from] == '.');
        assert(idle == is_idle(c));
        if !idle {
            n += 1;
        }
        if i == v.len() {
            assert(named_from(v@, i as int) == 0);
            from = i;
        } else {
            from = i + 1;
        }
    }
    n
}

/// The length of a file name without its extension.
fn stem(c: &[char]) -> (r: usize)
    ensures
        r == stem_len(c@, c.len() as int),
        r <= c.len(),
{
    let mut end: usize = c.len();
    while end > 1 && c[end - 1] != '.'
        invariant
            end <= c.len(),
            stem_len(c@, end as int) == stem_len(c@, c.len() as int),
        decreases end,
    {
        end -= 1;
    }
    if end > 1 {
        end - 1
    } else {
        c.len()
    }
}

/// `Path::extension`, lexically.
pub fn extension(p: &str) -> (r: Option<String>)
    ensures
        crate::text::opt_text(r) == extension_of(p@),
{
    match file_name(p) {
        None => None,
        Some(n) => {
            let c = chars_of(n.as_str());
            let k = stem(c.as_slice());
            if k < c.len() {
                let r = string_of(slice_subrange(c.as_slice(), k + 1, c.len()));
                assert(r@ =~= n@.skip(k + 1));
                Some(r)
            } else {
                None
            }
        },
    }
}

/// `Path::with_extension`, lexically.
pub fn with_extension(p: &str, ext: &str) -> (r: String)
    ensures
        r@ == extended(p@, ext@),
{
    match file_name(p) {
        None => p.to_owned(),
        Some(n) => {
            let v = chars_of(p);
            let k = settle(v.as_slice());
            let c = chars_of(n.as_str());
            let len = stem(c.as_slice());
            proof {
                let q = settled(p@);
                lemma_tail_start(q, q.len() as int);
                assert(v@.take(k as int) == q);
            }
            let cutoff: usize = k - c.len() + len;
            let mut r = string_of(slice_subrange(v.as_slice(), 0, cutoff));
            assert(r@ =~= p@.take(cutoff as int));
            if !ext.is_empty() {
                r.push('.');
                r.append(ext);
                assert(r@ =~= p@.take(cutoff as int) + (seq!['.'] + ext@));
            } else {
                assert(r@ =~= p@.take(cutoff as int) + seq![]);
            }
            r
        },
    }
}

/// The name of one file or directory.
pub open spec fn is_plain_name(n: Seq<char>) -> bool {
    &&& !is_idle(n)
    &&& n != seq!['.', '.']
    &&& forall|i: int| 0 <= i < n.len() ==> #[trigger] n[i] != '/'
}

/// A path without idle components at its end has none.
pub proof fn lemma_settled_twice(p: Seq<char>)
    ensures
        settled(settled(p)) == settled(p),
    decreases p.len(),
{
    if p.len() > base_len(p) && is_idle(tail(p)) {
        lemma_tail_start(p, p.len() as int);
        lemma_settled_twice(head(p));
    }
}

/// A path made by `join` from a plain name lies directly below the directory:
/// the name is its last component, and the directory without idle components
/// at its end is its parent.
pub proof fn law_join_adds_one_component(dir: Seq<char>, name: Seq<char>)
    requires
        dir.len() > 0,
        is_plain_name(name),
    ensures
        name_of(under(dir, name)) == Some(name),
        parent_of(under(dir, name)) == Some(settled(dir)),
        settled(under(dir, name)) == under(dir, name),
{
    let p = under(dir, name);
    let d = if dir.last() == '/' { dir } else { dir + seq!['/'] };
    assert(p =~= d + name);
    assert(d.len() >= 1 && d.last() == '/');
    assert(base_len(p) == base_len(dir)) by {
        if dir.len() == 1 && dir[0] == '.' {
            assert(p[1] == '/');
        }
    }
    assert(base_len(p) <= d.len());
    let n = p.len() as int;
    lemma_tail_start(p, n);
    let t = tail_start(p, n);
    assert(t == d.len()) by {
        if t < d.len() {
            if d.len() - 1 >= t {
                assert(p[d.len() - 1] == '/');
            }
        } else if t > d.len() {
            assert(p[t - 1] == name[t - 1 - d.len()]);
        }
    }
    assert(tail(p) =~= name);
    assert(settled(p) == p);
    if t > base_len(p) {
        assert(head(p) =~= d.drop_last());
        if dir.last() == '/' {
            assert(base_len(dir) <= dir.len());
            if dir.len() > base_len(dir) {
                lemma_tail_start(dir, dir.len() as int);
                assert(tail_start(dir, dir.len() as int) == dir.len());
                assert(tail(dir) =~= seq![]);
                assert(head(dir) =~= dir.drop_last());
            }
        } else {
            assert(d.drop_last() =~= dir);
        }
    } else {
        assert(head(p) =~= d);
        assert(d =~= dir);
    }
}

/// Relative paths below the same directory are different paths.
pub proof fn law_join_tells_paths_apart(dir: Seq<char>, a: Seq<char>, b: Seq<char>)
    requires
        !is_rooted(a),
        !is_rooted(b),
    ensures
        under(dir, a) == under(dir, b) <==> a == b,
{
    let n: int = if dir.len() == 0 || dir.last() == '/' {
        dir.len() as int
    } else {
        dir.len() as int + 1
    };
    assert(under(dir, a).skip(n) =~= a);
    assert(under(dir, b).skip(n) =~= b);
}

/// A relative path goes below a directory with one separator between them, whether
/// or not the directory ends in one.
pub proof fn law_join_puts_one_separator(dir: Seq<char>, rel: Seq<char>)
    requires
        dir.len() > 0,
        dir.last() != '/',
        rel.len() > 0 ==> rel[0] != '/',
    ensures
        under(dir, rel) == dir + seq!['/'] + rel,
        under(dir + seq!['/'], rel) == dir + seq!['/'] + rel,
        under(dir, seq!['/'] + rel) == seq!['/'] + rel,
        under(Seq::<char>::empty(), rel) == rel,
{
    assert((dir + seq!['/']).last() == '/');
    assert((seq!['/'] + rel)[0] == '/');
    assert(Seq::<char>::empty() + rel =~= rel);
}

proof fn lemma_stem(stem: Seq<char>, ext: Seq<char>, end: int)
    requires
        stem.len() > 0,
        forall|i: int| 0 <= i < ext.len() ==> #[trigger] ext[i] != '.',
        stem.len() < end <= stem.len() + 1 + ext.len(),
    ensures
        stem_len(stem + seq!['.'] + ext, end) == stem.len(),
    decreases end,
{
    let n = stem + seq!['.'] + ext;
    if end > stem.len() + 1 {
        assert(n[end - 1] == ext[end - 1 - stem.len() - 1]);
        lemma_stem(stem, ext, end - 1);
    } else {
        assert(n[end - 1] == '.');
    }
}

/// The extension of a file is what follows the last dot of its name. To give the file
/// another leaves its directory and the rest of its name as they are.
pub proof fn law_extension_alone_is_replaced(
    dir: Seq<char>,
    stem: Seq<char>,
    ext: Seq<char>,
    new: Seq<char>,
)
    requires
        dir.len() > 0,
        stem.len() > 0,
        ext.len() > 0,
        new.len() > 0,
        forall|i: int| 0 <= i < stem.len() ==> #[trigger] stem[i] != '/',
        forall|i: int| 0 <= i < ext.len() ==> #[trigger] ext[i] != '/' && ext[i] != '.',
    ensures
        extension_of(under(dir, stem + seq!['.'] + ext)) == Some(ext),
        extended(under(dir, stem + seq!['.'] + ext), new) == under(dir, stem + seq!['.'] + new),
{
    let n = stem + seq!['.'] + ext;
    let p = under(dir, n);
    assert(n.last() == ext.last());
    assert(ext.last() != '.');
    assert forall|i: int| 0 <= i < n.len() implies #[trigger] n[i] != '/' by {
        if i < stem.len() {
            assert(n[i] == stem[i]);
        } else if i > stem.len() {
            assert(n[i] == ext[i - stem.len() - 1]);
        }
    }
    assert(n != seq!['.'] && n != seq!['.', '.']) by {
        assert(seq!['.'].last() == '.' && seq!['.', '.'].last() == '.');
    }
    law_join_adds_one_component(dir, n);
    lemma_stem(stem, ext, n.len() as int);
    assert(n.skip(stem.len() as int + 1) =~= ext);
    assert(n[0] == stem[0]);
    let m = stem + seq!['.'] + new;
    assert(m[0] == stem[0]);
    let d = if dir.last() == '/' {
        dir
    } else {
        dir + seq!['/']
    };
    assert(p =~= d + n);
    assert(under(dir, m) =~= d + m);
    assert(p.take(p.len() - n.len() + stem.len()) =~= d + stem);
    assert(d + stem + (seq!['.'] + new) =~= d + m);
}

/// A file whose name has no dot gets the extension behind its name.
pub proof fn law_extension_is_added(dir: Seq<char>, name: Seq<char>, new: Seq<char>)
    requires
        dir.len() > 0,
        name.len() > 0,
        new.len() > 0,
        forall|i: int| 0 <= i < name.len() ==> #[trigger] name[i] != '/' && name[i] != '.',
    ensures
        extension_of(under(dir, name)) is None,
        extended(under(dir, name), new) == under(dir, name + seq!['.'] + new),
{
    assert(name != seq!['.'] && name != seq!['.', '.']) by {
        assert(seq!['.'][0] == '.' && seq!['.', '.'][0] == '.');
    }
    law_join_adds_one_component(dir, name);
    lemma_no_stem(name, name.len() as int);
    let p = under(dir, name);
    let m = name + seq!['.'] + new;
    assert(m[0] == name[0]);
    let d = if dir.last() == '/' {
        dir
    } else {
        dir + seq!['/']
    };
    assert(p =~= d + name);
    assert(under(dir, m) =~= d + m);
    assert(p.take(p.len() as int) =~= p);
    assert(p + (seq!['.'] + new) =~= d + m);
}

proof fn lemma_no_stem(n: Seq<char>, end: int)
    requires
        0 <= end <= n.len(),
        forall|i: int| 0 <= i < n.len() ==> #[trigger] n[i] != '.',
    ensures
        stem_len(n, end) == n.len(),
    decreases end,
{
    if end > 1 {
        assert(n[end - 1] != '.');
        lemma_no_stem(n, end - 1);
    }
}

proof fn lemma_named_below(d: Seq<char>, name: Seq<char>, from: int)
    requires
        d.len() > 0,
        d.last() == '/',
        is_plain_name(name),
        0 <= from <= d.len(),
    ensures
        named_from(d + name, from) == named_from(d, from) + 1,
    decreases d.len() - from,
{
    let s = d + name;
    let sep = seq!['/'];
    assert(sep[0] == '/');
    assert(sep.contains('/'));
    let rest = s.skip(from);
    if from == d.len() {
        assert(rest =~= name);
        crate::text::lemma_cut_is(name, sep, name.len() as int);
        assert(name.take(name.len() as int) =~= name);
    } else {
        let here = d.skip(from);
        crate::text::lemma_cut(here, sep);
        let i = crate::text::cut(here, sep) as int;
        assert(here.last() == '/');
        assert(i < here.len()) by {
            if i == here.len() {
                assert(sep.contains(here[here.len() - 1]));
            }
        }
        assert forall|j: int| 0 <= j < i implies !sep.contains(#[trigger] rest[j]) by {
            assert(rest[j] == here[j]);
        }
        assert(rest[i] == here[i]);
        crate::text::lemma_cut_is(rest, sep, i);
        assert(rest.take(i) =~= here.take(i));
        lemma_named_below(d, name, from + i + 1);
    }
}

proof fn lemma_named_slash(p: Seq<char>, from: int)
    requires
        0 <= from <= p.len(),
    ensures
        named_from(p + seq!['/'], from) == named_from(p, from),
    decreases p.len() - from,
{
    let s = p + seq!['/'];
    let sep = seq!['/'];
    assert(sep[0] == '/');
    assert(sep.contains('/'));
    let rest = s.skip(from);
    let here = p.skip(from);
    crate::text::lemma_cut(here, sep);
    let i = crate::text::cut(here, sep) as int;
    assert forall|j: int| 0 <= j < i implies !sep.contains(#[trigger] rest[j]) by {
        assert(rest[j] == here[j]);
    }
    if i < here.len() {
        assert(rest[i] == here[i]);
        crate::text::lemma_cut_is(rest, sep, i);
        assert(rest.take(i) =~= here.take(i));
        lemma_named_slash(p, from + i + 1);
    } else {
        assert(rest[i] == '/');
        crate::text::lemma_cut_is(rest, sep, i);
        assert(rest.take(i) =~= here.take(i));
        assert(named_from(s, from + i + 1) == 0);
    }
}

/// A file or directory is one deeper than the directory that it is in.
pub proof fn law_one_deeper_than_its_directory(dir: Seq<char>, name: Seq<char>)
    requires
        dir.len() > 0,
        is_plain_name(name),
    ensures
        depth(under(dir, name)) == depth(dir) + 1,
{
    let p = under(dir, name);
    let d = if dir.last() == '/' {
        dir
    } else {
        dir + seq!['/']
    };
    assert(p =~= d + name);
    assert(base_len(p) == base_len(dir)) by {
        if dir.len() == 1 && dir[0] == '.' {
            assert(p[1] == '/');
        }
    }
    lemma_named_below(d, name, base_len(dir) as int);
    if dir.last() != '/' {
        lemma_named_slash(dir, base_len(dir) as int);
    }
}

/// Separators and dots at the end of a path say nothing; a path that leads back up has no
/// name.
pub proof fn law_idle_ends_say_nothing(p: Seq<char>)
    requires
        p.len() > 0,
    ensures
        settled(p + seq!['/']) == settled(p),
        settled(p + seq!['/', '.']) == settled(p),
        name_of(p + seq!['/']) == name_of(p),
        name_of(p + seq!['/', '.']) == name_of(p),
        parent_of(p + seq!['/']) == parent_of(p),
        name_of(p + seq!['/', '.', '.']) is None,
        depth(p + seq!['/']) == depth(p),
{
    reveal_with_fuel(tail_start, 4);
    let q = p + seq!['/'];
    assert(base_len(q) == base_len(p)) by {
        if p.len() == 1 && p[0] == '.' {
            assert(q[1] == '/');
        }
    }
    assert(tail(q) =~= seq![]);
    assert(head(q) =~= p);
    let r = p + seq!['/', '.'];
    assert(base_len(r) == base_len(p)) by {
        if p.len() == 1 && p[0] == '.' {
            assert(r[1] == '/');
        }
    }
    assert(r[p.len() as int] == '/');
    assert(r[p.len() as int + 1] == '.');
    assert(tail_start(r, r.len() as int) == p.len() + 1);
    assert(tail(r) =~= seq!['.']);
    assert(head(r) =~= p);
    let u = p + seq!['/', '.', '.'];
    assert(base_len(u) == base_len(p)) by {
        if p.len() == 1 && p[0] == '.' {
            assert(u[1] == '/');
        }
    }
    assert(u[p.len() as int] == '/');
    assert(u[p.len() as int + 1] == '.');
    assert(u[p.len() as int + 2] == '.');
    assert(tail_start(u, u.len() as int) == p.len() + 1);
    assert(tail(u) =~= seq!['.', '.']);
    assert(tail(u).len() == 2);
    assert(settled(u) == u);
    lemma_named_slash(p, base_len(p) as int);
}

/// A name by itself is its own name, in no directory and one deep; the root is one deep.
pub proof fn law_name_by_itself(name: Seq<char>)
    requires
        is_plain_name(name),
    ensures
        name_of(name) == Some(name),
        parent_of(name) == Some(Seq::<char>::empty()),
        depth(name) == 1,
        depth(seq!['/']) == 1,
        name_of(seq!['/']) is None,
        parent_of(seq!['/']) is None,
{
    if name.len() == 1 && name[0] == '.' {
        assert(name =~= seq!['.']);
    }
    assert(name[0] != '/');
    assert(base_len(name) == 0);
    lemma_tail_start(name, name.len() as int);
    assert(tail_start(name, name.len() as int) == 0);
    assert(tail(name) =~= name);
    assert(settled(name) == name);
    assert(head(name) =~= Seq::<char>::empty());
    assert(settled(Seq::<char>::empty()) == Seq::<char>::empty());
    let seps = seq!['/'];
    assert(name.skip(0) =~= name);
    assert forall|j: int| 0 <= j < name.len() implies !seps.contains(#[trigger] name[j]) by {}
    crate::text::lemma_cut_is(name, seps, name.len() as int);
    assert(name.take(name.len() as int) =~= name);
    let root = seq!['/'];
    assert(root[0] == '/');
    assert(base_len(root) == 1);
    assert(settled(root) == root);
    assert(!leads_with_dot(root));
}

/// What makes a name of a directory entry: it is not empty, not a dot or two, and has no
/// separator.
pub proof fn law_plain_names(n: Seq<char>)
    ensures
        is_plain_name(n) <==> n.len() > 0 && n != seq!['.'] && n != seq!['.', '.'] && !n.contains(
            '/',
        ),
{
    if n.contains('/') {
        let i = choose|i: int| 0 <= i < n.len() && n[i] == '/';
        assert(n[i] == '/');
    } else {
        assert forall|i: int| 0 <= i < n.len() implies #[trigger] n[i] != '/' by {
            assert(n.contains(n[i]));
        }
    }
}

} // verus!
