//! Text primitives. Every function works on whole characters and states its
//! result over `Seq<char>`; the byte length of a text is the length of its
//! UTF-8 encoding.
use vstd::prelude::*;
use vstd::slice::slice_subrange;
use vstd::utf8::{encode_utf8, is_ascii_chars};

verus! {

// ---------------------------------------------------------------------------
// Strings and their characters
// ---------------------------------------------------------------------------

/// `String::push` appends the character to the end of the string.
pub assume_specification[ String::push ](s: &mut String, c: char)
    ensures
        final(s)@ == old(s)@.push(c),
;

/// The texts held by a sequence of strings.
pub open spec fn texts(v: Seq<String>) -> Seq<Seq<char>> {
    Seq::new(v.len(), |i: int| v[i]@)
}

/// The characters of pairs of strings.
pub open spec fn pairs(v: Seq<(String, String)>) -> Seq<(Seq<char>, Seq<char>)> {
    Seq::new(v.len(), |i: int| (v[i].0@, v[i].1@))
}

/// The text of an optional string.
pub open spec fn opt_text(v: Option<String>) -> Option<Seq<char>> {
    match v {
        Some(s) => Some(s@),
        None => None,
    }
}

/// The text of an optional string slice.
pub open spec fn opt_str(v: Option<&str>) -> Option<Seq<char>> {
    match v {
        Some(s) => Some(s@),
        None => None,
    }
}

/// Appending a string appends its text.
pub broadcast proof fn lemma_texts_push(v: Seq<String>, s: String)
    ensures
        #[trigger] texts(v.push(s)) == texts(v).push(s@),
{
    assert(texts(v.push(s)) =~= texts(v).push(s@));
}

/// The characters of `s`, in order.
pub fn chars_of(s: &str) -> (v: Vec<char>)
    ensures
        v@ == s@,
{
    let mut v: Vec<char> = Vec::new();
    for c in it: s.chars()
        invariant
            v@ == s@.take(it.index()),
            it.seq() == s@,
    {
        v.push(c);
    }
    v
}

/// The string made of the characters of `v`, in order.
pub fn string_of(v: &[char]) -> (s: String)
    ensures
        s@ == v@,
{
    let mut s = String::new();
    let mut i: usize = 0;
    while i < v.len()
        invariant
            i <= v.len(),
            s@ == v@.take(i as int),
        decreases v.len() - i,
    {
        s.push(v[i]);
        i += 1;
    }
    s
}

/// Whether two texts are equal.
pub fn same(a: &str, b: &str) -> (r: bool)
    ensures
        r == (a@ == b@),
{
    a.to_owned() == b.to_owned()
}

/// The number of bytes of the UTF-8 encoding of `s`.
pub open spec fn byte_len(s: Seq<char>) -> nat {
    encode_utf8(s).len()
}

/// The number of bytes `s` takes.
pub fn bytes_in(s: &str) -> (n: usize)
    ensures
        n == byte_len(s@),
{
    s.as_bytes().len()
}

/// A copy of an optional string slice.
pub fn owned(s: Option<&str>) -> (r: Option<String>)
    ensures
        opt_text(r) == opt_str(s),
{
    match s {
        Some(t) => Some(t.to_owned()),
        None => None,
    }
}

// ---------------------------------------------------------------------------
// White space
// ---------------------------------------------------------------------------

/// The characters with the Unicode property `White_Space`.
pub open spec fn is_space(c: char) -> bool {
    ||| 0x09 <= c as u32 <= 0x0d
    ||| c as u32 == 0x20
    ||| c as u32 == 0x85
    ||| c as u32 == 0xa0
    ||| c as u32 == 0x1680
    ||| 0x2000 <= c as u32 <= 0x200a
    ||| c as u32 == 0x2028
    ||| c as u32 == 0x2029
    ||| c as u32 == 0x202f
    ||| c as u32 == 0x205f
    ||| c as u32 == 0x3000
}

/// Whether `c` is white space.
pub fn space(c: char) -> (r: bool)
    ensures
        r == is_space(c),
{
    let u = c as u32;
    (0x09 <= u && u <= 0x0d) || u == 0x20 || u == 0x85 || u == 0xa0 || u == 0x1680 || (0x2000 <= u
        && u <= 0x200a) || u == 0x2028 || u == 0x2029 || u == 0x202f || u == 0x205f || u == 0x3000
}

/// `s` without its leading white space.
pub open spec fn trim_start(s: Seq<char>) -> Seq<char>
    decreases s.len(),
{
    if s.len() > 0 && is_space(s[0]) {
        trim_start(s.skip(1))
    } else {
        s
    }
}

/// `s` without its trailing white space.
pub open spec fn trim_end(s: Seq<char>) -> Seq<char>
    decreases s.len(),
{
    if s.len() > 0 && is_space(s.last()) {
        trim_end(s.drop_last())
    } else {
        s
    }
}

/// `s` without leading and trailing white space.
pub open spec fn trimmed(s: Seq<char>) -> Seq<char> {
    trim_end(trim_start(s))
}

/// Whether a text has nothing but white space.
pub open spec fn is_blank(s: Seq<char>) -> bool {
    trimmed(s).len() == 0
}

/// The range of `v` that is left once white space is cut off both ends.
pub fn trim_range(v: &[char]) -> (r: (usize, usize))
    ensures
        r.0 <= r.1 <= v.len(),
        v@.subrange(r.0 as int, r.1 as int) == trimmed(v@),
{
    let mut a: usize = 0;
    assert(v@.skip(0) =~= v@);
    while a < v.len() && space(v[a])
        invariant
            a <= v.len(),
            trim_start(v@) == trim_start(v@.skip(a as int)),
        decreases v.len() - a,
    {
        assert(v@.skip(a as int).skip(1) =~= v@.skip(a + 1));
        a += 1;
    }
    assert(trim_start(v@) == v@.skip(a as int));
    let mut b: usize = v.len();
    assert(v@.skip(a as int) =~= v@.subrange(a as int, b as int));
    while b > a && space(v[b - 1])
        invariant
            a <= b <= v.len(),
            trim_end(trim_start(v@)) == trim_end(v@.subrange(a as int, b as int)),
        decreases b,
    {
        assert(v@.subrange(a as int, b as int).drop_last() =~= v@.subrange(a as int, b - 1));
        b -= 1;
    }
    (a, b)
}

/// `str::trim`: the text without leading and trailing white space.
pub fn trim(s: &str) -> (r: String)
    ensures
        r@ == trimmed(s@),
{
    let v = chars_of(s);
    let (a, b) = trim_range(v.as_slice());
    string_of(slice_subrange(v.as_slice(), a, b))
}

/// Whether nothing is left of `s` once it is trimmed.
pub fn blank(s: &str) -> (r: bool)
    ensures
        r == is_blank(s@),
{
    let v = chars_of(s);
    let (a, b) = trim_range(v.as_slice());
    assert(v@.subrange(a as int, b as int).len() == b - a);
    a == b
}

/// The number of leading characters of `s` that are not white space.
pub open spec fn word_len(s: Seq<char>) -> nat
    decreases s.len(),
{
    if s.len() == 0 || is_space(s[0]) {
        0
    } else {
        1 + word_len(s.skip(1))
    }
}

proof fn lemma_word_len(s: Seq<char>)
    ensures
        word_len(s) <= s.len(),
        s.len() > 0 && !is_space(s[0]) ==> word_len(s) > 0,
    decreases s.len(),
{
    if s.len() > 0 && !is_space(s[0]) {
        lemma_word_len(s.skip(1));
    }
}

proof fn lemma_trim_start(s: Seq<char>)
    ensures
        trim_start(s).len() <= s.len(),
        trim_start(s).len() > 0 ==> !is_space(trim_start(s)[0]),
    decreases s.len(),
{
    if s.len() > 0 && is_space(s[0]) {
        lemma_trim_start(s.skip(1));
    }
}

/// The maximal runs of `s` that are free of white space, in order.
pub open spec fn words(s: Seq<char>) -> Seq<Seq<char>>
    decreases s.len(),
    via words_decreases
{
    let t = trim_start(s);
    if t.len() == 0 {
        seq![]
    } else {
        seq![t.take(word_len(t) as int)] + words(t.skip(word_len(t) as int))
    }
}

#[via_fn]
proof fn words_decreases(s: Seq<char>) {
    lemma_trim_start(s);
    lemma_word_len(trim_start(s));
}

/// `str::split_whitespace`: the words of `s`.
pub fn split_words(s: &str) -> (r: Vec<String>)
    ensures
        texts(r@) == words(s@),
{
    broadcast use lemma_texts_push;

    let v = chars_of(s);
    let mut r: Vec<String> = Vec::new();
    let mut i: usize = 0;
    assert(v@.skip(0) =~= v@);
    assert(texts(r@) + words(v@) =~= words(v@));
    loop
        invariant
            i <= v.len(),
            texts(r@) + words(v@.skip(i as int)) == words(v@),
        ensures
            texts(r@) == words(v@),
        decreases v.len() - i,
    {
        let ghost rest = v@.skip(i as int);
        let mut a: usize = i;
        while a < v.len() && space(v[a])
            invariant
                i <= a <= v.len(),
                trim_start(rest) == trim_start(v@.skip(a as int)),
            decreases v.len() - a,
        {
            assert(v@.skip(a as int).skip(1) =~= v@.skip(a + 1));
            a += 1;
        }
        let ghost t = v@.skip(a as int);
        assert(trim_start(rest) == t);
        if a == v.len() {
            assert(words(rest) =~= seq![]);
            assert(texts(r@) + words(rest) =~= texts(r@));
            break;
        }
        let mut b: usize = a;
        while b < v.len() && !space(v[b])
            invariant
                a <= b <= v.len(),
                t == v@.skip(a as int),
                word_len(t) == (b - a) + word_len(v@.skip(b as int)),
            decreases v.len() - b,
        {
            assert(v@.skip(b as int).skip(1) =~= v@.skip(b + 1));
            b += 1;
        }
        proof {
            lemma_word_len(t);
        }
        assert(word_len(t) == b - a);
        assert(t.take(b - a) =~= v@.subrange(a as int, b as int));
        assert(t.skip(b - a) =~= v@.skip(b as int));
        let ghost before = texts(r@);
        r.push(string_of(slice_subrange(v.as_slice(), a, b)));
        assert(before + words(rest) =~= texts(r@) + words(v@.skip(b as int)));
        i = b;
    }
    r
}

// ---------------------------------------------------------------------------
// Searching
// ---------------------------------------------------------------------------

/// `pat` stands in `s` at position `i`.
pub open spec fn occurs_at<T>(s: Seq<T>, pat: Seq<T>, i: int) -> bool {
    0 <= i && i + pat.len() <= s.len() && s.subrange(i, i + pat.len()) == pat
}

/// `i` is the first position at which `pat` stands in `s`.
pub open spec fn first_at<T>(s: Seq<T>, pat: Seq<T>, i: int) -> bool {
    occurs_at(s, pat, i) && forall|j: int| 0 <= j < i ==> !#[trigger] occurs_at(s, pat, j)
}

/// The first position of `pat` in `s`.
pub open spec fn find<T>(s: Seq<T>, pat: Seq<T>) -> Option<int> {
    if exists|i: int| first_at(s, pat, i) {
        Some(choose|i: int| first_at(s, pat, i))
    } else {
        None
    }
}

/// Whether `pat` stands anywhere in `s`.
pub open spec fn occurs<T>(s: Seq<T>, pat: Seq<T>) -> bool {
    exists|i: int| occurs_at(s, pat, i)
}

pub proof fn lemma_find_some<T>(s: Seq<T>, pat: Seq<T>, i: int)
    requires
        first_at(s, pat, i),
    ensures
        find(s, pat) == Some(i),
        occurs(s, pat),
{
    let k = choose|k: int| first_at(s, pat, k);
    assert(first_at(s, pat, k));
    if k < i {
        assert(!occurs_at(s, pat, k));
    } else if i < k {
        assert(!occurs_at(s, pat, i));
    }
}

/// A pattern is found exactly where it occurs at all.
pub proof fn lemma_find_occurs<T>(s: Seq<T>, pat: Seq<T>)
    ensures
        find(s, pat) is Some <==> occurs(s, pat),
        find(s, pat) matches Some(i) ==> first_at(s, pat, i),
{
    if occurs(s, pat) {
        let k = choose|k: int| occurs_at(s, pat, k);
        lemma_first_below(s, pat, k);
    }
}

proof fn lemma_first_below<T>(s: Seq<T>, pat: Seq<T>, k: int)
    requires
        occurs_at(s, pat, k),
    ensures
        exists|i: int| first_at(s, pat, i),
    decreases k,
{
    if exists|j: int| 0 <= j < k && #[trigger] occurs_at(s, pat, j) {
        let j = choose|j: int| 0 <= j < k && #[trigger] occurs_at(s, pat, j);
        lemma_first_below(s, pat, j);
    } else {
        assert(first_at(s, pat, k));
    }
}

/// Whether `pat` stands in `v` at `i`.
fn matches_at(v: &[char], pat: &[char], i: usize) -> (r: bool)
    requires
        i + pat.len() <= v.len(),
    ensures
        r == occurs_at(v@, pat@, i as int),
{
    let mut k: usize = 0;
    while k < pat.len()
        invariant
            k <= pat.len(),
            i + pat.len() <= v.len(),
            forall|j: int| 0 <= j < k ==> v@[i + j] == pat@[j],
        decreases pat.len() - k,
    {
        if v[i + k] != pat[k] {
            assert(v@.subrange(i as int, i + pat.len())[k as int] != pat@[k as int]);
            return false;
        }
        k += 1;
    }
    assert(v@.subrange(i as int, i + pat.len()) =~= pat@);
    true
}

/// The first position of `pat` in `v` that is not before `from`.
fn find_from(v: &[char], pat: &[char], from: usize) -> (r: Option<usize>)
    requires
        from <= v.len(),
    ensures
        match r {
            Some(i) => from <= i && first_at(v@.skip(from as int), pat@, i - from),
            None => !occurs(v@.skip(from as int), pat@),
        },
{
    let ghost s = v@.skip(from as int);
    let mut i: usize = from;
    while v.len() - i >= pat.len()
        invariant
            from <= i <= v.len(),
            s == v@.skip(from as int),
            forall|j: int| 0 <= j < i - from ==> !#[trigger] occurs_at(s, pat@, j),
        decreases v.len() - i,
    {
        assert(s.subrange(i - from, i - from + pat.len()) =~= v@.subrange(
            i as int,
            i + pat.len(),
        ));
        if matches_at(v, pat, i) {
            assert(occurs_at(s, pat@, i - from));
            return Some(i);
        }
        assert(pat.len() > 0) by {
            if pat.len() == 0 {
                assert(v@.subrange(i as int, i as int) =~= pat@);
            }
        }
        i += 1;
    }
    None
}

/// `str::find`: the position, counted in characters, of the first `pat` in `s`.
pub fn find_text(s: &str, pat: &str) -> (r: Option<usize>)
    ensures
        match r {
            Some(i) => find(s@, pat@) == Some(i as int) && i + pat@.len() <= s@.len(),
            None => find(s@, pat@) is None,
        },
{
    let v = chars_of(s);
    let p = chars_of(pat);
    let r = find_from(v.as_slice(), p.as_slice(), 0);
    proof {
        assert(v@.skip(0) =~= v@);
        lemma_find_occurs(s@, pat@);
        if let Some(i) = r {
            lemma_find_some(s@, pat@, i as int);
        }
    }
    r
}

/// `str::contains`.
pub fn contains(s: &str, pat: &str) -> (r: bool)
    ensures
        r == occurs(s@, pat@),
{
    proof {
        lemma_find_occurs(s@, pat@);
    }
    find_text(s, pat).is_some()
}

/// `s` begins with `pat`.
pub open spec fn begins(s: Seq<char>, pat: Seq<char>) -> bool {
    occurs_at(s, pat, 0)
}

/// `s` ends with `pat`.
pub open spec fn ends(s: Seq<char>, pat: Seq<char>) -> bool {
    occurs_at(s, pat, s.len() - pat.len())
}

/// `str::starts_with`.
pub fn starts_with(s: &str, pat: &str) -> (r: bool)
    ensures
        r == begins(s@, pat@),
{
    let v = chars_of(s);
    let p = chars_of(pat);
    p.len() <= v.len() && matches_at(v.as_slice(), p.as_slice(), 0)
}

/// `str::ends_with`.
pub fn ends_with(s: &str, pat: &str) -> (r: bool)
    ensures
        r == ends(s@, pat@),
{
    let v = chars_of(s);
    let p = chars_of(pat);
    p.len() <= v.len() && matches_at(v.as_slice(), p.as_slice(), v.len() - p.len())
}

/// `s` with every `from`, taken from the left without overlap, replaced by `to`.
/// `from` is not empty.
pub open spec fn replaced(s: Seq<char>, from: Seq<char>, to: Seq<char>) -> Seq<char>
    recommends
        from.len() > 0,
    decreases s.len(),
{
    match find(s, from) {
        Some(i) => if from.len() > 0 && 0 <= i && i + from.len() <= s.len() {
            s.take(i) + to + replaced(s.skip(i + from.len()), from, to)
        } else {
            s
        },
        None => s,
    }
}

/// `str::replace`.
pub fn replace(s: &str, from: &str, to: &str) -> (r: String)
    requires
        from@.len() > 0,
    ensures
        r@ == replaced(s@, from@, to@),
{
    let v = chars_of(s);
    let p = chars_of(from);
    let mut out = String::new();
    let mut pos: usize = 0;
    assert(v@.skip(0) =~= v@);
    assert(out@ + replaced(v@, from@, to@) =~= replaced(v@, from@, to@));
    loop
        invariant_except_break
            out@ + replaced(v@.skip(pos as int), from@, to@) == replaced(v@, from@, to@),
        invariant
            pos <= v.len(),
            p@ == from@,
            from@.len() > 0,
        ensures
            out@ == replaced(v@, from@, to@),
        decreases v.len() - pos,
    {
        let ghost rest = v@.skip(pos as int);
        proof {
            lemma_find_occurs(rest, from@);
        }
        match find_from(v.as_slice(), p.as_slice(), pos) {
            Some(i) => {
                proof {
                    lemma_find_some(rest, from@, i - pos);
                    assert(rest.take(i - pos) =~= v@.subrange(pos as int, i as int));
                    assert(rest.skip(i - pos + from@.len()) =~= v@.skip(i + from@.len()));
                }
                let ghost before = out@;
                let piece = string_of(slice_subrange(v.as_slice(), pos, i));
                out.append(piece.as_str());
                out.append(to);
                pos = i + p.len();
                assert(before + replaced(rest, from@, to@) =~= out@ + replaced(
                    v@.skip(pos as int),
                    from@,
                    to@,
                ));
            },
            None => {
                assert(replaced(rest, from@, to@) == rest);
                let piece = string_of(slice_subrange(v.as_slice(), pos, v.len()));
                assert(rest =~= v@.subrange(pos as int, v.len() as int));
                out.append(piece.as_str());
                break;
            },
        }
    }
    out
}

// ---------------------------------------------------------------------------
// Splitting
// ---------------------------------------------------------------------------

/// The position of the first character of `s` that is one of `seps`, or the
/// length of `s`.
pub open spec fn cut(s: Seq<char>, seps: Seq<char>) -> nat
    decreases s.len(),
{
    if s.len() == 0 || seps.contains(s[0]) {
        0
    } else {
        1 + cut(s.skip(1), seps)
    }
}

/// Where the first separator stands.
pub proof fn lemma_cut(s: Seq<char>, seps: Seq<char>)
    ensures
        cut(s, seps) <= s.len(),
        cut(s, seps) < s.len() ==> seps.contains(s[cut(s, seps) as int]),
        forall|j: int| 0 <= j < cut(s, seps) ==> !seps.contains(#[trigger] s[j]),
    decreases s.len(),
{
    if s.len() > 0 && !seps.contains(s[0]) {
        let t = s.skip(1);
        lemma_cut(t, seps);
        assert forall|j: int| 0 <= j < cut(s, seps) implies !seps.contains(#[trigger] s[j]) by {
            if j > 0 {
                assert(t[j - 1] == s[j]);
            }
        }
    }
}

/// The first separator stands at `k` if none stands before it.
pub proof fn lemma_cut_is(s: Seq<char>, seps: Seq<char>, k: int)
    requires
        0 <= k <= s.len(),
        forall|j: int| 0 <= j < k ==> !seps.contains(#[trigger] s[j]),
        k < s.len() ==> seps.contains(s[k]),
    ensures
        cut(s, seps) == k,
{
    lemma_cut(s, seps);
    let c = cut(s, seps) as int;
    if c < k {
        assert(!seps.contains(s[c]));
    } else if k < c {
        assert(!seps.contains(s[k]));
    }
}

/// The text before and the text after the first `c`.
pub open spec fn parted(s: Seq<char>, c: char) -> Option<(Seq<char>, Seq<char>)> {
    let i = cut(s, seq![c]) as int;
    if i < s.len() {
        Some((s.take(i), s.skip(i + 1)))
    } else {
        None
    }
}

/// The pieces of `s` between separators; there is always at least one.
pub open spec fn pieces(s: Seq<char>, seps: Seq<char>) -> Seq<Seq<char>>
    decreases s.len(),
{
    let i = cut(s, seps) as int;
    if i < s.len() {
        seq![s.take(i)] + pieces(s.skip(i + 1), seps)
    } else {
        seq![s]
    }
}

/// Whether `c` is one of `set`.
fn one_of(c: char, set: &[char]) -> (r: bool)
    ensures
        r == set@.contains(c),
{
    let mut i: usize = 0;
    while i < set.len()
        invariant
            i <= set.len(),
            forall|j: int| 0 <= j < i ==> set@[j] != c,
        decreases set.len() - i,
    {
        if set[i] == c {
            assert(set@[i as int] == c);
            return true;
        }
        i += 1;
    }
    false
}

/// The first position from `from` on at which one of `seps` stands in `v`, or
/// the length of `v`.
fn cut_from(v: &[char], seps: &[char], from: usize) -> (r: usize)
    requires
        from <= v.len(),
    ensures
        from <= r <= v.len(),
        r - from == cut(v@.skip(from as int), seps@),
{
    let mut i: usize = from;
    while i < v.len() && !one_of(v[i], seps)
        invariant
            from <= i <= v.len(),
            cut(v@.skip(from as int), seps@) == (i - from) + cut(v@.skip(i as int), seps@),
        decreases v.len() - i,
    {
        assert(v@.skip(i as int).skip(1) =~= v@.skip(i + 1));
        i += 1;
    }
    i
}

/// `str::split_once` at a character.
pub fn split_once(s: &str, c: char) -> (r: Option<(String, String)>)
    ensures
        match r {
            Some((a, b)) => parted(s@, c) == Some((a@, b@)),
            None => parted(s@, c) is None,
        },
{
    let v = chars_of(s);
    let seps: [char; 1] = [c];
    assert(seps@ =~= seq![c]);
    assert(v@.skip(0) =~= v@);
    let i = cut_from(v.as_slice(), &seps, 0);
    if i < v.len() {
        let a = string_of(slice_subrange(v.as_slice(), 0, i));
        let b = string_of(slice_subrange(v.as_slice(), i + 1, v.len()));
        assert(a@ =~= s@.take(i as int));
        assert(b@ =~= s@.skip(i + 1));
        Some((a, b))
    } else {
        None
    }
}

/// `str::split` at each character of `seps`.
pub fn split(s: &str, seps: &[char]) -> (r: Vec<String>)
    ensures
        texts(r@) == pieces(s@, seps@),
        r.len() > 0,
{
    broadcast use lemma_texts_push;

    let v = chars_of(s);
    let mut r: Vec<String> = Vec::new();
    let mut pos: usize = 0;
    assert(v@.skip(0) =~= v@);
    assert(texts(r@) + pieces(v@, seps@) =~= pieces(v@, seps@));
    loop
        invariant_except_break
            texts(r@) + pieces(v@.skip(pos as int), seps@) == pieces(v@, seps@),
        invariant
            pos <= v.len(),
        ensures
            texts(r@) == pieces(v@, seps@),
            r.len() > 0,
        decreases v.len() - pos,
    {
        let ghost rest = v@.skip(pos as int);
        let i = cut_from(v.as_slice(), seps, pos);
        let ghost before = texts(r@);
        r.push(string_of(slice_subrange(v.as_slice(), pos, i)));
        assert(rest.take(i - pos) =~= v@.subrange(pos as int, i as int));
        if i == v.len() {
            assert(rest =~= rest.take(i - pos));
            assert(before + pieces(rest, seps@) =~= texts(r@));
            break;
        }
        assert(rest.skip(i - pos + 1) =~= v@.skip(i + 1));
        pos = i + 1;
        assert(before + pieces(rest, seps@) =~= texts(r@) + pieces(v@.skip(pos as int), seps@));
    }
    r
}

/// A line without the carriage return of its line break.
pub open spec fn without_cr(l: Seq<char>) -> Seq<char> {
    if l.len() > 0 && l.last() == '\r' {
        l.drop_last()
    } else {
        l
    }
}

/// The lines of `s`. A line ends at a line feed, which a carriage return may
/// precede; the last line needs no line break.
pub open spec fn lines_of(s: Seq<char>) -> Seq<Seq<char>>
    decreases s.len(),
{
    let i = cut(s, seq!['\n']) as int;
    if s.len() == 0 {
        seq![]
    } else if i < s.len() {
        seq![without_cr(s.take(i))] + lines_of(s.skip(i + 1))
    } else {
        seq![s]
    }
}

/// `str::lines`.
pub fn lines(s: &str) -> (r: Vec<String>)
    ensures
        texts(r@) == lines_of(s@),
{
    broadcast use lemma_texts_push;

    let v = chars_of(s);
    let feed: [char; 1] = ['\n'];
    assert(feed@ =~= seq!['\n']);
    let mut r: Vec<String> = Vec::new();
    let mut pos: usize = 0;
    assert(v@.skip(0) =~= v@);
    assert(texts(r@) + lines_of(v@) =~= lines_of(v@));
    while pos < v.len()
        invariant
            pos <= v.len(),
            feed@ == seq!['\n'],
            texts(r@) + lines_of(v@.skip(pos as int)) == lines_of(v@),
        decreases v.len() - pos,
    {
        let ghost rest = v@.skip(pos as int);
        let i = cut_from(v.as_slice(), &feed, pos);
        let ghost before = texts(r@);
        assert(rest.take(i - pos) =~= v@.subrange(pos as int, i as int));
        if i == v.len() {
            r.push(string_of(slice_subrange(v.as_slice(), pos, i)));
            assert(rest =~= rest.take(i - pos));
            assert(lines_of(v@.skip(i as int)) =~= seq![]);
            assert(before + lines_of(rest) =~= texts(r@) + lines_of(v@.skip(i as int)));
            pos = i;
        } else {
            let end = if i > pos && v[i - 1] == '\r' {
                i - 1
            } else {
                i
            };
            r.push(string_of(slice_subrange(v.as_slice(), pos, end)));
            assert(v@.subrange(pos as int, end as int) =~= without_cr(rest.take(i - pos)));
            assert(rest.skip(i - pos + 1) =~= v@.skip(i + 1));
            pos = i + 1;
            assert(before + lines_of(rest) =~= texts(r@) + lines_of(v@.skip(pos as int)));
        }
    }
    assert(lines_of(v@.skip(pos as int)) =~= seq![]);
    assert(texts(r@) + lines_of(v@.skip(pos as int)) =~= texts(r@));
    r
}

/// The texts of `l` with `sep` between neighbours.
pub open spec fn joined(l: Seq<Seq<char>>, sep: Seq<char>) -> Seq<char>
    decreases l.len(),
{
    if l.len() == 0 {
        seq![]
    } else if l.len() == 1 {
        l[0]
    } else {
        joined(l.drop_last(), sep) + sep + l.last()
    }
}

/// `[String]::join`.
pub fn join(l: &Vec<String>, sep: &str) -> (r: String)
    ensures
        r@ == joined(texts(l@), sep@),
{
    let mut r = String::new();
    let ghost all = texts(l@);
    let mut i: usize = 0;
    while i < l.len()
        invariant
            i <= l.len(),
            all == texts(l@),
            r@ == joined(all.take(i as int), sep@),
        decreases l.len() - i,
    {
        let ghost t = all.take(i + 1);
        assert(t.drop_last() =~= all.take(i as int));
        assert(t.last() == l@[i as int]@);
        if i > 0 {
            r.append(sep);
        }
        let ghost before = r@;
        r.append(l[i].as_str());
        if i == 0 {
            assert(r@ =~= t[0]);
        }
        i += 1;
    }
    assert(all.take(i as int) =~= all);
    r
}

// ---------------------------------------------------------------------------
// Letter case
// ---------------------------------------------------------------------------

/// `c`, in lower case if it is an ASCII letter.
pub open spec fn lower_char(c: char) -> char {
    if 'A' <= c && c <= 'Z' {
        (c as u32 + 32) as char
    } else {
        c
    }
}

/// `s` with its ASCII letters in lower case.
pub open spec fn lower_ascii(s: Seq<char>) -> Seq<char> {
    Seq::new(s.len(), |i: int| lower_char(s[i]))
}

/// `c`, in upper case if it is an ASCII letter.
pub open spec fn upper_char(c: char) -> char {
    if 'a' <= c && c <= 'z' {
        (c as u32 - 32) as char
    } else {
        c
    }
}

/// `s` with its ASCII letters in upper case.
pub open spec fn upper_ascii(s: Seq<char>) -> Seq<char> {
    Seq::new(s.len(), |i: int| upper_char(s[i]))
}

/// `char::to_ascii_lowercase`.
pub fn to_lower_char(c: char) -> (r: char)
    ensures
        r == lower_char(c),
{
    if 'A' <= c && c <= 'Z' {
        (c as u8 + 32) as char
    } else {
        c
    }
}

/// `str::to_ascii_lowercase`.
pub fn to_lower_ascii(s: &str) -> (r: String)
    ensures
        r@ == lower_ascii(s@),
{
    let v = chars_of(s);
    let mut r = String::new();
    let mut i: usize = 0;
    while i < v.len()
        invariant
            i <= v.len(),
            r@ == lower_ascii(v@.take(i as int)),
        decreases v.len() - i,
    {
        r.push(to_lower_char(v[i]));
        i += 1;
        assert(lower_ascii(v@.take(i as int)) =~= lower_ascii(v@.take(i - 1)).push(
            lower_char(v@[i - 1]),
        ));
    }
    assert(v@.take(i as int) =~= s@);
    r
}

/// `str::eq_ignore_ascii_case`.
pub fn same_ignoring_ascii_case(a: &str, b: &str) -> (r: bool)
    ensures
        r == (lower_ascii(a@) == lower_ascii(b@)),
{
    same(to_lower_ascii(a).as_str(), to_lower_ascii(b).as_str())
}

/// The Unicode lower case of a text that is not ASCII, as `str::to_lowercase`
/// gives it.
pub uninterp spec fn unicode_lower(s: Seq<char>) -> Seq<char>;

/// The lower case of a text.
pub open spec fn lowercase(s: Seq<char>) -> Seq<char> {
    if is_ascii_chars(s) {
        lower_ascii(s)
    } else {
        unicode_lower(s)
    }
}

/// `str::to_lowercase`. Of an ASCII text it is the ASCII lower case, letter by
/// letter; of any other text the result is named.
#[verifier::external_body]
pub(crate) fn to_lowercase(s: &str) -> (r: String)
    ensures
        is_ascii_chars(s@) ==> r@ == lower_ascii(s@),
        !is_ascii_chars(s@) ==> r@ == unicode_lower(s@),
{
    s.to_lowercase()
}

/// The Unicode upper case of a text that is not ASCII, as `str::to_uppercase`
/// gives it.
pub uninterp spec fn unicode_upper(s: Seq<char>) -> Seq<char>;

/// The upper case of a text.
pub open spec fn uppercase(s: Seq<char>) -> Seq<char> {
    if is_ascii_chars(s) {
        upper_ascii(s)
    } else {
        unicode_upper(s)
    }
}

/// `str::to_uppercase`. Of an ASCII text it is the ASCII upper case, letter by
/// letter; of any other text the result is named.
#[verifier::external_body]
pub(crate) fn to_uppercase(s: &str) -> (r: String)
    ensures
        is_ascii_chars(s@) ==> r@ == upper_ascii(s@),
        !is_ascii_chars(s@) ==> r@ == unicode_upper(s@),
{
    s.to_uppercase()
}

// ---------------------------------------------------------------------------
// Numbers
// ---------------------------------------------------------------------------

/// The decimal digit `d`.
pub open spec fn digit_char(d: nat) -> char {
    (48 + d) as char
}

/// The decimal notation of `n`, without leading zeros.
pub open spec fn decimal(n: nat) -> Seq<char>
    decreases n,
{
    if n < 10 {
        seq![digit_char(n)]
    } else {
        decimal(n / 10).push(digit_char(n % 10))
    }
}

/// The decimal notation of `n`.
pub fn decimal_of(n: u64) -> (r: String)
    ensures
        r@ == decimal(n as nat),
    decreases n,
{
    let d = (48 + (n % 10) as u8) as char;
    if n < 10 {
        let mut r = String::new();
        r.push(d);
        assert(r@ =~= decimal(n as nat));
        r
    } else {
        let mut r = decimal_of(n / 10);
        r.push(d);
        r
    }
}

/// The decimal digits of `n`, behind a sign where it is negative.
pub open spec fn signed(n: int) -> Seq<char> {
    if n < 0 {
        seq!['-'] + decimal((-n) as nat)
    } else {
        decimal(n as nat)
    }
}

/// The decimal digits of `n`, behind a sign where it is negative.
pub fn signed_of(n: i32) -> (r: String)
    ensures
        r@ == signed(n as int),
{
    if n < 0 {
        let mut r = "-".to_owned();
        proof {
            reveal_strlit("-");
        }
        r.append(decimal_of((-(n as i64)) as u64).as_str());
        assert(r@ == seq!['-'] + decimal((-n) as nat));
        r
    } else {
        decimal_of(n as u64)
    }
}

/// How a flag reads.
pub open spec fn flag(b: bool) -> Seq<char> {
    if b {
        "true"@
    } else {
        "false"@
    }
}

/// How a flag reads.
pub fn flag_of(b: bool) -> (r: &'static str)
    ensures
        r@ == flag(b),
{
    if b {
        "true"
    } else {
        "false"
    }
}

/// The text as a quoted literal.
pub uninterp spec fn quoted(s: Seq<char>) -> Seq<char>;

/// `format!` of a string with `{:?}`, which quotes it and escapes what does not
/// print. The result is named.
#[verifier::external_body]
pub(crate) fn quote(s: &str) -> (r: String)
    ensures
        r@ == quoted(s@),
{
    format!("{s:?}")
}

/// The value of a digit.
pub open spec fn digit_value(c: char) -> nat {
    (c as u32 - 48) as nat
}

/// Every character of `s` is a decimal digit.
pub open spec fn all_digits(s: Seq<char>) -> bool {
    forall|i: int| 0 <= i < s.len() ==> '0' <= #[trigger] s[i] && s[i] <= '9'
}

/// The number that a text of decimal digits denotes.
pub open spec fn digits_value(s: Seq<char>) -> nat
    decreases s.len(),
{
    if s.len() == 0 {
        0
    } else {
        digits_value(s.drop_last()) * 10 + digit_value(s.last())
    }
}

/// What `str::parse::<usize>` makes of `s`: an optional plus sign, then at
/// least one digit, with a value that fits.
pub open spec fn parsed_usize(s: Seq<char>) -> Option<usize> {
    let d = if s.len() > 0 && s[0] == '+' {
        s.skip(1)
    } else {
        s
    };
    if d.len() > 0 && all_digits(d) && digits_value(d) <= usize::MAX {
        Some(digits_value(d) as usize)
    } else {
        None
    }
}

proof fn lemma_digits_grow(s: Seq<char>, k: int)
    requires
        0 <= k <= s.len(),
    ensures
        digits_value(s.take(k)) <= digits_value(s),
    decreases s.len(),
{
    if k < s.len() {
        assert(s.drop_last().take(k) =~= s.take(k));
        lemma_digits_grow(s.drop_last(), k);
    } else {
        assert(s.take(k) =~= s);
    }
}

/// The notation of a number is made of digits, and its value is the number.
pub proof fn lemma_decimal_value(n: nat)
    ensures
        digits_value(decimal(n)) == n,
        all_digits(decimal(n)),
        decimal(n).len() > 0,
    decreases n,
{
    if n >= 10 {
        lemma_decimal_value(n / 10);
        assert(decimal(n).drop_last() =~= decimal(n / 10));
    } else {
        reveal_with_fuel(digits_value, 2);
        assert(decimal(n).drop_last() =~= Seq::<char>::empty());
    }
}

/// A number that is written out reads back as itself.
pub proof fn law_decimal_reads_back(n: nat)
    requires
        n <= usize::MAX,
    ensures
        parsed_usize(decimal(n)) == Some(n as usize),
{
    lemma_decimal_value(n);
}

/// Different numbers are written differently.
pub proof fn law_decimals_differ(a: nat, b: nat)
    ensures
        decimal(a) == decimal(b) <==> a == b,
{
    lemma_decimal_value(a);
    lemma_decimal_value(b);
}

/// `str::parse::<usize>`, with `None` for an error.
pub fn parse_usize(s: &str) -> (r: Option<usize>)
    ensures
        r == parsed_usize(s@),
{
    let v = chars_of(s);
    let from: usize = if v.len() > 0 && v[0] == '+' {
        1
    } else {
        0
    };
    let ghost d = v@.skip(from as int);
    assert(from == 0 ==> d =~= v@);
    if from == v.len() {
        return None;
    }
    let mut n: usize = 0;
    let mut i: usize = from;
    while i < v.len()
        invariant
            from <= i <= v.len(),
            from < v.len(),
            d == v@.skip(from as int),
            d == if s@.len() > 0 && s@[0] == '+' { s@.skip(1) } else { s@ },
            n == digits_value(d.take(i - from)),
            forall|j: int| 0 <= j < i - from ==> '0' <= #[trigger] d[j] && d[j] <= '9',
        decreases v.len() - i,
    {
        let c = v[i];
        assert(c == d[i - from]);
        if c < '0' || c > '9' {
            return None;
        }
        let k: usize = c as usize - 48;
        proof {
            let t = d.take(i - from + 1);
            assert(t.drop_last() =~= d.take(i - from));
            assert(digits_value(t) == n * 10 + k);
            lemma_digits_grow(d, i - from + 1);
        }
        if n > (usize::MAX - k) / 10 {
            assert(n * 10 + k > usize::MAX);
            return None;
        }
        n = n * 10 + k;
        i += 1;
    }
    assert(d.take(i - from) =~= d);
    Some(n)
}

// ---------------------------------------------------------------------------
// What the primitives promise
// ---------------------------------------------------------------------------

/// Among the ASCII characters, the space and the five from the tabulator to the
/// carriage return are white space, and no other.
pub proof fn law_ascii_white_space(c: char)
    requires
        (c as u32) < 128,
    ensures
        is_space(c) <==> c == ' ' || ('\t' <= c && c <= '\r'),
{
}

proof fn lemma_trim_start_at(a: Seq<char>, u: Seq<char>)
    requires
        forall|i: int| 0 <= i < a.len() ==> is_space(#[trigger] a[i]),
        u.len() > 0 ==> !is_space(u[0]),
    ensures
        trim_start(a + u) == u,
    decreases a.len(),
{
    if a.len() == 0 {
        assert(a + u =~= u);
    } else {
        assert((a + u)[0] == a[0]);
        assert((a + u).skip(1) =~= a.skip(1) + u);
        lemma_trim_start_at(a.skip(1), u);
    }
}

proof fn lemma_trim_end_at(t: Seq<char>, b: Seq<char>)
    requires
        forall|i: int| 0 <= i < b.len() ==> is_space(#[trigger] b[i]),
        t.len() > 0 ==> !is_space(t.last()),
    ensures
        trim_end(t + b) == t,
    decreases b.len(),
{
    if b.len() == 0 {
        assert(t + b =~= t);
    } else {
        assert((t + b).last() == b.last());
        assert((t + b).drop_last() =~= t + b.drop_last());
        lemma_trim_end_at(t, b.drop_last());
    }
}

/// Trimming takes the white space off both ends of a text and nothing else.
pub proof fn law_trimmed_text(a: Seq<char>, t: Seq<char>, b: Seq<char>)
    requires
        forall|i: int| 0 <= i < a.len() ==> is_space(#[trigger] a[i]),
        forall|i: int| 0 <= i < b.len() ==> is_space(#[trigger] b[i]),
        t.len() > 0 ==> !is_space(t[0]) && !is_space(t.last()),
    ensures
        trimmed(a + t + b) == t,
        is_blank(a + t + b) <==> t.len() == 0,
{
    if t.len() == 0 {
        assert(a + t + b =~= (a + b) + t);
        lemma_trim_start_at(a + b, t);
        assert(trim_end(t) =~= t);
    } else {
        assert(a + t + b =~= a + (t + b));
        assert((t + b)[0] == t[0]);
        lemma_trim_start_at(a, t + b);
        lemma_trim_end_at(t, b);
    }
}

/// What a search gives is the least position at which the pattern stands, and it
/// gives one wherever there is any: at each `j` before it the pattern does not stand.
pub proof fn law_find_is_the_first(s: Seq<char>, pat: Seq<char>, i: int, j: int)
    requires
        0 <= i,
        i + pat.len() <= s.len(),
        forall|m: int| 0 <= m < pat.len() ==> s[i + m] == #[trigger] pat[m],
        0 <= j,
    ensures
        find(s, pat) matches Some(k) && 0 <= k <= i && (forall|m: int|
            0 <= m < pat.len() ==> s[k + m] == #[trigger] pat[m]) && (j < k ==> exists|m: int|
            0 <= m < pat.len() && s[j + m] != #[trigger] pat[m]),
{
    assert(s.subrange(i, i + pat.len()) =~= pat);
    assert(occurs_at(s, pat, i));
    lemma_find_occurs(s, pat);
    let k = find(s, pat)->0;
    if i < k {
        assert(!occurs_at(s, pat, i));
    }
    assert forall|m: int| 0 <= m < pat.len() implies s[k + m] == #[trigger] pat[m] by {
        assert(s.subrange(k, k + pat.len())[m] == s[k + m]);
    }
    if j < k && forall|m: int| 0 <= m < pat.len() ==> s[j + m] == #[trigger] pat[m] {
        assert(s.subrange(j, j + pat.len()) =~= pat);
        assert(occurs_at(s, pat, j));
    }
}

/// A search that gives nothing had nothing to give.
pub proof fn law_nothing_is_overlooked(s: Seq<char>, pat: Seq<char>, j: int)
    requires
        find(s, pat) is None,
        0 <= j,
        j + pat.len() <= s.len(),
    ensures
        !occurs(s, pat),
        exists|m: int| 0 <= m < pat.len() && s[j + m] != #[trigger] pat[m],
{
    lemma_find_occurs(s, pat);
    if forall|m: int| 0 <= m < pat.len() ==> s[j + m] == #[trigger] pat[m] {
        assert(s.subrange(j, j + pat.len()) =~= pat);
        assert(occurs_at(s, pat, j));
    }
}

/// A text that is made around another has it: at its start, at its end and within.
pub proof fn law_text_around_another(a: Seq<char>, p: Seq<char>, b: Seq<char>)
    ensures
        occurs(a + p + b, p),
        begins(p + b, p),
        ends(a + p, p),
{
    assert((a + p + b).subrange(a.len() as int, a.len() as int + p.len()) =~= p);
    assert(occurs_at(a + p + b, p, a.len() as int));
    assert((p + b).subrange(0, p.len() as int) =~= p);
    assert((a + p).subrange(a.len() as int, a.len() as int + p.len()) =~= p);
}

/// What is made of three texts stands where they stand in a row.
pub proof fn lemma_joined_stands(s: Seq<char>, a: Seq<char>, b: Seq<char>, c: Seq<char>)
    ensures
        occurs(s + a + b + c, a + b + c),
{
    let m = a + b + c;
    assert(s + a + b + c =~= s + m + Seq::<char>::empty());
    law_text_around_another(s, m, Seq::empty());
}

/// What stands in a text still does when more follows.
pub proof fn lemma_still_stands(s: Seq<char>, more: Seq<char>, m: Seq<char>)
    requires
        occurs(s, m),
    ensures
        occurs(s + more, m),
{
    let i = choose|i: int| occurs_at(s, m, i);
    assert((s + more).subrange(i, i + m.len()) =~= s.subrange(i, i + m.len()));
    assert(occurs_at(s + more, m, i));
}

/// What begins or ends with a text is made of it and a rest.
pub proof fn law_text_is_made_of_its_end(s: Seq<char>, p: Seq<char>)
    ensures
        ends(s, p) <==> s.len() >= p.len() && s == s.take(s.len() - p.len()) + p,
        begins(s, p) <==> s.len() >= p.len() && s == p + s.skip(p.len() as int),
{
    if s.len() >= p.len() {
        let n = s.len() - p.len();
        let e = s.take(n) + p;
        if s.subrange(n, n + p.len()) == p {
            assert(s =~= e) by {
                assert forall|i: int| n <= i < s.len() implies #[trigger] s[i] == p[i - n] by {
                    assert(s.subrange(n, n + p.len())[i - n] == s[i]);
                }
            }
        }
        if s == e {
            assert(e.subrange(n, n + p.len()) =~= p);
        }
        let f = p + s.skip(p.len() as int);
        if s.subrange(0, p.len() as int) == p {
            assert(s =~= f) by {
                assert forall|i: int| 0 <= i < p.len() implies #[trigger] s[i] == p[i] by {
                    assert(s.subrange(0, p.len() as int)[i] == s[i]);
                }
            }
        }
        if s == f {
            assert(f.subrange(0, p.len() as int) =~= p);
        }
    }
}

/// Where one character is replaced by another, each place that holds the first
/// holds the second, and every other place keeps what it holds.
pub proof fn law_replaced_char(s: Seq<char>, c: char, d: char)
    ensures
        replaced(s, seq![c], seq![d]) == Seq::new(
            s.len(),
            |i: int|
                if s[i] == c {
                    d
                } else {
                    s[i]
                },
        ),
    decreases s.len(),
{
    let from = seq![c];
    let to = seq![d];
    let want = Seq::new(
        s.len(),
        |i: int|
            if s[i] == c {
                d
            } else {
                s[i]
            },
    );
    lemma_find_occurs(s, from);
    assert forall|j: int| 0 <= j < s.len() && #[trigger] s[j] == c implies occurs_at(
        s,
        from,
        j,
    ) by {
        assert(s.subrange(j, j + 1) =~= from);
    }
    match find(s, from) {
        Some(i) => {
            assert(s.subrange(i, i + 1)[0] == s[i]);
            assert(s[i] == c);
            let rest = s.skip(i + 1);
            law_replaced_char(rest, c, d);
            assert forall|j: int| 0 <= j < i implies #[trigger] s[j] != c by {
                assert(!occurs_at(s, from, j));
            }
            let tail = replaced(rest, from, to);
            assert(replaced(s, from, to) == s.take(i) + to + tail);
            assert forall|j: int| i < j < s.len() implies #[trigger] want[j] == tail[j - i - 1] by {
                assert(rest[j - i - 1] == s[j]);
            }
            assert(s.take(i) + to + tail =~= want);
        },
        None => {
            assert forall|j: int| 0 <= j < s.len() implies #[trigger] s[j] != c by {
                if s[j] == c {
                    assert(occurs_at(s, from, j));
                }
            }
            assert(s =~= want);
        },
    }
}

/// The first occurrence of a text is replaced and the rest is gone on with; a text
/// that does not occur leaves everything as it is.
pub proof fn law_replaced_text(a: Seq<char>, from: Seq<char>, b: Seq<char>, to: Seq<char>)
    requires
        from.len() > 0,
        forall|j: int| 0 <= j < a.len() ==> !#[trigger] occurs_at(a + from + b, from, j),
    ensures
        replaced(a + from + b, from, to) == a + to + replaced(b, from, to),
        !occurs(b, from) ==> replaced(b, from, to) == b,
{
    let s = a + from + b;
    assert(s.subrange(a.len() as int, a.len() as int + from.len()) =~= from);
    lemma_find_some(s, from, a.len() as int);
    assert(s.take(a.len() as int) =~= a);
    assert(s.skip(a.len() as int + from.len()) =~= b);
    lemma_find_occurs(b, from);
}

/// A text is split at each separator: what stands before the first is a piece, and
/// what stands behind it is split in turn.
pub proof fn law_split_at_each_separator(a: Seq<char>, c: char, b: Seq<char>, seps: Seq<char>)
    requires
        forall|i: int| 0 <= i < a.len() ==> !seps.contains(#[trigger] a[i]),
        seps.contains(c),
    ensures
        pieces(a, seps) == seq![a],
        pieces(a + seq![c] + b, seps) == seq![a] + pieces(b, seps),
{
    lemma_cut_is(a, seps, a.len() as int);
    let s = a + seq![c] + b;
    assert forall|j: int| 0 <= j < a.len() implies !seps.contains(#[trigger] s[j]) by {
        assert(s[j] == a[j]);
    }
    assert(s[a.len() as int] == c);
    lemma_cut_is(s, seps, a.len() as int);
    assert(s.take(a.len() as int) =~= a);
    assert(s.skip(a.len() as int + 1) =~= b);
}

/// A text is parted at the first `c`, and only where it has one.
pub proof fn law_parted_at_the_first(a: Seq<char>, c: char, b: Seq<char>)
    requires
        forall|i: int| 0 <= i < a.len() ==> #[trigger] a[i] != c,
    ensures
        parted(a, c) is None,
        parted(a + seq![c] + b, c) == Some((a, b)),
{
    let seps = seq![c];
    assert(seps[0] == c);
    assert(seps.contains(c));
    lemma_cut_is(a, seps, a.len() as int);
    let s = a + seq![c] + b;
    assert forall|j: int| 0 <= j < a.len() implies !seps.contains(#[trigger] s[j]) by {
        assert(s[j] == a[j]);
    }
    assert(s[a.len() as int] == c);
    lemma_cut_is(s, seps, a.len() as int);
    assert(s.take(a.len() as int) =~= a);
    assert(s.skip(a.len() as int + 1) =~= b);
}

/// A line ends at a line feed, with or without a carriage return before it, and the
/// last line needs none.
pub proof fn law_line_by_line(l: Seq<char>, rest: Seq<char>)
    requires
        forall|i: int| 0 <= i < l.len() ==> #[trigger] l[i] != '\n',
        l.len() > 0 ==> l.last() != '\r',
    ensures
        l.len() > 0 ==> lines_of(l) == seq![l],
        lines_of(l + seq!['\n'] + rest) == seq![l] + lines_of(rest),
        lines_of(l + seq!['\r', '\n'] + rest) == seq![l] + lines_of(rest),
        lines_of(Seq::<char>::empty()) == Seq::<Seq<char>>::empty(),
{
    let seps = seq!['\n'];
    assert(seps[0] == '\n');
    assert(seps.contains('\n'));
    lemma_cut_is(l, seps, l.len() as int);
    let s = l + seq!['\n'] + rest;
    assert forall|j: int| 0 <= j < l.len() implies !seps.contains(#[trigger] s[j]) by {
        assert(s[j] == l[j]);
    }
    assert(s[l.len() as int] == '\n');
    lemma_cut_is(s, seps, l.len() as int);
    assert(s.take(l.len() as int) =~= l);
    assert(s.skip(l.len() as int + 1) =~= rest);
    let t = l + seq!['\r', '\n'] + rest;
    assert forall|j: int| 0 <= j < l.len() + 1 implies !seps.contains(#[trigger] t[j]) by {
        if j < l.len() {
            assert(t[j] == l[j]);
        }
    }
    assert(t[l.len() as int + 1] == '\n');
    lemma_cut_is(t, seps, l.len() as int + 1);
    assert(t.take(l.len() as int + 1) =~= l.push('\r'));
    assert(l.push('\r').drop_last() =~= l);
    assert(t.skip(l.len() as int + 2) =~= rest);
}

proof fn lemma_word_len_is(w: Seq<char>, rest: Seq<char>)
    requires
        forall|i: int| 0 <= i < w.len() ==> !is_space(#[trigger] w[i]),
        rest.len() > 0 ==> is_space(rest[0]),
    ensures
        word_len(w + rest) == w.len(),
    decreases w.len(),
{
    if w.len() > 0 {
        assert((w + rest)[0] == w[0]);
        assert((w + rest).skip(1) =~= w.skip(1) + rest);
        lemma_word_len_is(w.skip(1), rest);
    } else {
        assert(w + rest =~= rest);
    }
}

/// A word is what stands between white space; the words behind it follow.
pub proof fn law_word_by_word(a: Seq<char>, w: Seq<char>, rest: Seq<char>)
    requires
        forall|i: int| 0 <= i < a.len() ==> is_space(#[trigger] a[i]),
        w.len() > 0,
        forall|i: int| 0 <= i < w.len() ==> !is_space(#[trigger] w[i]),
        rest.len() > 0 ==> is_space(rest[0]),
    ensures
        words(a + w + rest) == seq![w] + words(rest),
        words(a) == Seq::<Seq<char>>::empty(),
{
    let t = w + rest;
    assert(a + w + rest =~= a + t);
    assert(t[0] == w[0]);
    lemma_trim_start_at(a, t);
    lemma_word_len_is(w, rest);
    assert(t.take(w.len() as int) =~= w);
    assert(t.skip(w.len() as int) =~= rest);
    assert(a + Seq::<char>::empty() =~= a);
    lemma_trim_start_at(a, Seq::empty());
}

/// Of an ASCII text the lower and the upper case differ from it in its letters
/// alone, and each letter in its case alone.
pub proof fn law_case_of_ascii(s: Seq<char>, i: int)
    requires
        is_ascii_chars(s),
        0 <= i < s.len(),
    ensures
        lowercase(s).len() == s.len() && uppercase(s).len() == s.len(),
        'A' <= s[i] && s[i] <= 'Z' ==> lowercase(s)[i] as u32 == s[i] as u32 + 32
            && uppercase(s)[i] == s[i],
        'a' <= s[i] && s[i] <= 'z' ==> uppercase(s)[i] as u32 == s[i] as u32 - 32
            && lowercase(s)[i] == s[i],
        !('A' <= s[i] && s[i] <= 'Z') && !('a' <= s[i] && s[i] <= 'z') ==> lowercase(s)[i] == s[i]
            && uppercase(s)[i] == s[i],
{
}

/// The case of letters beyond ASCII stays where only ASCII is changed.
pub proof fn law_ascii_case_alone(s: Seq<char>, i: int)
    requires
        0 <= i < s.len(),
    ensures
        lower_ascii(s).len() == s.len(),
        'A' <= s[i] && s[i] <= 'Z' ==> lower_ascii(s)[i] as u32 == s[i] as u32 + 32,
        !('A' <= s[i] && s[i] <= 'Z') ==> lower_ascii(s)[i] == s[i],
{
}

/// The notation of a number is that of its tens with the digit of its ones behind.
pub proof fn law_decimal_digit_by_digit(n: nat, d: nat)
    requires
        d < 10,
    ensures
        decimal(d) == seq!["0123456789"@[d as int]],
        n > 0 ==> decimal(n * 10 + d) == decimal(n).push("0123456789"@[d as int]),
{
    reveal_strlit("0123456789");
    assert((n * 10 + d) / 10 == n);
    assert((n * 10 + d) % 10 == d);
}

/// A number may be written with leading zeros and a plus sign; nothing but digits
/// makes one.
pub proof fn law_parsed_number(n: nat, c: char)
    requires
        n <= usize::MAX,
    ensures
        parsed_usize(seq!['+'] + decimal(n)) == Some(n as usize),
        !('0' <= c && c <= '9') ==> parsed_usize(decimal(n).push(c)) is None,
        parsed_usize(Seq::<char>::empty()) is None,
{
    lemma_decimal_value(n);
    let p = seq!['+'] + decimal(n);
    assert(p[0] == '+');
    assert(p.skip(1) =~= decimal(n));
    let q = decimal(n).push(c);
    assert(q[0] == decimal(n)[0]);
    assert(q[q.len() - 1] == c);
}

/// Texts are joined with the separator between them, and only there.
pub proof fn law_joined_with_separators(l: Seq<Seq<char>>, t: Seq<char>, sep: Seq<char>)
    ensures
        joined(seq![], sep).len() == 0,
        joined(seq![t], sep) == t,
        l.len() > 0 ==> joined(l.push(t), sep) == joined(l, sep) + sep + t,
{
    assert(l.push(t).drop_last() =~= l);
    assert(l.push(t).last() == t);
    assert(seq![t][0] == t);
}

/// A number below zero is written behind a minus sign, and truth as a word.
pub proof fn law_signed_numbers_and_truth(n: nat)
    ensures
        signed(n as int) == decimal(n),
        n > 0 ==> signed(-(n as int)) == seq!['-'] + decimal(n),
        flag(true) == "true"@,
        flag(false) == "false"@,
{
}

} // verus!
