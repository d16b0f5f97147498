//! Character-level helpers: whitespace, word splitting, joining, trimming.
use vstd::prelude::*;

verus! {

/// Unicode `White_Space` property, the set that `char::is_whitespace`,
/// `str::trim` and `str::split_whitespace` use.
pub open spec fn is_ws(c: char) -> bool {
    let u = c as u32;
    ||| 0x09 <= u && u <= 0x0D
    ||| u == 0x20
    ||| u == 0x85
    ||| u == 0xA0
    ||| u == 0x1680
    ||| 0x2000 <= u && u <= 0x200A
    ||| u == 0x2028
    ||| u == 0x2029
    ||| u == 0x202F
    ||| u == 0x205F
    ||| u == 0x3000
}

/// Executable whitespace test.
pub fn is_whitespace(c: char) -> (r: bool)
    ensures
        r == is_ws(c),
{
    let u = c as u32;
    (0x09 <= u && u <= 0x0D) || u == 0x20 || u == 0x85 || u == 0xA0 || u == 0x1680 || (0x2000
        <= u && u <= 0x200A) || u == 0x2028 || u == 0x2029 || u == 0x202F || u == 0x205F || u
        == 0x3000
}

/// The maximal runs of non-whitespace characters of `s`, in order.
pub open spec fn words(s: Seq<char>) -> Seq<Seq<char>>
    decreases s.len(),
{
    if s.len() == 0 {
        seq![]
    } else {
        let w = words(s.drop_last());
        let c = s.last();
        if is_ws(c) {
            w
        } else if s.len() >= 2 && !is_ws(s[s.len() - 2]) {
            w.drop_last().push(w.last().push(c))
        } else {
            w.push(seq![c])
        }
    }
}

/// The elements of `ws` separated by `sep`.
pub open spec fn join(ws: Seq<Seq<char>>, sep: Seq<char>) -> Seq<char>
    decreases ws.len(),
{
    if ws.len() == 0 {
        seq![]
    } else if ws.len() == 1 {
        ws[0]
    } else {
        join(ws.drop_last(), sep) + sep + ws.last()
    }
}

pub open spec fn views(v: Seq<Vec<char>>) -> Seq<Seq<char>> {
    v.map_values(|w: Vec<char>| w@)
}

/// The characters of `s`, as a vector.
pub fn to_chars(s: &str) -> (r: Vec<char>)
    ensures
        r@ == s@,
{
    broadcast use vstd::string::group_string_axioms;
    let mut v: Vec<char> = Vec::new();
    for c in it: s.chars()
        invariant
            v@ == it.seq().take(it.index() as int),
            it.seq() == s@,
    {
        v.push(c);
    }
    v
}

/// Splits `s` into its whitespace-separated words.
pub fn split_words(s: &[char]) -> (r: Vec<Vec<char>>)
    ensures
        views(r@) == words(s@),
        forall|i: int| 0 <= i < r@.len() ==> r@[i]@.len() > 0,
{
    let mut done: Vec<Vec<char>> = Vec::new();
    let mut cur: Vec<char> = Vec::new();
    let mut i: usize = 0;
    while i < s.len()
        invariant
            i <= s@.len(),
            cur@.len() > 0 <==> (i > 0 && !is_ws(s@[i - 1])),
            cur@.len() > 0 ==> words(s@.take(i as int)) == views(done@).push(cur@),
            cur@.len() == 0 ==> words(s@.take(i as int)) == views(done@),
            forall|k: int| 0 <= k < done@.len() ==> done@[k]@.len() > 0,
        decreases s@.len() - i,
    {
        let c = s[i];
        proof {
            assert(s@.take(i + 1).drop_last() == s@.take(i as int));
        }
        if is_whitespace(c) {
            if cur.len() > 0 {
                let w = cur;
                cur = Vec::new();
                let ghost before = done@;
                done.push(w);
                proof {
                    assert(views(done@) =~= views(before).push(w@));
                }
            }
        } else {
            let ghost old_cur = cur@;
            cur.push(c);
            proof {
                let t = s@.take(i + 1);
                assert(t.last() == c);
                if i > 0 {
                    assert(t[i - 1] == s@[i - 1]);
                }
                if old_cur.len() > 0 {
                    let w = views(done@).push(old_cur);
                    assert(w.drop_last() =~= views(done@));
                } else {
                    assert(cur@ =~= seq![c]);
                }
            }
        }
        i = i + 1;
    }
    if cur.len() > 0 {
        let ghost before = done@;
        let w = cur;
        done.push(w);
        proof {
            assert(views(done@) =~= views(before).push(w@));
        }
    }
    proof {
        assert(s@.take(s@.len() as int) == s@);
    }
    done
}


/// `s` without its leading whitespace.
pub open spec fn trim_start(s: Seq<char>) -> Seq<char>
    decreases s.len(),
{
    if s.len() > 0 && is_ws(s[0]) {
        trim_start(s.drop_first())
    } else {
        s
    }
}

/// `s` without its trailing whitespace.
pub open spec fn trim_end(s: Seq<char>) -> Seq<char>
    decreases s.len(),
{
    if s.len() > 0 && is_ws(s.last()) {
        trim_end(s.drop_last())
    } else {
        s
    }
}

/// `s` without leading and trailing whitespace (as `str::trim`).
pub open spec fn trim(s: Seq<char>) -> Seq<char> {
    trim_end(trim_start(s))
}

/// Every occurrence of `p` in `s`, scanned left to right without overlap,
/// replaced by `r` (as `str::replace` with a non-empty pattern).
pub open spec fn replace_all(s: Seq<char>, p: Seq<char>, r: Seq<char>) -> Seq<char>
    decreases s.len(),
{
    if p.len() == 0 || s.len() < p.len() {
        s
    } else if s.take(p.len() as int) == p {
        r + replace_all(s.skip(p.len() as int), p, r)
    } else {
        seq![s[0]] + replace_all(s.skip(1), p, r)
    }
}

/// Appends `src` to `dst`.
pub fn push_all(dst: &mut Vec<char>, src: &[char])
    ensures
        final(dst)@ == old(dst)@ + src@,
{
    let ghost start = dst@;
    let mut i: usize = 0;
    while i < src.len()
        invariant
            i <= src@.len(),
            dst@ == start + src@.take(i as int),
        decreases src@.len() - i,
    {
        dst.push(src[i]);
        i = i + 1;
        proof {
            assert(dst@ =~= start + src@.take(i as int));
        }
    }
    proof {
        assert(src@.take(src@.len() as int) =~= src@);
    }
}

/// A copy of `src`.
pub fn copy_chars(src: &[char]) -> (r: Vec<char>)
    ensures
        r@ == src@,
{
    let mut v: Vec<char> = Vec::new();
    push_all(&mut v, src);
    proof {
        assert(v@ =~= src@);
    }
    v
}

/// The characters of `s` from `lo` up to `hi`.
pub fn sub_chars(s: &[char], lo: usize, hi: usize) -> (r: Vec<char>)
    requires
        lo <= hi <= s@.len(),
    ensures
        r@ == s@.subrange(lo as int, hi as int),
{
    let mut r: Vec<char> = Vec::new();
    let mut k: usize = lo;
    while k < hi
        invariant
            lo <= k <= hi <= s@.len(),
            r@ == s@.subrange(lo as int, k as int),
        decreases hi - k,
    {
        r.push(s[k]);
        k = k + 1;
        proof {
            assert(r@ =~= s@.subrange(lo as int, k as int));
        }
    }
    r
}

/// Whether `a` and `b` hold the same characters.
pub fn chars_eq(a: &[char], b: &[char]) -> (r: bool)
    ensures
        r == (a@ == b@),
{
    if a.len() != b.len() {
        return false;
    }
    let mut i: usize = 0;
    while i < a.len()
        invariant
            i <= a@.len(),
            a@.len() == b@.len(),
            forall|k: int| 0 <= k < i ==> a@[k] == b@[k],
        decreases a@.len() - i,
    {
        if a[i] != b[i] {
            return false;
        }
        i = i + 1;
    }
    proof {
        assert(a@ =~= b@);
    }
    true
}

/// Whether `p` occurs in `s` at position `at`.
pub fn occurs_at(s: &[char], p: &[char], at: usize) -> (r: bool)
    requires
        at <= s@.len(),
    ensures
        r == (at + p@.len() <= s@.len() && s@.subrange(at as int, at + p@.len()) == p@),
{
    if p.len() > s.len() - at {
        return false;
    }
    let mut k: usize = 0;
    while k < p.len()
        invariant
            k <= p@.len(),
            at + p@.len() <= s@.len(),
            forall|j: int| 0 <= j < k ==> s@[at + j] == p@[j],
        decreases p@.len() - k,
    {
        assert(at + k < s.len());
        if s[at + k] != p[k] {
            proof {
                assert(s@.subrange(at as int, at + p@.len())[k as int] != p@[k as int]);
            }
            return false;
        }
        k = k + 1;
    }
    proof {
        assert(s@.subrange(at as int, at + p@.len()) =~= p@);
    }
    true
}

/// Whether `s` starts with `p`.
pub fn starts_with(s: &[char], p: &[char]) -> (r: bool)
    ensures
        r == (p@.len() <= s@.len() && s@.take(p@.len() as int) == p@),
{
    let r = occurs_at(s, p, 0);
    proof {
        if p@.len() <= s@.len() {
            assert(s@.subrange(0, p@.len() as int) =~= s@.take(p@.len() as int));
        }
    }
    r
}

/// Whether `s` ends with `p`.
pub fn ends_with(s: &[char], p: &[char]) -> (r: bool)
    ensures
        r == (p@.len() <= s@.len() && s@.skip(s@.len() - p@.len()) == p@),
{
    if p.len() > s.len() {
        return false;
    }
    let r = occurs_at(s, p, s.len() - p.len());
    proof {
        assert(s@.subrange(s@.len() - p@.len(), s@.len() as int) =~= s@.skip(s@.len() - p@.len()));
    }
    r
}

proof fn lemma_skip_skip(s: Seq<char>, a: int, b: int)
    requires
        0 <= a,
        0 <= b,
        a + b <= s.len(),
    ensures
        s.skip(a).skip(b) == s.skip(a + b),
{
    assert(s.skip(a).skip(b) =~= s.skip(a + b));
}

/// `s` with every occurrence of the non-empty pattern `p` replaced by `r`.
pub fn replace_chars(s: &[char], p: &[char], r: &[char]) -> (out: Vec<char>)
    requires
        p@.len() > 0,
    ensures
        out@ == replace_all(s@, p@, r@),
{
    let mut out: Vec<char> = Vec::new();
    let mut i: usize = 0;
    proof {
        assert(s@.skip(0) =~= s@);
    }
    while i < s.len()
        invariant
            i <= s@.len(),
            p@.len() > 0,
            out@ + replace_all(s@.skip(i as int), p@, r@) == replace_all(s@, p@, r@),
        decreases s@.len() - i,
    {
        let ghost rest = s@.skip(i as int);
        if occurs_at(s, p, i) {
            proof {
                assert(rest.take(p@.len() as int) =~= s@.subrange(i as int, i + p@.len()));
                lemma_skip_skip(s@, i as int, p@.len() as int);
            }
            push_all(&mut out, r);
            i = i + p.len();
            proof {
                assert(out@ + replace_all(s@.skip(i as int), p@, r@) =~= replace_all(s@, p@, r@));
            }
        } else {
            proof {
                if rest.len() >= p@.len() {
                    assert(rest.take(p@.len() as int) =~= s@.subrange(i as int, i + p@.len()));
                }
                lemma_skip_skip(s@, i as int, 1);
                assert(rest[0] == s@[i as int]);
            }
            out.push(s[i]);
            i = i + 1;
            proof {
                assert(out@ + replace_all(s@.skip(i as int), p@, r@) =~= replace_all(s@, p@, r@));
            }
        }
    }
    proof {
        assert(s@.skip(i as int).len() == 0);
        assert(out@ + replace_all(s@.skip(i as int), p@, r@) =~= out@);
    }
    out
}

/// `s` with leading and trailing whitespace removed.
pub fn trim_chars(s: &[char]) -> (r: Vec<char>)
    ensures
        r@ == trim(s@),
{
    let mut lo: usize = 0;
    proof {
        assert(s@.skip(0) =~= s@);
    }
    while lo < s.len() && is_whitespace(s[lo])
        invariant
            lo <= s@.len(),
            trim_start(s@) == trim_start(s@.skip(lo as int)),
        decreases s@.len() - lo,
    {
        proof {
            assert(s@.skip(lo as int).drop_first() =~= s@.skip(lo + 1));
        }
        lo = lo + 1;
    }
    let ghost ts = s@.skip(lo as int);
    assert(trim_start(s@) == ts);
    let mut hi: usize = s.len();
    proof {
        assert(ts.take(ts.len() as int) =~= ts);
    }
    while hi > lo && is_whitespace(s[hi - 1])
        invariant
            lo <= hi <= s@.len(),
            ts == s@.skip(lo as int),
            trim_end(ts) == trim_end(ts.take(hi - lo)),
        decreases hi,
    {
        proof {
            assert(ts.take(hi - lo).drop_last() =~= ts.take(hi - 1 - lo));
        }
        hi = hi - 1;
    }
    let mut r: Vec<char> = Vec::new();
    let mut k: usize = lo;
    while k < hi
        invariant
            lo <= k <= hi <= s@.len(),
            r@ == s@.subrange(lo as int, k as int),
        decreases hi - k,
    {
        r.push(s[k]);
        k = k + 1;
        proof {
            assert(r@ =~= s@.subrange(lo as int, k as int));
        }
    }
    proof {
        assert(r@ =~= ts.take(hi - lo));
    }
    r
}

/// The elements of `ws` separated by `sep`.
pub fn join_words(ws: &Vec<Vec<char>>, sep: &[char]) -> (r: Vec<char>)
    ensures
        r@ == join(views(ws@), sep@),
{
    let mut r: Vec<char> = Vec::new();
    let mut i: usize = 0;
    while i < ws.len()
        invariant
            i <= ws@.len(),
            r@ == join(views(ws@).take(i as int), sep@),
        decreases ws@.len() - i,
    {
        let ghost prev = views(ws@).take(i as int);
        if i > 0 {
            push_all(&mut r, sep);
        }
        push_all(&mut r, ws[i].as_slice());
        i = i + 1;
        proof {
            let cur = views(ws@).take(i as int);
            assert(cur.drop_last() =~= prev);
            assert(cur.last() == ws@[i - 1]@);
            if i == 1 {
                assert(r@ =~= join(cur, sep@));
            }
        }
    }
    proof {
        assert(views(ws@).take(ws@.len() as int) =~= views(ws@));
    }
    r
}

/// The string made of the characters of `v` (`String`'s `FromIterator<&char>`).
#[verifier::external_body]
pub(crate) fn to_string(v: &[char]) -> (r: String)
    ensures
        r@ == v@,
{
    v.iter().collect()
}


/// No character of `w` is whitespace.
pub open spec fn no_ws(w: Seq<char>) -> bool {
    forall|k: int| 0 <= k < w.len() ==> !is_ws(#[trigger] w[k])
}

/// Every word is non-empty and holds no whitespace.
pub open spec fn proper_words(ws: Seq<Seq<char>>) -> bool {
    forall|i: int| 0 <= i < ws.len() ==> (#[trigger] ws[i]).len() > 0 && no_ws(ws[i])
}

/// The words of a string are non-empty and free of whitespace.
pub proof fn lemma_words_proper(s: Seq<char>)
    ensures
        proper_words(words(s)),
        s.len() > 0 && !is_ws(s.last()) ==> words(s).len() > 0 && words(s).last().last() == s.last(),
    decreases s.len(),
{
    if s.len() > 0 {
        let t = s.drop_last();
        lemma_words_proper(t);
        let w = words(t);
        let c = s.last();
        if is_ws(c) {
        } else if s.len() >= 2 && !is_ws(s[s.len() - 2]) {
            assert(t.last() == s[s.len() - 2]);
            let nw = w.drop_last().push(w.last().push(c));
            assert forall|i: int| 0 <= i < nw.len() implies (#[trigger] nw[i]).len() > 0 && no_ws(
                nw[i],
            ) by {
                if i < nw.len() - 1 {
                    assert(nw[i] == w[i]);
                } else {
                    assert(nw[i] == w[w.len() - 1].push(c));
                    assert(no_ws(w[w.len() - 1]));
                    assert forall|k: int| 0 <= k < nw[i].len() implies !is_ws(#[trigger] nw[i][k]) by {
                        if k < nw[i].len() - 1 {
                            assert(nw[i][k] == w[w.len() - 1][k]);
                        }
                    }
                }
            }
        } else {
            let nw = w.push(seq![c]);
            assert forall|i: int| 0 <= i < nw.len() implies (#[trigger] nw[i]).len() > 0 && no_ws(
                nw[i],
            ) by {
                if i < nw.len() - 1 {
                    assert(nw[i] == w[i]);
                }
            }
        }
    }
}

/// Appending a word after whitespace (or at the start) adds exactly that word.
pub proof fn lemma_words_append_word(x: Seq<char>, w: Seq<char>)
    requires
        w.len() > 0,
        no_ws(w),
        x.len() == 0 || is_ws(x.last()),
    ensures
        words(x + w) == words(x).push(w),
    decreases w.len(),
{
    let y = x + w;
    assert(y.drop_last() =~= x + w.drop_last());
    assert(y.last() == w.last());
    assert(!is_ws(w[w.len() - 1]));
    if w.len() == 1 {
        assert(x + w.drop_last() =~= x);
        if y.len() >= 2 {
            assert(y[y.len() - 2] == x.last());
        }
        assert(w =~= seq![w.last()]);
    } else {
        let w1 = w.drop_last();
        assert(no_ws(w1)) by {
            assert forall|k: int| 0 <= k < w1.len() implies !is_ws(#[trigger] w1[k]) by {
                assert(w1[k] == w[k]);
            }
        }
        lemma_words_append_word(x, w1);
        assert(y[y.len() - 2] == w[w.len() - 2]);
        assert(!is_ws(w[w.len() - 2]));
        let ws = words(x).push(w1);
        assert(ws.drop_last() =~= words(x));
        assert(w1.push(w.last()) =~= w);
    }
}

/// Trailing whitespace adds no word.
pub proof fn lemma_words_append_space(x: Seq<char>, c: char)
    requires
        is_ws(c),
    ensures
        words(x.push(c)) == words(x),
{
    assert(x.push(c).drop_last() =~= x);
}

/// Joining proper words with a single space and splitting again gives the words back.
pub proof fn lemma_words_join(ws: Seq<Seq<char>>)
    requires
        proper_words(ws),
    ensures
        words(join(ws, seq![' '])) == ws,
    decreases ws.len(),
{
    if ws.len() == 0 {
    } else if ws.len() == 1 {
        assert(ws[0].len() > 0 && no_ws(ws[0]));
        lemma_words_append_word(seq![], ws[0]);
        assert(seq![] + ws[0] =~= ws[0]);
        assert(seq![].push(ws[0]) =~= ws);
    } else {
        let d = ws.drop_last();
        assert(proper_words(d)) by {
            assert forall|i: int| 0 <= i < d.len() implies (#[trigger] d[i]).len() > 0 && no_ws(d[i]) by {
                assert(d[i] == ws[i]);
            }
        }
        lemma_words_join(d);
        let x = join(d, seq![' ']);
        lemma_words_append_space(x, ' ');
        assert(x + seq![' '] =~= x.push(' '));
        assert(ws.last().len() > 0 && no_ws(ws.last())) by {
            assert(ws[ws.len() - 1] == ws.last());
        }
        lemma_words_append_word(x.push(' '), ws.last());
        assert(x + seq![' '] + ws.last() =~= x.push(' ') + ws.last());
        assert(d.push(ws.last()) =~= ws);
    }
}


/// The non-empty elements of `ws`, in order.
pub open spec fn drop_empty(ws: Seq<Seq<char>>) -> Seq<Seq<char>>
    decreases ws.len(),
{
    if ws.len() == 0 {
        seq![]
    } else {
        let d = drop_empty(ws.drop_last());
        if ws.last().len() > 0 {
            d.push(ws.last())
        } else {
            d
        }
    }
}

/// Joining whitespace-free words with single spaces and splitting again gives
/// back the non-empty ones.
pub proof fn lemma_words_join_any(ws: Seq<Seq<char>>)
    requires
        forall|i: int| 0 <= i < ws.len() ==> no_ws(#[trigger] ws[i]),
    ensures
        words(join(ws, seq![' '])) == drop_empty(ws),
    decreases ws.len(),
{
    if ws.len() == 0 {
    } else if ws.len() == 1 {
        assert(drop_empty(ws.drop_last()) =~= seq![]);
        if ws[0].len() > 0 {
            lemma_words_append_word(seq![], ws[0]);
            assert(seq![] + ws[0] =~= ws[0]);
        } else {
            assert(ws[0] =~= seq![]);
        }
        assert(ws.last() == ws[0]);
    } else {
        let d = ws.drop_last();
        assert forall|i: int| 0 <= i < d.len() implies no_ws(#[trigger] d[i]) by {
            assert(d[i] == ws[i]);
        }
        lemma_words_join_any(d);
        let x = join(d, seq![' ']);
        lemma_words_append_space(x, ' ');
        let w = ws.last();
        assert(no_ws(w)) by {
            assert(ws[ws.len() - 1] == w);
        }
        if w.len() > 0 {
            lemma_words_append_word(x.push(' '), w);
            assert(x + seq![' '] + w =~= x.push(' ') + w);
        } else {
            assert(x + seq![' '] + w =~= x.push(' '));
        }
    }
}

/// Proper words are all non-empty.
pub proof fn lemma_drop_empty_proper(ws: Seq<Seq<char>>)
    requires
        proper_words(ws),
    ensures
        drop_empty(ws) == ws,
    decreases ws.len(),
{
    if ws.len() > 0 {
        let d = ws.drop_last();
        assert(proper_words(d)) by {
            assert forall|i: int| 0 <= i < d.len() implies (#[trigger] d[i]).len() > 0 && no_ws(d[i]) by {
                assert(d[i] == ws[i]);
            }
        }
        lemma_drop_empty_proper(d);
        assert(ws[ws.len() - 1] == ws.last());
        assert(d.push(ws.last()) =~= ws);
    }
}

/// The non-empty elements of a sequence of whitespace-free words are proper words.
pub proof fn lemma_drop_empty_is_proper(ws: Seq<Seq<char>>)
    requires
        forall|i: int| 0 <= i < ws.len() ==> no_ws(#[trigger] ws[i]),
    ensures
        proper_words(drop_empty(ws)),
    decreases ws.len(),
{
    if ws.len() > 0 {
        let d = ws.drop_last();
        assert forall|i: int| 0 <= i < d.len() implies no_ws(#[trigger] d[i]) by {
            assert(d[i] == ws[i]);
        }
        lemma_drop_empty_is_proper(d);
        assert(ws[ws.len() - 1] == ws.last());
        let dd = drop_empty(d);
        if ws.last().len() > 0 {
            let n = dd.push(ws.last());
            assert forall|i: int| 0 <= i < n.len() implies (#[trigger] n[i]).len() > 0 && no_ws(n[i]) by {
                if i < dd.len() {
                    assert(n[i] == dd[i]);
                }
            }
        }
    }
}

/// `p` occurs in `s` at position `i`.
pub open spec fn occurs(s: Seq<char>, p: Seq<char>, i: int) -> bool {
    0 <= i && i + p.len() <= s.len() && s.subrange(i, i + p.len()) == p
}

/// The first position from `i` on at which `p` occurs in `s`.
pub open spec fn first_from(s: Seq<char>, p: Seq<char>, i: int) -> Option<int>
    decreases s.len() + 1 - i,
{
    if i < 0 || i > s.len() {
        None
    } else if occurs(s, p, i) {
        Some(i)
    } else {
        first_from(s, p, i + 1)
    }
}

/// Whether `p` occurs anywhere in `s`.
pub open spec fn contains(s: Seq<char>, p: Seq<char>) -> bool {
    first_from(s, p, 0) is Some
}

proof fn lemma_first_from_none_past(s: Seq<char>, p: Seq<char>, i: int)
    requires
        0 <= i,
        i + p.len() > s.len(),
    ensures
        first_from(s, p, i) is None,
    decreases s.len() + 1 - i,
{
    if i <= s.len() {
        lemma_first_from_none_past(s, p, i + 1);
    }
}

/// A position that `first_from` gives is an occurrence at or after the start.
pub proof fn lemma_first_from_occurs(s: Seq<char>, p: Seq<char>, i: int)
    ensures
        first_from(s, p, i) matches Some(k) ==> occurs(s, p, k) && i <= k,
    decreases s.len() + 1 - i,
{
    if 0 <= i <= s.len() && !occurs(s, p, i) {
        lemma_first_from_occurs(s, p, i + 1);
    }
}

/// The first position at which `p` occurs in `s`.
pub fn find_chars(s: &[char], p: &[char]) -> (r: Option<usize>)
    ensures
        match r {
            Some(i) => first_from(s@, p@, 0) == Some(i as int),
            None => first_from(s@, p@, 0) is None,
        },
{
    let mut i: usize = 0;
    while i <= s.len()
        invariant
            i <= s@.len() + 1,
            first_from(s@, p@, 0) == first_from(s@, p@, i as int),
        decreases s@.len() + 1 - i,
    {
        if p.len() > s.len() - i {
            proof {
                lemma_first_from_none_past(s@, p@, i as int);
            }
            return None;
        }
        if occurs_at(s, p, i) {
            return Some(i);
        }
        proof {
            if i == s@.len() {
                assert(s@.subrange(i as int, i as int) =~= p@);
            }
        }
        i = i + 1;
    }
    None
}

/// Trimming the start drops a prefix and leaves no leading whitespace.
pub proof fn lemma_trim_start_shape(s: Seq<char>)
    ensures
        trim_start(s) == s.skip(s.len() - trim_start(s).len()),
        trim_start(s).len() <= s.len(),
        trim_start(s).len() == 0 || !is_ws(trim_start(s)[0]),
    decreases s.len(),
{
    if s.len() > 0 && is_ws(s[0]) {
        lemma_trim_start_shape(s.drop_first());
        assert(s.drop_first().skip(s.drop_first().len() - trim_start(s).len()) =~= s.skip(
            s.len() - trim_start(s).len(),
        ));
    } else {
        assert(s.skip(0) =~= s);
    }
}

/// Trimming the end drops a suffix and leaves no trailing whitespace.
pub proof fn lemma_trim_end_shape(s: Seq<char>)
    ensures
        trim_end(s) == s.take(trim_end(s).len() as int),
        trim_end(s).len() <= s.len(),
        trim_end(s).len() == 0 || !is_ws(trim_end(s).last()),
    decreases s.len(),
{
    if s.len() > 0 && is_ws(s.last()) {
        lemma_trim_end_shape(s.drop_last());
        assert(s.drop_last().take(trim_end(s).len() as int) =~= s.take(trim_end(s).len() as int));
    } else {
        assert(s.take(s.len() as int) =~= s);
    }
}

/// Trimming twice is trimming once.
pub proof fn lemma_trim_idempotent(s: Seq<char>)
    ensures
        trim(trim(s)) == trim(s),
{
    let u = trim_start(s);
    let t = trim_end(u);
    lemma_trim_start_shape(s);
    lemma_trim_end_shape(u);
    if t.len() > 0 {
        assert(t[0] == u[0]);
    }
    assert(trim_start(t) == t);
}

/// A character absent from a text is absent from its trimmed form.
pub proof fn lemma_trim_keeps_absent(s: Seq<char>, c: char)
    requires
        forall|i: int| 0 <= i < s.len() ==> s[i] != c,
    ensures
        forall|i: int| 0 <= i < trim(s).len() ==> trim(s)[i] != c,
{
    let u = trim_start(s);
    lemma_trim_start_shape(s);
    lemma_trim_end_shape(u);
    let k = s.len() - u.len();
    assert forall|i: int| 0 <= i < trim(s).len() implies trim(s)[i] != c by {
        assert(trim(s)[i] == u[i]);
        assert(u[i] == s[k + i]);
    }
}

} // verus!
