//! Character-level text handling shared by every parser and renderer.
//!
//! Text is read as a sequence of `char`s. Each operation here has a spec
//! function that says what it computes, defined by recursion on the *last*
//! character so that a left-to-right scan can carry it as its loop invariant.
use vstd::prelude::*;

verus! {

/// `String::push` appends one character.
pub assume_specification[ String::push ](s: &mut String, ch: char)
    ensures
        final(s)@ == old(s)@.push(ch),
;

/// Unicode `White_Space`, which is what `char::is_whitespace` tests.
pub open spec fn is_ws(c: char) -> bool {
    ||| ('\u{9}' <= c && c <= '\u{d}')
    ||| c == ' '
    ||| c == '\u{85}'
    ||| c == '\u{a0}'
    ||| c == '\u{1680}'
    ||| ('\u{2000}' <= c && c <= '\u{200a}')
    ||| c == '\u{2028}'
    ||| c == '\u{2029}'
    ||| c == '\u{202f}'
    ||| c == '\u{205f}'
    ||| c == '\u{3000}'
}

/// `char::is_whitespace`.
pub fn is_whitespace(c: char) -> (res: bool)
    ensures
        res == is_ws(c),
{
    ('\u{9}' <= c && c <= '\u{d}') || c == ' ' || c == '\u{85}' || c == '\u{a0}' || c
        == '\u{1680}' || ('\u{2000}' <= c && c <= '\u{200a}') || c == '\u{2028}' || c
        == '\u{2029}' || c == '\u{202f}' || c == '\u{205f}' || c == '\u{3000}'
}

/// The characters of `s`, in order.
pub fn chars_of(s: &str) -> (res: Vec<char>)
    ensures
        res@ == s@,
{
    let mut res: Vec<char> = Vec::new();
    for c in it: s.chars()
        invariant
            res@ == it.seq().take(it.index() as int),
            it.seq() == s@,
    {
        res.push(c);
    }
    res
}

/// The characters of `v[lo..hi]` as a `String`.
pub fn string_of_range(v: &Vec<char>, lo: usize, hi: usize) -> (res: String)
    requires
        lo <= hi <= v@.len(),
    ensures
        res@ == v@.subrange(lo as int, hi as int),
{
    let mut res = String::new();
    let mut i = lo;
    while i < hi
        invariant
            lo <= i <= hi <= v@.len(),
            res@ == v@.subrange(lo as int, i as int),
        decreases hi - i,
    {
        res.push(v[i]);
        i += 1;
        assert(res@ =~= v@.subrange(lo as int, i as int));
    }
    res
}

/// The characters of `v` as a `String`.
pub fn string_of(v: &Vec<char>) -> (res: String)
    ensures
        res@ == v@,
{
    let res = string_of_range(v, 0, v.len());
    assert(v@.subrange(0, v@.len() as int) =~= v@);
    res
}

/// The characters `v[lo..hi]`.
pub fn slice(v: &Vec<char>, lo: usize, hi: usize) -> (res: Vec<char>)
    requires
        lo <= hi <= v@.len(),
    ensures
        res@ == v@.subrange(lo as int, hi as int),
{
    let mut res: Vec<char> = Vec::new();
    let mut i = lo;
    while i < hi
        invariant
            lo <= i <= hi <= v@.len(),
            res@ == v@.subrange(lo as int, i as int),
        decreases hi - i,
    {
        res.push(v[i]);
        i += 1;
        assert(res@ =~= v@.subrange(lo as int, i as int));
    }
    res
}

/// Append `v` to `s`.
pub fn push_all(s: &mut String, v: &Vec<char>)
    ensures
        final(s)@ == old(s)@ + v@,
{
    let mut i: usize = 0;
    while i < v.len()
        invariant
            i <= v@.len(),
            s@ == old(s)@ + v@.take(i as int),
        decreases v@.len() - i,
    {
        s.push(v[i]);
        i += 1;
        assert(s@ =~= old(s)@ + v@.take(i as int));
    }
    assert(v@.take(v@.len() as int) =~= v@);
}

/// A `String` holding `s`.
pub fn owned(s: &str) -> (res: String)
    ensures
        res@ == s@,
{
    s.to_owned()
}

/// Whether two character sequences are equal.
pub fn same(a: &Vec<char>, b: &Vec<char>) -> (res: bool)
    ensures
        res == (a@ == b@),
{
    if a.len() != b.len() {
        return false;
    }
    let mut i: usize = 0;
    while i < a.len()
        invariant
            i <= a@.len() == b@.len(),
            forall|k: int| 0 <= k < i ==> a@[k] == b@[k],
        decreases a@.len() - i,
    {
        if a[i] != b[i] {
            return false;
        }
        i += 1;
    }
    assert(a@ =~= b@);
    true
}

/// Whether `v` is exactly the text `s`.
pub fn is_text(v: &Vec<char>, s: &str) -> (res: bool)
    ensures
        res == (v@ == s@),
{
    let t = chars_of(s);
    same(v, &t)
}

/// `p` is a prefix of `s`.
pub open spec fn has_prefix(s: Seq<char>, p: Seq<char>) -> bool {
    p.len() <= s.len() && s.take(p.len() as int) == p
}

/// `p` is a suffix of `s`.
pub open spec fn has_suffix(s: Seq<char>, p: Seq<char>) -> bool {
    p.len() <= s.len() && s.skip(s.len() - p.len()) == p
}

/// Whether `v[at..]` starts with `p`.
pub fn starts_at(v: &Vec<char>, at: usize, p: &Vec<char>) -> (res: bool)
    requires
        at <= v@.len(),
    ensures
        res == has_prefix(v@.skip(at as int), p@),
{
    if p.len() > v.len() - at {
        return false;
    }
    let n = v.len();
    let mut i: usize = 0;
    while i < p.len()
        invariant
            n == v@.len(),
            at <= v@.len(),
            i <= p@.len(),
            at + p@.len() <= v@.len(),
            forall|k: int| 0 <= k < i ==> v@[at + k] == p@[k],
        decreases p@.len() - i,
    {
        if v[at + i] != p[i] {
            assert(v@.skip(at as int).take(p@.len() as int)[i as int] != p@[i as int]);
            return false;
        }
        i += 1;
    }
    assert(v@.skip(at as int).take(p@.len() as int) =~= p@);
    true
}

/// Whether `v` starts with `p`.
pub fn starts_with(v: &Vec<char>, p: &Vec<char>) -> (res: bool)
    ensures
        res == has_prefix(v@, p@),
{
    let r = starts_at(v, 0, p);
    assert(v@.skip(0) =~= v@);
    r
}

/// Whether `v` ends with `p`.
pub fn ends_with(v: &Vec<char>, p: &Vec<char>) -> (res: bool)
    ensures
        res == has_suffix(v@, p@),
{
    if p.len() > v.len() {
        return false;
    }
    let at = v.len() - p.len();
    let r = starts_at(v, at, p);
    assert(v@.skip(at as int).take(p@.len() as int) =~= v@.skip(at as int));
    r
}

/// The first position at which `p` occurs in `s`, or -1.
pub open spec fn find(s: Seq<char>, p: Seq<char>) -> int
    decreases s.len(),
{
    if has_prefix(s, p) {
        0
    } else if s.len() == 0 {
        -1
    } else {
        let r = find(s.drop_first(), p);
        if r < 0 {
            -1
        } else {
            r + 1
        }
    }
}

/// `p` occurs at position `k` of `s`.
pub open spec fn occurs_at(s: Seq<char>, p: Seq<char>, k: int) -> bool {
    0 <= k && k + p.len() <= s.len() && s.subrange(k, k + p.len()) == p
}

pub proof fn lemma_find(s: Seq<char>, p: Seq<char>)
    ensures
        find(s, p) >= -1,
        find(s, p) == -1 ==> forall|k: int| !occurs_at(s, p, k),
        find(s, p) >= 0 ==> occurs_at(s, p, find(s, p)) && forall|k: int|
            0 <= k < find(s, p) ==> !occurs_at(s, p, k),
    decreases s.len(),
{
    if has_prefix(s, p) {
        assert(s.subrange(0, p.len() as int) =~= s.take(p.len() as int));
    } else if s.len() == 0 {
        assert forall|k: int| !occurs_at(s, p, k) by {
            if occurs_at(s, p, k) {
                assert(k == 0 && p.len() == 0);
                assert(s.take(0) =~= p);
            }
        }
    } else {
        let t = s.drop_first();
        lemma_find(t, p);
        assert(!occurs_at(s, p, 0)) by {
            if occurs_at(s, p, 0) {
                assert(s.subrange(0, p.len() as int) =~= s.take(p.len() as int));
            }
        }
        assert forall|k: int| k >= 1 implies occurs_at(s, p, k) == occurs_at(t, p, k - 1) by {
            if k + p.len() <= s.len() {
                assert(s.subrange(k, k + p.len()) =~= t.subrange(k - 1, k - 1 + p.len()));
            }
        }
        if find(t, p) >= 0 {
            assert forall|k: int| 0 <= k < find(s, p) implies !occurs_at(s, p, k) by {
                if k >= 1 {
                    assert(!occurs_at(t, p, k - 1));
                }
            }
        } else {
            assert forall|k: int| !occurs_at(s, p, k) by {
                if k >= 1 {
                    assert(!occurs_at(t, p, k - 1));
                }
            }
        }
    }
}

/// The first position at or after `from` where `p` occurs in `v`.
pub fn find_from(v: &Vec<char>, from: usize, p: &Vec<char>) -> (res: Option<usize>)
    requires
        from <= v@.len(),
    ensures
        res is None ==> find(v@.skip(from as int), p@) == -1,
        res matches Some(k) ==> from <= k && k - from == find(v@.skip(from as int), p@),
{
    let mut i = from;
    proof {
        lemma_find(v@.skip(from as int), p@);
    }
    loop
        invariant
            from <= i <= v@.len(),
            forall|k: int| 0 <= k < i - from ==> !occurs_at(v@.skip(from as int), p@, k),
        decreases v@.len() - i,
    {
        let ghost s = v@.skip(from as int);
        let here = starts_at(v, i, p);
        proof {
            if i + p@.len() <= v@.len() {
                assert(v@.skip(i as int).take(p@.len() as int) =~= s.subrange(
                    i - from,
                    i - from + p@.len(),
                ));
            }
        }
        if here {
            proof {
                lemma_find(s, p@);
                assert(occurs_at(s, p@, i - from));
            }
            return Some(i);
        }
        if i == v.len() {
            proof {
                lemma_find(s, p@);
                assert forall|k: int| !occurs_at(s, p@, k) by {
                    if 0 <= k && k + p@.len() <= s.len() {
                        assert(k <= i - from);
                    }
                }
            }
            return None;
        }
        i += 1;
    }
}

/// The first position where `p` occurs in `v`.
pub fn find_in(v: &Vec<char>, p: &Vec<char>) -> (res: Option<usize>)
    ensures
        res is None ==> find(v@, p@) == -1,
        res matches Some(k) ==> k == find(v@, p@),
{
    assert(v@.skip(0) =~= v@);
    find_from(v, 0, p)
}

/// Whether `p` occurs anywhere in `v`.
pub fn contains(v: &Vec<char>, p: &Vec<char>) -> (res: bool)
    ensures
        res == (find(v@, p@) >= 0),
{
    proof {
        lemma_find(v@, p@);
    }
    find_in(v, p).is_some()
}

/// `s` split at every `c`, as `str::split` with a `char` pattern does: there is
/// always at least one piece, and an empty input is one empty piece.
pub open spec fn split_on(s: Seq<char>, c: char) -> Seq<Seq<char>>
    decreases s.len(),
{
    if s.len() == 0 {
        seq![Seq::<char>::empty()]
    } else {
        let r = split_on(s.drop_last(), c);
        if s.last() == c {
            r.push(Seq::<char>::empty())
        } else {
            r.update(r.len() - 1, r.last().push(s.last()))
        }
    }
}

pub proof fn lemma_split_on_len(s: Seq<char>, c: char)
    ensures
        split_on(s, c).len() >= 1,
    decreases s.len(),
{
    if s.len() > 0 {
        lemma_split_on_len(s.drop_last(), c);
    }
}

/// The views of a sequence of character vectors.
pub open spec fn texts(v: Seq<Vec<char>>) -> Seq<Seq<char>> {
    v.map_values(|x: Vec<char>| x@)
}

/// Every piece of `v` between occurrences of `c`.
pub fn split_char(v: &Vec<char>, c: char) -> (res: Vec<Vec<char>>)
    ensures
        texts(res@) == split_on(v@, c),
{
    let mut done: Vec<Vec<char>> = Vec::new();
    let mut cur: Vec<char> = Vec::new();
    let mut i: usize = 0;
    while i < v.len()
        invariant
            i <= v@.len(),
            texts(done@).push(cur@) == split_on(v@.take(i as int), c),
        decreases v@.len() - i,
    {
        let ghost before = v@.take(i as int);
        proof {
            lemma_split_on_len(before, c);
            assert(v@.take(i + 1).drop_last() =~= before);
        }
        if v[i] == c {
            let ghost old_done = done@;
            let piece = cur;
            done.push(piece);
            cur = Vec::new();
            assert(texts(done@) =~= texts(old_done).push(piece@));
            assert(texts(done@).push(cur@) =~= split_on(v@.take(i + 1), c));
        } else {
            cur.push(v[i]);
            assert(texts(done@).push(cur@) =~= split_on(v@.take(i + 1), c));
        }
        i += 1;
    }
    assert(v@.take(v@.len() as int) =~= v@);
    let ghost old_done = done@;
    let ghost last = cur@;
    done.push(cur);
    assert(texts(done@) =~= texts(old_done).push(last));
    done
}

/// `s` with one trailing carriage return removed.
pub open spec fn strip_cr(s: Seq<char>) -> Seq<char> {
    if s.len() > 0 && s.last() == '\r' {
        s.drop_last()
    } else {
        s
    }
}

/// The lines of `s`, as `str::lines` reads them: split at `\n`, a `\r` before a
/// `\n` dropped, and no empty line after a final `\n`.
pub open spec fn lines_of(s: Seq<char>) -> Seq<Seq<char>> {
    let parts = split_on(s, '\n');
    let body = parts.drop_last().map_values(|l: Seq<char>| strip_cr(l));
    if parts.last().len() == 0 {
        body
    } else {
        body.push(parts.last())
    }
}

/// No piece of a split holds the character it was split at.
pub proof fn lemma_split_on_unbroken(s: Seq<char>, c: char)
    ensures
        forall|i: int| 0 <= i < split_on(s, c).len() ==> !(#[trigger] split_on(s, c)[i]).contains(c),
    decreases s.len(),
{
    if s.len() > 0 {
        let r = split_on(s.drop_last(), c);
        lemma_split_on_unbroken(s.drop_last(), c);
        lemma_split_on_len(s.drop_last(), c);
        if s.last() != c {
            let l = r.last();
            assert forall|k: int| 0 <= k < l.push(s.last()).len() implies l.push(s.last())[k] != c by {
                if k < l.len() {
                    assert(r[r.len() - 1] == l);
                    assert(l[k] != c) by {
                        if l[k] == c {
                            assert(l.contains(c));
                        }
                    }
                }
            }
        }
        let t = split_on(s, c);
        assert forall|i: int| 0 <= i < t.len() implies !(#[trigger] t[i]).contains(c) by {
            if i < r.len() && !(s.last() != c && i == r.len() - 1) {
                assert(t[i] == r[i]);
            }
        }
    }
}

/// Text with no separator in it is a single piece.
pub proof fn lemma_split_on_free(l: Seq<char>, c: char)
    requires
        !l.contains(c),
    ensures
        split_on(l, c) == seq![l],
    decreases l.len(),
{
    if l.len() == 0 {
        assert(l =~= Seq::<char>::empty());
    } else {
        let h = l.drop_last();
        assert(!h.contains(c)) by {
            if h.contains(c) {
                let k = choose|k: int| 0 <= k < h.len() && h[k] == c;
                assert(l[k] == c);
            }
        }
        lemma_split_on_free(h, c);
        assert(l.last() != c) by {
            if l.last() == c {
                assert(l[l.len() - 1] == c);
            }
        }
        assert(h.push(l.last()) =~= l);
        assert(seq![h].update(0, h.push(l.last())) =~= seq![l]);
    }
}

/// Split text that ends at a separator, followed by more: the pieces of the
/// first part, then those of the second.
pub proof fn lemma_split_on_concat(a: Seq<char>, b: Seq<char>, c: char)
    requires
        a.len() == 0 || a.last() == c,
    ensures
        split_on(a + b, c) == split_on(a, c).drop_last() + split_on(b, c),
    decreases b.len(),
{
    lemma_split_on_len(a, c);
    if b.len() == 0 {
        assert(a + b =~= a);
        if a.len() == 0 {
            assert(split_on(a, c).drop_last() + split_on(b, c) =~= split_on(a, c));
        } else {
            assert(split_on(a, c).drop_last() + split_on(b, c) =~= split_on(a, c));
        }
    } else {
        let b2 = b.drop_last();
        lemma_split_on_concat(a, b2, c);
        lemma_split_on_len(b2, c);
        assert((a + b).drop_last() =~= a + b2);
        assert((a + b).last() == b.last());
        let x = split_on(a, c).drop_last();
        let y = split_on(b2, c);
        if b.last() == c {
            assert((x + y).push(Seq::<char>::empty()) =~= x + y.push(Seq::<char>::empty()));
        } else {
            assert((x + y).update((x + y).len() - 1, (x + y).last().push(b.last())) =~= x + y.update(
                y.len() - 1,
                y.last().push(b.last()),
            ));
        }
    }
}

/// No line holds a line break.
pub proof fn lemma_lines_unbroken(s: Seq<char>)
    ensures
        forall|i: int| 0 <= i < lines_of(s).len() ==> !(#[trigger] lines_of(s)[i]).contains('\n'),
{
    let parts = split_on(s, '\n');
    lemma_split_on_unbroken(s, '\n');
    lemma_split_on_len(s, '\n');
    let ls = lines_of(s);
    assert forall|i: int| 0 <= i < ls.len() implies !(#[trigger] ls[i]).contains('\n') by {
        let p = parts[i];
        assert(!parts[i].contains('\n'));
        if ls[i] != p {
            assert(ls[i] == strip_cr(p));
            if p.len() > 0 && p.last() == '\r' {
                assert forall|k: int| 0 <= k < p.drop_last().len() implies p.drop_last()[k] != '\n' by {
                    if p[k] == '\n' {
                        assert(p.contains('\n'));
                    }
                }
            }
        }
    }
}

/// Trailing whitespace trimmed off leaves the front of the text.
pub proof fn lemma_trim_end_ws_prefix(s: Seq<char>)
    ensures
        trim_end_ws(s).len() <= s.len(),
        trim_end_ws(s) == s.take(trim_end_ws(s).len() as int),
    decreases s.len(),
{
    if s.len() > 0 && is_ws(s.last()) {
        lemma_trim_end_ws_prefix(s.drop_last());
        assert(s.drop_last().take(trim_end_ws(s).len() as int) =~= s.take(trim_end_ws(s).len() as int));
    } else {
        assert(s.take(s.len() as int) =~= s);
    }
}

/// Every line of `v`.
pub fn lines(v: &Vec<char>) -> (res: Vec<Vec<char>>)
    ensures
        texts(res@) == lines_of(v@),
{
    let parts = split_char(v, '\n');
    proof {
        lemma_split_on_len(v@, '\n');
    }
    let n = parts.len();
    let mut out: Vec<Vec<char>> = Vec::new();
    let mut i: usize = 0;
    while i + 1 < n
        invariant
            n == parts@.len() >= 1,
            texts(parts@) == split_on(v@, '\n'),
            i <= n - 1,
            texts(out@) == texts(parts@).take(i as int).map_values(
                |l: Seq<char>| strip_cr(l),
            ),
        decreases n - i,
    {
        let piece = &parts[i];
        let mut line = slice(piece, 0, piece.len());
        assert(line@ =~= piece@);
        if line.len() > 0 && line[line.len() - 1] == '\r' {
            line.pop();
        }
        assert(line@ == strip_cr(texts(parts@)[i as int]));
        let ghost old_out = out@;
        let ghost l = line@;
        out.push(line);
        assert(texts(out@) =~= texts(old_out).push(l));
        i += 1;
        assert(texts(out@) =~= texts(parts@).take(i as int).map_values(
            |l: Seq<char>| strip_cr(l),
        ));
    }
    assert(texts(parts@).take((n - 1) as int) =~= texts(parts@).drop_last());
    let last = &parts[n - 1];
    if last.len() > 0 {
        let copy = slice(last, 0, last.len());
        assert(copy@ =~= last@);
        let ghost old_out = out@;
        let ghost l = copy@;
        out.push(copy);
        assert(texts(out@) =~= texts(old_out).push(l));
        assert(texts(out@) =~= lines_of(v@));
    } else {
        assert(texts(out@) =~= lines_of(v@));
    }
    out
}


/// `s` with leading whitespace removed.
pub open spec fn trim_start_ws(s: Seq<char>) -> Seq<char>
    decreases s.len(),
{
    if s.len() > 0 && is_ws(s[0]) {
        trim_start_ws(s.drop_first())
    } else {
        s
    }
}

/// `s` with trailing whitespace removed.
pub open spec fn trim_end_ws(s: Seq<char>) -> Seq<char>
    decreases s.len(),
{
    if s.len() > 0 && is_ws(s.last()) {
        trim_end_ws(s.drop_last())
    } else {
        s
    }
}

/// `s` with whitespace removed from both ends, as `str::trim` does.
pub open spec fn trim_ws(s: Seq<char>) -> Seq<char> {
    trim_end_ws(trim_start_ws(s))
}

/// `s` with leading characters from `set` removed.
pub open spec fn trim_start_in(s: Seq<char>, set: Seq<char>) -> Seq<char>
    decreases s.len(),
{
    if s.len() > 0 && set.contains(s[0]) {
        trim_start_in(s.drop_first(), set)
    } else {
        s
    }
}

/// `s` with trailing characters from `set` removed.
pub open spec fn trim_end_in(s: Seq<char>, set: Seq<char>) -> Seq<char>
    decreases s.len(),
{
    if s.len() > 0 && set.contains(s.last()) {
        trim_end_in(s.drop_last(), set)
    } else {
        s
    }
}

/// `str::trim_start`.
pub fn trim_start(v: &Vec<char>) -> (res: Vec<char>)
    ensures
        res@ == trim_start_ws(v@),
{
    let mut i: usize = 0;
    assert(v@.skip(0) =~= v@);
    while i < v.len() && is_whitespace(v[i])
        invariant
            i <= v@.len(),
            trim_start_ws(v@) == trim_start_ws(v@.skip(i as int)),
        decreases v@.len() - i,
    {
        assert(v@.skip(i as int).drop_first() =~= v@.skip(i + 1));
        i += 1;
    }
    let res = slice(v, i, v.len());
    assert(res@ =~= v@.skip(i as int));
    res
}

/// `str::trim_end`.
pub fn trim_end(v: &Vec<char>) -> (res: Vec<char>)
    ensures
        res@ == trim_end_ws(v@),
{
    let mut j: usize = v.len();
    assert(v@.take(j as int) =~= v@);
    while j > 0 && is_whitespace(v[j - 1])
        invariant
            j <= v@.len(),
            trim_end_ws(v@) == trim_end_ws(v@.take(j as int)),
        decreases j,
    {
        assert(v@.take(j as int).drop_last() =~= v@.take(j - 1));
        j -= 1;
    }
    let res = slice(v, 0, j);
    assert(res@ =~= v@.take(j as int));
    res
}

/// `str::trim`.
pub fn trim(v: &Vec<char>) -> (res: Vec<char>)
    ensures
        res@ == trim_ws(v@),
{
    let t = trim_start(v);
    trim_end(&t)
}

/// Whether `c` is one of `set`.
pub fn one_of(c: char, set: &Vec<char>) -> (res: bool)
    ensures
        res == set@.contains(c),
{
    let mut i: usize = 0;
    while i < set.len()
        invariant
            i <= set@.len(),
            forall|k: int| 0 <= k < i ==> set@[k] != c,
        decreases set@.len() - i,
    {
        if set[i] == c {
            assert(set@[i as int] == c);
            return true;
        }
        i += 1;
    }
    false
}

/// `str::trim_start_matches` with a set of characters.
pub fn trim_start_matches(v: &Vec<char>, set: &Vec<char>) -> (res: Vec<char>)
    ensures
        res@ == trim_start_in(v@, set@),
{
    let mut i: usize = 0;
    assert(v@.skip(0) =~= v@);
    while i < v.len() && one_of(v[i], set)
        invariant
            i <= v@.len(),
            trim_start_in(v@, set@) == trim_start_in(v@.skip(i as int), set@),
        decreases v@.len() - i,
    {
        assert(v@.skip(i as int).drop_first() =~= v@.skip(i + 1));
        i += 1;
    }
    let res = slice(v, i, v.len());
    assert(res@ =~= v@.skip(i as int));
    res
}

/// `str::trim_end_matches` with a set of characters.
pub fn trim_end_matches(v: &Vec<char>, set: &Vec<char>) -> (res: Vec<char>)
    ensures
        res@ == trim_end_in(v@, set@),
{
    let mut j: usize = v.len();
    assert(v@.take(j as int) =~= v@);
    while j > 0 && one_of(v[j - 1], set)
        invariant
            j <= v@.len(),
            trim_end_in(v@, set@) == trim_end_in(v@.take(j as int), set@),
        decreases j,
    {
        assert(v@.take(j as int).drop_last() =~= v@.take(j - 1));
        j -= 1;
    }
    let res = slice(v, 0, j);
    assert(res@ =~= v@.take(j as int));
    res
}

/// The position of the first whitespace character in `s`, or -1.
pub open spec fn first_ws(s: Seq<char>) -> int
    decreases s.len(),
{
    if s.len() == 0 {
        -1
    } else {
        let r = first_ws(s.drop_last());
        if r >= 0 {
            r
        } else if is_ws(s.last()) {
            s.len() - 1
        } else {
            -1
        }
    }
}

pub proof fn lemma_first_ws(s: Seq<char>)
    ensures
        -1 <= first_ws(s) < s.len(),
        first_ws(s) == -1 ==> forall|k: int| 0 <= k < s.len() ==> !is_ws(s[k]),
        first_ws(s) >= 0 ==> is_ws(s[first_ws(s)]) && forall|k: int|
            0 <= k < first_ws(s) ==> !is_ws(s[k]),
    decreases s.len(),
{
    if s.len() > 0 {
        let t = s.drop_last();
        lemma_first_ws(t);
        assert forall|k: int| 0 <= k < t.len() implies t[k] == s[k] by {}
        if first_ws(t) == -1 && !is_ws(s.last()) {
            assert forall|k: int| 0 <= k < s.len() implies !is_ws(s[k]) by {
                if k < t.len() {
                    assert(t[k] == s[k]);
                }
            }
        }
    }
}

/// The position of the first whitespace character in `v`.
pub fn find_ws(v: &Vec<char>) -> (res: Option<usize>)
    ensures
        res is None ==> first_ws(v@) == -1,
        res matches Some(k) ==> k == first_ws(v@),
{
    let mut i: usize = 0;
    while i < v.len()
        invariant
            i <= v@.len(),
            first_ws(v@.take(i as int)) == -1,
        decreases v@.len() - i,
    {
        assert(v@.take(i + 1).drop_last() =~= v@.take(i as int));
        if is_whitespace(v[i]) {
            proof {
                let t = v@.take(i + 1);
                assert(first_ws(t) == i);
                lemma_first_ws(t);
                lemma_first_ws(v@);
                lemma_prefix_first_ws(v@, i + 1);
            }
            return Some(i);
        }
        i += 1;
    }
    assert(v@.take(i as int) =~= v@);
    None
}

/// A whitespace character inside a prefix decides where the first one is.
pub proof fn lemma_prefix_first_ws(s: Seq<char>, n: int)
    requires
        0 <= n <= s.len(),
        first_ws(s.take(n)) >= 0,
    ensures
        first_ws(s) == first_ws(s.take(n)),
    decreases s.len() - n,
{
    if n < s.len() {
        assert(s.take(n + 1).drop_last() =~= s.take(n));
        lemma_prefix_first_ws(s, n + 1);
    } else {
        assert(s.take(n) =~= s);
    }
}

/// The whitespace-separated words of `s`, as `str::split_whitespace` gives them.
pub open spec fn words(s: Seq<char>) -> Seq<Seq<char>>
    decreases s.len(),
{
    if s.len() == 0 {
        seq![]
    } else {
        let r = words(s.drop_last());
        let x = s.last();
        if is_ws(x) {
            r
        } else if s.len() >= 2 && !is_ws(s[s.len() - 2]) {
            r.update(r.len() - 1, r.last().push(x))
        } else {
            r.push(seq![x])
        }
    }
}

pub proof fn lemma_words_nonempty(s: Seq<char>)
    requires
        s.len() > 0,
        !is_ws(s.last()),
    ensures
        words(s).len() >= 1,
    decreases s.len(),
{
    if s.len() >= 2 && !is_ws(s[s.len() - 2]) {
        assert(s.drop_last().last() == s[s.len() - 2]);
        lemma_words_nonempty(s.drop_last());
    }
}

/// `str::split_whitespace`.
pub fn split_words(v: &Vec<char>) -> (res: Vec<Vec<char>>)
    ensures
        texts(res@) == words(v@),
{
    let mut out: Vec<Vec<char>> = Vec::new();
    let mut cur: Vec<char> = Vec::new();
    let mut i: usize = 0;
    while i < v.len()
        invariant
            i <= v@.len(),
            cur@.len() > 0 ==> i > 0 && !is_ws(v@[i - 1]),
            cur@.len() == 0 ==> (i == 0 || is_ws(v@[i - 1])),
            (if cur@.len() > 0 {
                texts(out@).push(cur@)
            } else {
                texts(out@)
            }) == words(v@.take(i as int)),
        decreases v@.len() - i,
    {
        let ghost t = v@.take(i + 1);
        let ghost r = words(v@.take(i as int));
        assert(t.drop_last() =~= v@.take(i as int));
        assert(t.last() == v@[i as int]);
        if i > 0 {
            assert(t[t.len() - 2] == v@[i - 1]);
        }
        if is_whitespace(v[i]) {
            assert(words(t) == r);
            if cur.len() > 0 {
                let ghost old_out = out@;
                let ghost w = cur@;
                let piece = cur;
                out.push(piece);
                cur = Vec::new();
                assert(texts(out@) =~= texts(old_out).push(w));
            }
        } else {
            if cur.len() > 0 {
                let ghost old_cur = cur@;
                assert(words(t) == r.update(r.len() - 1, r.last().push(v@[i as int])));
                cur.push(v[i]);
                assert(texts(out@).push(cur@) =~= r.update(r.len() - 1, r.last().push(v@[i as int])));
            } else {
                assert(words(t) == r.push(seq![v@[i as int]]));
                cur.push(v[i]);
                assert(cur@ =~= seq![v@[i as int]]);
                assert(texts(out@).push(cur@) =~= r.push(seq![v@[i as int]]));
            }
        }
        i += 1;
    }
    assert(v@.take(v@.len() as int) =~= v@);
    if cur.len() > 0 {
        let ghost old_out = out@;
        let ghost w = cur@;
        out.push(cur);
        assert(texts(out@) =~= texts(old_out).push(w));
    }
    out
}

/// A decimal digit.
pub open spec fn is_digit(c: char) -> bool {
    '0' <= c && c <= '9'
}

/// The digit's value.
pub open spec fn digit_value(c: char) -> nat {
    (c as nat - '0' as nat) as nat
}

/// The number a run of decimal digits spells.
pub open spec fn dec_value(s: Seq<char>) -> nat
    decreases s.len(),
{
    if s.len() == 0 {
        0
    } else {
        dec_value(s.drop_last()) * 10 + digit_value(s.last())
    }
}

/// The digits `str::parse` accepts for an unsigned integer: an optional `+`,
/// then one or more decimal digits.
pub open spec fn unsigned_digits(s: Seq<char>) -> Seq<char> {
    if s.len() > 0 && s[0] == '+' {
        s.drop_first()
    } else {
        s
    }
}

/// What `str::parse` reads from `s` as an unsigned integer of unbounded width.
pub open spec fn parse_unsigned(s: Seq<char>) -> Option<nat> {
    let d = unsigned_digits(s);
    if d.len() > 0 && (forall|k: int| 0 <= k < d.len() ==> is_digit(d[k])) {
        Some(dec_value(d))
    } else {
        None
    }
}

/// What `str::parse` gives for an unsigned integer type whose largest value is
/// `max`.
pub open spec fn parse_bounded(s: Seq<char>, max: nat) -> Option<nat> {
    match parse_unsigned(s) {
        Some(n) if n <= max => Some(n),
        _ => None,
    }
}

pub proof fn lemma_dec_value_grows(s: Seq<char>, c: char)
    requires
        is_digit(c),
    ensures
        dec_value(s.push(c)) >= dec_value(s),
{
    assert(s.push(c).drop_last() =~= s);
}

/// `str::parse` for an unsigned integer no larger than `max`.
pub fn parse_unsigned_up_to(v: &Vec<char>, max: u64) -> (res: Option<u64>)
    ensures
        res matches Some(n) ==> parse_bounded(v@, max as nat) == Some(n as nat),
        res is None ==> parse_bounded(v@, max as nat) is None,
{
    let start: usize = if v.len() > 0 && v[0] == '+' {
        1
    } else {
        0
    };
    let ghost d = unsigned_digits(v@);
    assert(d =~= v@.skip(start as int));
    if start >= v.len() {
        assert(parse_unsigned(v@) is None);
        return None;
    }
    let mut acc: u64 = 0;
    let mut over = false;
    let mut i = start;
    while i < v.len()
        invariant
            start <= i <= v@.len(),
            d == v@.skip(start as int),
            d == unsigned_digits(v@),
            forall|k: int| 0 <= k < i - start ==> is_digit(d[k]),
            !over ==> acc == dec_value(d.take(i - start)) && acc <= max,
            over ==> dec_value(d.take(i - start)) > max,
        decreases v@.len() - i,
    {
        let c = v[i];
        if !('0' <= c && c <= '9') {
            assert(!is_digit(d[i - start]));
            assert(parse_unsigned(v@) is None);
            return None;
        }
        let ghost prev = d.take(i - start);
        assert(d.take(i - start + 1) =~= prev.push(c));
        assert(prev.push(c).drop_last() =~= prev);
        proof {
            lemma_dec_value_grows(prev, c);
        }
        let digit = (c as u64) - ('0' as u64);
        if !over {
            if digit > max || acc > (max - digit) / 10 {
                assert(acc * 10 + digit > max) by (nonlinear_arith)
                    requires
                        digit > max || acc > (max - digit) / 10,
                ;
                over = true;
            } else {
                assert(acc * 10 + digit <= max) by (nonlinear_arith)
                    requires
                        digit <= max,
                        acc <= (max - digit) / 10,
                ;
                acc = acc * 10 + digit;
            }
        }
        i += 1;
    }
    assert(d.take(i - start) =~= d);
    if over {
        None
    } else {
        Some(acc)
    }
}

/// The decimal spelling of a digit.
pub open spec fn digit_char(n: nat) -> char {
    (n + '0' as nat) as char
}

/// The decimal spelling of `n`.
pub open spec fn decimal(n: nat) -> Seq<char>
    decreases n,
{
    if n < 10 {
        seq![digit_char(n)]
    } else {
        decimal(n / 10).push(digit_char(n % 10))
    }
}

/// Append the decimal spelling of `n` to `s`.
pub fn push_decimal(s: &mut String, n: u64)
    ensures
        final(s)@ == old(s)@ + decimal(n as nat),
    decreases n,
{
    if n >= 10 {
        push_decimal(s, n / 10);
    }
    let d = (n % 10) as u32;
    let c = char_from_digit(d);
    s.push(c);
    assert(s@ =~= old(s)@ + decimal(n as nat));
}

/// Append the decimal spelling of a wide `n` to `s`.
pub fn push_decimal_wide(s: &mut String, n: u128)
    ensures
        final(s)@ == old(s)@ + decimal(n as nat),
    decreases n,
{
    if n >= 10 {
        push_decimal_wide(s, n / 10);
    }
    let d = (n % 10) as u32;
    let c = char_from_digit(d);
    s.push(c);
    assert(s@ =~= old(s)@ + decimal(n as nat));
}

/// The decimal spelling of a signed number: a minus sign before the
/// magnitude when it is negative.
pub open spec fn signed_decimal(n: int) -> Seq<char> {
    if n < 0 {
        seq!['-'] + decimal((-n) as nat)
    } else {
        decimal(n as nat)
    }
}

/// Append the decimal spelling of a signed `n` to `s`.
pub fn push_signed(s: &mut String, n: i64)
    ensures
        final(s)@ == old(s)@ + signed_decimal(n as int),
{
    if n < 0 {
        s.push('-');
        let m: u64 = if n == i64::MIN {
            9223372036854775808u64
        } else {
            (-n) as u64
        };
        push_decimal(s, m);
        assert(s@ =~= old(s)@ + signed_decimal(n as int));
    } else {
        push_decimal(s, n as u64);
    }
}

/// The character for a decimal digit.
fn char_from_digit(d: u32) -> (c: char)
    requires
        d < 10,
    ensures
        c == digit_char(d as nat),
{
    match d {
        0 => '0',
        1 => '1',
        2 => '2',
        3 => '3',
        4 => '4',
        5 => '5',
        6 => '6',
        7 => '7',
        8 => '8',
        _ => '9',
    }
}

/// The decimal spelling of `n` as a `String`.
pub fn decimal_string(n: u64) -> (res: String)
    ensures
        res@ == decimal(n as nat),
{
    let mut s = String::new();
    push_decimal(&mut s, n);
    assert(s@ =~= decimal(n as nat));
    s
}

/// `parts` joined with `sep` between each neighbouring pair.
pub open spec fn joined(parts: Seq<Seq<char>>, sep: Seq<char>) -> Seq<char>
    decreases parts.len(),
{
    if parts.len() == 0 {
        Seq::<char>::empty()
    } else if parts.len() == 1 {
        parts[0]
    } else {
        joined(parts.drop_last(), sep) + sep + parts.last()
    }
}

/// The views of a sequence of strings.
pub open spec fn views(v: Seq<String>) -> Seq<Seq<char>> {
    v.map_values(|x: String| x@)
}

/// `[String]::join`.
pub fn join(parts: &Vec<String>, sep: &str) -> (res: String)
    ensures
        res@ == joined(views(parts@), sep@),
{
    let mut out = String::new();
    let mut i: usize = 0;
    while i < parts.len()
        invariant
            i <= parts@.len(),
            out@ == joined(views(parts@).take(i as int), sep@),
        decreases parts@.len() - i,
    {
        assert(views(parts@).take(i + 1).drop_last() =~= views(parts@).take(i as int));
        if i > 0 {
            out.append(sep);
        }
        out.append(parts[i].as_str());
        i += 1;
        assert(out@ =~= joined(views(parts@).take(i as int), sep@));
    }
    assert(views(parts@).take(parts@.len() as int) =~= views(parts@));
    out
}


/// The order `String`'s `Ord` gives: lexicographic by character code, which
/// for UTF-8 text is the order of its bytes.
pub open spec fn text_lt(a: Seq<char>, b: Seq<char>) -> bool
    decreases a.len(),
{
    if a.len() == 0 {
        b.len() > 0
    } else if b.len() == 0 {
        false
    } else if a[0] != b[0] {
        a[0] < b[0]
    } else {
        text_lt(a.drop_first(), b.drop_first())
    }
}

/// No text comes before itself.
pub proof fn lemma_text_lt_irreflexive(a: Seq<char>)
    ensures
        !text_lt(a, a),
    decreases a.len(),
{
    if a.len() > 0 {
        lemma_text_lt_irreflexive(a.drop_first());
    }
}

/// The text order is transitive.
pub proof fn lemma_text_lt_transitive(a: Seq<char>, b: Seq<char>, c: Seq<char>)
    requires
        text_lt(a, b),
        text_lt(b, c),
    ensures
        text_lt(a, c),
    decreases a.len(),
{
    if a.len() > 0 && b.len() > 0 && c.len() > 0 && a[0] == b[0] && b[0] == c[0] {
        lemma_text_lt_transitive(a.drop_first(), b.drop_first(), c.drop_first());
    }
}

/// Of two different texts, one comes first.
pub proof fn lemma_text_lt_total(a: Seq<char>, b: Seq<char>)
    requires
        a != b,
    ensures
        text_lt(a, b) || text_lt(b, a),
    decreases a.len(),
{
    if a.len() > 0 && b.len() > 0 && a[0] == b[0] {
        if a.drop_first() == b.drop_first() {
            assert(a =~= seq![a[0]] + a.drop_first());
            assert(b =~= seq![b[0]] + b.drop_first());
        }
        lemma_text_lt_total(a.drop_first(), b.drop_first());
    } else if a.len() == 0 && b.len() == 0 {
        assert(a =~= b);
    }
}

/// Of two texts that come in order, the later is not first.
pub proof fn lemma_text_lt_asymmetric(a: Seq<char>, b: Seq<char>)
    requires
        text_lt(a, b),
    ensures
        !text_lt(b, a),
{
    if text_lt(b, a) {
        lemma_text_lt_transitive(a, b, a);
        lemma_text_lt_irreflexive(a);
    }
}

/// Whether `a` comes before `b` in the order of `String`'s `Ord`.
pub fn text_less(a: &str, b: &str) -> (res: bool)
    ensures
        res == text_lt(a@, b@),
{
    let x = chars_of(a);
    let y = chars_of(b);
    let mut i: usize = 0;
    assert(x@.skip(0) =~= x@);
    assert(y@.skip(0) =~= y@);
    while i < x.len() && i < y.len()
        invariant
            x@ == a@,
            y@ == b@,
            i <= x@.len(),
            i <= y@.len(),
            text_lt(x@, y@) == text_lt(x@.skip(i as int), y@.skip(i as int)),
        decreases x@.len() - i,
    {
        assert(x@.skip(i as int)[0] == x@[i as int]);
        assert(y@.skip(i as int)[0] == y@[i as int]);
        if x[i] != y[i] {
            assert(x@.skip(i as int).len() > 0 && y@.skip(i as int).len() > 0);
            return x[i] < y[i];
        }
        assert(x@.skip(i as int).drop_first() =~= x@.skip(i + 1));
        assert(y@.skip(i as int).drop_first() =~= y@.skip(i + 1));
        i += 1;
    }
    assert(x@.skip(i as int).len() == x@.len() - i);
    assert(y@.skip(i as int).len() == y@.len() - i);
    i == x.len() && i < y.len()
}

/// Append the text `t` to `s`.
pub fn push_str(s: &mut String, t: &str)
    ensures
        final(s)@ == old(s)@ + t@,
{
    s.append(t);
}


/// Whether two texts are equal.
pub fn same_text(a: &str, b: &str) -> (res: bool)
    ensures
        res == (a@ == b@),
{
    let x = chars_of(a);
    is_text(&x, b)
}

} // verus!
