//! Character-level text operations with their mathematical meaning.
//!
//! Every operation here works on a `Vec<char>` and is specified over its
//! `Seq<char>` view, so that callers can state exact results for parsing
//! and string assembly.

use vstd::prelude::*;

verus! {

/// `String::push` appends one character.
pub assume_specification[ String::push ](s: &mut String, ch: char)
    ensures
        final(s)@ == old(s)@.push(ch),
;

/// The characters that `char::is_whitespace` accepts (the Unicode
/// `White_Space` property).
pub open spec fn is_white(c: char) -> bool {
    let u: u32 = c as u32;
    ||| (0x09 <= u && u <= 0x0d)
    ||| u == 0x20
    ||| u == 0x85
    ||| u == 0xa0
    ||| u == 0x1680
    ||| (0x2000 <= u && u <= 0x200a)
    ||| u == 0x2028
    ||| u == 0x2029
    ||| u == 0x202f
    ||| u == 0x205f
    ||| u == 0x3000
}

/// Tells whether `c` is Unicode white space.
pub fn is_whitespace(c: char) -> (b: bool)
    ensures
        b == is_white(c),
{
    let u: u32 = c as u32;
    (0x09 <= u && u <= 0x0d) || u == 0x20 || u == 0x85 || u == 0xa0 || u == 0x1680 || (0x2000
        <= u && u <= 0x200a) || u == 0x2028 || u == 0x2029 || u == 0x202f || u == 0x205f || u
        == 0x3000
}

/// A class of characters that a trim removes.
#[derive(Clone, Copy)]
pub enum CharClass {
    Whitespace,
    Exactly(char),
}

pub open spec fn in_class(c: char, k: CharClass) -> bool {
    match k {
        CharClass::Whitespace => is_white(c),
        CharClass::Exactly(d) => c == d,
    }
}

pub fn char_in_class(c: char, k: CharClass) -> (b: bool)
    ensures
        b == in_class(c, k),
{
    match k {
        CharClass::Whitespace => is_whitespace(c),
        CharClass::Exactly(d) => c == d,
    }
}

/// `s` without its leading characters of class `k`.
pub open spec fn drop_front(s: Seq<char>, k: CharClass) -> Seq<char>
    decreases s.len(),
{
    if s.len() > 0 && in_class(s[0], k) {
        drop_front(s.drop_first(), k)
    } else {
        s
    }
}

/// `s` without its trailing characters of class `k`.
pub open spec fn drop_back(s: Seq<char>, k: CharClass) -> Seq<char>
    decreases s.len(),
{
    if s.len() > 0 && in_class(s.last(), k) {
        drop_back(s.drop_last(), k)
    } else {
        s
    }
}

/// `str::trim`: no white space at either end.
pub open spec fn trim(s: Seq<char>) -> Seq<char> {
    drop_back(drop_front(s, CharClass::Whitespace), CharClass::Whitespace)
}

/// `str::trim_matches(c)`: no `c` at either end.
pub open spec fn trim_char(s: Seq<char>, c: char) -> Seq<char> {
    drop_back(drop_front(s, CharClass::Exactly(c)), CharClass::Exactly(c))
}

/// No character of `s` is `c`.
pub open spec fn lacks(s: Seq<char>, c: char) -> bool {
    forall|i: int| 0 <= i < s.len() ==> s[i] != c
}

/// Dropping characters from the front keeps a character out.
pub proof fn lemma_drop_front_lacks(s: Seq<char>, k: CharClass, c: char)
    requires
        lacks(s, c),
    ensures
        lacks(drop_front(s, k), c),
    decreases s.len(),
{
    if s.len() > 0 && in_class(s[0], k) {
        lemma_drop_front_lacks(s.drop_first(), k, c);
    }
}

/// Dropping characters from the back keeps a character out.
pub proof fn lemma_drop_back_lacks(s: Seq<char>, k: CharClass, c: char)
    requires
        lacks(s, c),
    ensures
        lacks(drop_back(s, k), c),
    decreases s.len(),
{
    if s.len() > 0 && in_class(s.last(), k) {
        lemma_drop_back_lacks(s.drop_last(), k, c);
    }
}

pub open spec fn has_prefix(s: Seq<char>, p: Seq<char>) -> bool {
    p.len() <= s.len() && s.subrange(0, p.len() as int) == p
}

pub open spec fn has_suffix(s: Seq<char>, p: Seq<char>) -> bool {
    p.len() <= s.len() && s.subrange(s.len() - p.len(), s.len() as int) == p
}

/// Index of the first `c` in `s`, or `s.len()` when there is none.
pub open spec fn find(s: Seq<char>, c: char) -> nat
    decreases s.len(),
{
    if s.len() == 0 {
        0
    } else if s[0] == c {
        0
    } else {
        1 + find(s.drop_first(), c)
    }
}

/// The pieces of `s` between occurrences of `c`, `cur` being the piece
/// read so far (`str::split` with a character pattern).
pub open spec fn split_from(s: Seq<char>, c: char, cur: Seq<char>) -> Seq<Seq<char>>
    decreases s.len(),
{
    if s.len() == 0 {
        seq![cur]
    } else if s[0] == c {
        seq![cur] + split_from(s.drop_first(), c, Seq::empty())
    } else {
        split_from(s.drop_first(), c, cur.push(s[0]))
    }
}

pub open spec fn split(s: Seq<char>, c: char) -> Seq<Seq<char>> {
    split_from(s, c, Seq::empty())
}

/// The non-empty runs of non-white characters of `s`, `cur` being the run
/// read so far (`str::split_whitespace`).
pub open spec fn words_from(s: Seq<char>, cur: Seq<char>) -> Seq<Seq<char>>
    decreases s.len(),
{
    if s.len() == 0 {
        if cur.len() > 0 {
            seq![cur]
        } else {
            Seq::empty()
        }
    } else if is_white(s[0]) {
        (if cur.len() > 0 {
            seq![cur]
        } else {
            Seq::<Seq<char>>::empty()
        }) + words_from(s.drop_first(), Seq::empty())
    } else {
        words_from(s.drop_first(), cur.push(s[0]))
    }
}

pub open spec fn words(s: Seq<char>) -> Seq<Seq<char>> {
    words_from(s, Seq::empty())
}

pub proof fn lemma_find_bounds(s: Seq<char>, c: char)
    ensures
        find(s, c) <= s.len(),
        find(s, c) < s.len() ==> s[find(s, c) as int] == c,
        forall|k: int| 0 <= k < find(s, c) ==> s[k] != c,
    decreases s.len(),
{
    if s.len() > 0 && s[0] != c {
        lemma_find_bounds(s.drop_first(), c);
        assert forall|k: int| 0 <= k < find(s, c) implies s[k] != c by {
            if k > 0 {
                assert(s[k] == s.drop_first()[k - 1]);
            }
        }
    }
}

/// The characters of `s`.
pub fn chars_of(s: &str) -> (v: Vec<char>)
    ensures
        v@ == s@,
{
    let mut v: Vec<char> = Vec::new();
    for c in it: s.chars()
        invariant
            it.seq() == s@,
            v@ == it.seq().take(it.index() as int),
    {
        v.push(c);
    }
    v
}

/// A `String` holding the characters of `v`.
pub fn string_of(v: &Vec<char>) -> (s: String)
    ensures
        s@ == v@,
{
    let mut s = String::new();
    let mut i: usize = 0;
    while i < v.len()
        invariant
            i <= v.len(),
            s@ == v@.take(i as int),
        decreases v.len() - i,
    {
        s.push(v[i]);
        assert(v@.take(i + 1) == v@.take(i as int).push(v@[i as int]));
        i = i + 1;
    }
    assert(v@.take(v.len() as int) == v@);
    s
}

/// The characters of `v` from `lo` up to `hi`.
pub fn slice(v: &Vec<char>, lo: usize, hi: usize) -> (r: Vec<char>)
    requires
        lo <= hi <= v.len(),
    ensures
        r@ == v@.subrange(lo as int, hi as int),
{
    let mut r: Vec<char> = Vec::new();
    let mut i: usize = lo;
    while i < hi
        invariant
            lo <= i <= hi <= v.len(),
            r@ == v@.subrange(lo as int, i as int),
        decreases hi - i,
    {
        r.push(v[i]);
        assert(v@.subrange(lo as int, i + 1) == v@.subrange(lo as int, i as int).push(v@[i as int]));
        i = i + 1;
    }
    r
}

/// Appends the characters of `b` to `a`.
pub fn append(a: &mut Vec<char>, b: &Vec<char>)
    ensures
        final(a)@ == old(a)@ + b@,
{
    let mut i: usize = 0;
    while i < b.len()
        invariant
            i <= b.len(),
            a@ == old(a)@ + b@.take(i as int),
        decreases b.len() - i,
    {
        a.push(b[i]);
        assert(b@.take(i + 1) == b@.take(i as int).push(b@[i as int]));
        i = i + 1;
    }
    assert(b@.take(b.len() as int) == b@);
}

/// Whether `a` and `b` hold the same characters.
pub fn same(a: &Vec<char>, b: &Vec<char>) -> (r: bool)
    ensures
        r == (a@ == b@),
{
    if a.len() != b.len() {
        return false;
    }
    let mut i: usize = 0;
    while i < a.len()
        invariant
            i <= a.len() == b.len(),
            forall|k: int| 0 <= k < i ==> a@[k] == b@[k],
        decreases a.len() - i,
    {
        if a[i] != b[i] {
            return false;
        }
        i = i + 1;
    }
    assert(a@ =~= b@);
    true
}

/// Whether `s` begins with `p`.
pub fn starts_with(s: &Vec<char>, p: &Vec<char>) -> (r: bool)
    ensures
        r == has_prefix(s@, p@),
{
    if p.len() > s.len() {
        return false;
    }
    let mut i: usize = 0;
    while i < p.len()
        invariant
            i <= p.len() <= s.len(),
            forall|k: int| 0 <= k < i ==> s@[k] == p@[k],
        decreases p.len() - i,
    {
        if s[i] != p[i] {
            assert(s@.subrange(0, p.len() as int)[i as int] != p@[i as int]);
            return false;
        }
        i = i + 1;
    }
    assert(s@.subrange(0, p.len() as int) =~= p@);
    true
}

/// Whether `s` ends with `p`.
pub fn ends_with(s: &Vec<char>, p: &Vec<char>) -> (r: bool)
    ensures
        r == has_suffix(s@, p@),
{
    if p.len() > s.len() {
        return false;
    }
    let off: usize = s.len() - p.len();
    let mut i: usize = 0;
    while i < p.len()
        invariant
            i <= p.len() <= s.len(),
            off == s.len() - p.len(),
            forall|k: int| 0 <= k < i ==> s@[off + k] == p@[k],
        decreases p.len() - i,
    {
        if s[off + i] != p[i] {
            assert(s@.subrange(off as int, s.len() as int)[i as int] != p@[i as int]);
            return false;
        }
        i = i + 1;
    }
    assert(s@.subrange(off as int, s.len() as int) =~= p@);
    true
}

proof fn lemma_drop_front_skip(s: Seq<char>, k: CharClass, i: int)
    requires
        0 <= i < s.len(),
        in_class(s[i], k),
    ensures
        drop_front(s.skip(i), k) == drop_front(s.skip(i + 1), k),
{
    assert(s.skip(i).drop_first() =~= s.skip(i + 1));
}

proof fn lemma_drop_back_take(s: Seq<char>, k: CharClass, j: int)
    requires
        0 < j <= s.len(),
        in_class(s[j - 1], k),
    ensures
        drop_back(s.take(j), k) == drop_back(s.take(j - 1), k),
{
    assert(s.take(j).drop_last() =~= s.take(j - 1));
}

/// `v` without its leading characters of class `k`.
pub fn trim_front(v: &Vec<char>, k: CharClass) -> (r: Vec<char>)
    ensures
        r@ == drop_front(v@, k),
{
    let mut i: usize = 0;
    assert(v@.skip(0) =~= v@);
    while i < v.len() && char_in_class(v[i], k)
        invariant
            i <= v.len(),
            drop_front(v@, k) == drop_front(v@.skip(i as int), k),
        decreases v.len() - i,
    {
        proof {
            lemma_drop_front_skip(v@, k, i as int);
        }
        i = i + 1;
    }
    let r = slice(v, i, v.len());
    assert(r@ =~= v@.skip(i as int));
    r
}

/// `v` without its trailing characters of class `k`.
pub fn trim_back(v: &Vec<char>, k: CharClass) -> (r: Vec<char>)
    ensures
        r@ == drop_back(v@, k),
{
    let mut j: usize = v.len();
    assert(v@.take(v.len() as int) =~= v@);
    while j > 0 && char_in_class(v[j - 1], k)
        invariant
            j <= v.len(),
            drop_back(v@, k) == drop_back(v@.take(j as int), k),
        decreases j,
    {
        proof {
            lemma_drop_back_take(v@, k, j as int);
        }
        j = j - 1;
    }
    let r = slice(v, 0, j);
    assert(r@ =~= v@.take(j as int));
    r
}

/// `str::trim`.
pub fn trim_white(v: &Vec<char>) -> (r: Vec<char>)
    ensures
        r@ == trim(v@),
{
    let a = trim_front(v, CharClass::Whitespace);
    trim_back(&a, CharClass::Whitespace)
}

/// `str::trim_matches(c)`.
pub fn trim_matches(v: &Vec<char>, c: char) -> (r: Vec<char>)
    ensures
        r@ == trim_char(v@, c),
{
    let a = trim_front(v, CharClass::Exactly(c));
    trim_back(&a, CharClass::Exactly(c))
}

/// Index of the first `c` in `v`, or its length when there is none.
pub fn find_char(v: &Vec<char>, c: char) -> (r: usize)
    ensures
        r == find(v@, c),
{
    let mut i: usize = 0;
    while i < v.len() && v[i] != c
        invariant
            i <= v.len(),
            forall|k: int| 0 <= k < i ==> v@[k] != c,
        decreases v.len() - i,
    {
        i = i + 1;
    }
    proof {
        lemma_find_bounds(v@, c);
        let f: int = find(v@, c) as int;
        if f < i {
            assert(v@[f] != c);
        }
        if i < f {
            assert(v@[i as int] != c);
        }
    }
    i
}

proof fn lemma_split_step(s: Seq<char>, c: char, i: int, cur: Seq<char>)
    requires
        0 <= i < s.len(),
    ensures
        split_from(s.skip(i), c, cur) == (if s[i] == c {
            seq![cur] + split_from(s.skip(i + 1), c, Seq::empty())
        } else {
            split_from(s.skip(i + 1), c, cur.push(s[i]))
        }),
{
    assert(s.skip(i).drop_first() =~= s.skip(i + 1));
    assert(s.skip(i)[0] == s[i]);
}

/// `str::split` on one character.
pub fn split_on(v: &Vec<char>, c: char) -> (r: Vec<Vec<char>>)
    ensures
        r@.len() == split(v@, c).len(),
        forall|i: int| 0 <= i < r@.len() ==> #[trigger] r@[i]@ == split(v@, c)[i],
{
    let mut pieces: Vec<Vec<char>> = Vec::new();
    let mut cur: Vec<char> = Vec::new();
    let ghost mut done: Seq<Seq<char>> = Seq::empty();
    let mut i: usize = 0;
    assert(v@.skip(0) =~= v@);
    while i < v.len()
        invariant
            i <= v.len(),
            pieces@.len() == done.len(),
            forall|j: int| 0 <= j < done.len() ==> #[trigger] pieces@[j]@ == done[j],
            split(v@, c) == done + split_from(v@.skip(i as int), c, cur@),
        decreases v.len() - i,
    {
        proof {
            lemma_split_step(v@, c, i as int, cur@);
        }
        if v[i] == c {
            let ghost old_done = done;
            let ghost old_cur = cur@;
            pieces.push(cur);
            cur = Vec::new();
            proof {
                done = done.push(old_cur);
                assert(old_done + (seq![old_cur] + split_from(v@.skip(i + 1), c, Seq::empty()))
                    =~= done + split_from(v@.skip(i + 1), c, Seq::empty()));
            }
        } else {
            cur.push(v[i]);
        }
        i = i + 1;
    }
    proof {
        assert(v@.skip(i as int) =~= Seq::<char>::empty());
    }
    let ghost old_done = done;
    let ghost last = cur@;
    pieces.push(cur);
    proof {
        done = done.push(last);
        assert(split(v@, c) =~= done);
    }
    pieces
}

proof fn lemma_words_step(s: Seq<char>, i: int, cur: Seq<char>)
    requires
        0 <= i < s.len(),
    ensures
        words_from(s.skip(i), cur) == (if is_white(s[i]) {
            (if cur.len() > 0 {
                seq![cur]
            } else {
                Seq::<Seq<char>>::empty()
            }) + words_from(s.skip(i + 1), Seq::empty())
        } else {
            words_from(s.skip(i + 1), cur.push(s[i]))
        }),
{
    assert(s.skip(i).drop_first() =~= s.skip(i + 1));
    assert(s.skip(i)[0] == s[i]);
}

/// `str::split_whitespace`.
pub fn split_words(v: &Vec<char>) -> (r: Vec<Vec<char>>)
    ensures
        r@.len() == words(v@).len(),
        forall|i: int| 0 <= i < r@.len() ==> #[trigger] r@[i]@ == words(v@)[i],
{
    let mut pieces: Vec<Vec<char>> = Vec::new();
    let mut cur: Vec<char> = Vec::new();
    let ghost mut done: Seq<Seq<char>> = Seq::empty();
    let mut i: usize = 0;
    assert(v@.skip(0) =~= v@);
    while i < v.len()
        invariant
            i <= v.len(),
            pieces@.len() == done.len(),
            forall|j: int| 0 <= j < done.len() ==> #[trigger] pieces@[j]@ == done[j],
            words(v@) == done + words_from(v@.skip(i as int), cur@),
        decreases v.len() - i,
    {
        proof {
            lemma_words_step(v@, i as int, cur@);
        }
        if is_whitespace(v[i]) {
            let ghost old_done = done;
            let ghost old_cur = cur@;
            if cur.len() > 0 {
                pieces.push(cur);
                proof {
                    done = done.push(old_cur);
                }
            }
            cur = Vec::new();
            proof {
                let front = if old_cur.len() > 0 {
                    seq![old_cur]
                } else {
                    Seq::<Seq<char>>::empty()
                };
                assert(old_done + (front + words_from(v@.skip(i + 1), Seq::empty())) =~= done
                    + words_from(v@.skip(i + 1), Seq::empty()));
            }
        } else {
            cur.push(v[i]);
        }
        i = i + 1;
    }
    proof {
        assert(v@.skip(i as int) =~= Seq::<char>::empty());
    }
    if cur.len() > 0 {
        let ghost last = cur@;
        pieces.push(cur);
        proof {
            done = done.push(last);
        }
    }
    proof {
        assert(words(v@) =~= done);
    }
    pieces
}

} // verus!
