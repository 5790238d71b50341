//! Remote retention: which old backup archives to delete so that only the
//! newest `retain_count` remain.

use vstd::prelude::*;
use vstd::multiset::Multiset;
use crate::stamp::{naive_datetime_parse, parse_naive_datetime, spaced_pattern, Stamp};
use crate::text::{
    append, chars_of, drop_front, ends_with, has_prefix, has_suffix, slice, split, split_on,
    starts_with, string_of, trim_front, CharClass,
};

verus! {

/// Decides which backup archives to delete.
pub struct RetentionPolicy;

pub open spec fn zip_suffix() -> Seq<char> {
    seq!['.', 'z', 'i', 'p']
}

/// The timestamp in an archive name `..._YYYYMMDD_HHMMSS.zip`: the last two
/// `_`-separated fields of the name without `.zip`, read by chrono.
pub open spec fn spec_parse_timestamp(name: Seq<char>) -> Option<Stamp> {
    if !has_suffix(name, zip_suffix()) {
        None
    } else {
        let parts = split(name.take(name.len() - 4), '_');
        if parts.len() < 3 {
            None
        } else {
            naive_datetime_parse(
                parts[parts.len() - 2] + seq![' '] + parts[parts.len() - 1],
                spaced_pattern(),
            )
        }
    }
}

/// A number that orders timestamps to the second as the calendar does.
pub open spec fn second_key(t: Stamp) -> int {
    t.year * 10_000_000_000 + t.month * 100_000_000 + t.day * 1_000_000 + t.hour * 10_000
        + t.minute * 100 + t.second
}

/// A number that orders timestamps as the calendar does, to the
/// nanosecond (a leap second after `:59` of the same minute).
pub open spec fn stamp_key(t: Stamp) -> int {
    second_key(t) * 2_000_000_000 + t.nanosecond
}

/// The backups among `files`: names (leading `/` aside) that start with
/// `prefix`, end with `.zip` and carry a timestamp; each as its index in
/// `files` and the key of its timestamp, in listing order.
pub open spec fn candidates(files: Seq<Seq<char>>, prefix: Seq<char>) -> Seq<(usize, i128)>
    decreases files.len(),
{
    if files.len() == 0 {
        Seq::empty()
    } else {
        let prev = candidates(files.drop_last(), prefix);
        let name = drop_front(files.last(), CharClass::Exactly('/'));
        if has_prefix(name, prefix) && has_suffix(name, zip_suffix()) {
            match spec_parse_timestamp(name) {
                Some(t) => prev.push(((files.len() - 1) as usize, stamp_key(t) as i128)),
                None => prev,
            }
        } else {
            prev
        }
    }
}

/// `x` placed before the first entry of `s` with a smaller key.
pub open spec fn insert_desc(s: Seq<(usize, i128)>, x: (usize, i128)) -> Seq<(usize, i128)>
    decreases s.len(),
{
    if s.len() == 0 {
        seq![x]
    } else if s[0].1 >= x.1 {
        seq![s[0]] + insert_desc(s.drop_first(), x)
    } else {
        seq![x] + s
    }
}

/// `s` ordered newest first; entries with equal keys keep their order.
pub open spec fn sort_desc(s: Seq<(usize, i128)>) -> Seq<(usize, i128)>
    decreases s.len(),
{
    if s.len() == 0 {
        Seq::empty()
    } else {
        insert_desc(sort_desc(s.drop_last()), s.last())
    }
}

pub open spec fn is_sorted_desc(s: Seq<(usize, i128)>) -> bool {
    forall|i: int, j: int| 0 <= i < j < s.len() ==> s[i].1 >= s[j].1
}

/// The backups that remain after retention.
pub open spec fn kept(files: Seq<Seq<char>>, prefix: Seq<char>, n: nat) -> Seq<(usize, i128)> {
    if n == 0 {
        candidates(files, prefix)
    } else {
        sort_desc(candidates(files, prefix)).take(
            if n < candidates(files, prefix).len() {
                n as int
            } else {
                candidates(files, prefix).len() as int
            },
        )
    }
}

/// The backups that retention deletes, newest first.
pub open spec fn doomed(files: Seq<Seq<char>>, prefix: Seq<char>, n: nat) -> Seq<(usize, i128)> {
    let c = candidates(files, prefix);
    if n == 0 || c.len() <= n {
        Seq::empty()
    } else {
        sort_desc(c).skip(n as int)
    }
}

/// `dir/name`.
pub open spec fn remote_join(dir: Seq<char>, name: Seq<char>) -> Seq<char> {
    dir + seq!['/'] + name
}

proof fn lemma_insert_desc_shape(s: Seq<(usize, i128)>, x: (usize, i128), p: int)
    requires
        0 <= p <= s.len(),
        forall|k: int| 0 <= k < p ==> s[k].1 >= x.1,
        p < s.len() ==> s[p].1 < x.1,
    ensures
        insert_desc(s, x) == s.take(p).push(x) + s.skip(p),
    decreases s.len(),
{
    if s.len() == 0 {
        assert(s.take(p).push(x) + s.skip(p) =~= seq![x]);
    } else if p == 0 {
        assert(s.take(0).push(x) + s.skip(0) =~= seq![x] + s);
    } else {
        let t = s.drop_first();
        assert forall|k: int| 0 <= k < p - 1 implies t[k].1 >= x.1 by {
            assert(t[k] == s[k + 1]);
        }
        if p - 1 < t.len() {
            assert(t[p - 1] == s[p]);
        }
        lemma_insert_desc_shape(t, x, p - 1);
        assert(seq![s[0]] + (t.take(p - 1).push(x) + t.skip(p - 1)) =~= s.take(p).push(x) + s.skip(
            p,
        ));
    }
}

/// Places `x` after every entry whose key is not smaller.
fn insert_sorted(v: &mut Vec<(usize, i128)>, x: (usize, i128))
    ensures
        final(v)@ == insert_desc(old(v)@, x),
{
    let mut p: usize = 0;
    while p < v.len() && v[p].1 >= x.1
        invariant
            p <= v@.len(),
            v@ == old(v)@,
            forall|k: int| 0 <= k < p ==> v@[k].1 >= x.1,
        decreases v.len() - p,
    {
        p = p + 1;
    }
    proof {
        lemma_insert_desc_shape(v@, x, p as int);
    }
    v.insert(p, x);
    assert(v@ =~= old(v)@.take(p as int).push(x) + old(v)@.skip(p as int));
}

/// A stable sort, newest first.
fn sort_newest_first(c: &Vec<(usize, i128)>) -> (r: Vec<(usize, i128)>)
    ensures
        r@ == sort_desc(c@),
{
    let mut r: Vec<(usize, i128)> = Vec::new();
    let mut i: usize = 0;
    assert(c@.take(0) =~= Seq::<(usize, i128)>::empty());
    while i < c.len()
        invariant
            i <= c@.len(),
            r@ == sort_desc(c@.take(i as int)),
        decreases c.len() - i,
    {
        assert(c@.take(i + 1).drop_last() =~= c@.take(i as int));
        insert_sorted(&mut r, c[i]);
        i = i + 1;
    }
    assert(c@.take(c.len() as int) =~= c@);
    r
}

/// Reads the timestamp of an archive name `..._YYYYMMDD_HHMMSS.zip`.
pub fn parse_timestamp(filename: &str) -> (r: Option<Stamp>)
    ensures
        r == spec_parse_timestamp(filename@),
        forall|t: Stamp|
            crate::stamp::valid_stamp(t) && crate::stamp::whole_second(t) && 0 <= t.year <= 9999 && filename@
                == #[trigger] crate::plan::archive_name(t) ==> r == Some(t),
{
    let name = chars_of(filename);
    let zip = vec!['.', 'z', 'i', 'p'];
    assert(zip@ =~= zip_suffix());
    if !ends_with(&name, &zip) {
        proof {
            assert forall|t: Stamp|
                0 <= t.year <= 9999 && filename@ == #[trigger] crate::plan::archive_name(t) implies false by {
                crate::plan::lemma_archive_name_fields(t);
            }
        }
        return None;
    }
    let stem = slice(&name, 0, name.len() - 4);
    assert(stem@ =~= name@.take(name@.len() - 4));
    let parts = split_on(&stem, '_');
    if parts.len() < 3 {
        proof {
            assert forall|t: Stamp|
                0 <= t.year <= 9999 && filename@ == #[trigger] crate::plan::archive_name(t) implies false by {
                crate::plan::lemma_archive_name_fields(t);
            }
        }
        return None;
    }
    let mut text = slice(&parts[parts.len() - 2], 0, parts[parts.len() - 2].len());
    text.push(' ');
    append(&mut text, &parts[parts.len() - 1]);
    let pattern = vec!['%', 'Y', '%', 'm', '%', 'd', ' ', '%', 'H', '%', 'M', '%', 'S'];
    assert(pattern@ =~= spaced_pattern());
    let text_s = string_of(&text);
    let pattern_s = string_of(&pattern);
    proof {
        let ps = split(stem@, '_');
        assert(parts@[parts@.len() - 2]@ == ps[ps.len() - 2]);
        assert(text@ =~= ps[ps.len() - 2] + seq![' '] + ps[ps.len() - 1]);
    }
    let r = parse_naive_datetime(text_s.as_str(), pattern_s.as_str());
    proof {
        assert forall|t: Stamp|
            crate::stamp::valid_stamp(t) && crate::stamp::whole_second(t) && 0 <= t.year <= 9999 && filename@
                == #[trigger] crate::plan::archive_name(t) implies r == Some(t) by {
            crate::plan::lemma_archive_name_fields(t);
            let ps = split(stem@, '_');
            assert(text@ == crate::stamp::date_text(t) + seq![' '] + crate::stamp::time_text(t));
        }
    }
    r
}

/// The key of a timestamp, as `stamp_key`.
pub fn stamp_order_key(t: &Stamp) -> (k: i128)
    ensures
        k == stamp_key(*t),
{
    let seconds: i128 = t.year as i128 * 10_000_000_000 + t.month as i128 * 100_000_000 + t.day as i128
        * 1_000_000 + t.hour as i128 * 10_000 + t.minute as i128 * 100 + t.second as i128;
    assert(-30_000_000_000_000_000_000 < seconds < 30_000_000_000_000_000_000);
    assert(-60_000_000_000_000_000_000_000_000_000 < seconds * 2_000_000_000
        < 60_000_000_000_000_000_000_000_000_000) by (nonlinear_arith)
        requires
            -30_000_000_000_000_000_000 < seconds < 30_000_000_000_000_000_000,
    ;
    seconds * 2_000_000_000 + t.nanosecond as i128
}

impl RetentionPolicy {
    /// The backups among `files` (names listed in `remote_dir`) with their
    /// timestamp keys, in listing order.
    pub fn backups(files: &Vec<String>, prefix: &str) -> (r: Vec<(usize, i128)>)
        ensures
            r@ == candidates(files@.map_values(|f: String| f@), prefix@),
    {
        let ghost fs = files@.map_values(|f: String| f@);
        let pre = chars_of(prefix);
        let zip = vec!['.', 'z', 'i', 'p'];
        assert(zip@ =~= zip_suffix());
        let mut r: Vec<(usize, i128)> = Vec::new();
        let mut i: usize = 0;
        assert(fs.take(0) =~= Seq::<Seq<char>>::empty());
        while i < files.len()
            invariant
                i <= files@.len() == fs.len(),
                fs == files@.map_values(|f: String| f@),
                pre@ == prefix@,
                zip@ == zip_suffix(),
                r@ == candidates(fs.take(i as int), prefix@),
            decreases files.len() - i,
        {
            let ghost before = fs.take(i as int);
            assert(fs.take(i + 1).drop_last() =~= before);
            assert(fs.take(i + 1).last() == files@[i as int]@);
            let name = trim_front(&chars_of(files[i].as_str()), CharClass::Exactly('/'));
            if starts_with(&name, &pre) && ends_with(&name, &zip) {
                let name_s = string_of(&name);
                if let Some(t) = parse_timestamp(name_s.as_str()) {
                    let k: i128 = stamp_order_key(&t);
                    r.push((i, k));
                }
            }
            i = i + 1;
        }
        assert(fs.take(files.len() as int) =~= fs);
        r
    }

    /// The remote paths (`remote_dir/name`) of the backups to delete so
    /// that only the newest `retain_count` remain, newest first; none when
    /// `retain_count` is 0 or there are no more backups than that.
    pub fn select(files: &Vec<String>, remote_dir: &str, prefix: &str, retain_count: usize) -> (r:
        Vec<String>)
        ensures
            ({
                let d = doomed(files@.map_values(|f: String| f@), prefix@, retain_count as nat);
                &&& r@.len() == d.len()
                &&& forall|k: int|
                    0 <= k < d.len() ==> #[trigger] r@[k]@ == remote_join(
                        remote_dir@,
                        files@[d[k].0 as int]@,
                    )
            }),
    {
        let ghost fs = files@.map_values(|f: String| f@);
        if retain_count == 0 {
            return Vec::new();
        }
        let c = RetentionPolicy::backups(files, prefix);
        if c.len() <= retain_count {
            return Vec::new();
        }
        let sorted = sort_newest_first(&c);
        let n_files: usize = files.len();
        proof {
            lemma_sort_desc_perm(c@);
            assert(fs.len() == files@.len() && files@.len() == n_files);
            lemma_candidates_index(fs, prefix@);
        }
        let dir = chars_of(remote_dir);
        let mut r: Vec<String> = Vec::new();
        let mut k: usize = retain_count;
        let ghost d = sorted@.skip(retain_count as int);
        while k < sorted.len()
            invariant
                retain_count <= k <= sorted@.len(),
                sorted@ == sort_desc(c@),
                sorted@.len() == c@.len(),
                c@ == candidates(fs, prefix@),
                fs == files@.map_values(|f: String| f@),
                fs.len() == files@.len(),
                forall|j: int| 0 <= j < c@.len() ==> #[trigger] c@[j].0 < fs.len(),
                sorted@.to_multiset() == c@.to_multiset(),
                d == sorted@.skip(retain_count as int),
                dir@ == remote_dir@,
                r@.len() == k - retain_count,
                forall|j: int|
                    0 <= j < r@.len() ==> #[trigger] r@[j]@ == remote_join(
                        remote_dir@,
                        files@[d[j].0 as int]@,
                    ),
            decreases sorted.len() - k,
        {
            let idx: usize = sorted[k].0;
            proof {
                lemma_multiset_member(sorted@, c@, k as int);
            }
            let mut path = slice(&dir, 0, dir.len());
            path.push('/');
            append(&mut path, &chars_of(files[idx].as_str()));
            let ghost before = r@;
            r.push(string_of(&path));
            proof {
                assert(d[(k - retain_count) as int] == sorted@[k as int]);
                assert(path@ =~= remote_join(remote_dir@, files@[idx as int]@));
                assert forall|j: int| 0 <= j < r@.len() implies #[trigger] r@[j]@ == remote_join(
                    remote_dir@,
                    files@[d[j].0 as int]@,
                ) by {
                    if j < before.len() {
                        assert(r@[j] == before[j]);
                    }
                }
            }
            k = k + 1;
        }
        r
    }
}

proof fn lemma_multiset_member(s: Seq<(usize, i128)>, c: Seq<(usize, i128)>, k: int)
    requires
        0 <= k < s.len(),
        s.to_multiset() == c.to_multiset(),
    ensures
        exists|j: int| 0 <= j < c.len() && c[j] == s[k],
{
    broadcast use vstd::seq_lib::group_to_multiset_ensures;
    assert(s.to_multiset().count(s[k]) > 0);
    assert(c.contains(s[k]));
}

/// Every candidate's index points into the listing.
pub proof fn lemma_candidates_index(files: Seq<Seq<char>>, prefix: Seq<char>)
    requires
        files.len() <= usize::MAX,
    ensures
        forall|j: int|
            0 <= j < candidates(files, prefix).len() ==> #[trigger] candidates(
                files,
                prefix,
            )[j].0 < files.len(),
    decreases files.len(),
{
    if files.len() > 0 {
        let prev = candidates(files.drop_last(), prefix);
        lemma_candidates_index(files.drop_last(), prefix);
        let c = candidates(files, prefix);
        assert forall|j: int| 0 <= j < c.len() implies #[trigger] c[j].0 < files.len() by {
            if j < prev.len() {
                assert(c[j] == prev[j]);
            }
        }
    }
}

/// Inserting keeps the same entries.
pub proof fn lemma_insert_desc_perm(s: Seq<(usize, i128)>, x: (usize, i128))
    ensures
        insert_desc(s, x).to_multiset() == s.to_multiset().insert(x),
        insert_desc(s, x).len() == s.len() + 1,
    decreases s.len(),
{
    broadcast use vstd::seq_lib::group_to_multiset_ensures;
    if s.len() == 0 {
        assert(seq![x] =~= Seq::<(usize, i128)>::empty().push(x));
    } else if s[0].1 >= x.1 {
        let t = s.drop_first();
        lemma_insert_desc_perm(t, x);
        vstd::seq_lib::lemma_multiset_commutative(seq![s[0]], insert_desc(t, x));
        vstd::seq_lib::lemma_multiset_commutative(seq![s[0]], t);
        assert(seq![s[0]] + t =~= s);
        assert(seq![s[0]].to_multiset() =~= Multiset::singleton(s[0])) by {
            assert(seq![s[0]] =~= Seq::<(usize, i128)>::empty().push(s[0]));
        }
    } else {
        vstd::seq_lib::lemma_multiset_commutative(seq![x], s);
        assert(seq![x].to_multiset() =~= Multiset::singleton(x)) by {
            assert(seq![x] =~= Seq::<(usize, i128)>::empty().push(x));
        }
    }
}

/// Sorting keeps the same entries.
pub proof fn lemma_sort_desc_perm(s: Seq<(usize, i128)>)
    ensures
        sort_desc(s).to_multiset() == s.to_multiset(),
        sort_desc(s).len() == s.len(),
    decreases s.len(),
{
    broadcast use vstd::seq_lib::group_to_multiset_ensures;
    if s.len() > 0 {
        lemma_sort_desc_perm(s.drop_last());
        lemma_insert_desc_perm(sort_desc(s.drop_last()), s.last());
        assert(s.drop_last().push(s.last()) =~= s);
    }
}

/// Inserting into a newest-first sequence keeps it newest first.
pub proof fn lemma_insert_desc_sorted(s: Seq<(usize, i128)>, x: (usize, i128))
    requires
        is_sorted_desc(s),
    ensures
        is_sorted_desc(insert_desc(s, x)),
    decreases s.len(),
{
    if s.len() > 0 && s[0].1 >= x.1 {
        let t = s.drop_first();
        lemma_insert_desc_sorted(t, x);
        lemma_insert_desc_perm(t, x);
        let r = insert_desc(s, x);
        let rt = insert_desc(t, x);
        assert forall|i: int, j: int| 0 <= i < j < r.len() implies r[i].1 >= r[j].1 by {
            if i == 0 {
                // every entry of `rt` is `x` or an entry of `t`
                let e = rt[j - 1];
                broadcast use vstd::seq_lib::group_to_multiset_ensures;
                assert(rt.to_multiset().count(e) > 0);
                if e != x {
                    assert(t.to_multiset().count(e) > 0);
                    assert(t.contains(e));
                    let m: int = choose|m: int| 0 <= m < t.len() && t[m] == e;
                    assert(s[m + 1] == e);
                }
            } else {
                assert(r[i] == rt[i - 1] && r[j] == rt[j - 1]);
            }
        }
    } else if s.len() > 0 {
        let r = insert_desc(s, x);
        assert forall|i: int, j: int| 0 <= i < j < r.len() implies r[i].1 >= r[j].1 by {
            if i > 0 {
                assert(r[i] == s[i - 1] && r[j] == s[j - 1]);
            } else {
                assert(r[j] == s[j - 1]);
            }
        }
    }
}

/// The newest-first order is sorted by key, newest first.
pub proof fn lemma_sort_desc_sorted(s: Seq<(usize, i128)>)
    ensures
        is_sorted_desc(sort_desc(s)),
    decreases s.len(),
{
    if s.len() > 0 {
        lemma_sort_desc_sorted(s.drop_last());
        lemma_insert_desc_sorted(sort_desc(s.drop_last()), s.last());
    }
}

/// Retention keeps the newest `n` backups and deletes the rest: with
/// `n > 0`, the kept and the deleted backups are together exactly the
/// backups found; as many are kept as `n` allows; no deleted backup is
/// newer than a kept one; and with `n == 0` (keep all) nothing is deleted.
pub proof fn lemma_retention_keeps_newest(files: Seq<Seq<char>>, prefix: Seq<char>, n: nat)
    ensures
        n == 0 ==> doomed(files, prefix, n).len() == 0,
        n > 0 ==> (kept(files, prefix, n) + doomed(files, prefix, n)).to_multiset()
            == candidates(files, prefix).to_multiset(),
        kept(files, prefix, n).len() == (if n == 0 || candidates(files, prefix).len() <= n {
            candidates(files, prefix).len()
        } else {
            n
        }),
        forall|i: int, j: int|
            0 <= i < kept(files, prefix, n).len() && 0 <= j < doomed(files, prefix, n).len()
                ==> #[trigger] kept(files, prefix, n)[i].1 >= #[trigger] doomed(
                files,
                prefix,
                n,
            )[j].1,
{
    let c = candidates(files, prefix);
    lemma_sort_desc_perm(c);
    lemma_sort_desc_sorted(c);
    let s = sort_desc(c);
    if n > 0 {
        if c.len() <= n {
            assert(s.take(c.len() as int) =~= s);
            assert(kept(files, prefix, n) + doomed(files, prefix, n) =~= s);
        } else {
            assert(s.take(n as int) + s.skip(n as int) =~= s);
            assert forall|i: int, j: int|
                0 <= i < kept(files, prefix, n).len() && 0 <= j < doomed(files, prefix, n).len()
                    implies #[trigger] kept(files, prefix, n)[i].1 >= #[trigger] doomed(
                    files,
                    prefix,
                    n,
                )[j].1 by {
                assert(kept(files, prefix, n)[i] == s[i]);
                assert(doomed(files, prefix, n)[j] == s[n + j]);
            }
        }
    }
}

/// Lexicographic calendar order: `a` is strictly earlier than `b`.
pub open spec fn earlier(a: Stamp, b: Stamp) -> bool {
    if a.year != b.year {
        a.year < b.year
    } else if a.month != b.month {
        a.month < b.month
    } else if a.day != b.day {
        a.day < b.day
    } else if a.hour != b.hour {
        a.hour < b.hour
    } else if a.minute != b.minute {
        a.minute < b.minute
    } else if a.second != b.second {
        a.second < b.second
    } else {
        a.nanosecond < b.nanosecond
    }
}

/// Ordering by key is calendar order: of two real timestamps, the one
/// with the smaller key is the earlier one.
pub proof fn lemma_key_is_calendar_order(a: Stamp, b: Stamp)
    requires
        crate::stamp::valid_stamp(a),
        crate::stamp::valid_stamp(b),
    ensures
        stamp_key(a) < stamp_key(b) <==> earlier(a, b),
        stamp_key(a) == stamp_key(b) <==> a == b,
{
    let ra: int = a.month * 100_000_000 + a.day * 1_000_000 + a.hour * 10_000 + a.minute * 100 + a.second;
    let rb: int = b.month * 100_000_000 + b.day * 1_000_000 + b.hour * 10_000 + b.minute * 100 + b.second;
    assert(0 <= ra < 10_000_000_000);
    assert(0 <= rb < 10_000_000_000);
    if a.year < b.year {
        assert(a.year * 10_000_000_000 + 10_000_000_000 <= b.year * 10_000_000_000) by (nonlinear_arith)
            requires a.year < b.year;
    } else if a.year > b.year {
        assert(b.year * 10_000_000_000 + 10_000_000_000 <= a.year * 10_000_000_000) by (nonlinear_arith)
            requires a.year > b.year;
    }
    let ka = second_key(a);
    let kb = second_key(b);
    assert(second_key(a) < second_key(b) <==> (earlier(a, b) && !(a.year == b.year && a.month
        == b.month && a.day == b.day && a.hour == b.hour && a.minute == b.minute && a.second
        == b.second)));
    assert(second_key(a) == second_key(b) <==> (a.year == b.year && a.month == b.month && a.day
        == b.day && a.hour == b.hour && a.minute == b.minute && a.second == b.second));
    if ka < kb {
        assert(ka * 2_000_000_000 + 2_000_000_000 <= kb * 2_000_000_000) by (nonlinear_arith)
            requires ka < kb;
    } else if ka > kb {
        assert(kb * 2_000_000_000 + 2_000_000_000 <= ka * 2_000_000_000) by (nonlinear_arith)
            requires ka > kb;
    }
}

/// A listed name that retention counts as a backup.
pub open spec fn is_backup(f: Seq<char>, prefix: Seq<char>) -> bool {
    let name = drop_front(f, CharClass::Exactly('/'));
    has_prefix(name, prefix) && has_suffix(name, zip_suffix()) && spec_parse_timestamp(name) is Some
}

/// Whether the listing entry at index `i` is one that retention deletes.
pub open spec fn doomed_index(files: Seq<Seq<char>>, prefix: Seq<char>, n: nat, i: int) -> bool {
    exists|k: int|
        0 <= k < doomed(files, prefix, n).len() && #[trigger] doomed(files, prefix, n)[k].0 == i
}

/// The entries of `fs` whose index satisfies `keep`, in order.
pub open spec fn keep_where(fs: Seq<Seq<char>>, keep: spec_fn(int) -> bool) -> Seq<Seq<char>>
    decreases fs.len(),
{
    if fs.len() == 0 {
        Seq::empty()
    } else if keep(fs.len() - 1) {
        keep_where(fs.drop_last(), keep).push(fs.last())
    } else {
        keep_where(fs.drop_last(), keep)
    }
}

/// The listing after retention deleted its backups.
pub open spec fn leftover(files: Seq<Seq<char>>, prefix: Seq<char>, n: nat) -> Seq<Seq<char>> {
    keep_where(files, |i: int| !doomed_index(files, prefix, n, i))
}

/// How many entries of `fs` are backups whose index satisfies `keep`.
pub open spec fn count_backups(fs: Seq<Seq<char>>, prefix: Seq<char>, keep: spec_fn(int) -> bool) -> nat
    decreases fs.len(),
{
    if fs.len() == 0 {
        0
    } else {
        count_backups(fs.drop_last(), prefix, keep) + (if keep(fs.len() - 1) && is_backup(
            fs.last(),
            prefix,
        ) {
            1nat
        } else {
            0nat
        })
    }
}

proof fn lemma_candidates_count(fs: Seq<Seq<char>>, prefix: Seq<char>, keep: spec_fn(int) -> bool)
    requires
        fs.len() <= usize::MAX,
    ensures
        count_backups(fs, prefix, keep) == candidates(fs, prefix).filter(
            |e: (usize, i128)| keep(e.0 as int),
        ).len(),
    decreases fs.len(),
{
    reveal_with_fuel(Seq::<_>::filter, 1);
    if fs.len() > 0 {
        lemma_candidates_count(fs.drop_last(), prefix, keep);
        let prev = candidates(fs.drop_last(), prefix);
        let c = candidates(fs, prefix);
        if c.len() > prev.len() {
            assert(c.drop_last() =~= prev);
        }
    }
}

proof fn lemma_all_count(fs: Seq<Seq<char>>, prefix: Seq<char>)
    requires
        fs.len() <= usize::MAX,
    ensures
        count_backups(fs, prefix, |i: int| true) == candidates(fs, prefix).len(),
    decreases fs.len(),
{
    if fs.len() > 0 {
        lemma_all_count(fs.drop_last(), prefix);
    }
}

proof fn lemma_count_split(fs: Seq<Seq<char>>, prefix: Seq<char>, keep: spec_fn(int) -> bool)
    ensures
        count_backups(fs, prefix, keep) + count_backups(fs, prefix, |i: int| !keep(i))
            == count_backups(fs, prefix, |i: int| true),
    decreases fs.len(),
{
    if fs.len() > 0 {
        lemma_count_split(fs.drop_last(), prefix, keep);
    }
}

proof fn lemma_keep_where_count(fs: Seq<Seq<char>>, prefix: Seq<char>, keep: spec_fn(int) -> bool)
    ensures
        count_backups(keep_where(fs, keep), prefix, |i: int| true) == count_backups(fs, prefix, keep),
        keep_where(fs, keep).len() <= fs.len(),
    decreases fs.len(),
{
    if fs.len() > 0 {
        lemma_keep_where_count(fs.drop_last(), prefix, keep);
        let k = keep_where(fs.drop_last(), keep);
        if keep(fs.len() - 1) {
            assert(k.push(fs.last()).drop_last() =~= k);
        }
    }
}

proof fn lemma_candidates_increasing(fs: Seq<Seq<char>>, prefix: Seq<char>)
    requires
        fs.len() <= usize::MAX,
    ensures
        forall|i: int, j: int|
            0 <= i < j < candidates(fs, prefix).len() ==> candidates(fs, prefix)[i].0 < candidates(
                fs,
                prefix,
            )[j].0,
    decreases fs.len(),
{
    if fs.len() > 0 {
        lemma_candidates_increasing(fs.drop_last(), prefix);
        lemma_candidates_index(fs.drop_last(), prefix);
        let prev = candidates(fs.drop_last(), prefix);
        let c = candidates(fs, prefix);
        assert forall|i: int, j: int| 0 <= i < j < c.len() implies c[i].0 < c[j].0 by {
            assert(c[i] == prev[i]);
            if j < prev.len() {
                assert(c[j] == prev[j]);
            }
        }
    }
}

/// Filtering a duplicate-free sequence by membership in a duplicate-free
/// part of it keeps as many entries as the part has.
proof fn lemma_filter_members(c: Seq<(usize, i128)>, d: Seq<(usize, i128)>, p: spec_fn((usize, i128)) -> bool)
    requires
        c.no_duplicates(),
        d.no_duplicates(),
        forall|k: int| 0 <= k < d.len() ==> c.contains(#[trigger] d[k]),
        forall|j: int| 0 <= j < c.len() ==> (p(#[trigger] c[j]) <==> d.contains(c[j])),
    ensures
        c.filter(p).len() == d.len(),
    decreases c.len(),
{
    reveal_with_fuel(Seq::<_>::filter, 1);
    if c.len() == 0 {
        if d.len() > 0 {
            assert(c.contains(d[0]));
        }
    } else {
        let x = c.last();
        let c0 = c.drop_last();
        assert forall|j: int| 0 <= j < c0.len() implies c0[j] != x by {
            assert(c[j] == c0[j]);
        }
        if d.contains(x) {
            let jx = choose|jx: int| 0 <= jx < d.len() && d[jx] == x;
            let d0 = d.remove(jx);
            assert forall|k: int| 0 <= k < d0.len() implies c0.contains(#[trigger] d0[k]) by {
                let kk = if k < jx { k } else { k + 1 };
                assert(d0[k] == d[kk]);
                assert(kk != jx);
                assert(d[kk] != x);
                assert(c.contains(d[kk]));
                let m = choose|m: int| 0 <= m < c.len() && c[m] == d[kk];
                assert(m != c.len() - 1);
                assert(c0[m] == d[kk]);
            }
            assert forall|j: int| 0 <= j < c0.len() implies (p(#[trigger] c0[j]) <==> d0.contains(c0[j])) by {
                assert(c[j] == c0[j]);
                if d.contains(c0[j]) {
                    let k = choose|k: int| 0 <= k < d.len() && d[k] == c0[j];
                    assert(k != jx);
                    let kk = if k < jx { k } else { k - 1 };
                    assert(d0[kk] == d[k]);
                }
                if d0.contains(c0[j]) {
                    let k = choose|k: int| 0 <= k < d0.len() && d0[k] == c0[j];
                    let kk = if k < jx { k } else { k + 1 };
                    assert(d0[k] == d[kk]);
                }
            }
            assert(d0.no_duplicates()) by {
                assert forall|a: int, b: int| 0 <= a < d0.len() && 0 <= b < d0.len() && a != b implies d0[a] != d0[b] by {
                    let aa = if a < jx { a } else { a + 1 };
                    let bb = if b < jx { b } else { b + 1 };
                    assert(d0[a] == d[aa] && d0[b] == d[bb]);
                }
            }
            lemma_filter_members(c0, d0, p);
            assert(p(c[c.len() - 1]));
        } else {
            assert forall|k: int| 0 <= k < d.len() implies c0.contains(#[trigger] d[k]) by {
                assert(c.contains(d[k]));
                let m = choose|m: int| 0 <= m < c.len() && c[m] == d[k];
                if m == c.len() - 1 {
                    assert(d.contains(x));
                }
                assert(c0[m] == d[k]);
            }
            assert forall|j: int| 0 <= j < c0.len() implies (p(#[trigger] c0[j]) <==> d.contains(c0[j])) by {
                assert(c[j] == c0[j]);
            }
            lemma_filter_members(c0, d, p);
            assert(!p(c[c.len() - 1]));
        }
        assert(c.drop_last() == c0);
    }
}

/// How many entries of a listing are backups.
pub open spec fn backup_count(fs: Seq<Seq<char>>, prefix: Seq<char>) -> nat {
    fs.filter(|f: Seq<char>| is_backup(f, prefix)).len()
}

proof fn lemma_count_is_filter(fs: Seq<Seq<char>>, prefix: Seq<char>)
    ensures
        count_backups(fs, prefix, |i: int| true) == backup_count(fs, prefix),
    decreases fs.len(),
{
    reveal_with_fuel(Seq::<_>::filter, 1);
    if fs.len() > 0 {
        lemma_count_is_filter(fs.drop_last(), prefix);
    }
}

/// The number of entries that satisfy `p` does not depend on their order.
proof fn lemma_filter_len_perm(a: Seq<Seq<char>>, b: Seq<Seq<char>>, p: spec_fn(Seq<char>) -> bool)
    requires
        a.to_multiset() == b.to_multiset(),
    ensures
        a.filter(p).len() == b.filter(p).len(),
    decreases a.len(),
{
    broadcast use vstd::seq_lib::group_to_multiset_ensures;
    broadcast use vstd::multiset::group_multiset_axioms;
    reveal_with_fuel(Seq::<_>::filter, 1);
    if a.len() == 0 {
        vstd::seq_lib::to_multiset_len(a);
        vstd::seq_lib::to_multiset_len(b);
        assert(b.len() == 0);
        assert(b.filter(p).len() == 0);
    } else {
        let x = a.last();
        let a0 = a.drop_last();
        assert(a0.push(x) =~= a);
        assert(a.to_multiset() =~= a0.to_multiset().insert(x));
        assert(b.to_multiset().count(x) > 0);
        assert(b.contains(x));
        let j = choose|j: int| 0 <= j < b.len() && b[j] == x;
        let b0 = b.remove(j);
        assert(b0.to_multiset() == b.to_multiset().remove(x));
        assert(b0.to_multiset() =~= a0.to_multiset());
        lemma_filter_len_perm(a0, b0, p);
        let u = b.take(j);
        let v = b.skip(j + 1);
        assert(b =~= u + (seq![x] + v));
        assert(b0 =~= u + v);
        Seq::filter_distributes_over_add(u, seq![x] + v, p);
        Seq::filter_distributes_over_add(seq![x], v, p);
        Seq::filter_distributes_over_add(u, v, p);
        assert(seq![x].filter(p).len() == (if p(x) { 1int } else { 0int })) by {
            reveal_with_fuel(Seq::<_>::filter, 2);
            assert(seq![x].drop_last() =~= Seq::<Seq<char>>::empty());
        }
    }
}

/// In the listing that retention leaves (its deleted backups gone) there
/// are as many backups as it kept.
proof fn lemma_leftover_backups(files: Seq<Seq<char>>, prefix: Seq<char>, n: nat)
    requires
        n > 0,
        files.len() <= usize::MAX,
    ensures
        candidates(leftover(files, prefix, n), prefix).len() == kept(files, prefix, n).len(),
        leftover(files, prefix, n).len() <= files.len(),
{
    broadcast use vstd::seq_lib::group_to_multiset_ensures;
    let c = candidates(files, prefix);
    let s = sort_desc(c);
    let d = doomed(files, prefix, n);
    let dk = |i: int| doomed_index(files, prefix, n, i);
    let nk = |i: int| !doomed_index(files, prefix, n, i);
    lemma_retention_keeps_newest(files, prefix, n);
    lemma_sort_desc_perm(c);
    lemma_candidates_increasing(files, prefix);
    // the leftover listing has the backups whose index is not doomed
    lemma_keep_where_count(files, prefix, nk);
    let rest = leftover(files, prefix, n);
    assert(rest == keep_where(files, nk));
    lemma_all_count(rest, prefix);
    lemma_count_split(files, prefix, dk);
    assert(count_backups(files, prefix, |i: int| !dk(i)) == count_backups(files, prefix, nk)) by {
        assert((|i: int| !dk(i)) =~= nk);
    }
    lemma_all_count(files, prefix);
    // the doomed indices among the backups are exactly the doomed entries
    lemma_candidates_count(files, prefix, dk);
    assert(c.no_duplicates());
    c.lemma_multiset_has_no_duplicates();
    s.lemma_multiset_has_no_duplicates_conv();
    if c.len() > n {
        assert(d == s.skip(n as int));
        assert(d.no_duplicates()) by {
            assert forall|a: int, b: int| 0 <= a < d.len() && 0 <= b < d.len() && a != b implies d[a] != d[b] by {
                assert(d[a] == s[a + n] && d[b] == s[b + n]);
            }
        }
        assert forall|k: int| 0 <= k < d.len() implies c.contains(#[trigger] d[k]) by {
            assert(d[k] == s[k + n]);
            assert(s.to_multiset().count(s[k + n]) > 0);
        }
        let p = |e: (usize, i128)| dk(e.0 as int);
        assert forall|j: int| 0 <= j < c.len() implies (p(#[trigger] c[j]) <==> d.contains(c[j])) by {
            if p(c[j]) {
                let k = choose|k: int| 0 <= k < d.len() && #[trigger] d[k].0 == c[j].0;
                assert(c.contains(d[k]));
                let m = choose|m: int| 0 <= m < c.len() && c[m] == d[k];
                if m < j {
                    assert(c[m].0 < c[j].0);
                } else if m > j {
                    assert(c[j].0 < c[m].0);
                }
            }
            if d.contains(c[j]) {
                let k = choose|k: int| 0 <= k < d.len() && d[k] == c[j];
                assert(d[k].0 == c[j].0);
            }
        }
        lemma_filter_members(c, d, p);
    } else {
        assert(d.len() == 0);
        let p = |e: (usize, i128)| dk(e.0 as int);
        assert(c.filter(p) =~= Seq::<(usize, i128)>::empty()) by {
            c.lemma_all_neg_filter_empty(p);
        }
    }
}

/// Retention settles: once its deleted backups are gone, a listing of the
/// remaining names, in whatever order the server gives them, holds as many
/// backups as retention kept, and the same retention count finds nothing
/// more to delete in it.
pub proof fn lemma_retention_settles(
    files: Seq<Seq<char>>,
    prefix: Seq<char>,
    n: nat,
    relisted: Seq<Seq<char>>,
)
    requires
        n > 0,
        files.len() <= usize::MAX,
        relisted.to_multiset() == leftover(files, prefix, n).to_multiset(),
    ensures
        candidates(relisted, prefix).len() == kept(files, prefix, n).len(),
        doomed(relisted, prefix, n).len() == 0,
{
    broadcast use vstd::seq_lib::group_to_multiset_ensures;
    let rest = leftover(files, prefix, n);
    lemma_leftover_backups(files, prefix, n);
    assert(relisted.to_multiset().len() == rest.to_multiset().len());
    assert(relisted.len() == rest.len());
    lemma_all_count(rest, prefix);
    lemma_all_count(relisted, prefix);
    lemma_count_is_filter(rest, prefix);
    lemma_count_is_filter(relisted, prefix);
    lemma_filter_len_perm(rest, relisted, |f: Seq<char>| is_backup(f, prefix));
    let c = candidates(files, prefix);
    lemma_sort_desc_perm(c);
    assert(kept(files, prefix, n).len() <= n);
}

} // verus!
