//! The grammar of history-directory entry names:
//! `fhistory-<date>-<hash>`, where `<date>` is
//! `YYYY-MM-DDThh:mm:ss[.fraction][(+hh:mm|-hh:mm|Z)]` and `<hash>` is one or
//! more of `a`-`z` and `0`-`9`.
use vstd::prelude::*;
use vstd::string::*;

verus! {

pub open spec fn is_digit(c: char) -> bool {
    '0' <= c && c <= '9'
}

pub open spec fn all_digits(s: Seq<char>) -> bool {
    forall|i: int| 0 <= i < s.len() ==> is_digit(#[trigger] s[i])
}

/// A character allowed in the hash part of a name.
pub open spec fn is_hash_char(c: char) -> bool {
    ('a' <= c && c <= 'z') || is_digit(c)
}

pub open spec fn valid_hash(h: Seq<char>) -> bool {
    h.len() > 0 && forall|i: int| 0 <= i < h.len() ==> is_hash_char(#[trigger] h[i])
}

/// What position `i` of `YYYY-MM-DDThh:mm:ss` holds.
pub open spec fn head_char_ok(i: int, c: char) -> bool {
    if i == 4 || i == 7 {
        c == '-'
    } else if i == 10 {
        c == 'T'
    } else if i == 13 || i == 16 {
        c == ':'
    } else {
        is_digit(c)
    }
}

/// An optional zone designator: nothing, `Z`, or `+hh:mm` / `-hh:mm`.
pub open spec fn valid_zone(t: Seq<char>) -> bool {
    t.len() == 0 || (t.len() == 1 && t[0] == 'Z') || (t.len() == 6 && (t[0] == '+' || t[0] == '-')
        && is_digit(t[1]) && is_digit(t[2]) && t[3] == ':' && is_digit(t[4]) && is_digit(t[5]))
}

/// What follows the seconds: an optional `.` and one or more digits, then an
/// optional zone designator.
pub open spec fn valid_time_tail(t: Seq<char>) -> bool {
    valid_zone(t) || (t.len() > 0 && t[0] == '.' && exists|n: int|
        1 <= n < t.len() && all_digits(#[trigger] t.subrange(1, 1 + n)) && valid_zone(
            t.subrange(1 + n, t.len() as int),
        ))
}

pub open spec fn valid_date(d: Seq<char>) -> bool {
    &&& d.len() >= 19
    &&& forall|i: int| 0 <= i < 19 ==> head_char_ok(i, #[trigger] d[i])
    &&& valid_time_tail(d.subrange(19, d.len() as int))
}

pub open spec fn name_prefix() -> Seq<char> {
    seq!['f', 'h', 'i', 's', 't', 'o', 'r', 'y', '-']
}

/// The entry name of a snapshot with date `d` and hash `h`.
pub open spec fn index_filename(d: Seq<char>, h: Seq<char>) -> Seq<char> {
    name_prefix() + d + seq!['-'] + h
}

/// `s` is the name of some snapshot.
pub open spec fn is_index_filename(s: Seq<char>) -> bool {
    exists|d: Seq<char>, h: Seq<char>|
        valid_date(d) && valid_hash(h) && s == #[trigger] index_filename(d, h)
}

/// A name splits into date and hash in one way only: the hash holds no `-`.
pub proof fn lemma_filename_split_unique(d1: Seq<char>, h1: Seq<char>, d2: Seq<char>, h2: Seq<char>)
    requires
        valid_hash(h1),
        valid_hash(h2),
        index_filename(d1, h1) == index_filename(d2, h2),
    ensures
        d1 == d2,
        h1 == h2,
{
    let s = index_filename(d1, h1);
    let a1 = d1.len() as int;
    let a2 = d2.len() as int;
    assert(s.len() == 10 + a1 + h1.len());
    assert(s.len() == 10 + a2 + h2.len());
    assert(s[9 + a1] == '-');
    assert(s[9 + a2] == '-');
    if a1 < a2 {
        assert(s[9 + a2] == h1[a2 - a1 - 1]);
        assert(is_hash_char(h1[a2 - a1 - 1]));
    } else if a2 < a1 {
        assert(s[9 + a1] == h2[a1 - a2 - 1]);
        assert(is_hash_char(h2[a1 - a2 - 1]));
    }
    assert(d1 =~= s.subrange(9, 9 + a1));
    assert(d2 =~= s.subrange(9, 9 + a2));
    assert(h1 =~= s.subrange(10 + a1, s.len() as int));
    assert(h2 =~= s.subrange(10 + a2, s.len() as int));
}


/// Formatting a valid date and hash gives a snapshot filename, and the only
/// way to read that name back is as the same date and hash.
pub proof fn lemma_filename_round_trip(d: Seq<char>, h: Seq<char>, d2: Seq<char>, h2: Seq<char>)
    requires
        valid_date(d),
        valid_hash(h),
        valid_hash(h2),
        index_filename(d2, h2) == index_filename(d, h),
    ensures
        is_index_filename(index_filename(d, h)),
        d2 == d,
        h2 == h,
{
    lemma_filename_split_unique(d, h, d2, h2);
}

fn is_digit_char(c: char) -> (r: bool)
    ensures
        r == is_digit(c),
{
    '0' <= c && c <= '9'
}

/// The characters of `s`, in order.
pub fn chars_of(s: &str) -> (r: Vec<char>)
    ensures
        r@ == s@,
{
    let n = s.unicode_len();
    let mut out: Vec<char> = Vec::new();
    let mut i: usize = 0;
    while i < n
        invariant
            n == s@.len(),
            i <= n,
            out@ == s@.subrange(0, i as int),
        decreases n - i,
    {
        out.push(s.get_char(i));
        i = i + 1;
    }
    assert(out@ =~= s@);
    out
}

fn check_zone(t: &Vec<char>, a: usize, b: usize) -> (r: bool)
    requires
        a <= b <= t@.len(),
    ensures
        r == valid_zone(t@.subrange(a as int, b as int)),
{
    let n = b - a;
    if n == 0 {
        true
    } else if n == 1 {
        t[a] == 'Z'
    } else if n == 6 {
        (t[a] == '+' || t[a] == '-') && is_digit_char(t[a + 1]) && is_digit_char(t[a + 2]) && t[a + 3]
            == ':' && is_digit_char(t[a + 4]) && is_digit_char(t[a + 5])
    } else {
        false
    }
}

/// The end of the run of digits in `t` that starts at `a`, bounded by `b`.
pub(crate) fn digit_run_end(t: &Vec<char>, a: usize, b: usize) -> (e: usize)
    requires
        a <= b <= t@.len(),
    ensures
        a <= e <= b,
        all_digits(t@.subrange(a as int, e as int)),
        e < b ==> !is_digit(t@[e as int]),
{
    let mut e = a;
    while e < b && is_digit_char(t[e])
        invariant
            a <= e <= b,
            b <= t@.len(),
            all_digits(t@.subrange(a as int, e as int)),
        decreases b - e,
    {
        assert(t@.subrange(a as int, e + 1) =~= t@.subrange(a as int, e as int).push(t@[e as int]));
        e = e + 1;
    }
    e
}

fn check_time_tail(t: &Vec<char>, a: usize, b: usize) -> (r: bool)
    requires
        a <= b <= t@.len(),
    ensures
        r == valid_time_tail(t@.subrange(a as int, b as int)),
{
    let ghost tt = t@.subrange(a as int, b as int);
    if check_zone(t, a, b) {
        return true;
    }
    if a == b || t[a] != '.' {
        return false;
    }
    let e = digit_run_end(t, a + 1, b);
    let n = e - (a + 1);
    let ok = n >= 1 && check_zone(t, e, b);
    proof {
        assert(tt.subrange(1, 1 + n) =~= t@.subrange(a + 1, e as int));
        assert(tt.subrange(1 + n, tt.len() as int) =~= t@.subrange(e as int, b as int));
        if ok {
            assert(all_digits(tt.subrange(1, 1 + n)));
        } else {
            assert forall|m: int|
                1 <= m < tt.len() && all_digits(#[trigger] tt.subrange(1, 1 + m)) implies !valid_zone(
                tt.subrange(1 + m, tt.len() as int),
            ) by {
                if m < n {
                    assert(tt.subrange(1 + m, tt.len() as int)[0] == t@[a + 1 + m]);
                    assert(t@.subrange(a + 1, e as int)[m] == t@[a + 1 + m]);
                } else if m > n {
                    assert(tt.subrange(1, 1 + m)[n as int] == t@[e as int]);
                }
            }
        }
    }
    ok
}

fn check_date(t: &Vec<char>, a: usize, b: usize) -> (r: bool)
    requires
        a <= b <= t@.len(),
    ensures
        r == valid_date(t@.subrange(a as int, b as int)),
{
    let ghost d = t@.subrange(a as int, b as int);
    if b - a < 19 {
        return false;
    }
    let mut i: usize = 0;
    while i < 19
        invariant
            a + 19 <= b <= t@.len(),
            d == t@.subrange(a as int, b as int),
            i <= 19,
            forall|k: int| 0 <= k < i ==> head_char_ok(k, #[trigger] d[k]),
        decreases 19 - i,
    {
        let c = t[a + i];
        let ok = if i == 4 || i == 7 {
            c == '-'
        } else if i == 10 {
            c == 'T'
        } else if i == 13 || i == 16 {
            c == ':'
        } else {
            is_digit_char(c)
        };
        if !ok {
            assert(!head_char_ok(i as int, d[i as int]));
            return false;
        }
        i = i + 1;
    }
    let r = check_time_tail(t, a + 19, b);
    assert(d.subrange(19, d.len() as int) =~= t@.subrange(a + 19, b as int));
    r
}

fn check_hash(t: &Vec<char>, a: usize, b: usize) -> (r: bool)
    requires
        a <= b <= t@.len(),
    ensures
        r == valid_hash(t@.subrange(a as int, b as int)),
{
    if a == b {
        return false;
    }
    let mut i = a;
    while i < b
        invariant
            a <= i <= b,
            b <= t@.len(),
            forall|k: int| a <= k < i ==> is_hash_char(#[trigger] t@[k]),
        decreases b - i,
    {
        let c = t[i];
        if !(('a' <= c && c <= 'z') || is_digit_char(c)) {
            assert(t@.subrange(a as int, b as int)[i - a] == c);
            return false;
        }
        i = i + 1;
    }
    assert forall|k: int| 0 <= k < b - a implies is_hash_char(#[trigger] t@.subrange(a as int, b as int)[k]) by {
        assert(t@.subrange(a as int, b as int)[k] == t@[a + k]);
    }
    true
}

/// Splits a snapshot filename into its date and its hash; `None` for any
/// other name.
pub fn split_index_filename(name: &str) -> (r: Option<(String, String)>)
    ensures
        match r {
            Some((d, h)) => valid_date(d@) && valid_hash(h@) && name@ == index_filename(d@, h@),
            None => !is_index_filename(name@),
        },
{
    let t = chars_of(name);
    let n = t.len();
    let ghost pre = name_prefix();
    let ghost s = name@;
    // position of the last '-'
    let mut k = n;
    while k > 0 && t[k - 1] != '-'
        invariant
            k <= n,
            n == t@.len(),
            forall|m: int| k <= m < n ==> t@[m] != '-',
        decreases k,
    {
        k = k - 1;
    }
    let ok_prefix = n >= 9 && t[0] == 'f' && t[1] == 'h' && t[2] == 'i' && t[3] == 's' && t[4] == 't'
        && t[5] == 'o' && t[6] == 'r' && t[7] == 'y' && t[8] == '-';
    if !ok_prefix || k < 10 {
        proof {
            if is_index_filename(s) {
                let (d, h) = choose|d: Seq<char>, h: Seq<char>|
                    valid_date(d) && valid_hash(h) && s == #[trigger] index_filename(d, h);
                assert(s[9 + d.len() as int] == '-');
                assert forall|m: int| 10 + d.len() <= m < n implies s[m] != '-' by {
                    assert(s[m] == h[m - 10 - d.len()]);
                    assert(is_hash_char(h[m - 10 - d.len()]));
                }
                assert(k == 10 + d.len());
                assert(s[0] == pre[0] && s[1] == pre[1] && s[2] == pre[2] && s[3] == pre[3]);
                assert(s[4] == pre[4] && s[5] == pre[5] && s[6] == pre[6] && s[7] == pre[7] && s[8] == pre[8]);
            }
        }
        return None;
    }
    let ok = check_date(&t, 9, k - 1) && check_hash(&t, k, n);
    if !ok {
        proof {
            if is_index_filename(s) {
                let (d, h) = choose|d: Seq<char>, h: Seq<char>|
                    valid_date(d) && valid_hash(h) && s == #[trigger] index_filename(d, h);
                assert(s[9 + d.len() as int] == '-');
                assert forall|m: int| 10 + d.len() <= m < n implies s[m] != '-' by {
                    assert(s[m] == h[m - 10 - d.len()]);
                    assert(is_hash_char(h[m - 10 - d.len()]));
                }
                if k < 10 + d.len() {
                    assert(s[k - 1] == h[k - 11 - d.len()]);
                    assert(is_hash_char(h[k - 11 - d.len()]));
                }
                assert(k == 10 + d.len());
                assert(d =~= t@.subrange(9, k - 1));
                assert(h =~= t@.subrange(k as int, n as int));
            }
        }
        return None;
    }
    let date = name.substring_char(9, k - 1).to_owned();
    let hash = name.substring_char(k, n).to_owned();
    proof {
        assert(s =~= index_filename(date@, hash@));
    }
    Some((date, hash))
}

/// The entry name of a snapshot with date `date` and hash `hash`.
pub fn format_index_filename(date: &str, hash: &str) -> (r: String)
    ensures
        r@ == index_filename(date@, hash@),
{
    let mut r = String::from_str("fhistory-");
    r.append(date);
    r.append("-");
    r.append(hash);
    proof {
        reveal_strlit("fhistory-");
        reveal_strlit("-");
        assert(r@ =~= index_filename(date@, hash@));
    }
    r
}

} // verus!
