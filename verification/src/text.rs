//! Character-sequence helpers shared by the message and pattern parsers:
//! whitespace trimming, splitting on a separator, finding a pattern, and
//! parsing integers the way `str::parse` and `from_str_radix` do.
use vstd::prelude::*;

verus! {

/// The Unicode `White_Space` set, which `char::is_whitespace` (and so
/// `str::trim`) tests.
pub open spec fn is_ws(c: char) -> bool {
    let u = c as u32;
    ||| 0x9 <= u <= 0xd
    ||| u == 0x20
    ||| u == 0x85
    ||| u == 0xa0
    ||| u == 0x1680
    ||| 0x2000 <= u <= 0x200a
    ||| u == 0x2028
    ||| u == 0x2029
    ||| u == 0x202f
    ||| u == 0x205f
    ||| u == 0x3000
}

pub fn is_whitespace(c: char) -> (b: bool)
    ensures
        b == is_ws(c),
{
    let u = c as u32;
    (0x9 <= u && u <= 0xd) || u == 0x20 || u == 0x85 || u == 0xa0 || u == 0x1680 || (0x2000 <= u
        && u <= 0x200a) || u == 0x2028 || u == 0x2029 || u == 0x202f || u == 0x205f || u == 0x3000
}

pub open spec fn trim_start(s: Seq<char>) -> Seq<char>
    decreases s.len(),
{
    if s.len() > 0 && is_ws(s[0]) {
        trim_start(s.drop_first())
    } else {
        s
    }
}

pub open spec fn trim_end(s: Seq<char>) -> Seq<char>
    decreases s.len(),
{
    if s.len() > 0 && is_ws(s.last()) {
        trim_end(s.drop_last())
    } else {
        s
    }
}

/// What `str::trim` leaves of `s`.
pub open spec fn trim(s: Seq<char>) -> Seq<char> {
    trim_end(trim_start(s))
}

/// The pieces of `s` between occurrences of `sep`, as `str::split` with a
/// one-character pattern gives them (an empty `s` gives one empty piece).
pub open spec fn split(s: Seq<char>, sep: char) -> Seq<Seq<char>>
    decreases s.len(),
{
    if s.len() == 0 {
        seq![Seq::<char>::empty()]
    } else {
        let r = split(s.drop_last(), sep);
        if s.last() == sep {
            r.push(Seq::<char>::empty())
        } else {
            r.update(r.len() - 1, r.last().push(s.last()))
        }
    }
}

pub proof fn lemma_split_nonempty(s: Seq<char>, sep: char)
    ensures
        split(s, sep).len() >= 1,
    decreases s.len(),
{
    if s.len() > 0 {
        lemma_split_nonempty(s.drop_last(), sep);
    }
}

pub open spec fn matches_at(s: Seq<char>, pat: Seq<char>, i: int) -> bool {
    0 <= i && i + pat.len() <= s.len() && s.subrange(i, i + pat.len()) == pat
}

pub open spec fn first_match(s: Seq<char>, pat: Seq<char>, i: int) -> bool {
    matches_at(s, pat, i) && forall|j: int| 0 <= j < i ==> !matches_at(s, pat, j)
}

/// What `str::split_once` gives: the text before and after the first
/// occurrence of `pat`.
pub open spec fn split_once(s: Seq<char>, pat: Seq<char>) -> Option<(Seq<char>, Seq<char>)> {
    if exists|i: int| first_match(s, pat, i) {
        let i = choose|i: int| first_match(s, pat, i);
        Some((s.take(i), s.skip(i + pat.len())))
    } else {
        None
    }
}

/// The value of a digit character in bases up to 36; 99 for anything else.
pub open spec fn digit_value(c: char) -> int {
    let u = c as u32;
    if 48 <= u <= 57 {
        u - 48
    } else if 97 <= u <= 122 {
        u - 87
    } else if 65 <= u <= 90 {
        u - 55
    } else {
        99
    }
}

pub open spec fn all_digits(s: Seq<char>, radix: nat) -> bool {
    forall|i: int| 0 <= i < s.len() ==> #[trigger] digit_value(s[i]) < radix
}

pub open spec fn digits_value(s: Seq<char>, radix: nat) -> int
    decreases s.len(),
{
    if s.len() == 0 {
        0
    } else {
        digits_value(s.drop_last(), radix) * radix + digit_value(s.last())
    }
}

/// What `from_str_radix` (and `str::parse` in base 10) gives for an integer
/// type whose range is `min..=max`: an optional `+` (or `-` when the type is
/// signed), then at least one digit, and a value in range.
pub open spec fn parse_int(s: Seq<char>, radix: nat, min: int, max: int) -> Option<int> {
    if s.len() == 0 {
        None
    } else if (s[0] == '+' || s[0] == '-') && s.len() == 1 {
        None
    } else {
        let neg = s[0] == '-' && min < 0;
        let digits = if s[0] == '+' || neg {
            s.drop_first()
        } else {
            s
        };
        if !all_digits(digits, radix) {
            None
        } else {
            let v = if neg {
                -digits_value(digits, radix)
            } else {
                digits_value(digits, radix)
            };
            if min <= v <= max {
                Some(v)
            } else {
                None
            }
        }
    }
}

/// The characters of `s`.
pub fn chars_of(s: &str) -> (v: Vec<char>)
    ensures
        v@ == s@,
{
    let mut v: Vec<char> = Vec::new();
    for c in it: s.chars()
        invariant
            v@ == it.seq().take(it.index() as int),
    {
        v.push(c);
    }
    v
}

/// A copy of `s[start..end]`.
pub fn copy_range(s: &[char], start: usize, end: usize) -> (v: Vec<char>)
    requires
        start <= end <= s@.len(),
    ensures
        v@ == s@.subrange(start as int, end as int),
{
    let mut v: Vec<char> = Vec::new();
    let mut i = start;
    while i < end
        invariant
            start <= i <= end <= s@.len(),
            v@ == s@.subrange(start as int, i as int),
        decreases end - i,
    {
        v.push(s[i]);
        i = i + 1;
    }
    v
}

/// `s` with leading and trailing whitespace removed, as `str::trim` does.
pub fn trim_chars(s: &[char]) -> (v: Vec<char>)
    ensures
        v@ == trim(s@),
{
    let n = s.len();
    let mut a: usize = 0;
    assert(s@.subrange(0, n as int) =~= s@);
    while a < n && is_whitespace(s[a])
        invariant
            a <= n == s@.len(),
            trim_start(s@) == trim_start(s@.subrange(a as int, n as int)),
        decreases n - a,
    {
        assert(s@.subrange(a as int, n as int).drop_first() =~= s@.subrange(a + 1, n as int));
        a = a + 1;
    }
    assert(trim_start(s@) == s@.subrange(a as int, n as int));
    let mut b: usize = n;
    while b > a && is_whitespace(s[b - 1])
        invariant
            a <= b <= n == s@.len(),
            trim(s@) == trim_end(s@.subrange(a as int, b as int)),
        decreases b - a,
    {
        assert(s@.subrange(a as int, b as int).drop_last() =~= s@.subrange(a as int, b - 1));
        b = b - 1;
    }
    copy_range(s, a, b)
}

pub open spec fn views(v: Seq<Vec<char>>) -> Seq<Seq<char>> {
    v.map_values(|x: Vec<char>| x@)
}

/// The pieces of `s` between occurrences of `sep`, as `str::split` gives them.
pub fn split_chars(s: &[char], sep: char) -> (r: Vec<Vec<char>>)
    ensures
        views(r@) == split(s@, sep),
{
    let n = s.len();
    let mut done: Vec<Vec<char>> = Vec::new();
    let mut cur: Vec<char> = Vec::new();
    let mut i: usize = 0;
    assert(s@.take(0) =~= Seq::<char>::empty());
    assert(views(done@).push(cur@) =~= split(s@.take(0), sep));
    while i < n
        invariant
            i <= n == s@.len(),
            views(done@).push(cur@) == split(s@.take(i as int), sep),
        decreases n - i,
    {
        let c = s[i];
        assert(s@.take(i + 1).drop_last() =~= s@.take(i as int));
        assert(s@.take(i + 1).last() == c);
        let ghost before = split(s@.take(i as int), sep);
        proof {
            lemma_split_nonempty(s@.take(i as int), sep);
        }
        if c == sep {
            done.push(cur);
            cur = Vec::new();
            assert(views(done@).push(cur@) =~= before.push(Seq::<char>::empty()));
        } else {
            cur.push(c);
            assert(views(done@).push(cur@) =~= before.update(
                before.len() - 1,
                before.last().push(c),
            ));
        }
        i = i + 1;
    }
    assert(s@.take(n as int) =~= s@);
    done.push(cur);
    assert(views(done@) =~= split(s@, sep));
    done
}

/// Whether `pat` occurs in `s` at `i`.
fn matches_at_exec(s: &[char], pat: &[char], i: usize) -> (b: bool)
    requires
        i + pat@.len() <= s@.len(),
    ensures
        b == matches_at(s@, pat@, i as int),
{
    let m = pat.len();
    let n = s.len();
    let mut k: usize = 0;
    while k < m
        invariant
            k <= m == pat@.len(),
            n == s@.len(),
            i + m <= n,
            forall|j: int| 0 <= j < k ==> s@[i + j] == pat@[j],
        decreases m - k,
    {
        if s[i + k] != pat[k] {
            assert(s@.subrange(i as int, i + m)[k as int] != pat@[k as int]);
            return false;
        }
        k = k + 1;
    }
    assert(s@.subrange(i as int, i + m) =~= pat@);
    true
}

/// The text before and after the first occurrence of `pat` in `s`, as
/// `str::split_once` gives them.
pub fn split_once_chars(s: &[char], pat: &[char]) -> (r: Option<(Vec<char>, Vec<char>)>)
    requires
        pat@.len() > 0,
    ensures
        match r {
            Some((a, b)) => split_once(s@, pat@) == Some((a@, b@)),
            None => split_once(s@, pat@) is None,
        },
{
    let n = s.len();
    let m = pat.len();
    if m > n {
        assert forall|i: int| !first_match(s@, pat@, i) by {}
        return None;
    }
    let mut i: usize = 0;
    while i <= n - m
        invariant
            m == pat@.len(),
            n == s@.len(),
            m <= n,
            i <= n - m + 1,
            m > 0,
            forall|j: int| 0 <= j < i ==> !matches_at(s@, pat@, j),
        decreases n - i,
    {
        if matches_at_exec(s, pat, i) {
            assert(first_match(s@, pat@, i as int));
            let ghost k = choose|k: int| first_match(s@, pat@, k);
            assert(k == i) by {
                if k < i {
                    assert(!matches_at(s@, pat@, k));
                } else if k > i {
                    assert(!matches_at(s@, pat@, i as int));
                }
            }
            let a = copy_range(s, 0, i);
            let b = copy_range(s, i + m, n);
            assert(a@ =~= s@.take(i as int));
            assert(b@ =~= s@.skip(i + m));
            return Some((a, b));
        }
        i = i + 1;
    }
    assert forall|j: int| !first_match(s@, pat@, j) by {
        if 0 <= j < i {
        } else {
            assert(!matches_at(s@, pat@, j));
        }
    }
    None
}

pub fn digit_value_exec(c: char) -> (d: u32)
    ensures
        d == digit_value(c),
{
    let u = c as u32;
    if 48 <= u && u <= 57 {
        u - 48
    } else if 97 <= u && u <= 122 {
        u - 87
    } else if 65 <= u && u <= 90 {
        u - 55
    } else {
        99
    }
}

pub proof fn lemma_digits_value_nonneg(s: Seq<char>, radix: nat)
    requires
        all_digits(s, radix),
    ensures
        digits_value(s, radix) >= 0,
    decreases s.len(),
{
    if s.len() > 0 {
        assert(digit_value(s[s.len() - 1]) < radix);
        assert(all_digits(s.drop_last(), radix)) by {
            assert forall|i: int| 0 <= i < s.drop_last().len() implies #[trigger] digit_value(
                s.drop_last()[i],
            ) < radix by {
                assert(s.drop_last()[i] == s[i]);
            }
        }
        lemma_digits_value_nonneg(s.drop_last(), radix);
        assert(digits_value(s.drop_last(), radix) * radix >= 0) by (nonlinear_arith)
            requires
                digits_value(s.drop_last(), radix) >= 0,
        ;
        assert(digit_value(s.last()) >= 0);
    }
}

proof fn lemma_saturate_step(a: int, cap: int, r: int, d: int)
    requires
        a >= 0,
        cap >= 1,
        r >= 2,
        0 <= d < r,
    ensures
        (if a < cap {
            a
        } else {
            cap
        }) * r + d >= cap <==> a * r + d >= cap,
        a < cap && a * r + d < cap ==> a * r + d == (if a < cap {
            a
        } else {
            cap
        }) * r + d,
{
    if a >= cap {
        assert(cap * r + d >= cap) by (nonlinear_arith)
            requires
                cap >= 1,
                r >= 2,
                d >= 0,
        ;
        assert(a * r + d >= cap) by (nonlinear_arith)
            requires
                a >= cap,
                cap >= 1,
                r >= 2,
                d >= 0,
        ;
    }
}

/// Parses `s` as `from_str_radix` does for an integer type whose range is
/// `min..=max`.
pub fn parse_int_chars(s: &[char], radix: u32, min: i128, max: i128) -> (r: Option<i128>)
    requires
        2 <= radix <= 36,
        min <= 0 <= max,
        max < 0x1_0000_0000_0000_0000_0000,
        -0x1_0000_0000_0000_0000_0000 < min,
    ensures
        match r {
            Some(v) => parse_int(s@, radix as nat, min as int, max as int) == Some(v as int),
            None => parse_int(s@, radix as nat, min as int, max as int) is None,
        },
{
    let n = s.len();
    if n == 0 {
        return None;
    }
    if (s[0] == '+' || s[0] == '-') && n == 1 {
        return None;
    }
    let neg = s[0] == '-' && min < 0;
    let start: usize = if s[0] == '+' || neg {
        1
    } else {
        0
    };
    let ghost digits = if s@[0] == '+' || neg {
        s@.drop_first()
    } else {
        s@
    };
    assert(digits =~= s@.subrange(start as int, n as int));
    let cap: u128 = if neg {
        (0 - min) as u128 + 1
    } else {
        max as u128 + 1
    };
    let mut acc: u128 = 0;
    let mut i: usize = start;
    assert(digits.take(0) =~= Seq::<char>::empty());
    while i < n
        invariant
            start <= i <= n == s@.len(),
            n > 0,
            !((s@[0] == '+' || s@[0] == '-') && n == 1),
            neg == (s@[0] == '-' && min < 0),
            digits == (if s@[0] == '+' || neg {
                s@.drop_first()
            } else {
                s@
            }),
            min <= 0 <= max,
            max < 0x1_0000_0000_0000_0000_0000,
            -0x1_0000_0000_0000_0000_0000 < min,
            cap as int == (if neg {
                -min + 1
            } else {
                max + 1
            }),
            2 <= radix <= 36,
            1 <= cap <= 0x1_0000_0000_0000_0000_0001,
            digits == s@.subrange(start as int, n as int),
            all_digits(digits.take(i - start), radix as nat),
            acc as int == (if digits_value(digits.take(i - start), radix as nat) < cap {
                digits_value(digits.take(i - start), radix as nat)
            } else {
                cap as int
            }),
        decreases n - i,
    {
        let d = digit_value_exec(s[i]);
        if d >= radix {
            assert(digits[i - start] == s@[i as int]);
            assert(!all_digits(digits, radix as nat));
            assert(parse_int(s@, radix as nat, min as int, max as int) is None);
            return None;
        }
        let ghost pre = digits.take(i - start);
        let ghost post = digits.take(i - start + 1);
        assert(post.drop_last() =~= pre);
        assert(post.last() == s@[i as int]);
        assert(all_digits(post, radix as nat)) by {
            assert forall|j: int| 0 <= j < post.len() implies #[trigger] digit_value(post[j])
                < radix as nat by {
                if j < pre.len() {
                    assert(post[j] == pre[j]);
                }
            }
        }
        assert(digits_value(post, radix as nat) == digits_value(pre, radix as nat) * radix + d);
        proof {
            lemma_digits_value_nonneg(pre, radix as nat);
            lemma_saturate_step(
                digits_value(pre, radix as nat),
                cap as int,
                radix as int,
                d as int,
            );
        }
        assert(acc * (radix as u128) + (d as u128) <= 0x1_0000_0000_0000_0000_0001 * 36 + 36)
            by (nonlinear_arith)
            requires
                acc <= 0x1_0000_0000_0000_0000_0001,
                radix <= 36,
                d < 36,
        ;
        let ghost a = digits_value(pre, radix as nat);
        assert(acc as int == (if a < cap {
            a
        } else {
            cap as int
        }));
        let next = acc * (radix as u128) + (d as u128);
        proof {
            if a >= cap as int {
                assert(acc == cap);
                assert(acc * (radix as u128) >= acc) by (nonlinear_arith)
                    requires
                        radix >= 2,
                ;
                assert(next >= cap);
            } else {
                assert(next as int == a * radix + d);
            }
        }
        acc = if next < cap {
            next
        } else {
            cap
        };
        assert(acc as int == (if digits_value(post, radix as nat) < cap {
                digits_value(post, radix as nat)
            } else {
                cap as int
            }));
        assert(post == digits.take(i + 1 - start));
        i = i + 1;
    }
    assert(digits.take(n - start) =~= digits);
    if acc >= cap {
        assert(digits_value(digits, radix as nat) >= cap);
        return None;
    }
    proof {
        lemma_digits_value_nonneg(digits, radix as nat);
    }
    if neg {
        Some(0 - (acc as i128))
    } else {
        Some(acc as i128)
    }
}

/// Collects `v` into a `String`.
///
/// Trusted: `String`'s `FromIterator<&char>` pushes the characters in order,
/// so the string holds exactly `v`.
#[verifier::external_body]
pub(crate) fn string_from_chars(v: &[char]) -> (s: String)
    ensures
        s@ == v@,
{
    v.iter().collect()
}

} // verus!
