//! Character-level text operations: whitespace, trimming, splitting into
//! words, prefixes and substrings, and building strings.
use vstd::prelude::*;
use vstd::string::StringExecFns;

verus! {

/// The Unicode `White_Space` property, which `char::is_whitespace` reports.
pub open spec fn is_white_space(c: char) -> bool {
    ||| ('\u{9}' <= c && c <= '\u{d}')
    ||| c == ' '
    ||| c == '\u{85}'
    ||| c == '\u{a0}'
    ||| c == '\u{1680}'
    ||| ('\u{2000}' <= c && c <= '\u{200a}')
    ||| c == '\u{2028}'
    ||| c == '\u{2029}'
    ||| c == '\u{202f}'
    ||| c == '\u{205f}'
    ||| c == '\u{3000}'
}

/// Whether `c` is a whitespace character.
pub fn is_whitespace(c: char) -> (b: bool)
    ensures
        b == is_white_space(c),
{
    ('\u{9}' <= c && c <= '\u{d}') || c == ' ' || c == '\u{85}' || c == '\u{a0}' || c
        == '\u{1680}' || ('\u{2000}' <= c && c <= '\u{200a}') || c == '\u{2028}' || c
        == '\u{2029}' || c == '\u{202f}' || c == '\u{205f}' || c == '\u{3000}'
}

/// The characters of `s`, in order.
pub fn chars_of(s: &str) -> (v: Vec<char>)
    ensures
        v@ == s@,
{
    let mut v: Vec<char> = Vec::new();
    for c in it: s.chars()
        invariant
            v@ == it.seq().take(it.index() as int),
            it.seq() == s@,
    {
        v.push(c);
    }
    v
}


/// Appends `c` to `s` (`String::push`).
#[verifier::external_body]
pub fn push_char(s: &mut String, c: char)
    ensures
        final(s)@ == old(s)@.push(c),
{
    s.push(c);
}

/// A string holding the characters of `v`.
pub fn string_of(v: &Vec<char>) -> (s: String)
    ensures
        s@ == v@,
{
    let mut s = String::new();
    let mut i: usize = 0;
    while i < v.len()
        invariant
            i <= v.len(),
            s@ == v@.take(i as int),
        decreases v.len() - i,
    {
        push_char(&mut s, v[i]);
        assert(v@.take(i + 1) =~= v@.take(i as int).push(v@[i as int]));
        i = i + 1;
    }
    assert(v@.take(v.len() as int) =~= v@);
    s
}

/// Whether two character sequences are equal.
pub fn same_chars(a: &Vec<char>, b: &Vec<char>) -> (r: bool)
    ensures
        r == (a@ == b@),
{
    if a.len() != b.len() {
        return false;
    }
    let mut i: usize = 0;
    while i < a.len()
        invariant
            a.len() == b.len(),
            i <= a.len(),
            forall|k: int| 0 <= k < i ==> a@[k] == b@[k],
        decreases a.len() - i,
    {
        if a[i] != b[i] {
            return false;
        }
        i = i + 1;
    }
    assert(a@ =~= b@);
    true
}

/// The decimal digit for `d` (`0 <= d < 10`).
pub open spec fn digit_char(d: int) -> char {
    seq!['0', '1', '2', '3', '4', '5', '6', '7', '8', '9'][d]
}

/// The decimal numeral of `n`, without leading zeros (`n.to_string()`).
pub open spec fn decimal(n: nat) -> Seq<char>
    decreases n,
{
    if n < 10 {
        seq![digit_char(n as int)]
    } else {
        decimal(n / 10).push(digit_char((n % 10) as int))
    }
}

/// The decimal numeral of `i`, with a leading `-` when it is negative.
pub open spec fn signed_decimal(i: int) -> Seq<char> {
    if i < 0 {
        seq!['-'] + decimal((-i) as nat)
    } else {
        decimal(i as nat)
    }
}

/// `s` right-aligned in a field of `width` characters, padded with spaces
/// (`format!("{:>width$}", s)`).
pub open spec fn pad_left(s: Seq<char>, width: nat) -> Seq<char> {
    if s.len() >= width {
        s
    } else {
        Seq::new((width - s.len()) as nat, |i: int| ' ') + s
    }
}

fn digit(d: u64) -> (c: char)
    requires
        d < 10,
    ensures
        c == digit_char(d as int),
{
    let digits = vec!['0', '1', '2', '3', '4', '5', '6', '7', '8', '9'];
    assert(digits@ =~= seq!['0', '1', '2', '3', '4', '5', '6', '7', '8', '9']);
    digits[d as usize]
}

/// Appends the decimal numeral of `n` to `s`.
pub fn push_decimal(s: &mut String, n: u64)
    ensures
        final(s)@ == old(s)@ + decimal(n as nat),
    decreases n,
{
    if n < 10 {
        push_char(s, digit(n));
        assert(decimal(n as nat) =~= seq![digit_char(n as int)]);
    } else {
        push_decimal(s, n / 10);
        push_char(s, digit(n % 10));
    }
}

/// Appends the decimal numeral of `i` to `s`, with a `-` when negative.
pub fn push_signed_decimal(s: &mut String, i: i32)
    ensures
        final(s)@ == old(s)@ + signed_decimal(i as int),
{
    if i < 0 {
        push_char(s, '-');
        let magnitude: i64 = -(i as i64);
        push_decimal(s, magnitude as u64);
    } else {
        push_decimal(s, i as u64);
    }
}

/// Appends `t` to `s`, right-aligned in a field of `width` characters.
pub fn push_padded(s: &mut String, t: &str, width: usize)
    ensures
        final(s)@ == old(s)@ + pad_left(t@, width as nat),
{
    let n = chars_of(t).len();
    let ghost start = s@;
    if n < width {
        let mut k: usize = n;
        while k < width
            invariant
                n <= k <= width,
                n == t@.len(),
                s@ =~= start + Seq::new((k - n) as nat, |i: int| ' '),
            decreases width - k,
        {
            push_char(s, ' ');
            k = k + 1;
        }
    } else {
        assert(s@ =~= start);
    }
    s.append(t);
}

/// Whether two strings hold the same characters.
pub fn str_eq(a: &str, b: &str) -> (r: bool)
    ensures
        r == (a@ == b@),
{
    same_chars(&chars_of(a), &chars_of(b))
}

/// Whether `pre` is a prefix of `s`.
pub open spec fn is_prefix(pre: Seq<char>, s: Seq<char>) -> bool {
    pre.len() <= s.len() && s.take(pre.len() as int) == pre
}

/// Whether `pre` is a prefix of `s`.
pub fn starts_with(s: &Vec<char>, pre: &Vec<char>) -> (r: bool)
    ensures
        r == is_prefix(pre@, s@),
{
    if pre.len() > s.len() {
        return false;
    }
    let mut i: usize = 0;
    while i < pre.len()
        invariant
            pre.len() <= s.len(),
            i <= pre.len(),
            forall|k: int| 0 <= k < i ==> s@[k] == pre@[k],
        decreases pre.len() - i,
    {
        if s[i] != pre[i] {
            assert(s@.take(pre.len() as int)[i as int] != pre@[i as int]);
            return false;
        }
        i = i + 1;
    }
    assert(s@.take(pre.len() as int) =~= pre@);
    true
}

/// Whether `c` occurs in `v`.
pub fn contains_char(v: &Vec<char>, c: char) -> (r: bool)
    ensures
        r == v@.contains(c),
{
    let mut i: usize = 0;
    while i < v.len()
        invariant
            i <= v.len(),
            forall|k: int| 0 <= k < i ==> v@[k] != c,
        decreases v.len() - i,
    {
        if v[i] == c {
            assert(v@[i as int] == c);
            return true;
        }
        i = i + 1;
    }
    false
}

/// `s` without its leading whitespace (`str::trim_start`).
pub open spec fn trim_start(s: Seq<char>) -> Seq<char>
    decreases s.len(),
{
    if s.len() > 0 && is_white_space(s[0]) {
        trim_start(s.drop_first())
    } else {
        s
    }
}

/// `s` without its trailing whitespace (`str::trim_end`).
pub open spec fn trim_end(s: Seq<char>) -> Seq<char>
    decreases s.len(),
{
    if s.len() > 0 && is_white_space(s.last()) {
        trim_end(s.drop_last())
    } else {
        s
    }
}

/// `s` without leading and trailing whitespace (`str::trim`).
pub open spec fn trim(s: Seq<char>) -> Seq<char> {
    trim_end(trim_start(s))
}

/// Scans `s` from the left: the words completed so far, and the word being read.
pub open spec fn scan_words(s: Seq<char>) -> (Seq<Seq<char>>, Seq<char>)
    decreases s.len(),
{
    if s.len() == 0 {
        (Seq::empty(), Seq::empty())
    } else {
        let (done, cur) = scan_words(s.drop_last());
        if is_white_space(s.last()) {
            if cur.len() > 0 {
                (done.push(cur), Seq::empty())
            } else {
                (done, Seq::empty())
            }
        } else {
            (done, cur.push(s.last()))
        }
    }
}

/// The maximal runs of non-whitespace characters of `s`, in order
/// (`str::split_whitespace`).
pub open spec fn words(s: Seq<char>) -> Seq<Seq<char>> {
    let (done, cur) = scan_words(s);
    if cur.len() > 0 {
        done.push(cur)
    } else {
        done
    }
}

/// `s` without leading and trailing whitespace.
pub fn trim_chars(v: &Vec<char>) -> (r: Vec<char>)
    ensures
        r@ == trim(v@),
{
    let n = v.len();
    let mut i: usize = 0;
    assert(v@.skip(0) =~= v@);
    while i < n && is_whitespace(v[i])
        invariant
            n == v.len(),
            i <= n,
            trim_start(v@) == trim_start(v@.skip(i as int)),
        decreases n - i,
    {
        assert(v@.skip(i as int).drop_first() =~= v@.skip(i + 1));
        i = i + 1;
    }
    assert(trim_start(v@) == v@.skip(i as int));
    let mut j: usize = n;
    assert(v@.skip(i as int) =~= v@.subrange(i as int, n as int));
    while j > i && is_whitespace(v[j - 1])
        invariant
            n == v.len(),
            i <= j <= n,
            trim(v@) == trim_end(v@.subrange(i as int, j as int)),
        decreases j,
    {
        assert(v@.subrange(i as int, j as int).drop_last() =~= v@.subrange(i as int, j - 1));
        j = j - 1;
    }
    let mut r: Vec<char> = Vec::new();
    let mut k: usize = i;
    while k < j
        invariant
            n == v.len(),
            i <= k <= j <= n,
            r@ =~= v@.subrange(i as int, k as int),
        decreases j - k,
    {
        r.push(v[k]);
        k = k + 1;
    }
    r
}

/// The whitespace-separated words of `v`, in order.
pub fn split_words(v: &Vec<char>) -> (r: Vec<Vec<char>>)
    ensures
        r@.map_values(|w: Vec<char>| w@) == words(v@),
{
    let mut done: Vec<Vec<char>> = Vec::new();
    let mut cur: Vec<char> = Vec::new();
    let mut i: usize = 0;
    while i < v.len()
        invariant
            i <= v.len(),
            scan_words(v@.take(i as int)) == (done@.map_values(|w: Vec<char>| w@), cur@),
        decreases v.len() - i,
    {
        let c = v[i];
        assert(v@.take(i + 1).drop_last() =~= v@.take(i as int));
        if is_whitespace(c) {
            if cur.len() > 0 {
                let ghost old_done = done@;
                done.push(cur);
                assert(done@.map_values(|w: Vec<char>| w@) =~= old_done.map_values(
                    |w: Vec<char>| w@,
                ).push(cur@));
                cur = Vec::new();
            } else {
                cur = Vec::new();
            }
            assert(cur@ =~= Seq::<char>::empty());
        } else {
            cur.push(c);
        }
        i = i + 1;
    }
    assert(v@.take(v.len() as int) =~= v@);
    if cur.len() > 0 {
        let ghost old_done = done@;
        done.push(cur);
        assert(done@.map_values(|w: Vec<char>| w@) =~= old_done.map_values(|w: Vec<char>| w@).push(
            cur@,
        ));
    }
    done
}

/// Each word of `scan_words(s)`, finished or not, is made of characters of
/// `s` that are not whitespace, and each finished word is nonempty.
pub proof fn lemma_scan_words_chars(s: Seq<char>)
    ensures
        forall|i: int|
            0 <= i < scan_words(s).0.len() ==> (#[trigger] scan_words(s).0[i]).len() > 0,
        forall|i: int, j: int|
            0 <= i < scan_words(s).0.len() && 0 <= j < scan_words(s).0[i].len() ==> {
                let c = #[trigger] scan_words(s).0[i][j];
                !is_white_space(c) && s.contains(c)
            },
        forall|j: int|
            0 <= j < scan_words(s).1.len() ==> {
                let c = #[trigger] scan_words(s).1[j];
                !is_white_space(c) && s.contains(c)
            },
    decreases s.len(),
{
    if s.len() > 0 {
        let p = s.drop_last();
        lemma_scan_words_chars(p);
        assert forall|c: char| p.contains(c) implies s.contains(c) by {
            let k = choose|k: int| 0 <= k < p.len() && p[k] == c;
            assert(s[k] == c);
        }
        assert(s[s.len() - 1] == s.last());
        let (done, cur) = scan_words(p);
        let (nd, nc) = scan_words(s);
        if is_white_space(s.last()) && cur.len() > 0 {
            assert(nd == done.push(cur));
            assert forall|i: int, j: int| 0 <= i < nd.len() && 0 <= j < nd[i].len() implies {
                let c = #[trigger] nd[i][j];
                !is_white_space(c) && s.contains(c)
            } by {
                if i < done.len() {
                    assert(nd[i] == done[i]);
                    assert(p.contains(done[i][j]));
                } else {
                    assert(nd[i] == cur);
                    assert(p.contains(cur[j]));
                }
            }
            assert forall|i: int| 0 <= i < nd.len() implies (#[trigger] nd[i]).len() > 0 by {
                if i < done.len() {
                    assert(nd[i] == done[i]);
                }
            }
        } else if is_white_space(s.last()) {
            assert(nd == done);
            assert forall|i: int, j: int| 0 <= i < nd.len() && 0 <= j < nd[i].len() implies {
                let c = #[trigger] nd[i][j];
                !is_white_space(c) && s.contains(c)
            } by {
                assert(p.contains(done[i][j]));
            }
        } else {
            assert(nd == done);
            assert(nc == cur.push(s.last()));
            assert forall|i: int, j: int| 0 <= i < nd.len() && 0 <= j < nd[i].len() implies {
                let c = #[trigger] nd[i][j];
                !is_white_space(c) && s.contains(c)
            } by {
                assert(p.contains(done[i][j]));
            }
            assert forall|j: int| 0 <= j < nc.len() implies {
                let c = #[trigger] nc[j];
                !is_white_space(c) && s.contains(c)
            } by {
                if j < cur.len() {
                    assert(nc[j] == cur[j]);
                    assert(p.contains(cur[j]));
                } else {
                    assert(nc[j] == s[s.len() - 1]);
                }
            }
        }
    }
}

/// Every word of `s` is nonempty and made of characters of `s` that are not whitespace.
pub proof fn lemma_words_chars(s: Seq<char>)
    ensures
        forall|i: int| 0 <= i < words(s).len() ==> (#[trigger] words(s)[i]).len() > 0,
        forall|i: int, j: int|
            0 <= i < words(s).len() && 0 <= j < words(s)[i].len() ==> {
                let c = #[trigger] words(s)[i][j];
                !is_white_space(c) && s.contains(c)
            },
{
    lemma_scan_words_chars(s);
}

/// `trim_end(s)` is a prefix of `s`.
pub proof fn lemma_trim_end_prefix(s: Seq<char>)
    ensures
        trim_end(s).len() <= s.len(),
        trim_end(s) == s.take(trim_end(s).len() as int),
    decreases s.len(),
{
    if s.len() > 0 && is_white_space(s.last()) {
        lemma_trim_end_prefix(s.drop_last());
        assert(s.drop_last().take(trim_end(s).len() as int) =~= s.take(trim_end(s).len() as int));
    } else {
        assert(s.take(s.len() as int) =~= s);
    }
}

/// `trim_end(s)` does not end with whitespace.
pub proof fn lemma_trim_end_clean(s: Seq<char>)
    ensures
        trim_end(s).len() > 0 ==> !is_white_space(trim_end(s).last()),
        trim_end(trim_end(s)) == trim_end(s),
    decreases s.len(),
{
    if s.len() > 0 && is_white_space(s.last()) {
        lemma_trim_end_clean(s.drop_last());
    }
}

/// `trim_start(s)` does not start with whitespace.
pub proof fn lemma_trim_start_clean(s: Seq<char>)
    ensures
        trim_start(s).len() > 0 ==> !is_white_space(trim_start(s)[0]),
    decreases s.len(),
{
    if s.len() > 0 && is_white_space(s[0]) {
        lemma_trim_start_clean(s.drop_first());
    }
}

/// Trimming twice is trimming once.
pub proof fn lemma_trim_idempotent(s: Seq<char>)
    ensures
        trim(trim(s)) == trim(s),
{
    let a = trim_start(s);
    lemma_trim_start_clean(s);
    lemma_trim_end_prefix(a);
    lemma_trim_end_clean(a);
    let b = trim_end(a);
    if b.len() > 0 {
        assert(b[0] == a[0]);
    }
    assert(trim_start(b) == b);
}

proof fn lemma_scan_words_append(p: Seq<char>, b: Seq<char>)
    requires
        scan_words(p).1.len() == 0,
    ensures
        scan_words(p + b) == (scan_words(p).0 + scan_words(b).0, scan_words(b).1),
    decreases b.len(),
{
    if b.len() == 0 {
        assert(p + b =~= p);
        assert(scan_words(p).0 + Seq::<Seq<char>>::empty() =~= scan_words(p).0);
    } else {
        lemma_scan_words_append(p, b.drop_last());
        assert((p + b).drop_last() =~= p + b.drop_last());
        assert((p + b).last() == b.last());
        let (d, c) = scan_words(b.drop_last());
        let dp = scan_words(p).0;
        if c.len() > 0 {
            assert(dp + d.push(c) =~= (dp + d).push(c));
        }
    }
}

/// Law: a whitespace character separates words: the words of `a`, a
/// whitespace character, then `b`, are the words of `a` followed by those of `b`.
pub proof fn law_words_split_at_whitespace(a: Seq<char>, c: char, b: Seq<char>)
    requires
        is_white_space(c),
    ensures
        words(a + seq![c] + b) == words(a) + words(b),
{
    let p = a.push(c);
    assert(p.drop_last() =~= a);
    assert(scan_words(p) == (words(a), Seq::<char>::empty()));
    lemma_scan_words_append(p, b);
    assert(a + seq![c] + b =~= p + b);
    let (d, cur) = scan_words(b);
    if cur.len() > 0 {
        assert(words(a) + d.push(cur) =~= (words(a) + d).push(cur));
    }
}

proof fn lemma_scan_words_run(x: Seq<char>)
    requires
        forall|i: int| 0 <= i < x.len() ==> !is_white_space(#[trigger] x[i]),
    ensures
        scan_words(x) == (Seq::<Seq<char>>::empty(), x),
    decreases x.len(),
{
    if x.len() > 0 {
        lemma_scan_words_run(x.drop_last());
        assert(!is_white_space(x[x.len() - 1]));
        assert(x.drop_last().push(x.last()) =~= x);
    }
}

/// Law: a nonempty run of characters without whitespace is one word, and the
/// empty string has none.
pub proof fn law_words_of_a_run(x: Seq<char>)
    requires
        forall|i: int| 0 <= i < x.len() ==> !is_white_space(#[trigger] x[i]),
    ensures
        x.len() > 0 ==> words(x) == seq![x],
        x.len() == 0 ==> words(x) == Seq::<Seq<char>>::empty(),
{
    lemma_scan_words_run(x);
    assert(Seq::<Seq<char>>::empty().push(x) =~= seq![x]);
}

proof fn lemma_trim_start_skip(s: Seq<char>)
    ensures
        exists|a: int|
            0 <= a <= s.len() && trim_start(s) == s.skip(a) && forall|i: int|
                0 <= i < a ==> is_white_space(#[trigger] s[i]),
    decreases s.len(),
{
    if s.len() > 0 && is_white_space(s[0]) {
        lemma_trim_start_skip(s.drop_first());
        let a = choose|a: int|
            0 <= a <= s.drop_first().len() && trim_start(s.drop_first()) == s.drop_first().skip(a)
                && forall|i: int| 0 <= i < a ==> is_white_space(#[trigger] s.drop_first()[i]);
        assert(s.drop_first().skip(a) =~= s.skip(a + 1));
        assert forall|i: int| 0 <= i < a + 1 implies is_white_space(#[trigger] s[i]) by {
            if i > 0 {
                assert(s[i] == s.drop_first()[i - 1]);
            }
        }
    } else {
        assert(s.skip(0) =~= s);
    }
}

proof fn lemma_trim_end_take(s: Seq<char>)
    ensures
        exists|b: int|
            0 <= b <= s.len() && trim_end(s) == s.take(b) && forall|i: int|
                b <= i < s.len() ==> is_white_space(#[trigger] s[i]),
    decreases s.len(),
{
    if s.len() > 0 && is_white_space(s.last()) {
        lemma_trim_end_take(s.drop_last());
        let b = choose|b: int|
            0 <= b <= s.drop_last().len() && trim_end(s.drop_last()) == s.drop_last().take(b)
                && forall|i: int| b <= i < s.drop_last().len() ==> is_white_space(
                    #[trigger] s.drop_last()[i],
                );
        assert(s.drop_last().take(b) =~= s.take(b));
        assert forall|i: int| b <= i < s.len() implies is_white_space(#[trigger] s[i]) by {
            if i < s.len() - 1 {
                assert(s[i] == s.drop_last()[i]);
            }
        }
    } else {
        assert(s.take(s.len() as int) =~= s);
    }
}

/// Law: trimming removes whitespace from both ends and nothing else: the
/// result is a contiguous middle part of `s`, everything before and after it
/// is whitespace, and it neither starts nor ends with whitespace.
pub proof fn law_trim_strips_ends(s: Seq<char>)
    ensures
        exists|a: int, b: int|
            0 <= a <= b <= s.len() && trim(s) == s.subrange(a, b) && (forall|i: int|
                0 <= i < a ==> is_white_space(#[trigger] s[i])) && (forall|i: int|
                b <= i < s.len() ==> is_white_space(#[trigger] s[i])),
        trim(s).len() > 0 ==> !is_white_space(trim(s)[0]) && !is_white_space(trim(s).last()),
{
    lemma_trim_start_skip(s);
    let a = choose|a: int|
        0 <= a <= s.len() && trim_start(s) == s.skip(a) && forall|i: int|
            0 <= i < a ==> is_white_space(#[trigger] s[i]);
    let t = trim_start(s);
    lemma_trim_end_take(t);
    let b = choose|b: int|
        0 <= b <= t.len() && trim_end(t) == t.take(b) && forall|i: int|
            b <= i < t.len() ==> is_white_space(#[trigger] t[i]);
    assert(t.take(b) =~= s.subrange(a, a + b));
    assert forall|i: int| a + b <= i < s.len() implies is_white_space(#[trigger] s[i]) by {
        assert(s[i] == t[i - a]);
    }
    lemma_trim_start_clean(s);
    lemma_trim_end_clean(t);
    lemma_trim_end_prefix(t);
    if trim(s).len() > 0 {
        assert(trim(s)[0] == t[0]);
    }
}

/// The number that a string of decimal digits denotes.
pub open spec fn digits_value(d: Seq<char>) -> int
    decreases d.len(),
{
    if d.len() == 0 {
        0
    } else {
        digits_value(d.drop_last()) * 10 + (d.last() as int - '0' as int)
    }
}

proof fn lemma_digit_char_value(d: int)
    requires
        0 <= d < 10,
    ensures
        digit_char(d) as int - '0' as int == d,
{
    let ds = seq!['0', '1', '2', '3', '4', '5', '6', '7', '8', '9'];
    assert(digit_char(d) == ds[d]);
    if d == 0 { assert(ds[0] == '0'); }
    else if d == 1 { assert(ds[1] == '1'); }
    else if d == 2 { assert(ds[2] == '2'); }
    else if d == 3 { assert(ds[3] == '3'); }
    else if d == 4 { assert(ds[4] == '4'); }
    else if d == 5 { assert(ds[5] == '5'); }
    else if d == 6 { assert(ds[6] == '6'); }
    else if d == 7 { assert(ds[7] == '7'); }
    else if d == 8 { assert(ds[8] == '8'); }
    else { assert(ds[9] == '9'); }
}

/// Law: the decimal numeral of `n` is a nonempty string of digits, without a
/// leading zero unless it is `0` itself, that denotes `n`.
pub proof fn law_decimal_denotes(n: nat)
    ensures
        decimal(n).len() > 0,
        forall|i: int| 0 <= i < decimal(n).len() ==> '0' <= #[trigger] decimal(n)[i] <= '9',
        decimal(n)[0] == '0' ==> n == 0,
        digits_value(decimal(n)) == n,
    decreases n,
{
    let ds = seq!['0', '1', '2', '3', '4', '5', '6', '7', '8', '9'];
    if n < 10 {
        lemma_digit_char_value(n as int);
        assert(decimal(n) == seq![ds[n as int]]);
        assert(seq![ds[n as int]].drop_last() =~= Seq::<char>::empty());
        assert(digits_value(decimal(n)) == digits_value(Seq::<char>::empty()) * 10 + (
        decimal(n).last() as int - '0' as int));
    } else {
        law_decimal_denotes(n / 10);
        let d = n % 10;
        lemma_digit_char_value(d as int);
        assert(decimal(n) == decimal(n / 10).push(ds[d as int]));
        assert(decimal(n).drop_last() =~= decimal(n / 10));
        assert forall|i: int| 0 <= i < decimal(n).len() implies '0' <= #[trigger] decimal(n)[i] <= '9' by {
            if i < decimal(n / 10).len() {
                assert(decimal(n)[i] == decimal(n / 10)[i]);
            }
        }
        assert(decimal(n)[0] == decimal(n / 10)[0]);
        assert(decimal(n).last() == digit_char(d as int));
        assert(digits_value(decimal(n)) == digits_value(decimal(n / 10)) * 10 + (digit_char(
            d as int,
        ) as int - '0' as int));
        assert(n == (n / 10) * 10 + n % 10);
    }
}

/// Law: right-aligning gives at least `width` characters, ends with `s`, and
/// is otherwise made of spaces.
pub proof fn law_pad_left(s: Seq<char>, width: nat)
    ensures
        pad_left(s, width).len() == if s.len() >= width {
            s.len()
        } else {
            width
        },
        pad_left(s, width).skip(pad_left(s, width).len() - s.len()) == s,
        forall|i: int|
            0 <= i < pad_left(s, width).len() - s.len() ==> #[trigger] pad_left(s, width)[i]
                == ' ',
{
    let p = pad_left(s, width);
    assert(p.skip(p.len() - s.len()) =~= s);
}

} // verus!
