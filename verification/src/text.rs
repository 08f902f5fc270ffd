//! Character-level text utilities with exact specifications: splitting,
//! trimming, searching, number parsing and number formatting.

use vstd::prelude::*;

verus! {

pub assume_specification[ String::push ](s: &mut String, ch: char)
    ensures
        final(s)@ == old(s)@.push(ch),
;

/// The characters of `s`, in order.
pub fn chars_of(s: &str) -> (res: Vec<char>)
    ensures
        res@ == s@,
{
    let mut res: Vec<char> = Vec::new();
    broadcast use vstd::string::group_string_axioms;
    for c in it: s.chars()
        invariant
            res@ == it.seq().take(it.index()),
            it.seq() == s@,
    {
        res.push(c);
    }
    res
}

}

verus! {

/// A `String` holding exactly the characters `cs`.
pub fn string_from_chars(cs: &[char]) -> (res: String)
    ensures
        res@ == cs@,
{
    let mut res = String::new();
    let mut i: usize = 0;
    while i < cs.len()
        invariant
            i <= cs@.len(),
            res@ == cs@.take(i as int),
        decreases cs@.len() - i,
    {
        res.push(cs[i]);
        i = i + 1;
        assert(res@ =~= cs@.take(i as int));
    }
    assert(cs@.take(cs@.len() as int) =~= cs@);
    res
}

/// The pieces of `s` between occurrences of `sep`, as `str::split` yields them:
/// `n` separators give `n + 1` pieces, empty pieces included.
pub open spec fn split_seq(s: Seq<char>, sep: char) -> Seq<Seq<char>>
    decreases s.len(),
{
    if s.len() == 0 {
        seq![Seq::<char>::empty()]
    } else {
        let prev = split_seq(s.drop_last(), sep);
        if s.last() == sep {
            prev.push(Seq::<char>::empty())
        } else {
            prev.update(prev.len() - 1, prev.last().push(s.last()))
        }
    }
}

pub proof fn lemma_split_seq_nonempty(s: Seq<char>, sep: char)
    ensures
        split_seq(s, sep).len() >= 1,
    decreases s.len(),
{
    if s.len() > 0 {
        lemma_split_seq_nonempty(s.drop_last(), sep);
    }
}

/// A text without `sep` is one piece.
pub proof fn lemma_split_seq_single(t: Seq<char>, sep: char)
    requires
        !t.contains(sep),
    ensures
        split_seq(t, sep) == seq![t],
    decreases t.len(),
{
    if t.len() > 0 {
        assert(t.drop_last().len() < t.len());
        assert(!t.drop_last().contains(sep)) by {
            if t.drop_last().contains(sep) {
                let i = choose|i: int| 0 <= i < t.drop_last().len() && t.drop_last()[i] == sep;
                assert(t[i] == sep);
            }
        }
        lemma_split_seq_single(t.drop_last(), sep);
        assert(t.last() != sep) by {
            assert(t[t.len() - 1] == t.last());
        }
        assert(t.drop_last().push(t.last()) =~= t);
        assert(split_seq(t, sep) =~= seq![t]);
    } else {
        assert(t =~= Seq::<char>::empty());
    }
}

/// Appending `sep` and a piece without `sep` appends that piece.
pub proof fn lemma_split_seq_append(s: Seq<char>, t: Seq<char>, sep: char)
    requires
        !t.contains(sep),
    ensures
        split_seq(s + seq![sep] + t, sep) == split_seq(s, sep).push(t),
    decreases t.len(),
{
    let u = s + seq![sep] + t;
    if t.len() == 0 {
        assert(u.drop_last() =~= s);
        assert(t =~= Seq::<char>::empty());
    } else {
        assert(!t.drop_last().contains(sep)) by {
            if t.drop_last().contains(sep) {
                let i = choose|i: int| 0 <= i < t.drop_last().len() && t.drop_last()[i] == sep;
                assert(t[i] == sep);
            }
        }
        lemma_split_seq_append(s, t.drop_last(), sep);
        assert(u.drop_last() =~= s + seq![sep] + t.drop_last());
        assert(u.last() == t.last());
        assert(t.last() != sep) by {
            assert(t[t.len() - 1] == t.last());
        }
        assert(t.drop_last().push(t.last()) =~= t);
        assert(split_seq(u, sep) =~= split_seq(s, sep).push(t));
    }
}

/// The pieces `gs` joined with `sep` between them, as `join` gives it.
pub open spec fn join_seq(gs: Seq<Seq<char>>, sep: char) -> Seq<char>
    decreases gs.len(),
{
    if gs.len() == 0 {
        Seq::<char>::empty()
    } else if gs.len() == 1 {
        gs[0]
    } else {
        join_seq(gs.drop_last(), sep) + seq![sep] + gs.last()
    }
}

/// Joining the pieces of a split gives the text back.
pub proof fn lemma_join_split(s: Seq<char>, sep: char)
    ensures
        join_seq(split_seq(s, sep), sep) == s,
    decreases s.len(),
{
    if s.len() == 0 {
        assert(s =~= Seq::<char>::empty());
    } else {
        let s1 = s.drop_last();
        let p = split_seq(s1, sep);
        lemma_split_seq_nonempty(s1, sep);
        lemma_join_split(s1, sep);
        if s.last() == sep {
            let q = p.push(Seq::<char>::empty());
            assert(q.drop_last() =~= p);
            assert(join_seq(q, sep) =~= s);
        } else {
            let q = p.update(p.len() - 1, p.last().push(s.last()));
            if p.len() == 1 {
                assert(join_seq(q, sep) =~= s);
            } else {
                assert(q.drop_last() =~= p.drop_last());
                assert(q.last() == p.last().push(s.last()));
                assert(join_seq(p, sep) == join_seq(p.drop_last(), sep) + seq![sep] + p.last());
                assert(join_seq(q, sep) == join_seq(p.drop_last(), sep) + seq![sep] + p.last().push(s.last()));
                assert(s =~= s1.push(s.last()));
                assert(join_seq(q, sep) =~= s);
            }
        }
    }
}

/// `c` with an ASCII lowercase letter made uppercase.
pub open spec fn ascii_upper(c: char) -> char {
    if 'a' <= c && c <= 'z' { ((c as int) - 32) as char } else { c }
}

/// `s` with its ASCII lowercase letters made uppercase, as
/// `to_ascii_uppercase` gives it.
pub open spec fn to_upper(s: Seq<char>) -> Seq<char> {
    s.map_values(|c: char| ascii_upper(c))
}

/// A two-digit hexadecimal group reads as a byte whose two uppercase digits
/// are the group uppercased.
pub proof fn lemma_hex_pair_prints_upper(g: Seq<char>)
    requires
        g.len() == 2,
        all_digits(g, 16),
    ensures
        parse_uint(g, 16, 255) is Some,
        hex2((parse_uint(g, 16, 255)->0) as u8) == to_upper(g),
{
    let d0 = digit_value(g[0], 16);
    let d1 = digit_value(g[1], 16);
    assert(g.drop_last() =~= seq![g[0]]);
    assert(seq![g[0]].drop_last() =~= Seq::<char>::empty());
    assert(digits_value(Seq::<char>::empty(), 16) == 0);
    assert(digits_value(seq![g[0]], 16) == d0);
    assert(g.last() == g[1]);
    assert(digits_value(g, 16) == d0 * 16 + d1);
    assert(d0 >= 0 && d1 >= 0 && d0 < 16 && d1 < 16);
    assert(strip_plus(g) == g);
    let v = d0 * 16 + d1;
    assert(v / 16 == d0 && v % 16 == d1);
    assert(hex_char(d0) == ascii_upper(g[0]));
    assert(hex_char(d1) == ascii_upper(g[1]));
    assert(hex2(v as u8) =~= to_upper(g));
}

/// Splits `cs` at every `sep`, as `str::split(sep)` does.
pub fn split_chars(cs: &[char], sep: char) -> (res: Vec<Vec<char>>)
    ensures
        res@.len() == split_seq(cs@, sep).len(),
        forall|i: int| 0 <= i < res@.len() ==> #[trigger] res@[i]@ == split_seq(cs@, sep)[i],
{
    let mut done: Vec<Vec<char>> = Vec::new();
    let mut cur: Vec<char> = Vec::new();
    let mut i: usize = 0;
    while i < cs.len()
        invariant
            i <= cs@.len(),
            done@.len() + 1 == split_seq(cs@.take(i as int), sep).len(),
            forall|j: int| 0 <= j < done@.len() ==> #[trigger] done@[j]@ == split_seq(cs@.take(i as int), sep)[j],
            cur@ == split_seq(cs@.take(i as int), sep).last(),
        decreases cs@.len() - i,
    {
        let c = cs[i];
        proof {
            assert(cs@.take(i + 1).drop_last() =~= cs@.take(i as int));
            lemma_split_seq_nonempty(cs@.take(i as int), sep);
        }
        if c == sep {
            let finished = cur;
            done.push(finished);
            cur = Vec::new();
        } else {
            cur.push(c);
        }
        i = i + 1;
    }
    assert(cs@.take(cs@.len() as int) =~= cs@);
    done.push(cur);
    done
}

/// Unicode `White_Space`, the set that `char::is_whitespace` tests.
pub open spec fn is_ws(c: char) -> bool {
    ||| ('\u{9}' <= c && c <= '\u{d}')
    ||| c == ' '
    ||| c == '\u{85}'
    ||| c == '\u{a0}'
    ||| c == '\u{1680}'
    ||| ('\u{2000}' <= c && c <= '\u{200a}')
    ||| c == '\u{2028}'
    ||| c == '\u{2029}'
    ||| c == '\u{202f}'
    ||| c == '\u{205f}'
    ||| c == '\u{3000}'
}

pub fn is_whitespace(c: char) -> (res: bool)
    ensures
        res == is_ws(c),
{
    ('\u{9}' <= c && c <= '\u{d}') || c == ' ' || c == '\u{85}' || c == '\u{a0}' || c == '\u{1680}'
        || ('\u{2000}' <= c && c <= '\u{200a}') || c == '\u{2028}' || c == '\u{2029}'
        || c == '\u{202f}' || c == '\u{205f}' || c == '\u{3000}'
}

}

verus! {

/// Words of `s` finished so far, and the word still being read, when `s` is
/// read from left to right and whitespace ends a word.
pub open spec fn words_acc(s: Seq<char>) -> (Seq<Seq<char>>, Seq<char>)
    decreases s.len(),
{
    if s.len() == 0 {
        (Seq::<Seq<char>>::empty(), Seq::<char>::empty())
    } else {
        let (w, cur) = words_acc(s.drop_last());
        if is_ws(s.last()) {
            (if cur.len() > 0 { w.push(cur) } else { w }, Seq::<char>::empty())
        } else {
            (w, cur.push(s.last()))
        }
    }
}

/// The maximal runs of non-whitespace characters of `s`, in order, as
/// `str::split_whitespace` yields them.
pub open spec fn words(s: Seq<char>) -> Seq<Seq<char>> {
    let (w, cur) = words_acc(s);
    if cur.len() > 0 { w.push(cur) } else { w }
}

/// Splits `cs` into its whitespace-separated words.
pub fn split_words(cs: &[char]) -> (res: Vec<Vec<char>>)
    ensures
        res@.len() == words(cs@).len(),
        forall|i: int| 0 <= i < res@.len() ==> #[trigger] res@[i]@ == words(cs@)[i],
{
    let mut done: Vec<Vec<char>> = Vec::new();
    let mut cur: Vec<char> = Vec::new();
    let mut i: usize = 0;
    while i < cs.len()
        invariant
            i <= cs@.len(),
            done@.len() == words_acc(cs@.take(i as int)).0.len(),
            forall|j: int| 0 <= j < done@.len() ==> #[trigger] done@[j]@ == words_acc(cs@.take(i as int)).0[j],
            cur@ == words_acc(cs@.take(i as int)).1,
        decreases cs@.len() - i,
    {
        let c = cs[i];
        proof {
            assert(cs@.take(i + 1).drop_last() =~= cs@.take(i as int));
        }
        if is_whitespace(c) {
            if cur.len() > 0 {
                let finished = cur;
                done.push(finished);
            }
            cur = Vec::new();
        } else {
            cur.push(c);
        }
        i = i + 1;
    }
    assert(cs@.take(cs@.len() as int) =~= cs@);
    if cur.len() > 0 {
        done.push(cur);
    }
    done
}

/// `s` without leading whitespace.
pub open spec fn trim_start(s: Seq<char>) -> Seq<char>
    decreases s.len(),
{
    if s.len() > 0 && is_ws(s[0]) { trim_start(s.drop_first()) } else { s }
}

/// `s` without trailing whitespace.
pub open spec fn trim_end(s: Seq<char>) -> Seq<char>
    decreases s.len(),
{
    if s.len() > 0 && is_ws(s.last()) { trim_end(s.drop_last()) } else { s }
}

/// `s` without leading and trailing whitespace, as `str::trim` gives it.
pub open spec fn trim(s: Seq<char>) -> Seq<char> {
    trim_end(trim_start(s))
}

proof fn lemma_trim_start_skip(s: Seq<char>, i: int)
    requires
        0 <= i <= s.len(),
        forall|j: int| 0 <= j < i ==> is_ws(#[trigger] s[j]),
    ensures
        trim_start(s) == trim_start(s.subrange(i, s.len() as int)),
    decreases i,
{
    if i > 0 {
        assert(s.drop_first().subrange(i - 1, s.drop_first().len() as int) =~= s.subrange(i, s.len() as int));
        lemma_trim_start_skip(s.drop_first(), i - 1);
    } else {
        assert(s.subrange(0, s.len() as int) =~= s);
    }
}

proof fn lemma_trim_end_cut(s: Seq<char>, k: int)
    requires
        0 <= k <= s.len(),
        forall|j: int| k <= j < s.len() ==> is_ws(#[trigger] s[j]),
    ensures
        trim_end(s) == trim_end(s.subrange(0, k)),
    decreases s.len() - k,
{
    if k < s.len() {
        assert(s.drop_last().subrange(0, k) =~= s.subrange(0, k));
        lemma_trim_end_cut(s.drop_last(), k);
    } else {
        assert(s.subrange(0, k) =~= s);
    }
}

/// `cs` without leading and trailing whitespace.
pub fn trim_chars(cs: &[char]) -> (res: Vec<char>)
    ensures
        res@ == trim(cs@),
{
    let n = cs.len();
    let mut a: usize = 0;
    while a < n && is_whitespace(cs[a])
        invariant
            a <= n,
            n == cs@.len(),
            forall|j: int| 0 <= j < a ==> is_ws(#[trigger] cs@[j]),
        decreases n - a,
    {
        a = a + 1;
    }
    let ghost rest = cs@.subrange(a as int, n as int);
    proof {
        lemma_trim_start_skip(cs@, a as int);
        if a < n {
            assert(rest[0] == cs@[a as int]);
        } else {
            assert(rest.len() == 0);
        }
    }
    let mut b: usize = n;
    while b > a && is_whitespace(cs[b - 1])
        invariant
            a <= b <= n,
            n == cs@.len(),
            forall|j: int| b <= j < n ==> is_ws(#[trigger] cs@[j]),
        decreases b,
    {
        b = b - 1;
    }
    proof {
        assert forall|j: int| b - a <= j < rest.len() implies is_ws(#[trigger] rest[j]) by {
            assert(rest[j] == cs@[a + j]);
        }
        lemma_trim_end_cut(rest, (b - a) as int);
        let kept = rest.subrange(0, (b - a) as int);
        if b > a {
            assert(kept.last() == cs@[b - 1]);
        }
        assert(kept =~= cs@.subrange(a as int, b as int));
    }
    let mut res: Vec<char> = Vec::new();
    let mut i: usize = a;
    while i < b
        invariant
            a <= i <= b <= n,
            n == cs@.len(),
            res@ == cs@.subrange(a as int, i as int),
        decreases b - i,
    {
        res.push(cs[i]);
        i = i + 1;
        assert(res@ =~= cs@.subrange(a as int, i as int));
    }
    res
}

/// `pat` occurs in `s` at position `i`.
pub open spec fn occurs_at(s: Seq<char>, pat: Seq<char>, i: int) -> bool {
    0 <= i && i + pat.len() <= s.len() && s.subrange(i, i + pat.len()) == pat
}

/// `pat` occurs somewhere in `s`, as `str::contains` tests.
pub open spec fn contains_seq(s: Seq<char>, pat: Seq<char>) -> bool {
    exists|i: int| occurs_at(s, pat, i)
}

/// Whether `pat` occurs in `cs`.
pub fn contains_chars(cs: &[char], pat: &[char]) -> (res: bool)
    ensures
        res == contains_seq(cs@, pat@),
{
    if pat.len() > cs.len() {
        assert forall|i: int| !occurs_at(cs@, pat@, i) by {}
        return false;
    }
    if pat.len() == 0 {
        assert(occurs_at(cs@, pat@, 0)) by {
            assert(cs@.subrange(0, 0) =~= pat@);
        }
        return true;
    }
    let mut i: usize = 0;
    while pat.len() <= cs.len() - i
        invariant
            0 < pat@.len() <= cs@.len(),
            i <= cs@.len(),
            forall|k: int| 0 <= k < i ==> !occurs_at(cs@, pat@, k),
        decreases cs@.len() - i,
    {
        let mut j: usize = 0;
        let mut same = true;
        while j < pat.len()
            invariant
                i + pat@.len() <= cs@.len(),
                cs@.len() == cs.len(),
                j <= pat@.len(),
                same == (forall|m: int| 0 <= m < j ==> cs@[i + m] == pat@[m]),
            decreases pat@.len() - j,
        {
            if cs[i + j] != pat[j] {
                same = false;
            }
            j = j + 1;
        }
        if same {
            assert(cs@.subrange(i as int, i + pat@.len()) =~= pat@);
            assert(occurs_at(cs@, pat@, i as int));
            return true;
        }
        assert(!occurs_at(cs@, pat@, i as int)) by {
            if occurs_at(cs@, pat@, i as int) {
                let m = choose|m: int| 0 <= m < pat@.len() && cs@[i + m] != pat@[m];
                assert(cs@.subrange(i as int, i + pat@.len())[m] == cs@[i + m]);
            }
        }
        i = i + 1;
    }
    assert forall|k: int| !occurs_at(cs@, pat@, k) by {
        if 0 <= k < i {
        }
    }
    false
}

}

verus! {

/// The value of `c` as a digit in base `radix` (10 or 16), as
/// `char::to_digit` gives it, or -1 when `c` is no such digit.
pub open spec fn digit_value(c: char, radix: int) -> int {
    if '0' <= c && c <= '9' {
        c as int - '0' as int
    } else if radix == 16 && 'a' <= c && c <= 'f' {
        c as int - 'a' as int + 10
    } else if radix == 16 && 'A' <= c && c <= 'F' {
        c as int - 'A' as int + 10
    } else {
        -1
    }
}

pub open spec fn all_digits(ds: Seq<char>, radix: int) -> bool {
    forall|i: int| 0 <= i < ds.len() ==> digit_value(#[trigger] ds[i], radix) >= 0
}

/// The number that the digits `ds` spell in base `radix`, most significant first.
pub open spec fn digits_value(ds: Seq<char>, radix: int) -> int
    decreases ds.len(),
{
    if ds.len() == 0 {
        0
    } else {
        digits_value(ds.drop_last(), radix) * radix + digit_value(ds.last(), radix)
    }
}

/// `s` without one leading `+`, if it has one.
pub open spec fn strip_plus(s: Seq<char>) -> Seq<char> {
    if s.len() > 0 && s[0] == '+' { s.drop_first() } else { s }
}

/// What `from_str_radix(s, radix)` gives for an unsigned integer type whose
/// largest value is `max`: an optional `+`, then at least one digit, and a
/// value no larger than `max`.
pub open spec fn parse_uint(s: Seq<char>, radix: int, max: int) -> Option<int> {
    let d = strip_plus(s);
    if d.len() > 0 && all_digits(d, radix) && digits_value(d, radix) <= max {
        Some(digits_value(d, radix))
    } else {
        None
    }
}

pub fn digit_of(c: char, radix: u32) -> (res: Option<u32>)
    requires
        radix == 10 || radix == 16,
    ensures
        digit_value(c, radix as int) >= 0 ==> res == Some(digit_value(c, radix as int) as u32),
        digit_value(c, radix as int) < 0 ==> res is None,
{
    if '0' <= c && c <= '9' {
        Some((c as u32) - ('0' as u32))
    } else if radix == 16 && 'a' <= c && c <= 'f' {
        Some((c as u32) - ('a' as u32) + 10)
    } else if radix == 16 && 'A' <= c && c <= 'F' {
        Some((c as u32) - ('A' as u32) + 10)
    } else {
        None
    }
}

proof fn lemma_digits_value_nonneg(ds: Seq<char>, radix: int)
    requires
        radix >= 1,
        all_digits(ds, radix),
    ensures
        digits_value(ds, radix) >= 0,
    decreases ds.len(),
{
    if ds.len() > 0 {
        assert(all_digits(ds.drop_last(), radix)) by {
            assert forall|i: int| 0 <= i < ds.drop_last().len() implies digit_value(
                #[trigger] ds.drop_last()[i],
                radix,
            ) >= 0 by {
                assert(ds.drop_last()[i] == ds[i]);
            }
        }
        lemma_digits_value_nonneg(ds.drop_last(), radix);
        assert(digit_value(ds.last(), radix) >= 0);
        assert(digits_value(ds.drop_last(), radix) * radix >= 0) by (nonlinear_arith)
            requires
                digits_value(ds.drop_last(), radix) >= 0,
                radix >= 1,
        ;
    }
}

proof fn lemma_digits_value_grows(ds: Seq<char>, radix: int, k: int)
    requires
        radix >= 1,
        0 <= k <= ds.len(),
        all_digits(ds, radix),
    ensures
        digits_value(ds.take(k), radix) <= digits_value(ds, radix),
    decreases ds.len() - k,
{
    if k < ds.len() {
        let t = ds.take(k + 1);
        assert(all_digits(t, radix)) by {
            assert forall|i: int| 0 <= i < t.len() implies digit_value(#[trigger] t[i], radix) >= 0 by {
                assert(t[i] == ds[i]);
            }
        }
        lemma_digits_value_grows(ds, radix, k + 1);
        assert(t.drop_last() =~= ds.take(k));
        assert(all_digits(ds.take(k), radix)) by {
            assert forall|i: int| 0 <= i < ds.take(k).len() implies digit_value(#[trigger] ds.take(k)[i], radix) >= 0 by {
                assert(ds.take(k)[i] == ds[i]);
            }
        }
        lemma_digits_value_nonneg(ds.take(k), radix);
        let v = digits_value(ds.take(k), radix);
        assert(digit_value(t.last(), radix) >= 0);
        assert(v * radix >= v) by (nonlinear_arith)
            requires
                v >= 0,
                radix >= 1,
        ;
    } else {
        assert(ds.take(k) =~= ds);
    }
}

/// Parses an unsigned integer of base `radix` no larger than `max`, as
/// `from_str_radix` does for an unsigned type with that maximum.
pub fn parse_uint_chars(cs: &[char], radix: u32, max: u64) -> (res: Option<u64>)
    requires
        radix == 10 || radix == 16,
    ensures
        res matches Some(v) ==> parse_uint(cs@, radix as int, max as int) == Some(v as int),
        res is None ==> parse_uint(cs@, radix as int, max as int) is None,
{
    let ghost d = strip_plus(cs@);
    let mut start: usize = 0;
    if cs.len() > 0 && cs[0] == '+' {
        start = 1;
    }
    assert(d =~= cs@.subrange(start as int, cs@.len() as int));
    if start == cs.len() {
        return None;
    }
    let mut acc: u64 = 0;
    let mut i: usize = start;
    while i < cs.len()
        invariant
            start <= i <= cs@.len(),
            d =~= cs@.subrange(start as int, cs@.len() as int),
            d == strip_plus(cs@),
            all_digits(d.take(i - start), radix as int),
            acc as int == digits_value(d.take(i - start), radix as int),
            acc <= max,
            radix == 10 || radix == 16,
        decreases cs@.len() - i,
    {
        let ghost k = (i - start) as int;
        proof {
            assert(d.take(k + 1).drop_last() =~= d.take(k));
            assert(d.take(k + 1).last() == cs@[i as int]);
        }
        match digit_of(cs[i], radix) {
            None => {
                proof {
                    assert(d[k] == cs@[i as int]);
                    assert(digit_value(d[k], radix as int) < 0);
                    assert(!all_digits(d, radix as int));
                }
                return None;
            },
            Some(v) => {
                assert((acc as u128) * (radix as u128) <= 16 * 0xffff_ffff_ffff_ffffu128) by (nonlinear_arith)
                    requires
                        acc <= 0xffff_ffff_ffff_ffffu64,
                        radix <= 16,
                ;
                let big = (acc as u128) * (radix as u128) + (v as u128);
                assert(big == digits_value(d.take(k + 1), radix as int));
                proof {
                    assert(all_digits(d.take(k + 1), radix as int)) by {
                        assert forall|j: int| 0 <= j < d.take(k + 1).len() implies digit_value(
                            #[trigger] d.take(k + 1)[j],
                            radix as int,
                        ) >= 0 by {
                            if j < k {
                                assert(d.take(k + 1)[j] == d.take(k)[j]);
                            }
                        }
                    }
                }
                if big > max as u128 {
                    proof {
                        if all_digits(d, radix as int) {
                            lemma_digits_value_grows(d, radix as int, k + 1);
                            assert(digits_value(d, radix as int) > max);
                        }
                        assert(parse_uint(cs@, radix as int, max as int) is None);
                    }
                    return None;
                }
                acc = big as u64;
            },
        }
        i = i + 1;
    }
    assert(d.take(d.len() as int) =~= d);
    Some(acc)
}

/// The decimal digits of `n`, most significant first, with no leading zero.
pub open spec fn dec_seq(n: nat) -> Seq<char>
    decreases n,
{
    if n < 10 {
        seq![(48 + n) as char]
    } else {
        dec_seq(n / 10).push((48 + n % 10) as char)
    }
}

/// Appends the decimal digits of `n` to `out`.
pub fn push_decimal(out: &mut String, n: u64)
    ensures
        final(out)@ == old(out)@ + dec_seq(n as nat),
    decreases n,
{
    if n >= 10 {
        push_decimal(out, n / 10);
    }
    let d = (n % 10) as u8;
    out.push((48u8 + d) as char);
    assert(final(out)@ =~= old(out)@ + dec_seq(n as nat));
}

/// The uppercase hexadecimal digit of `v`.
pub open spec fn hex_char(v: int) -> char {
    if v < 10 { (48 + v) as char } else { (55 + v) as char }
}

/// `b` as two uppercase hexadecimal digits, as `{:02X}` writes it.
pub open spec fn hex2(b: u8) -> Seq<char> {
    seq![hex_char(b as int / 16), hex_char(b as int % 16)]
}

/// The two digits of `b` hold no `:` and read back as `b` in base 16.
pub proof fn lemma_hex2_reads_back(b: u8)
    ensures
        !hex2(b).contains(':'),
        parse_uint(hex2(b), 16, 255) == Some(b as int),
{
    let h = hex2(b);
    let hi = b as int / 16;
    let lo = b as int % 16;
    assert(digit_value(hex_char(hi), 16) == hi);
    assert(digit_value(hex_char(lo), 16) == lo);
    assert(h[0] == hex_char(hi) && h[1] == hex_char(lo));
    assert(h.drop_last() =~= seq![hex_char(hi)]);
    assert(seq![hex_char(hi)].drop_last() =~= Seq::<char>::empty());
    assert(strip_plus(h) == h);
    assert(digits_value(Seq::<char>::empty(), 16) == 0);
    assert(digits_value(seq![hex_char(hi)], 16) == hi);
    assert(h.last() == hex_char(lo));
    assert(digits_value(h, 16) == hi * 16 + lo);
    assert(all_digits(h, 16));
    assert(!h.contains(':')) by {
        if h.contains(':') {
            let i = choose|i: int| 0 <= i < h.len() && h[i] == ':';
            assert(i == 0 || i == 1);
        }
    }
}

/// Appends `b` as two uppercase hexadecimal digits to `out`.
pub fn push_hex2(out: &mut String, b: u8)
    ensures
        final(out)@ == old(out)@ + hex2(b),
{
    let hi = b / 16;
    let lo = b % 16;
    let hc = if hi < 10 { (48u8 + hi) as char } else { (55u8 + hi) as char };
    let lc = if lo < 10 { (48u8 + lo) as char } else { (55u8 + lo) as char };
    out.push(hc);
    out.push(lc);
    assert(final(out)@ =~= old(out)@ + hex2(b));
}

}
