//! Character-level helpers: UTF-8 widths, byte-budgeted prefixes and
//! suffixes at character boundaries, line splitting and decimal rendering.
use vstd::prelude::*;
use vstd::utf8::*;
use crate::path::{chars_list_view, split_chars, split_on};

verus! {

broadcast use vstd::string::group_string_axioms;

/// Number of bytes that `c` takes in UTF-8 (what `char::len_utf8` documents).
pub open spec fn char_width(c: char) -> nat {
    if (c as u32) <= 0x7F {
        1
    } else if (c as u32) <= 0x7FF {
        2
    } else if (c as u32) <= 0xFFFF {
        3
    } else {
        4
    }
}

/// Number of bytes of the UTF-8 encoding of `s`.
pub open spec fn utf8_len(s: Seq<char>) -> nat
    decreases s.len(),
{
    if s.len() == 0 {
        0
    } else {
        char_width(s[0]) + utf8_len(s.drop_first())
    }
}

/// The byte length is additive over concatenation.
pub proof fn lemma_utf8_len_concat(a: Seq<char>, b: Seq<char>)
    ensures
        utf8_len(a + b) == utf8_len(a) + utf8_len(b),
    decreases a.len(),
{
    if a.len() == 0 {
        assert(a + b =~= b);
    } else {
        assert((a + b).drop_first() =~= a.drop_first() + b);
        lemma_utf8_len_concat(a.drop_first(), b);
    }
}

/// Removing the last character removes its width.
pub proof fn lemma_utf8_len_drop_last(s: Seq<char>)
    requires
        s.len() > 0,
    ensures
        utf8_len(s) == utf8_len(s.drop_last()) + char_width(s.last()),
{
    let one = seq![s.last()];
    assert(s =~= s.drop_last() + one);
    lemma_utf8_len_concat(s.drop_last(), one);
    assert(one.drop_first() =~= Seq::<char>::empty());
    assert(utf8_len(one.drop_first()) == 0);
    assert(utf8_len(one) == char_width(s.last()));
}

/// `utf8_len` is the length of vstd's UTF-8 encoding.
pub proof fn lemma_utf8_len_is_encoding_len(s: Seq<char>)
    ensures
        utf8_len(s) == encode_utf8(s).len(),
    decreases s.len(),
{
    if s.len() > 0 {
        char_is_scalar(s[0]);
        lemma_utf8_len_is_encoding_len(s.drop_first());
    }
}

/// Byte width of `c` in UTF-8.
pub fn char_len_utf8(c: char) -> (w: usize)
    ensures
        w == char_width(c),
        1 <= w <= 4,
{
    let u = c as u32;
    if u <= 0x7F {
        1
    } else if u <= 0x7FF {
        2
    } else if u <= 0xFFFF {
        3
    } else {
        4
    }
}

/// Number of characters at the front of `s` that fit into `maxb` bytes,
/// taken one by one until the first that does not fit.
pub open spec fn prefix_fit(s: Seq<char>, maxb: nat) -> nat
    decreases s.len(),
{
    if s.len() == 0 {
        0
    } else if char_width(s[0]) > maxb {
        0
    } else {
        1 + prefix_fit(s.drop_first(), (maxb - char_width(s[0])) as nat)
    }
}

/// Number of characters at the back of `s` that fit into `maxb` bytes,
/// taken one by one from the end until the first that does not fit.
pub open spec fn suffix_fit(s: Seq<char>, maxb: nat) -> nat
    decreases s.len(),
{
    if s.len() == 0 {
        0
    } else if char_width(s.last()) > maxb {
        0
    } else {
        1 + suffix_fit(s.drop_last(), (maxb - char_width(s.last())) as nat)
    }
}

/// The longest prefix of `s` whose UTF-8 encoding fits into `maxb` bytes.
pub open spec fn bytes_prefix(s: Seq<char>, maxb: nat) -> Seq<char> {
    s.take(prefix_fit(s, maxb) as int)
}

/// The longest suffix of `s` whose UTF-8 encoding fits into `maxb` bytes.
pub open spec fn bytes_suffix(s: Seq<char>, maxb: nat) -> Seq<char> {
    s.skip(s.len() - suffix_fit(s, maxb))
}

/// What `prefix_fit` counts: a prefix within the budget that cannot grow.
pub proof fn lemma_prefix_fit(s: Seq<char>, maxb: nat)
    ensures
        prefix_fit(s, maxb) <= s.len(),
        utf8_len(s.take(prefix_fit(s, maxb) as int)) <= maxb,
        prefix_fit(s, maxb) < s.len() ==> utf8_len(s.take(prefix_fit(s, maxb) as int + 1)) > maxb,
        utf8_len(s) <= maxb ==> prefix_fit(s, maxb) == s.len(),
    decreases s.len(),
{
    if s.len() == 0 {
        assert(s.take(0) =~= Seq::<char>::empty());
    } else {
        let w = char_width(s[0]);
        if w > maxb {
            assert(s.take(0) =~= Seq::<char>::empty());
            assert(s.take(1).drop_first() =~= Seq::<char>::empty());
            lemma_utf8_len_nonneg_first(s);
        } else {
            let rest = s.drop_first();
            let m = (maxb - w) as nat;
            lemma_prefix_fit(rest, m);
            let k = prefix_fit(rest, m);
            assert(s.take(k as int + 1).drop_first() =~= rest.take(k as int));
            if k < rest.len() {
                assert(s.take(k as int + 2).drop_first() =~= rest.take(k as int + 1));
            }
        }
    }
}

proof fn lemma_utf8_len_nonneg_first(s: Seq<char>)
    requires
        s.len() > 0,
    ensures
        utf8_len(s) >= char_width(s[0]),
{
}

/// What `suffix_fit` counts: a suffix within the budget that cannot grow.
pub proof fn lemma_suffix_fit(s: Seq<char>, maxb: nat)
    ensures
        suffix_fit(s, maxb) <= s.len(),
        utf8_len(s.skip(s.len() - suffix_fit(s, maxb))) <= maxb,
        suffix_fit(s, maxb) < s.len() ==> utf8_len(s.skip(s.len() - suffix_fit(s, maxb) - 1))
            > maxb,
        utf8_len(s) <= maxb ==> suffix_fit(s, maxb) == s.len(),
    decreases s.len(),
{
    if s.len() == 0 {
        assert(s.skip(0) =~= s);
    } else {
        let w = char_width(s.last());
        lemma_utf8_len_drop_last(s);
        if w > maxb {
            assert(s.skip(s.len() as int) =~= Seq::<char>::empty());
            let t = s.skip(s.len() - 1);
            assert(t =~= seq![s.last()]);
            assert(t.drop_first() =~= Seq::<char>::empty());
        } else {
            let rest = s.drop_last();
            let m = (maxb - w) as nat;
            lemma_suffix_fit(rest, m);
            let k = suffix_fit(rest, m);
            let t = s.skip(s.len() - (k + 1));
            assert(t.drop_last() =~= rest.skip(rest.len() - k));
            assert(t.last() == s.last());
            lemma_utf8_len_drop_last(t);
            if k < rest.len() {
                let t2 = s.skip(s.len() - (k + 2));
                assert(t2.drop_last() =~= rest.skip(rest.len() - k - 1));
                assert(t2.last() == s.last());
                lemma_utf8_len_drop_last(t2);
            }
            if utf8_len(s) <= maxb {
                assert(utf8_len(rest) <= m);
            }
        }
    }
}

/// The characters of `s`, in order.
pub fn chars_of(s: &str) -> (r: Vec<char>)
    ensures
        r@ == s@,
{
    let mut r: Vec<char> = Vec::new();
    for c in it: s.chars()
        invariant
            it.seq() == s@,
            r@ == it.seq().take(it.index() as int),
    {
        r.push(c);
    }
    r
}

/// Collects characters into a `String` through std's `FromIterator<&char>`
/// for `String`; the contract claims that the string holds exactly those
/// characters, in order.
#[verifier::external_body]
pub(crate) fn string_from_chars(v: &Vec<char>) -> (s: String)
    ensures
        s@ == v@,
{
    v.iter().collect()
}

/// Whether two character sequences are equal.
pub fn chars_eq(a: &Vec<char>, b: &Vec<char>) -> (r: bool)
    ensures
        r == (a@ == b@),
{
    if a.len() != b.len() {
        return false;
    }
    let mut i: usize = 0;
    while i < a.len()
        invariant
            a.len() == b.len(),
            i <= a.len(),
            forall|j: int| 0 <= j < i ==> a@[j] == b@[j],
        decreases a.len() - i,
    {
        if a[i] != b[i] {
            return false;
        }
        i = i + 1;
    }
    assert(a@ =~= b@);
    true
}

/// Whether two strings hold the same characters.
pub fn str_eq(a: &str, b: &str) -> (r: bool)
    ensures
        r == (a@ == b@),
{
    let va = chars_of(a);
    let vb = chars_of(b);
    chars_eq(&va, &vb)
}

/// The longest prefix of `cs` that fits in `maxb` bytes, as characters.
pub fn take_prefix_chars(cs: &Vec<char>, maxb: usize) -> (r: Vec<char>)
    ensures
        r@ == bytes_prefix(cs@, maxb as nat),
{
    let mut r: Vec<char> = Vec::new();
    let mut used: usize = 0;
    let mut k: usize = 0;
    assert(cs@.skip(0) =~= cs@);
    assert(r@ =~= cs@.take(0));
    while k < cs.len()
        invariant_except_break
            k <= cs.len(),
            used <= maxb,
            r@ == cs@.take(k as int),
            prefix_fit(cs@, maxb as nat) == k + prefix_fit(cs@.skip(k as int), (maxb - used) as nat),
        ensures
            r@ == cs@.take(prefix_fit(cs@, maxb as nat) as int),
        decreases cs.len() - k,
    {
        let w = char_len_utf8(cs[k]);
        proof {
            let rest = cs@.skip(k as int);
            assert(rest[0] == cs@[k as int]);
            assert(rest.drop_first() =~= cs@.skip(k + 1));
        }
        if w > maxb - used {
            break;
        }
        used = used + w;
        r.push(cs[k]);
        k = k + 1;
        proof {
            assert(r@ =~= cs@.take(k as int));
        }
    }
    proof {
        if k == cs.len() {
            assert(cs@.skip(k as int).len() == 0);
        }
    }
    r
}

/// The longest suffix of `cs` that fits in `maxb` bytes, as characters.
pub fn take_suffix_chars(cs: &Vec<char>, maxb: usize) -> (r: Vec<char>)
    ensures
        r@ == bytes_suffix(cs@, maxb as nat),
{
    let n = cs.len();
    let mut used: usize = 0;
    let mut k: usize = 0;
    assert(cs@.take(n as int) =~= cs@);
    while k < n
        invariant_except_break
            n == cs.len(),
            k <= n,
            used <= maxb,
            suffix_fit(cs@, maxb as nat) == k + suffix_fit(cs@.take(n - k), (maxb - used) as nat),
        ensures
            k == suffix_fit(cs@, maxb as nat),
            k <= n,
        decreases n - k,
    {
        let c = cs[n - 1 - k];
        let w = char_len_utf8(c);
        proof {
            let rest = cs@.take(n - k);
            assert(rest.last() == c);
            assert(rest.drop_last() =~= cs@.take(n - k - 1));
        }
        if w > maxb - used {
            break;
        }
        used = used + w;
        k = k + 1;
    }
    proof {
        if k == n {
            assert(cs@.take(n - k).len() == 0);
        }
    }
    let mut r: Vec<char> = Vec::new();
    let mut i: usize = n - k;
    while i < n
        invariant
            n == cs.len(),
            k <= n,
            n - k <= i <= n,
            r@ == cs@.subrange(n - k, i as int),
        decreases n - i,
    {
        r.push(cs[i]);
        i = i + 1;
        proof {
            assert(r@ =~= cs@.subrange(n - k, i as int));
        }
    }
    assert(r@ =~= cs@.skip(n - k));
    r
}

/// Truncates `s` to at most `maxb` bytes without splitting a character:
/// the longest prefix of `s` whose UTF-8 encoding has at most `maxb` bytes.
pub fn take_bytes_at_char_boundary(s: &str, maxb: usize) -> (r: String)
    ensures
        r@ == bytes_prefix(s@, maxb as nat),
        r@.len() <= s@.len(),
        r@ == s@.take(r@.len() as int),
        utf8_len(r@) <= maxb,
        encode_utf8(r@).len() <= maxb,
        r@.len() < s@.len() ==> utf8_len(s@.take(r@.len() as int + 1)) > maxb,
        utf8_len(s@) <= maxb ==> r@ == s@,
{
    let cs = chars_of(s);
    let r = take_prefix_chars(&cs, maxb);
    proof {
        lemma_prefix_fit(s@, maxb as nat);
        lemma_utf8_len_is_encoding_len(r@);
        if utf8_len(s@) <= maxb {
            assert(s@.take(s@.len() as int) =~= s@);
        }
    }
    string_from_chars(&r)
}

/// Keeps the last at most `maxb` bytes of `s` without splitting a character:
/// the longest suffix of `s` whose UTF-8 encoding has at most `maxb` bytes.
pub fn take_last_bytes_at_char_boundary(s: &str, maxb: usize) -> (r: String)
    ensures
        r@ == bytes_suffix(s@, maxb as nat),
        r@.len() <= s@.len(),
        r@ == s@.skip(s@.len() - r@.len()),
        utf8_len(r@) <= maxb,
        encode_utf8(r@).len() <= maxb,
        r@.len() < s@.len() ==> utf8_len(s@.skip(s@.len() - r@.len() - 1)) > maxb,
        utf8_len(s@) <= maxb ==> r@ == s@,
{
    let cs = chars_of(s);
    let r = take_suffix_chars(&cs, maxb);
    proof {
        lemma_suffix_fit(s@, maxb as nat);
        lemma_utf8_len_is_encoding_len(r@);
        if utf8_len(s@) <= maxb {
            assert(s@.skip(0) =~= s@);
        }
    }
    string_from_chars(&r)
}

/// `l` without one trailing carriage return.
pub open spec fn strip_cr(l: Seq<char>) -> Seq<char> {
    if l.len() > 0 && l.last() == '\r' {
        l.drop_last()
    } else {
        l
    }
}

/// The lines of `s` as `str::lines` yields them: split at `\n`, a line
/// ended by `\n` loses one `\r` before it, and a final empty piece (after a
/// last `\n`, or of the empty string) is no line.
pub open spec fn spec_lines(s: Seq<char>) -> Seq<Seq<char>> {
    let ps = split_on(s, '\n');
    let ended = ps.drop_last().map_values(|l: Seq<char>| strip_cr(l));
    if ps.last().len() == 0 {
        ended
    } else {
        ended.push(ps.last())
    }
}

/// The lines `ls` joined with `\n` between them.
pub open spec fn spec_join_lines(ls: Seq<Seq<char>>) -> Seq<char>
    decreases ls.len(),
{
    if ls.len() == 0 {
        Seq::empty()
    } else if ls.len() == 1 {
        ls[0]
    } else {
        spec_join_lines(ls.drop_last()) + seq!['\n'] + ls.last()
    }
}

/// The decimal digits.
pub open spec fn decimal_digits() -> Seq<char> {
    seq!['0', '1', '2', '3', '4', '5', '6', '7', '8', '9']
}

/// The decimal rendering of `n`, without leading zeros.
pub open spec fn spec_decimal(n: nat) -> Seq<char>
    decreases n,
{
    if n < 10 {
        seq![decimal_digits()[n as int]]
    } else {
        spec_decimal(n / 10).push(decimal_digits()[(n % 10) as int])
    }
}

fn decimal_digit(d: usize) -> (c: char)
    requires
        d < 10,
    ensures
        c == decimal_digits()[d as int],
{
    match d {
        0 => '0',
        1 => '1',
        2 => '2',
        3 => '3',
        4 => '4',
        5 => '5',
        6 => '6',
        7 => '7',
        8 => '8',
        _ => '9',
    }
}

/// The decimal rendering of `n`.
pub fn decimal_chars(n: usize) -> (r: Vec<char>)
    ensures
        r@ == spec_decimal(n as nat),
    decreases n,
{
    if n < 10 {
        let mut r: Vec<char> = Vec::new();
        r.push(decimal_digit(n));
        assert(r@ =~= spec_decimal(n as nat));
        r
    } else {
        let mut r = decimal_chars(n / 10);
        r.push(decimal_digit(n % 10));
        r
    }
}

/// Appends the characters of `s` to `v`.
pub fn push_str_chars(v: &mut Vec<char>, s: &str)
    ensures
        final(v)@ == old(v)@ + s@,
{
    let cs = chars_of(s);
    let mut i: usize = 0;
    while i < cs.len()
        invariant
            i <= cs@.len(),
            cs@ == s@,
            v@ == old(v)@ + cs@.take(i as int),
        decreases cs@.len() - i,
    {
        v.push(cs[i]);
        i = i + 1;
        assert(v@ =~= old(v)@ + cs@.take(i as int));
    }
    assert(cs@.take(cs@.len() as int) =~= cs@);
}

/// Appends the characters of `s` to `v`.
pub fn push_chars(v: &mut Vec<char>, s: &Vec<char>)
    ensures
        final(v)@ == old(v)@ + s@,
{
    let mut i: usize = 0;
    while i < s.len()
        invariant
            i <= s@.len(),
            v@ == old(v)@ + s@.take(i as int),
        decreases s@.len() - i,
    {
        v.push(s[i]);
        i = i + 1;
        assert(v@ =~= old(v)@ + s@.take(i as int));
    }
    assert(s@.take(s@.len() as int) =~= s@);
}

/// The byte length of `cs`, or `cap` where it is larger.
pub fn utf8_len_capped(cs: &Vec<char>, cap: usize) -> (r: usize)
    requires
        cap <= usize::MAX - 4,
    ensures
        r == if utf8_len(cs@) <= cap {
            utf8_len(cs@)
        } else {
            cap as nat
        },
{
    let mut total: usize = 0;
    let mut i: usize = 0;
    assert(cs@.take(0) =~= Seq::<char>::empty());
    while i < cs.len()
        invariant
            i <= cs@.len(),
            cap <= usize::MAX - 4,
            total <= cap,
            total == utf8_len(cs@.take(i as int)),
        decreases cs@.len() - i,
    {
        let w = char_len_utf8(cs[i]);
        proof {
            let t = cs@.take(i as int + 1);
            assert(t.drop_last() =~= cs@.take(i as int));
            lemma_utf8_len_drop_last(t);
        }
        if total + w > cap {
            proof {
                assert(cs@ =~= cs@.take(i as int + 1) + cs@.skip(i as int + 1));
                lemma_utf8_len_concat(cs@.take(i as int + 1), cs@.skip(i as int + 1));
            }
            return cap;
        }
        total = total + w;
        i = i + 1;
    }
    assert(cs@.take(cs@.len() as int) =~= cs@);
    total
}

/// The lines of `cs` (see `spec_lines`).
pub fn split_lines(cs: &Vec<char>) -> (r: Vec<Vec<char>>)
    ensures
        chars_list_view(r@) == spec_lines(cs@),
{
    let pieces = split_chars(cs, '\n');
    let ghost ps = split_on(cs@, '\n');
    proof {
        crate::path::lemma_split_on_nonempty(cs@, '\n');
    }
    let n = pieces.len();
    let mut r: Vec<Vec<char>> = Vec::new();
    let mut i: usize = 0;
    while i + 1 < n
        invariant
            n == pieces@.len(),
            n >= 1,
            chars_list_view(pieces@) == ps,
            i + 1 <= n,
            chars_list_view(r@) == ps.take(i as int).map_values(|l: Seq<char>| strip_cr(l)),
        decreases n - i,
    {
        let mut line = pieces[i].clone();
        assert(line@ == ps[i as int]);
        if line.len() > 0 && line[line.len() - 1] == '\r' {
            line.pop();
        }
        let ghost before = chars_list_view(r@);
        r.push(line);
        proof {
            assert(chars_list_view(r@) =~= before.push(strip_cr(ps[i as int])));
            assert(ps.take(i as int + 1).map_values(|l: Seq<char>| strip_cr(l)) =~= ps.take(
                i as int,
            ).map_values(|l: Seq<char>| strip_cr(l)).push(strip_cr(ps[i as int])));
        }
        i = i + 1;
    }
    assert(ps.take(n - 1) =~= ps.drop_last());
    let last = pieces[n - 1].clone();
    assert(last@ == ps.last());
    if last.len() > 0 {
        let ghost before = chars_list_view(r@);
        r.push(last);
        assert(chars_list_view(r@) =~= before.push(ps.last()));
    }
    r
}

/// The lines `ls[from..to]` joined with `\n` between them.
pub fn join_lines(ls: &Vec<Vec<char>>, from: usize, to: usize) -> (r: Vec<char>)
    requires
        from <= to <= ls@.len(),
    ensures
        r@ == spec_join_lines(chars_list_view(ls@).subrange(from as int, to as int)),
{
    let ghost all = chars_list_view(ls@);
    let mut r: Vec<char> = Vec::new();
    let mut i: usize = from;
    assert(all.subrange(from as int, from as int) =~= Seq::<Seq<char>>::empty());
    while i < to
        invariant
            from <= i <= to <= ls@.len(),
            all == chars_list_view(ls@),
            r@ == spec_join_lines(all.subrange(from as int, i as int)),
        decreases to - i,
    {
        let ghost sub = all.subrange(from as int, i as int + 1);
        assert(sub.drop_last() =~= all.subrange(from as int, i as int));
        assert(sub.last() == ls@[i as int]@);
        if i > from {
            r.push('\n');
            push_chars(&mut r, &ls[i]);
        } else {
            push_chars(&mut r, &ls[i]);
            assert(r@ =~= sub[0]);
        }
        i = i + 1;
    }
    r
}

/// A character takes at most four bytes.
pub proof fn lemma_utf8_len_at_most_four_per_char(s: Seq<char>)
    ensures
        utf8_len(s) <= 4 * s.len(),
    decreases s.len(),
{
    if s.len() > 0 {
        lemma_utf8_len_at_most_four_per_char(s.drop_first());
    }
}

/// Ten to the power `k`.
pub open spec fn pow10(k: nat) -> nat
    decreases k,
{
    if k == 0 {
        1
    } else {
        10 * pow10((k - 1) as nat)
    }
}

/// A number below `10^k` has at most `k` decimal digits.
pub proof fn lemma_decimal_len(n: nat, k: nat)
    requires
        k >= 1,
        n < pow10(k),
    ensures
        spec_decimal(n).len() <= k,
    decreases n,
{
    if n >= 10 {
        if k == 1 {
            assert(pow10(1) == 10 * pow10(0));
        } else {
            let b = pow10((k - 1) as nat);
            assert(pow10(k) == 10 * b);
            assert(n / 10 < b) by (nonlinear_arith)
                requires
                    n < 10 * b,
            ;
            lemma_decimal_len(n / 10, (k - 1) as nat);
        }
    }
}

/// The greedy suffix keeps at least every suffix that fits the budget.
pub proof fn lemma_suffix_fit_at_least(s: Seq<char>, m: nat, k: nat)
    requires
        k <= s.len(),
        utf8_len(s.skip(s.len() - k)) <= m,
    ensures
        suffix_fit(s, m) >= k,
    decreases k,
{
    if k > 0 {
        let t = s.skip(s.len() - k);
        lemma_utf8_len_drop_last(t);
        assert(t.last() == s.last());
        let w = char_width(s.last());
        let rest = s.drop_last();
        assert(rest.skip(rest.len() - (k - 1)) =~= t.drop_last());
        lemma_suffix_fit_at_least(rest, (m - w) as nat, (k - 1) as nat);
    }
}

/// Lines joined with `\n` end with the last line.
pub proof fn lemma_join_lines_ends_with_last(ls: Seq<Seq<char>>)
    requires
        ls.len() >= 1,
    ensures
        spec_join_lines(ls).len() >= ls.last().len(),
        spec_join_lines(ls).skip(spec_join_lines(ls).len() - ls.last().len()) == ls.last(),
{
    let j = spec_join_lines(ls);
    if ls.len() == 1 {
        assert(j.skip(0) =~= j);
    } else {
        assert(j.skip(j.len() - ls.last().len()) =~= ls.last());
    }
}

} // verus!
