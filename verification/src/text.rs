//! Byte-level text helpers for the line-oriented wire protocol: whitespace
//! skipping, line finding, ASCII case mapping, trimming, and decimal numerals.
use vstd::prelude::*;

verus! {

use vstd::string::StrSliceExecFns;

pub const NL: u8 = 10;
pub const CR: u8 = 13;
pub const SP: u8 = 32;
pub const TAB: u8 = 9;
pub const COLON: u8 = 58;

/// Space or tab: the separators accepted inside a line.
pub open spec fn is_space(b: u8) -> bool {
    b == SP || b == TAB
}

/// Any ASCII whitespace byte this protocol skips or trims.
pub open spec fn is_wsb(b: u8) -> bool {
    b == SP || b == TAB || b == CR || b == NL
}

pub open spec fn is_digit(b: u8) -> bool {
    48 <= b <= 57
}

pub open spec fn is_lower_alpha(b: u8) -> bool {
    97 <= b <= 122
}

pub open spec fn is_upper_alpha(b: u8) -> bool {
    65 <= b <= 90
}

pub open spec fn upper_byte(b: u8) -> u8 {
    if is_lower_alpha(b) {
        (b - 32) as u8
    } else {
        b
    }
}

pub open spec fn lower_byte(b: u8) -> u8 {
    if is_upper_alpha(b) {
        (b + 32) as u8
    } else {
        b
    }
}

/// Uppercase image of a byte sequence.
pub open spec fn upper(s: Seq<u8>) -> Seq<u8> {
    s.map_values(|b: u8| upper_byte(b))
}

/// Lowercase image of a byte sequence.
pub open spec fn lower(s: Seq<u8>) -> Seq<u8> {
    s.map_values(|b: u8| lower_byte(b))
}

/// The bytes of an ASCII character sequence, one byte per character.
pub open spec fn bytes_of(s: Seq<char>) -> Seq<u8> {
    s.map_values(|c: char| c as u8)
}

/// Length of the longest prefix of `s` whose bytes all satisfy `p`.
pub open spec fn count_leading(s: Seq<u8>, p: spec_fn(u8) -> bool) -> int
    decreases s.len(),
{
    if s.len() == 0 {
        0
    } else if p(s[0]) {
        1 + count_leading(s.drop_first(), p)
    } else {
        0
    }
}

/// Length of the longest suffix of `s` whose bytes all satisfy `p`.
pub open spec fn count_trailing(s: Seq<u8>, p: spec_fn(u8) -> bool) -> int
    decreases s.len(),
{
    if s.len() == 0 {
        0
    } else if p(s.last()) {
        1 + count_trailing(s.drop_last(), p)
    } else {
        0
    }
}

/// Index of the first occurrence of `b` in `s`, or -1 when absent.
pub open spec fn find_byte(s: Seq<u8>, b: u8) -> int
    decreases s.len(),
{
    if s.len() == 0 {
        -1
    } else if s[0] == b {
        0
    } else {
        let r = find_byte(s.drop_first(), b);
        if r < 0 {
            -1
        } else {
            1 + r
        }
    }
}

pub open spec fn trim_start(s: Seq<u8>) -> Seq<u8> {
    s.skip(count_leading(s, |b: u8| is_wsb(b)))
}

pub open spec fn trim_end(s: Seq<u8>) -> Seq<u8> {
    s.take(s.len() - count_trailing(s, |b: u8| is_wsb(b)))
}

pub open spec fn trim(s: Seq<u8>) -> Seq<u8> {
    trim_end(trim_start(s))
}

pub open spec fn all_digits(s: Seq<u8>) -> bool {
    forall|i: int| 0 <= i < s.len() ==> is_digit(#[trigger] s[i])
}

/// Value of a string of decimal digits, most significant first.
pub open spec fn dec_val(s: Seq<u8>) -> nat
    decreases s.len(),
{
    if s.len() == 0 {
        0
    } else {
        dec_val(s.drop_last()) * 10 + (if s.last() >= 48 {
            (s.last() - 48) as nat
        } else {
            0
        })
    }
}

/// Canonical decimal numeral of `n`: no leading zeros, at least one digit.
pub open spec fn dec_repr(n: nat) -> Seq<u8>
    decreases n,
{
    if n < 10 {
        seq![(48 + n) as u8]
    } else {
        dec_repr(n / 10).push((48 + n % 10) as u8)
    }
}

// ------------------------------------------------------------------
// Characterization lemmas
// ------------------------------------------------------------------
pub proof fn lemma_count_leading(s: Seq<u8>, p: spec_fn(u8) -> bool)
    ensures
        0 <= count_leading(s, p) <= s.len(),
        forall|j: int| 0 <= j < count_leading(s, p) ==> p(#[trigger] s[j]),
        count_leading(s, p) < s.len() ==> !p(s[count_leading(s, p)]),
    decreases s.len(),
{
    if s.len() > 0 && p(s[0]) {
        lemma_count_leading(s.drop_first(), p);
        assert forall|j: int| 0 <= j < count_leading(s, p) implies p(#[trigger] s[j]) by {
            if j > 0 {
                assert(s.drop_first()[j - 1] == s[j]);
            }
        }
        if count_leading(s, p) < s.len() {
            assert(s.drop_first()[count_leading(s, p) - 1] == s[count_leading(s, p)]);
        }
    }
}

pub proof fn lemma_count_trailing(s: Seq<u8>, p: spec_fn(u8) -> bool)
    ensures
        0 <= count_trailing(s, p) <= s.len(),
        forall|j: int| s.len() - count_trailing(s, p) <= j < s.len() ==> p(#[trigger] s[j]),
        count_trailing(s, p) < s.len() ==> !p(s[s.len() - count_trailing(s, p) - 1]),
    decreases s.len(),
{
    if s.len() > 0 && p(s.last()) {
        lemma_count_trailing(s.drop_last(), p);
        assert forall|j: int| s.len() - count_trailing(s, p) <= j < s.len() implies p(
            #[trigger] s[j],
        ) by {
            if j < s.len() - 1 {
                assert(s.drop_last()[j] == s[j]);
            }
        }
        if count_trailing(s, p) < s.len() {
            assert(s.drop_last()[s.len() - count_trailing(s, p) - 1] == s[s.len() - count_trailing(
                s,
                p,
            ) - 1]);
        }
    }
}

/// A prefix of bytes all satisfying `p`, stopped by a byte that does not
/// (or by the end), is the longest such prefix.
pub proof fn lemma_count_leading_from(s: Seq<u8>, p: spec_fn(u8) -> bool, k: int)
    requires
        0 <= k <= s.len(),
        forall|j: int| 0 <= j < k ==> p(#[trigger] s[j]),
        k < s.len() ==> !p(s[k]),
    ensures
        count_leading(s, p) == k,
{
    lemma_count_leading(s, p);
}

pub proof fn lemma_find_byte(s: Seq<u8>, b: u8)
    ensures
        find_byte(s, b) == -1 ==> forall|j: int| 0 <= j < s.len() ==> s[j] != b,
        find_byte(s, b) != -1 ==> 0 <= find_byte(s, b) < s.len() && s[find_byte(s, b)] == b
            && forall|j: int| 0 <= j < find_byte(s, b) ==> s[j] != b,
    decreases s.len(),
{
    if s.len() > 0 && s[0] != b {
        lemma_find_byte(s.drop_first(), b);
        if find_byte(s, b) == -1 {
            assert forall|j: int| 0 <= j < s.len() implies s[j] != b by {
                if j > 0 {
                    assert(s[j] == s.drop_first()[j - 1]);
                }
            }
        } else {
            let k = find_byte(s, b);
            assert(s[k] == s.drop_first()[k - 1]);
            assert forall|j: int| 0 <= j < k implies s[j] != b by {
                if j > 0 {
                    assert(s[j] == s.drop_first()[j - 1]);
                }
            }
        }
    }
}

/// A position holding `b`, with no `b` before it, is where `b` is first found.
pub proof fn lemma_find_byte_at(s: Seq<u8>, b: u8, k: int)
    requires
        0 <= k < s.len(),
        s[k] == b,
        forall|j: int| 0 <= j < k ==> s[j] != b,
    ensures
        find_byte(s, b) == k,
{
    lemma_find_byte(s, b);
    if find_byte(s, b) == -1 {
        assert(false);
    } else if find_byte(s, b) < k {
        assert(false);
    } else if find_byte(s, b) > k {
        assert(false);
    }
}

/// When every byte of `s` satisfies `p` and `t` opens with one that does not,
/// the longest `p`-prefix of `s + t` is exactly `s`.
pub proof fn lemma_count_leading_append(s: Seq<u8>, t: Seq<u8>, p: spec_fn(u8) -> bool)
    requires
        forall|j: int| 0 <= j < s.len() ==> p(#[trigger] s[j]),
        t.len() > 0 ==> !p(t[0]),
    ensures
        count_leading(s + t, p) == s.len(),
{
    let u = s + t;
    assert forall|j: int| 0 <= j < s.len() implies p(#[trigger] u[j]) by {
        assert(u[j] == s[j]);
    }
    if s.len() < u.len() {
        assert(u[s.len() as int] == t[0]);
    }
    lemma_count_leading_from(u, p, s.len() as int);
}

/// A sequence whose ends hold no whitespace is already trimmed.
pub proof fn lemma_trim_fixed(s: Seq<u8>)
    requires
        s.len() > 0 ==> !is_wsb(s[0]) && !is_wsb(s.last()),
    ensures
        trim_start(s) == s,
        trim_end(s) == s,
        trim(s) == s,
{
    if s.len() == 0 {
        assert(trim_start(s) =~= s);
        assert(trim_end(s) =~= s);
        assert(trim_end(trim_start(s)) =~= s);
    } else {
        lemma_count_leading_from(s, |b: u8| is_wsb(b), 0);
        assert(trim_start(s) =~= s);
        lemma_count_trailing(s, |b: u8| is_wsb(b));
        if count_trailing(s, |b: u8| is_wsb(b)) > 0 {
            assert(is_wsb(s.last()));
        }
        assert(trim_end(s) =~= s);
    }
}

/// Trimming a trimmed value after one leading separator gives it back.
pub proof fn lemma_trim_after_space(pad: Seq<u8>, s: Seq<u8>)
    requires
        forall|j: int| 0 <= j < pad.len() ==> is_wsb(#[trigger] pad[j]),
        s.len() > 0 ==> !is_wsb(s[0]) && !is_wsb(s.last()),
    ensures
        trim(pad + s) == s,
{
    let u = pad + s;
    if s.len() == 0 {
        assert forall|j: int| 0 <= j < u.len() implies is_wsb(#[trigger] u[j]) by {
            assert(u[j] == pad[j]);
        }
        lemma_count_leading_from(u, |b: u8| is_wsb(b), u.len() as int);
        assert(trim_start(u) =~= Seq::<u8>::empty());
        lemma_trim_fixed(Seq::<u8>::empty());
        assert(trim(u) =~= s);
    } else {
        assert forall|j: int| 0 <= j < pad.len() implies is_wsb(#[trigger] u[j]) by {
            assert(u[j] == pad[j]);
        }
        assert(u[pad.len() as int] == s[0]);
        lemma_count_leading_from(u, |b: u8| is_wsb(b), pad.len() as int);
        assert(trim_start(u) =~= s);
        lemma_trim_fixed(s);
    }
}

/// What a trim returns is trimmed: empty or bounded by non-whitespace.
pub proof fn lemma_trim_result(s: Seq<u8>)
    ensures
        trim(s).len() > 0 ==> !is_wsb(trim(s)[0]) && !is_wsb(trim(s).last()),
        trim(s).len() <= s.len(),
{
    let p = |b: u8| is_wsb(b);
    lemma_count_leading(s, p);
    let t = trim_start(s);
    lemma_count_trailing(t, p);
    let r = trim_end(t);
    if r.len() > 0 {
        assert(r[0] == t[0]);
        assert(r.last() == t[t.len() - count_trailing(t, p) - 1]);
    }
}

pub proof fn lemma_dec_repr(n: nat)
    ensures
        dec_repr(n).len() >= 1,
        all_digits(dec_repr(n)),
        dec_val(dec_repr(n)) == n,
        dec_repr(n)[0] != 48 || n < 10,
    decreases n,
{
    if n < 10 {
        assert(dec_repr(n) =~= seq![(48 + n) as u8]);
        assert(dec_repr(n).drop_last() =~= Seq::<u8>::empty());
        assert(dec_repr(n).last() == (48 + n) as u8);
        assert(dec_val(dec_repr(n)) == dec_val(Seq::<u8>::empty()) * 10 + n);
    } else {
        lemma_dec_repr(n / 10);
        let d = dec_repr(n / 10);
        let r = d.push((48 + n % 10) as u8);
        assert(r.drop_last() =~= d);
        assert(r.last() == (48 + n % 10) as u8);
        assert(dec_val(r) == dec_val(d) * 10 + n % 10);
        assert(dec_val(r) == (n / 10) * 10 + n % 10);
        assert forall|i: int| 0 <= i < r.len() implies is_digit(#[trigger] r[i]) by {
            if i < d.len() {
                assert(r[i] == d[i]);
            }
        }
        assert(r[0] == d[0]);
    }
}

// ------------------------------------------------------------------
// Executable helpers
// ------------------------------------------------------------------
/// Turn an ASCII string slice into its byte vector.
pub fn ascii_bytes(s: &str) -> (v: Vec<u8>)
    requires
        s.is_ascii(),
    ensures
        v@ == bytes_of(s@),
{
    proof {
        vstd::string::is_ascii_spec_bytes(s);
    }
    let v = s.as_bytes_vec();
    assert(v@ =~= bytes_of(s@));
    v
}

/// Byte-for-byte equality of two vectors.
pub fn bytes_eq(a: &Vec<u8>, b: &Vec<u8>) -> (r: bool)
    ensures
        r == (a@ == b@),
{
    if a.len() != b.len() {
        assert(a@ != b@);
        return false;
    }
    let mut i: usize = 0;
    while i < a.len()
        invariant
            0 <= i <= a.len(),
            a.len() == b.len(),
            forall|j: int| 0 <= j < i ==> a@[j] == b@[j],
        decreases a.len() - i,
    {
        if a[i] != b[i] {
            return false;
        }
        i = i + 1;
    }
    assert(a@ =~= b@);
    true
}

/// Copy of `v[from..to]`.
pub fn subvec(v: &Vec<u8>, from: usize, to: usize) -> (r: Vec<u8>)
    requires
        from <= to <= v.len(),
    ensures
        r@ == v@.subrange(from as int, to as int),
{
    let mut r: Vec<u8> = Vec::new();
    let mut i: usize = from;
    while i < to
        invariant
            from <= i <= to <= v.len(),
            r@ =~= v@.subrange(from as int, i as int),
        decreases to - i,
    {
        r.push(v[i]);
        assert(r@ =~= v@.subrange(from as int, i + 1));
        i = i + 1;
    }
    r
}

pub fn is_wsb_exec(b: u8) -> (r: bool)
    ensures
        r == is_wsb(b),
{
    b == SP || b == TAB || b == CR || b == NL
}

pub fn upper_vec(v: &Vec<u8>) -> (r: Vec<u8>)
    ensures
        r@ == upper(v@),
{
    let mut r: Vec<u8> = Vec::new();
    let mut i: usize = 0;
    while i < v.len()
        invariant
            0 <= i <= v.len(),
            r@ =~= upper(v@).take(i as int),
        decreases v.len() - i,
    {
        let b = v[i];
        if 97 <= b && b <= 122 {
            r.push(b - 32);
        } else {
            r.push(b);
        }
        assert(r@ =~= upper(v@).take(i + 1));
        i = i + 1;
    }
    assert(r@ =~= upper(v@));
    r
}

pub fn lower_vec(v: &Vec<u8>) -> (r: Vec<u8>)
    ensures
        r@ == lower(v@),
{
    let mut r: Vec<u8> = Vec::new();
    let mut i: usize = 0;
    while i < v.len()
        invariant
            0 <= i <= v.len(),
            r@ =~= lower(v@).take(i as int),
        decreases v.len() - i,
    {
        let b = v[i];
        if 65 <= b && b <= 90 {
            r.push(b + 32);
        } else {
            r.push(b);
        }
        assert(r@ =~= lower(v@).take(i + 1));
        i = i + 1;
    }
    assert(r@ =~= lower(v@));
    r
}

/// First index at or after `pos` holding byte `b`, if any.
pub fn find_byte_from(v: &Vec<u8>, pos: usize, b: u8) -> (r: Option<usize>)
    requires
        pos <= v.len(),
    ensures
        match r {
            Some(k) => pos <= k < v.len() && find_byte(v@.skip(pos as int), b) == k - pos,
            None => find_byte(v@.skip(pos as int), b) == -1,
        },
{
    let ghost s = v@.skip(pos as int);
    let mut i: usize = pos;
    while i < v.len()
        invariant
            pos <= i <= v.len(),
            s == v@.skip(pos as int),
            forall|j: int| 0 <= j < i - pos ==> s[j] != b,
        decreases v.len() - i,
    {
        if v[i] == b {
            proof {
                assert(s[i - pos] == v@[i as int]);
                lemma_find_byte_at(s, b, i - pos);
            }
            return Some(i);
        }
        assert(s[i - pos] == v@[i as int]);
        i = i + 1;
    }
    proof {
        lemma_find_byte(s, b);
    }
    None
}

/// Count of consecutive whitespace bytes starting at `pos`.
pub fn skip_ws(v: &Vec<u8>, pos: usize) -> (r: usize)
    requires
        pos <= v.len(),
    ensures
        pos <= r <= v.len(),
        count_leading(v@.skip(pos as int), |b: u8| is_wsb(b)) == r - pos,
{
    let ghost s = v@.skip(pos as int);
    let mut i: usize = pos;
    while i < v.len() && is_wsb_exec(v[i])
        invariant
            pos <= i <= v.len(),
            s == v@.skip(pos as int),
            forall|j: int| 0 <= j < i - pos ==> is_wsb(#[trigger] s[j]),
        decreases v.len() - i,
    {
        assert(s[i - pos] == v@[i as int]);
        i = i + 1;
    }
    proof {
        if i < v.len() {
            assert(s[i - pos] == v@[i as int]);
        }
        lemma_count_leading_from(s, |b: u8| is_wsb(b), i - pos);
    }
    i
}

/// Count of consecutive space or tab bytes starting at `pos`.
pub fn skip_spaces(v: &Vec<u8>, pos: usize) -> (r: usize)
    requires
        pos <= v.len(),
    ensures
        pos <= r <= v.len(),
        count_leading(v@.skip(pos as int), |b: u8| is_space(b)) == r - pos,
{
    let ghost s = v@.skip(pos as int);
    let mut i: usize = pos;
    while i < v.len() && (v[i] == SP || v[i] == TAB)
        invariant
            pos <= i <= v.len(),
            s == v@.skip(pos as int),
            forall|j: int| 0 <= j < i - pos ==> is_space(#[trigger] s[j]),
        decreases v.len() - i,
    {
        assert(s[i - pos] == v@[i as int]);
        i = i + 1;
    }
    proof {
        if i < v.len() {
            assert(s[i - pos] == v@[i as int]);
        }
        lemma_count_leading_from(s, |b: u8| is_space(b), i - pos);
    }
    i
}

/// The trimmed copy of `v[from..to]`.
pub fn trim_range(v: &Vec<u8>, from: usize, to: usize) -> (r: Vec<u8>)
    requires
        from <= to <= v.len(),
    ensures
        r@ == trim(v@.subrange(from as int, to as int)),
{
    let ghost s = v@.subrange(from as int, to as int);
    let mut a: usize = from;
    while a < to && is_wsb_exec(v[a])
        invariant
            from <= a <= to <= v.len(),
            s == v@.subrange(from as int, to as int),
            forall|j: int| 0 <= j < a - from ==> is_wsb(#[trigger] s[j]),
        decreases to - a,
    {
        assert(s[a - from] == v@[a as int]);
        a = a + 1;
    }
    proof {
        if a < to {
            assert(s[a - from] == v@[a as int]);
        }
        lemma_count_leading_from(s, |b: u8| is_wsb(b), a - from);
        assert(trim_start(s) =~= v@.subrange(a as int, to as int));
    }
    let ghost t = v@.subrange(a as int, to as int);
    let mut z: usize = to;
    while z > a && is_wsb_exec(v[z - 1])
        invariant
            a <= z <= to <= v.len(),
            t == v@.subrange(a as int, to as int),
            forall|j: int| z - a <= j < t.len() ==> is_wsb(#[trigger] t[j]),
        decreases z,
    {
        assert(t[z - 1 - a] == v@[z - 1]);
        z = z - 1;
    }
    proof {
        lemma_count_trailing(t, |b: u8| is_wsb(b));
        let ct = count_trailing(t, |b: u8| is_wsb(b));
        if z > a {
            assert(t[z - 1 - a] == v@[z - 1]);
            assert(!is_wsb(t[z - 1 - a]));
            if ct > t.len() - (z - a) {
                assert(is_wsb(t[z - 1 - a]));
            }
        }
        assert(ct == t.len() - (z - a));
        assert(trim_end(t) =~= v@.subrange(a as int, z as int));
    }
    subvec(v, a, z)
}

/// Parse a non-negative decimal number: the longest digit prefix at `pos`.
/// Returns the value and the first index past the digits; `None` when no
/// digit stands at `pos` or the value does not fit in `u32`.
pub fn parse_u32(v: &Vec<u8>, pos: usize) -> (r: Option<(u32, usize)>)
    requires
        pos <= v.len(),
    ensures
        match r {
            Some((n, end)) => {
                let s = v@.skip(pos as int);
                let d = count_leading(s, |b: u8| is_digit(b));
                pos < end <= v.len() && d == end - pos && dec_val(s.take(d)) == n && n <= u32::MAX
            },
            None => {
                let s = v@.skip(pos as int);
                let d = count_leading(s, |b: u8| is_digit(b));
                d == 0 || dec_val(s.take(d)) > u32::MAX
            },
        },
{
    let ghost s = v@.skip(pos as int);
    let ghost pd = |b: u8| is_digit(b);
    if pos >= v.len() || v[pos] < 48 || v[pos] > 57 {
        proof {
            if s.len() > 0 {
                assert(s[0] == v@[pos as int]);
            }
            lemma_count_leading_from(s, pd, 0);
        }
        return None;
    }
    let mut i: usize = pos;
    let mut acc: u32 = 0;
    let mut overflow: bool = false;
    while i < v.len() && v[i] >= 48 && v[i] <= 57
        invariant
            pos <= i <= v.len(),
            s == v@.skip(pos as int),
            forall|j: int| 0 <= j < i - pos ==> is_digit(#[trigger] s[j]),
            !overflow ==> acc == dec_val(s.take(i - pos)),
            overflow ==> dec_val(s.take(i - pos)) > u32::MAX,
        decreases v.len() - i,
    {
        let d = v[i] - 48;
        proof {
            assert(s[i - pos] == v@[i as int]);
            assert(s.take(i - pos + 1).drop_last() =~= s.take(i - pos));
            assert(dec_val(s.take(i - pos + 1)) == dec_val(s.take(i - pos)) * 10 + d);
        }
        if !overflow {
            if acc > 429496729 || (acc == 429496729 && d > 5) {
                overflow = true;
            } else {
                acc = acc * 10 + (d as u32);
            }
        } else {
            proof {
                assert(dec_val(s.take(i - pos + 1)) >= dec_val(s.take(i - pos)) * 10);
            }
        }
        i = i + 1;
    }
    proof {
        if i < v.len() {
            assert(s[i - pos] == v@[i as int]);
        }
        lemma_count_leading_from(s, pd, i - pos);
    }
    if overflow {
        None
    } else {
        Some((acc, i))
    }
}

/// Append the canonical decimal numeral of `n` to `out`.
pub fn push_dec(n: u32, out: &mut Vec<u8>)
    ensures
        final(out)@ == old(out)@ + dec_repr(n as nat),
    decreases n,
{
    if n < 10 {
        out.push(48 + (n as u8));
        assert(out@ =~= old(out)@ + dec_repr(n as nat));
    } else {
        push_dec(n / 10, out);
        out.push(48 + ((n % 10) as u8));
        assert(out@ =~= old(out)@ + dec_repr(n as nat));
    }
}

} // verus!
