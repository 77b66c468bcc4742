//! Character-level helpers shared by the path, CSS and HTML modules.
//!
//! Strings are handled as sequences of `char`: the specifications speak of
//! `Seq<char>` (the view of `str` and `String`), the code of `Vec<char>`.
use vstd::prelude::*;

verus! {

/// `p` is a prefix of `s`.
pub open spec fn starts_with(s: Seq<char>, p: Seq<char>) -> bool {
    p.len() <= s.len() && s.subrange(0, p.len() as int) == p
}

/// `p` is a suffix of `s`.
pub open spec fn ends_with(s: Seq<char>, p: Seq<char>) -> bool {
    p.len() <= s.len() && s.subrange(s.len() - p.len(), s.len() as int) == p
}

/// Index of the first `c` in `s`, or `s.len()` when `c` does not occur.
pub open spec fn first_pos(s: Seq<char>, c: char) -> int
    decreases s.len(),
{
    if s.len() == 0 {
        0
    } else if s[0] == c {
        0
    } else {
        1 + first_pos(s.drop_first(), c)
    }
}

/// Index of the last `c` in `s`, or `-1` when `c` does not occur.
pub open spec fn last_pos(s: Seq<char>, c: char) -> int
    decreases s.len(),
{
    if s.len() == 0 {
        -1
    } else if s.last() == c {
        s.len() - 1
    } else {
        last_pos(s.drop_last(), c)
    }
}

pub proof fn lemma_first_pos(s: Seq<char>, c: char)
    ensures
        0 <= first_pos(s, c) <= s.len(),
        first_pos(s, c) < s.len() ==> s[first_pos(s, c)] == c,
        forall|j: int| 0 <= j < first_pos(s, c) ==> s[j] != c,
    decreases s.len(),
{
    if s.len() > 0 && s[0] != c {
        lemma_first_pos(s.drop_first(), c);
        assert forall|j: int| 0 <= j < first_pos(s, c) implies s[j] != c by {
            if j > 0 {
                assert(s[j] == s.drop_first()[j - 1]);
            }
        }
    }
}

pub proof fn lemma_last_pos(s: Seq<char>, c: char)
    ensures
        -1 <= last_pos(s, c) < s.len(),
        last_pos(s, c) >= 0 ==> s[last_pos(s, c)] == c,
        forall|j: int| last_pos(s, c) < j < s.len() ==> s[j] != c,
    decreases s.len(),
{
    if s.len() > 0 && s.last() != c {
        lemma_last_pos(s.drop_last(), c);
        assert forall|j: int| last_pos(s, c) < j < s.len() implies s[j] != c by {
            if j < s.len() - 1 {
                assert(s[j] == s.drop_last()[j]);
            }
        }
    }
}

/// A position `i` that holds the first `c` (or is the end, when there is
/// none) is `first_pos`.
pub proof fn lemma_first_pos_unique(s: Seq<char>, c: char, i: int)
    requires
        0 <= i <= s.len(),
        i < s.len() ==> s[i] == c,
        forall|j: int| 0 <= j < i ==> s[j] != c,
    ensures
        first_pos(s, c) == i,
{
    lemma_first_pos(s, c);
}

pub proof fn lemma_last_pos_unique(s: Seq<char>, c: char, i: int)
    requires
        -1 <= i < s.len(),
        i >= 0 ==> s[i] == c,
        forall|j: int| i < j < s.len() ==> s[j] != c,
    ensures
        last_pos(s, c) == i,
{
    lemma_last_pos(s, c);
}

/// The characters of `s`, in order.
pub fn chars_of(s: &str) -> (v: Vec<char>)
    ensures
        v@ == s@,
{
    let mut v: Vec<char> = Vec::new();
    for c in it: s.chars()
        invariant
            v@ == it.seq().take(it.index() as int),
    {
        v.push(c);
    }
    v
}

/// Appends one character to a `String` (`String::push`).
#[verifier::external_body]
fn push_char(s: &mut String, c: char)
    ensures
        final(s)@ == old(s)@.push(c),
{
    s.push(c);
}

/// The string made of the characters of `cs`, in order.
pub fn string_from_chars(cs: &[char]) -> (s: String)
    ensures
        s@ == cs@,
{
    let mut s = String::new();
    let mut i: usize = 0;
    while i < cs.len()
        invariant
            i <= cs@.len(),
            s@ == cs@.take(i as int),
        decreases cs@.len() - i,
    {
        push_char(&mut s, cs[i]);
        assert(cs@.take(i as int).push(cs@[i as int]) =~= cs@.take(i + 1));
        i = i + 1;
    }
    assert(cs@.take(cs@.len() as int) =~= cs@);
    s
}

/// The characters `cs[from..to]` as a new vector.
pub fn slice_chars(cs: &[char], from: usize, to: usize) -> (v: Vec<char>)
    requires
        from <= to <= cs@.len(),
    ensures
        v@ == cs@.subrange(from as int, to as int),
{
    let mut v: Vec<char> = Vec::new();
    let mut i: usize = from;
    while i < to
        invariant
            from <= i <= to <= cs@.len(),
            v@ == cs@.subrange(from as int, i as int),
        decreases to - i,
    {
        v.push(cs[i]);
        assert(cs@.subrange(from as int, i as int).push(cs@[i as int]) =~= cs@.subrange(
            from as int,
            i + 1,
        ));
        i = i + 1;
    }
    v
}

/// Appends the characters of `src` to `dst`.
pub fn extend_chars(dst: &mut Vec<char>, src: &[char])
    ensures
        final(dst)@ == old(dst)@ + src@,
{
    let ghost start = dst@;
    let mut i: usize = 0;
    while i < src.len()
        invariant
            i <= src@.len(),
            dst@ == start + src@.take(i as int),
        decreases src@.len() - i,
    {
        dst.push(src[i]);
        assert(start + src@.take(i as int).push(src@[i as int]) =~= start + src@.take(i + 1));
        i = i + 1;
    }
    assert(src@.take(src@.len() as int) =~= src@);
}

/// The characters of a string literal (or any `str`) as a vector.
pub fn lit(p: &str) -> (v: Vec<char>)
    ensures
        v@ == p@,
{
    chars_of(p)
}

/// `cs[at..]` starts with `p`.
pub fn has_prefix_at(cs: &[char], at: usize, p: &[char]) -> (b: bool)
    requires
        at <= cs@.len(),
    ensures
        b == starts_with(cs@.subrange(at as int, cs@.len() as int), p@),
{
    if p.len() > cs.len() - at {
        return false;
    }
    let mut i: usize = 0;
    while i < p.len()
        invariant
            i <= p@.len(),
            at + p@.len() <= cs@.len(),
            cs@.len() == cs.len(),
            forall|j: int| 0 <= j < i ==> cs@[at + j] == p@[j],
        decreases p@.len() - i,
    {
        if cs[at + i] != p[i] {
            assert(cs@.subrange(at as int, cs@.len() as int).subrange(0, p@.len() as int)[i as int]
                != p@[i as int]);
            return false;
        }
        i = i + 1;
    }
    assert(cs@.subrange(at as int, cs@.len() as int).subrange(0, p@.len() as int) =~= p@);
    true
}

/// `cs` starts with `p`.
pub fn has_prefix(cs: &[char], p: &str) -> (b: bool)
    ensures
        b == starts_with(cs@, p@),
{
    let pv = chars_of(p);
    let b = has_prefix_at(cs, 0, &pv);
    assert(cs@.subrange(0, cs@.len() as int) =~= cs@);
    b
}

/// `cs` ends with `p`.
pub fn has_suffix(cs: &[char], p: &str) -> (b: bool)
    ensures
        b == ends_with(cs@, p@),
{
    let pv = chars_of(p);
    if pv.len() > cs.len() {
        return false;
    }
    let at = cs.len() - pv.len();
    let b = has_prefix_at(cs, at, &pv);
    assert(cs@.subrange(at as int, cs@.len() as int).subrange(0, pv@.len() as int)
        =~= cs@.subrange(at as int, cs@.len() as int));
    b
}

/// `cs` equals `p`.
pub fn eq_str(cs: &[char], p: &str) -> (b: bool)
    ensures
        b == (cs@ == p@),
{
    let pv = chars_of(p);
    let b = cs.len() == pv.len() && has_prefix_at(cs, 0, &pv);
    if cs.len() == pv.len() {
        assert(cs@.subrange(0, cs@.len() as int) =~= cs@);
        assert(cs@.subrange(0, cs@.len() as int).subrange(0, pv@.len() as int) =~= cs@);
    }
    b
}

/// Two character sequences are equal.
pub fn eq_chars(a: &[char], b: &[char]) -> (r: bool)
    ensures
        r == (a@ == b@),
{
    if a.len() != b.len() {
        return false;
    }
    let r = has_prefix_at(a, 0, b);
    assert(a@.subrange(0, a@.len() as int) =~= a@);
    assert(a@.subrange(0, a@.len() as int).subrange(0, b@.len() as int) =~= a@);
    r
}

/// Index of the first `c` at or after `from`, or `cs.len()`.
pub fn find_char_from(cs: &[char], c: char, from: usize) -> (i: usize)
    requires
        from <= cs@.len(),
    ensures
        i == from + first_pos(cs@.subrange(from as int, cs@.len() as int), c),
        from <= i <= cs@.len(),
{
    let mut i = from;
    while i < cs.len() && cs[i] != c
        invariant
            from <= i <= cs@.len(),
            forall|j: int| from <= j < i ==> cs@[j] != c,
        decreases cs@.len() - i,
    {
        i = i + 1;
    }
    proof {
        let t = cs@.subrange(from as int, cs@.len() as int);
        assert forall|j: int| 0 <= j < i - from implies t[j] != c by {
            assert(t[j] == cs@[from + j]);
        }
        if i < cs@.len() {
            assert(t[i - from] == cs@[i as int]);
        }
        lemma_first_pos_unique(t, c, i - from);
    }
    i
}

/// Index of the first `c`, or `cs.len()`.
pub fn find_char(cs: &[char], c: char) -> (i: usize)
    ensures
        i == first_pos(cs@, c),
{
    let i = find_char_from(cs, c, 0);
    assert(cs@.subrange(0, cs@.len() as int) =~= cs@);
    i
}

/// Index of the last `c`, if any.
pub fn rfind_char(cs: &[char], c: char) -> (r: Option<usize>)
    ensures
        match r {
            Some(i) => i == last_pos(cs@, c),
            None => last_pos(cs@, c) == -1,
        },
{
    let mut i = cs.len();
    while i > 0
        invariant
            i <= cs@.len(),
            forall|j: int| i <= j < cs@.len() ==> cs@[j] != c,
        decreases i,
    {
        if cs[i - 1] == c {
            proof {
                lemma_last_pos_unique(cs@, c, i - 1);
            }
            return Some(i - 1);
        }
        i = i - 1;
    }
    proof {
        lemma_last_pos_unique(cs@, c, -1);
    }
    None
}

/// `p` occurs in `s` (as a contiguous run).
pub open spec fn contains_seq(s: Seq<char>, p: Seq<char>) -> bool {
    exists|i: int| 0 <= i && i + p.len() <= s.len() && #[trigger] s.subrange(i, i + p.len()) == p
}

/// Whether `p` occurs in `cs` (`str::contains`).
pub fn contains_chars(cs: &[char], p: &[char]) -> (b: bool)
    ensures
        b == contains_seq(cs@, p@),
{
    if p.len() > cs.len() {
        return false;
    }
    let last = cs.len() - p.len();
    let mut i: usize = 0;
    while i <= last
        invariant
            last + p@.len() == cs@.len(),
            i <= last,
            forall|j: int| 0 <= j < i ==> #[trigger] cs@.subrange(j, j + p@.len()) != p@,
        decreases last - i,
    {
        assert(cs@.subrange(i as int, cs@.len() as int).subrange(0, p@.len() as int)
            =~= cs@.subrange(i as int, i + p@.len()));
        if has_prefix_at(cs, i, p) {
            return true;
        }
        if i == last {
            assert forall|j: int| 0 <= j && j + p@.len() <= cs@.len() implies #[trigger] cs@.subrange(
                j,
                j + p@.len(),
            ) != p@ by {}
            return false;
        }
        i = i + 1;
    }
    false
}

/// The first offset at or after `i` where `p` occurs in `s`.
pub open spec fn find_seq_from(s: Seq<char>, p: Seq<char>, i: int) -> Option<int>
    decreases s.len() + 1 - i,
{
    if i < 0 || i + p.len() > s.len() {
        None
    } else if s.subrange(i, i + p.len()) == p {
        Some(i)
    } else {
        find_seq_from(s, p, i + 1)
    }
}

pub proof fn lemma_find_seq_from(s: Seq<char>, p: Seq<char>, i: int)
    requires
        0 <= i,
    ensures
        match find_seq_from(s, p, i) {
            Some(j) => i <= j && j + p.len() <= s.len() && s.subrange(j, j + p.len()) == p,
            None => true,
        },
    decreases s.len() + 1 - i,
{
    if !(i < 0 || i + p.len() > s.len()) && s.subrange(i, i + p.len()) != p {
        lemma_find_seq_from(s, p, i + 1);
    }
}

/// The first offset at or after `from` where `p` occurs in `cs`.
pub fn find_chars_from(cs: &[char], p: &[char], from: usize) -> (r: Option<usize>)
    requires
        from <= cs@.len(),
    ensures
        r == (match find_seq_from(cs@, p@, from as int) {
            Some(j) => Some(j as usize),
            None => None::<usize>,
        }),
{
    if p.len() > cs.len() {
        return None;
    }
    let last = cs.len() - p.len();
    let mut i = from;
    while i <= last
        invariant
            from <= i,
            last + p@.len() == cs@.len(),
            find_seq_from(cs@, p@, from as int) == find_seq_from(cs@, p@, i as int),
        decreases last + 1 - i,
    {
        assert(cs@.subrange(i as int, cs@.len() as int).subrange(0, p@.len() as int)
            =~= cs@.subrange(i as int, i + p@.len()));
        if has_prefix_at(cs, i, p) {
            return Some(i);
        }
        if i == last {
            assert(find_seq_from(cs@, p@, i + 1) is None);
            return None;
        }
        i = i + 1;
    }
    None
}

/// The decimal digit for `d < 10`.
pub open spec fn digit_char(d: nat) -> char {
    (('0' as u32) + d) as char
}

/// `c` is an ASCII decimal digit.
pub open spec fn is_digit(c: char) -> bool {
    '0' <= c <= '9'
}

/// The value of an ASCII decimal digit.
pub open spec fn digit_value(c: char) -> nat {
    ((c as u32) - ('0' as u32)) as nat
}

/// The decimal representation of `n`, without leading zeros.
pub open spec fn decimal_spec(n: nat) -> Seq<char>
    decreases n,
{
    if n < 10 {
        seq![digit_char(n)]
    } else {
        decimal_spec(n / 10).push(digit_char(n % 10))
    }
}

/// The number written by the decimal digits `s`.
pub open spec fn digits_value(s: Seq<char>) -> nat
    decreases s.len(),
{
    if s.len() == 0 {
        0
    } else {
        digits_value(s.drop_last()) * 10 + digit_value(s.last())
    }
}

/// All characters of `s` are decimal digits.
pub open spec fn all_digits(s: Seq<char>) -> bool {
    forall|i: int| 0 <= i < s.len() ==> is_digit(#[trigger] s[i])
}

pub proof fn lemma_decimal_digits(n: nat)
    ensures
        decimal_spec(n).len() >= 1,
        all_digits(decimal_spec(n)),
        digits_value(decimal_spec(n)) == n,
    decreases n,
{
    assert(digit_value(digit_char(n % 10)) == n % 10);
    if n < 10 {
        let d = seq![digit_char(n)];
        assert(d.drop_last() =~= Seq::<char>::empty());
        assert(n % 10 == n);
        assert(digits_value(d) == digits_value(d.drop_last()) * 10 + digit_value(d.last()));
        assert(digits_value(d) == n);
        assert(is_digit(d[0]));
    }
    if n >= 10 {
        lemma_decimal_digits(n / 10);
        let d = decimal_spec(n);
        assert(d.drop_last() =~= decimal_spec(n / 10));
        assert(d.last() == digit_char(n % 10));
        assert(digits_value(d) == digits_value(d.drop_last()) * 10 + digit_value(d.last()));
        assert((n / 10) * 10 + n % 10 == n);
        assert forall|i: int| 0 <= i < d.len() implies is_digit(#[trigger] d[i]) by {
            if i < d.len() - 1 {
                assert(d[i] == decimal_spec(n / 10)[i]);
            }
        }
    }
}

/// The decimal digits of `n`.
pub fn decimal_chars(n: u64) -> (v: Vec<char>)
    ensures
        v@ == decimal_spec(n as nat),
    decreases n,
{
    if n < 10 {
        let mut v: Vec<char> = Vec::new();
        v.push(((n as u8) + 48) as char);
        assert(v@ =~= seq![digit_char(n as nat)]);
        v
    } else {
        let mut v = decimal_chars(n / 10);
        v.push((((n % 10) as u8) + 48) as char);
        v
    }
}

/// The decimal digits of `n`.
pub fn decimal_chars_wide(n: u128) -> (v: Vec<char>)
    ensures
        v@ == decimal_spec(n as nat),
    decreases n,
{
    if n < 10 {
        let mut v: Vec<char> = Vec::new();
        v.push(((n as u8) + 48) as char);
        assert(v@ =~= seq![digit_char(n as nat)]);
        v
    } else {
        let mut v = decimal_chars_wide(n / 10);
        v.push((((n % 10) as u8) + 48) as char);
        v
    }
}

/// The value of the digits `cs[from..to]`, or `None` when it exceeds `u32`.
pub fn parse_u32_digits(cs: &[char], from: usize, to: usize) -> (r: Option<u32>)
    requires
        from <= to <= cs@.len(),
        all_digits(cs@.subrange(from as int, to as int)),
    ensures
        match r {
            Some(v) => v == digits_value(cs@.subrange(from as int, to as int)),
            None => digits_value(cs@.subrange(from as int, to as int)) > u32::MAX,
        },
{
    let mut acc: u64 = 0;
    let mut i = from;
    while i < to
        invariant
            from <= i <= to <= cs@.len(),
            all_digits(cs@.subrange(from as int, to as int)),
            acc == digits_value(cs@.subrange(from as int, i as int)),
            acc <= u32::MAX,
        decreases to - i,
    {
        let c = cs[i];
        assert(cs@.subrange(from as int, i + 1).drop_last() =~= cs@.subrange(from as int, i as int));
        assert(c == cs@.subrange(from as int, to as int)[i - from]);
        let d = ((c as u32) - 48) as u64;
        let next = acc * 10 + d;
        if next > 4294967295 {
            proof {
                lemma_digits_value_monotone(cs@.subrange(from as int, to as int), i + 1 - from);
                assert(cs@.subrange(from as int, to as int).take(i + 1 - from) =~= cs@.subrange(
                    from as int,
                    i + 1,
                ));
            }
            return None;
        }
        acc = next;
        i = i + 1;
    }
    Some(acc as u32)
}

/// What `str::parse::<u64>` accepts: an optional `+`, then one or more
/// ASCII digits whose value fits in 64 bits.
pub open spec fn u64_text_value(s: Seq<char>) -> Option<u64> {
    let d = if s.len() > 0 && s[0] == '+' {
        s.skip(1)
    } else {
        s
    };
    if d.len() > 0 && all_digits(d) && digits_value(d) <= u64::MAX {
        Some(digits_value(d) as u64)
    } else {
        None
    }
}

/// Parses a decimal `u64` as `str::parse` does (see [`u64_text_value`]).
pub fn parse_u64_text(cs: &[char]) -> (r: Option<u64>)
    ensures
        r == u64_text_value(cs@),
{
    let from: usize = if cs.len() > 0 && cs[0] == '+' {
        1
    } else {
        0
    };
    let ghost d = cs@.subrange(from as int, cs@.len() as int);
    proof {
        if cs@.len() > 0 && cs@[0] == '+' {
            assert(d =~= cs@.skip(1));
        } else {
            assert(d =~= cs@);
        }
    }
    if from == cs.len() {
        return None;
    }
    let mut acc: u128 = 0;
    let mut i = from;
    while i < cs.len()
        invariant
            from <= i <= cs@.len(),
            from < cs@.len(),
            d == cs@.subrange(from as int, cs@.len() as int),
            d == (if cs@.len() > 0 && cs@[0] == '+' {
                cs@.skip(1)
            } else {
                cs@
            }),
            all_digits(cs@.subrange(from as int, i as int)),
            acc == digits_value(cs@.subrange(from as int, i as int)),
            acc <= u64::MAX,
        decreases cs@.len() - i,
    {
        let c = cs[i];
        assert(cs@.subrange(from as int, i + 1).drop_last() =~= cs@.subrange(from as int, i as int));
        if !('0' <= c && c <= '9') {
            proof {
                assert(d[i - from] == c);
                assert(!is_digit(d[i - from]));
            }
            return None;
        }
        let dv = ((c as u32) - 48) as u128;
        let next = acc * 10 + dv;
        if next > 18446744073709551615 {
            proof {
                let whole = d;
                assert(cs@.subrange(from as int, i + 1).last() == c);
                assert(digits_value(cs@.subrange(from as int, i + 1)) == next);
                if all_digits(whole) {
                    lemma_digits_value_monotone(whole, i + 1 - from);
                    assert(whole.take(i + 1 - from) =~= cs@.subrange(from as int, i + 1));
                }
            }
            return None;
        }
        acc = next;
        i = i + 1;
    }
    assert(cs@.subrange(from as int, i as int) =~= d);
    Some(acc as u64)
}

/// A longer run of digits is worth at least as much as its prefix.
pub proof fn lemma_digits_value_monotone(s: Seq<char>, k: int)
    requires
        0 <= k <= s.len(),
        all_digits(s),
    ensures
        digits_value(s.take(k)) <= digits_value(s),
    decreases s.len() - k,
{
    if k < s.len() {
        lemma_digits_value_monotone(s, k + 1);
        assert(s.take(k + 1).drop_last() =~= s.take(k));
        assert(s.take(k + 1).last() == s[k]);
        assert(digits_value(s.take(k)) <= digits_value(s.take(k + 1))) by (nonlinear_arith)
            requires
                digits_value(s.take(k + 1)) == digits_value(s.take(k)) * 10 + digit_value(s[k]),
        ;
    } else {
        assert(s.take(k) =~= s);
    }
}

/// `c` has the Unicode `White_Space` property (what `char::is_whitespace`
/// and `str::trim` go by).
pub open spec fn is_unicode_space(c: char) -> bool {
    let u = c as u32;
    ||| 0x9 <= u <= 0xd
    ||| u == 0x20
    ||| u == 0x85
    ||| u == 0xa0
    ||| u == 0x1680
    ||| 0x2000 <= u <= 0x200a
    ||| u == 0x2028
    ||| u == 0x2029
    ||| u == 0x202f
    ||| u == 0x205f
    ||| u == 0x3000
}

/// `s` without leading white space.
pub open spec fn trim_start_spec(s: Seq<char>) -> Seq<char>
    decreases s.len(),
{
    if s.len() > 0 && is_unicode_space(s[0]) {
        trim_start_spec(s.drop_first())
    } else {
        s
    }
}

/// `s` without trailing white space.
pub open spec fn trim_end_spec(s: Seq<char>) -> Seq<char>
    decreases s.len(),
{
    if s.len() > 0 && is_unicode_space(s.last()) {
        trim_end_spec(s.drop_last())
    } else {
        s
    }
}

/// `s` without leading and trailing white space (`str::trim`).
pub open spec fn trim_spec(s: Seq<char>) -> Seq<char> {
    trim_end_spec(trim_start_spec(s))
}

pub fn is_unicode_space_exec(c: char) -> (b: bool)
    ensures
        b == is_unicode_space(c),
{
    let u = c as u32;
    (0x9 <= u && u <= 0xd) || u == 0x20 || u == 0x85 || u == 0xa0 || u == 0x1680 || (0x2000 <= u
        && u <= 0x200a) || u == 0x2028 || u == 0x2029 || u == 0x202f || u == 0x205f || u == 0x3000
}

/// Number of leading white-space characters of `cs[from..to]`.
pub fn trim_start_index(cs: &[char], from: usize, to: usize) -> (i: usize)
    requires
        from <= to <= cs@.len(),
    ensures
        from <= i <= to,
        trim_start_spec(cs@.subrange(from as int, to as int)) == cs@.subrange(i as int, to as int),
{
    let mut i = from;
    while i < to && is_unicode_space_exec(cs[i])
        invariant
            from <= i <= to <= cs@.len(),
            trim_start_spec(cs@.subrange(from as int, to as int)) == trim_start_spec(
                cs@.subrange(i as int, to as int),
            ),
        decreases to - i,
    {
        assert(cs@.subrange(i as int, to as int).drop_first() =~= cs@.subrange(i + 1, to as int));
        i = i + 1;
    }
    i
}

/// End of `cs[from..to]` once trailing white space is dropped.
pub fn trim_end_index(cs: &[char], from: usize, to: usize) -> (j: usize)
    requires
        from <= to <= cs@.len(),
    ensures
        from <= j <= to,
        trim_end_spec(cs@.subrange(from as int, to as int)) == cs@.subrange(from as int, j as int),
{
    let mut j = to;
    while j > from && is_unicode_space_exec(cs[j - 1])
        invariant
            from <= j <= to <= cs@.len(),
            trim_end_spec(cs@.subrange(from as int, to as int)) == trim_end_spec(
                cs@.subrange(from as int, j as int),
            ),
        decreases j - from,
    {
        assert(cs@.subrange(from as int, j as int).drop_last() =~= cs@.subrange(from as int, j - 1));
        j = j - 1;
    }
    j
}

/// Bounds of `cs[from..to]` trimmed of white space at both ends.
pub fn trim_bounds(cs: &[char], from: usize, to: usize) -> (r: (usize, usize))
    requires
        from <= to <= cs@.len(),
    ensures
        from <= r.0 <= r.1 <= to,
        trim_spec(cs@.subrange(from as int, to as int)) == cs@.subrange(r.0 as int, r.1 as int),
{
    let a = trim_start_index(cs, from, to);
    let b = trim_end_index(cs, a, to);
    (a, b)
}

/// `s` trimmed of white space at both ends (`str::trim`).
pub fn trim_chars(cs: &[char]) -> (v: Vec<char>)
    ensures
        v@ == trim_spec(cs@),
{
    let (a, b) = trim_bounds(cs, 0, cs.len());
    assert(cs@.subrange(0, cs@.len() as int) =~= cs@);
    slice_chars(cs, a, b)
}

// ── Case mapping ─────────────────────────────────────────────────────────────

/// What `str::to_lowercase` gives for `s` (Unicode lower-case mapping).
pub uninterp spec fn lowercased(s: Seq<char>) -> Seq<char>;

/// `str::to_lowercase`.  The contract names its result: it depends on the
/// string alone (the mapping is Unicode's, not a locale's).
#[verifier::external_body]
pub(crate) fn to_lowercase(s: &str) -> (r: String)
    ensures
        r@ == lowercased(s@),
{
    s.to_lowercase()
}

// ── White-space separated tokens ────────────────────────────────────────────

/// The maximal runs of non-white-space characters of `s`, in order
/// (`str::split_whitespace`).
pub open spec fn ws_tokens(s: Seq<char>) -> Seq<Seq<char>>
    decreases s.len(),
{
    if s.len() == 0 {
        Seq::empty()
    } else {
        let prev = ws_tokens(s.drop_last());
        let c = s.last();
        if is_unicode_space(c) {
            prev
        } else if s.len() >= 2 && !is_unicode_space(s[s.len() - 2]) {
            prev.update(prev.len() - 1, prev.last().push(c))
        } else {
            prev.push(seq![c])
        }
    }
}

proof fn lemma_ws_tokens_nonempty(s: Seq<char>)
    requires
        s.len() > 0,
        !is_unicode_space(s.last()),
    ensures
        ws_tokens(s).len() > 0,
    decreases s.len(),
{
    if s.len() >= 2 && !is_unicode_space(s[s.len() - 2]) {
        assert(s.drop_last().last() == s[s.len() - 2]);
        lemma_ws_tokens_nonempty(s.drop_last());
    }
}

/// The white-space separated tokens of `s` (see [`ws_tokens`]).
pub fn split_whitespace_chars(s: &[char]) -> (r: Vec<Vec<char>>)
    ensures
        r@.map_values(|t: Vec<char>| t@) == ws_tokens(s@),
{
    let mut out: Vec<Vec<char>> = Vec::new();
    let mut i: usize = 0;
    assert(s@.take(0) =~= Seq::<char>::empty());
    assert(out@.map_values(|t: Vec<char>| t@) =~= Seq::<Seq<char>>::empty());
    while i < s.len()
        invariant
            i <= s@.len(),
            out@.map_values(|t: Vec<char>| t@) == ws_tokens(s@.take(i as int)),
        decreases s@.len() - i,
    {
        let c = s[i];
        let ghost prev = out@.map_values(|t: Vec<char>| t@);
        proof {
            assert(s@.take(i + 1).drop_last() =~= s@.take(i as int));
            assert(s@.take(i + 1).last() == c);
        }
        if is_unicode_space_exec(c) {
        } else if i >= 1 && !is_unicode_space_exec(s[i - 1]) {
            proof {
                assert(s@.take(i as int).last() == s@[i - 1]);
                lemma_ws_tokens_nonempty(s@.take(i as int));
                assert(s@.take(i + 1)[i - 1] == s@[i - 1]);
            }
            let mut last = out.pop().unwrap();
            last.push(c);
            out.push(last);
            assert(out@.map_values(|t: Vec<char>| t@) =~= prev.update(prev.len() - 1, prev.last().push(c)));
        } else {
            proof {
                if i >= 1 {
                    assert(s@.take(i + 1)[i - 1] == s@[i - 1]);
                }
            }
            let mut t: Vec<char> = Vec::new();
            t.push(c);
            out.push(t);
            assert(out@.map_values(|t: Vec<char>| t@) =~= prev.push(seq![c]));
        }
        i = i + 1;
    }
    assert(s@.take(i as int) =~= s@);
    out
}

/// What `str::parse::<u32>` accepts (see [`u64_text_value`]).
pub open spec fn u32_text_value(s: Seq<char>) -> Option<u32> {
    match u64_text_value(s) {
        Some(v) => if v <= u32::MAX {
            Some(v as u32)
        } else {
            None
        },
        None => None,
    }
}

/// Parses a decimal `u32` as `str::parse` does.
pub fn parse_u32_text(cs: &[char]) -> (r: Option<u32>)
    ensures
        r == u32_text_value(cs@),
{
    match parse_u64_text(cs) {
        Some(v) => if v <= 4294967295 {
            Some(v as u32)
        } else {
            None
        },
        None => None,
    }
}

} // verus!
