//! Small verified text helpers: character classes, decimal numbers,
//! and locating a separator. They carry the textual side of address
//! and balancer-configuration parsing.

use vstd::prelude::*;

verus! {

/// An ASCII decimal digit.
pub open spec fn spec_is_digit(c: char) -> bool {
    '0' <= c && c <= '9'
}

/// Numeric value of a digit character.
pub open spec fn spec_digit_val(c: char) -> int
    recommends
        spec_is_digit(c),
{
    c as int - '0' as int
}

/// Every character of `s` is a decimal digit.
pub open spec fn spec_all_digits(s: Seq<char>) -> bool {
    forall|i: int| 0 <= i < s.len() ==> spec_is_digit(#[trigger] s[i])
}

/// Value of a digit string read most-significant first.
pub open spec fn spec_dec_value(s: Seq<char>) -> int
    decreases s.len(),
{
    if s.len() == 0 {
        0
    } else {
        spec_dec_value(s.drop_last()) * 10 + spec_digit_val(s.last())
    }
}

/// A strict decimal number as the standard library parses one for an
/// address component: non-empty, digits only, no redundant leading
/// zero, and at most `max`.
pub open spec fn spec_parse_decimal(s: Seq<char>, max: int) -> Option<int> {
    if s.len() == 0 || !spec_all_digits(s) {
        None
    } else if s.len() > 1 && s[0] == '0' {
        None
    } else if spec_dec_value(s) > max {
        None
    } else {
        Some(spec_dec_value(s))
    }
}

/// The value of a digit string is at least the value of any of its
/// prefixes.
pub proof fn lemma_dec_value_prefix_le(s: Seq<char>, i: int)
    requires
        0 <= i <= s.len(),
        spec_all_digits(s),
    ensures
        spec_dec_value(s.take(i)) <= spec_dec_value(s),
        spec_dec_value(s) >= 0,
    decreases s.len() - i,
{
    if i == s.len() {
        assert(s.take(i) =~= s);
        lemma_dec_value_nonnegative(s);
    } else {
        assert(s.take(i + 1).drop_last() =~= s.take(i));
        assert(s.take(i + 1).last() == s[i]);
        lemma_dec_value_nonnegative(s.take(i));
        lemma_dec_value_prefix_le(s, i + 1);
    }
}

pub proof fn lemma_dec_value_nonnegative(s: Seq<char>)
    requires
        spec_all_digits(s),
    ensures
        spec_dec_value(s) >= 0,
    decreases s.len(),
{
    if s.len() > 0 {
        assert(spec_all_digits(s.drop_last()));
        lemma_dec_value_nonnegative(s.drop_last());
    }
}

/// Decimal parse as [`spec_parse_decimal`] describes it.
pub fn parse_decimal(s: &str, max: u64) -> (r: Option<u64>)
    ensures
        match r {
            Some(v) => spec_parse_decimal(s@, max as int) == Some(v as int),
            None => spec_parse_decimal(s@, max as int) is None,
        },
{
    let n = s.unicode_len();
    if n == 0 {
        return None;
    }
    if n > 1 && s.get_char(0) == '0' {
        return None;
    }
    let mut acc: u64 = 0;
    let mut i: usize = 0;
    while i < n
        invariant
            0 <= i <= n,
            n == s@.len(),
            spec_all_digits(s@.take(i as int)),
            acc == spec_dec_value(s@.take(i as int)),
            acc <= max,
        decreases n - i,
    {
        let c = s.get_char(i);
        let u = c as u32;
        if u < 48 || u > 57 {
            assert(!spec_is_digit(s@[i as int]));
            return None;
        }
        let d: u64 = (u - 48) as u64;
        assert(spec_is_digit(s@[i as int]) && spec_digit_val(s@[i as int]) == d);
        assert(s@.take(i + 1).drop_last() =~= s@.take(i as int));
        assert(s@.take(i + 1).last() == s@[i as int]);
        if acc > max / 10 || (acc == max / 10 && d > max % 10) {
            proof {
                assert(acc * 10 + d > max) by (nonlinear_arith)
                    requires
                        acc > max / 10 || (acc == max / 10 && d > max % 10),
                        acc >= 0,
                        max >= 0,
                        d >= 0,
                ;
                lemma_dec_value_prefix_le_any(s@, i + 1);
            }
            return None;
        }
        assert(acc * 10 + d <= max) by (nonlinear_arith)
            requires
                acc <= max / 10,
                acc <= max,
                !(acc > max / 10 || (acc == max / 10 && d > max % 10)),
                d <= 9,
                acc >= 0,
                max >= 0,
        ;
        acc = acc * 10 + d;
        i = i + 1;
    }
    assert(s@.take(n as int) =~= s@);
    Some(acc)
}

/// If some prefix of `s` already exceeds `max` (or `s` has a
/// non-digit), the whole string does not parse within `max`.
proof fn lemma_dec_value_prefix_le_any(s: Seq<char>, i: int)
    requires
        0 <= i <= s.len(),
        spec_all_digits(s.take(i)),
    ensures
        spec_all_digits(s) ==> spec_dec_value(s.take(i)) <= spec_dec_value(s),
{
    if spec_all_digits(s) {
        lemma_dec_value_prefix_le(s, i);
    }
}

/// Index of the first `c` in `s`, if any.
pub open spec fn spec_find(s: Seq<char>, c: char) -> Option<int>
    decreases s.len(),
{
    if s.len() == 0 {
        None
    } else if s[0] == c {
        Some(0)
    } else {
        match spec_find(s.drop_first(), c) {
            None => None,
            Some(i) => Some(i + 1),
        }
    }
}

/// What [`spec_find`] returns: the least index holding `c`.
pub proof fn lemma_find_characterization(s: Seq<char>, c: char)
    ensures
        match spec_find(s, c) {
            Some(i) => 0 <= i < s.len() && s[i] == c && forall|j: int|
                0 <= j < i ==> s[j] != c,
            None => forall|j: int| 0 <= j < s.len() ==> s[j] != c,
        },
    decreases s.len(),
{
    if s.len() > 0 && s[0] != c {
        let t = s.drop_first();
        lemma_find_characterization(t, c);
        match spec_find(t, c) {
            Some(i) => {
                assert(s[i + 1] == t[i]);
                assert forall|j: int| 0 <= j < i + 1 implies s[j] != c by {
                    if j > 0 {
                        assert(t[j - 1] == s[j]);
                        assert(t[j - 1] != c);
                    }
                }
            },
            None => {
                assert forall|j: int| 0 <= j < s.len() implies s[j] != c by {
                    if j > 0 {
                        assert(t[j - 1] == s[j]);
                        assert(t[j - 1] != c);
                    }
                }
            },
        }
    }
}

/// The first index holding `c` pins [`spec_find`] down.
pub proof fn lemma_find_unique(s: Seq<char>, c: char, i: int)
    requires
        0 <= i < s.len(),
        s[i] == c,
        forall|j: int| 0 <= j < i ==> s[j] != c,
    ensures
        spec_find(s, c) == Some(i),
{
    lemma_find_characterization(s, c);
    match spec_find(s, c) {
        Some(k) => {
            if k < i {
                assert(s[k] == c);
            } else if k > i {
                assert(s[i] != c);
            }
        },
        None => {
            assert(s[i] != c);
        },
    }
}

/// First occurrence of `c` in `s`, as [`spec_find`] defines it.
pub fn find_char(s: &str, c: char) -> (r: Option<usize>)
    ensures
        match r {
            Some(i) => i < s@.len() && s@[i as int] == c && spec_find(s@, c) == Some(i as int),
            None => spec_find(s@, c) is None,
        },
{
    let n = s.unicode_len();
    let mut i: usize = 0;
    while i < n
        invariant
            0 <= i <= n,
            n == s@.len(),
            forall|j: int| 0 <= j < i ==> s@[j] != c,
        decreases n - i,
    {
        if s.get_char(i) == c {
            proof {
                lemma_find_unique(s@, c, i as int);
            }
            return Some(i);
        }
        i = i + 1;
    }
    proof {
        lemma_find_characterization(s@, c);
        if spec_find(s@, c) is Some {
            let k = spec_find(s@, c)->0;
            assert(s@[k] != c);
        }
    }
    None
}


/// A lax decimal number as the weight list uses it: non-empty,
/// digits only (redundant leading zeros allowed), at most `max`.
pub open spec fn spec_parse_decimal_lax(s: Seq<char>, max: int) -> Option<int> {
    if s.len() == 0 || !spec_all_digits(s) {
        None
    } else if spec_dec_value(s) > max {
        None
    } else {
        Some(spec_dec_value(s))
    }
}

/// Lax decimal parse; see [`spec_parse_decimal_lax`].
pub fn parse_decimal_lax(s: &str, max: u64) -> (r: Option<u64>)
    ensures
        match r {
            Some(v) => spec_parse_decimal_lax(s@, max as int) == Some(v as int),
            None => spec_parse_decimal_lax(s@, max as int) is None,
        },
{
    let n = s.unicode_len();
    if n == 0 {
        return None;
    }
    let mut acc: u64 = 0;
    let mut i: usize = 0;
    while i < n
        invariant
            0 <= i <= n,
            n == s@.len(),
            spec_all_digits(s@.take(i as int)),
            acc == spec_dec_value(s@.take(i as int)),
            acc <= max,
        decreases n - i,
    {
        let c = s.get_char(i);
        let u = c as u32;
        if u < 48 || u > 57 {
            assert(!spec_is_digit(s@[i as int]));
            return None;
        }
        let d: u64 = (u - 48) as u64;
        assert(spec_is_digit(s@[i as int]) && spec_digit_val(s@[i as int]) == d);
        assert(s@.take(i + 1).drop_last() =~= s@.take(i as int));
        assert(s@.take(i + 1).last() == s@[i as int]);
        if acc > max / 10 || (acc == max / 10 && d > max % 10) {
            proof {
                assert(acc * 10 + d > max) by (nonlinear_arith)
                    requires
                        acc > max / 10 || (acc == max / 10 && d > max % 10),
                        acc >= 0,
                        max >= 0,
                        d >= 0,
                ;
                lemma_dec_value_prefix_le_any(s@, i + 1);
            }
            return None;
        }
        assert(acc * 10 + d <= max) by (nonlinear_arith)
            requires
                acc <= max / 10,
                acc <= max,
                !(acc > max / 10 || (acc == max / 10 && d > max % 10)),
                d <= 9,
                acc >= 0,
                max >= 0,
        ;
        acc = acc * 10 + d;
        i = i + 1;
    }
    assert(s@.take(n as int) =~= s@);
    Some(acc)
}

/// A whitespace character, for trimming configuration fields.
pub open spec fn spec_is_space(c: char) -> bool {
    c == ' ' || c == '\t' || c == '\n' || c == '\r'
}

/// `s` without leading whitespace.
pub open spec fn spec_trim_start(s: Seq<char>) -> Seq<char>
    decreases s.len(),
{
    if s.len() > 0 && spec_is_space(s[0]) {
        spec_trim_start(s.drop_first())
    } else {
        s
    }
}

/// `s` without trailing whitespace.
pub open spec fn spec_trim_end(s: Seq<char>) -> Seq<char>
    decreases s.len(),
{
    if s.len() > 0 && spec_is_space(s.last()) {
        spec_trim_end(s.drop_last())
    } else {
        s
    }
}

/// `s` without leading and trailing whitespace.
pub open spec fn spec_trim(s: Seq<char>) -> Seq<char> {
    spec_trim_end(spec_trim_start(s))
}

/// Dropping `k` all-whitespace head characters is what
/// [`spec_trim_start`] does, as long as the character after them (if
/// any) is not whitespace.
proof fn lemma_trim_start_skip(s: Seq<char>, k: int)
    requires
        0 <= k <= s.len(),
        forall|j: int| 0 <= j < k ==> spec_is_space(#[trigger] s[j]),
        k < s.len() ==> !spec_is_space(s[k]),
    ensures
        spec_trim_start(s) == s.skip(k),
    decreases k,
{
    if k == 0 {
        assert(s.skip(0) =~= s);
    } else {
        let t = s.drop_first();
        assert(spec_is_space(s[0]));
        assert forall|j: int| 0 <= j < k - 1 implies spec_is_space(#[trigger] t[j]) by {
            assert(t[j] == s[j + 1]);
        }
        if k - 1 < t.len() {
            assert(t[k - 1] == s[k]);
        }
        lemma_trim_start_skip(t, k - 1);
        assert(t.skip(k - 1) =~= s.skip(k));
    }
}

/// Keeping the first `k` characters is what [`spec_trim_end`] does,
/// as long as everything after them is whitespace and the `k`-th
/// from the front (if any) is not.
proof fn lemma_trim_end_take(s: Seq<char>, k: int)
    requires
        0 <= k <= s.len(),
        forall|j: int| k <= j < s.len() ==> spec_is_space(#[trigger] s[j]),
        k > 0 ==> !spec_is_space(s[k - 1]),
    ensures
        spec_trim_end(s) == s.take(k),
    decreases s.len() - k,
{
    if k == s.len() {
        assert(s.take(k) =~= s);
    } else {
        let t = s.drop_last();
        assert(spec_is_space(s.last()));
        lemma_trim_end_take(t, k);
        assert(t.take(k) =~= s.take(k));
    }
}

/// Trim whitespace from both ends, as [`spec_trim`] describes.
pub fn trim<'a>(s: &'a str) -> (r: &'a str)
    ensures
        r@ == spec_trim(s@),
{
    let n = s.unicode_len();
    let mut b: usize = 0;
    while b < n
        invariant
            0 <= b <= n,
            n == s@.len(),
            forall|j: int| 0 <= j < b ==> spec_is_space(#[trigger] s@[j]),
        ensures
            0 <= b <= n,
            forall|j: int| 0 <= j < b ==> spec_is_space(#[trigger] s@[j]),
            b < n ==> !spec_is_space(s@[b as int]),
        decreases n - b,
    {
        let c = s.get_char(b);
        if !(c == ' ' || c == '\t' || c == '\n' || c == '\r') {
            break ;
        }
        b = b + 1;
    }
    proof {
        lemma_trim_start_skip(s@, b as int);
    }
    let mut e: usize = n;
    while e > b
        invariant
            b <= e <= n,
            n == s@.len(),
            forall|j: int| e <= j < n ==> spec_is_space(#[trigger] s@[j]),
        ensures
            b <= e <= n,
            forall|j: int| e <= j < n ==> spec_is_space(#[trigger] s@[j]),
            e > b ==> !spec_is_space(s@[e - 1]),
        decreases e,
    {
        let c = s.get_char(e - 1);
        if !(c == ' ' || c == '\t' || c == '\n' || c == '\r') {
            break ;
        }
        e = e - 1;
    }
    let r = s.substring_char(b, e);
    proof {
        let t = s@.skip(b as int);
        assert forall|j: int| (e - b) <= j < t.len() implies spec_is_space(#[trigger] t[j]) by {
            assert(t[j] == s@[j + b]);
        }
        if e > b {
            assert(t[e - b - 1] == s@[e - 1]);
        }
        lemma_trim_end_take(t, e - b);
        assert(t.take(e - b) =~= s@.subrange(b as int, e as int));
    }
    r
}


/// Index of the last `c` in `s`, if any.
pub open spec fn spec_rfind(s: Seq<char>, c: char) -> Option<int>
    decreases s.len(),
{
    if s.len() == 0 {
        None
    } else if s.last() == c {
        Some(s.len() - 1)
    } else {
        spec_rfind(s.drop_last(), c)
    }
}

/// What [`spec_rfind`] returns: the greatest index holding `c`.
pub proof fn lemma_rfind_characterization(s: Seq<char>, c: char)
    ensures
        match spec_rfind(s, c) {
            Some(i) => 0 <= i < s.len() && s[i] == c && forall|j: int|
                i < j < s.len() ==> s[j] != c,
            None => forall|j: int| 0 <= j < s.len() ==> s[j] != c,
        },
    decreases s.len(),
{
    if s.len() > 0 && s.last() != c {
        let t = s.drop_last();
        lemma_rfind_characterization(t, c);
        match spec_rfind(t, c) {
            Some(i) => {
                assert(s[i] == t[i]);
                assert forall|j: int| i < j < s.len() implies s[j] != c by {
                    if j < s.len() - 1 {
                        assert(t[j] == s[j]);
                    }
                }
            },
            None => {
                assert forall|j: int| 0 <= j < s.len() implies s[j] != c by {
                    if j < s.len() - 1 {
                        assert(t[j] == s[j]);
                    }
                }
            },
        }
    }
}

/// The last index holding `c` pins [`spec_rfind`] down.
pub proof fn lemma_rfind_unique(s: Seq<char>, c: char, i: int)
    requires
        0 <= i < s.len(),
        s[i] == c,
        forall|j: int| i < j < s.len() ==> s[j] != c,
    ensures
        spec_rfind(s, c) == Some(i),
{
    lemma_rfind_characterization(s, c);
    match spec_rfind(s, c) {
        Some(k) => {
            if k < i {
                assert(s[i] != c);
            } else if k > i {
                assert(s[k] != c);
            }
        },
        None => {
            assert(s[i] != c);
        },
    }
}

/// Last occurrence of `c` in `s`, as [`spec_rfind`] defines it.
pub fn rfind_char(s: &str, c: char) -> (r: Option<usize>)
    ensures
        match r {
            Some(i) => i < s@.len() && s@[i as int] == c && spec_rfind(s@, c) == Some(i as int),
            None => spec_rfind(s@, c) is None,
        },
{
    let n = s.unicode_len();
    let mut e: usize = n;
    while e > 0
        invariant
            0 <= e <= n,
            n == s@.len(),
            forall|j: int| e <= j < n ==> s@[j] != c,
        decreases e,
    {
        if s.get_char(e - 1) == c {
            proof {
                lemma_rfind_unique(s@, c, e - 1);
            }
            return Some(e - 1);
        }
        e = e - 1;
    }
    proof {
        lemma_rfind_characterization(s@, c);
        if spec_rfind(s@, c) is Some {
            let k = spec_rfind(s@, c)->0;
            assert(s@[k] != c);
        }
    }
    None
}


/// An ASCII hexadecimal digit.
pub open spec fn spec_is_hex_digit(c: char) -> bool {
    ('0' <= c && c <= '9') || ('a' <= c && c <= 'f') || ('A' <= c && c <= 'F')
}

/// Numeric value of a hexadecimal digit character.
pub open spec fn spec_hex_val(c: char) -> int
    recommends
        spec_is_hex_digit(c),
{
    if '0' <= c && c <= '9' {
        c as int - '0' as int
    } else if 'a' <= c && c <= 'f' {
        c as int - 'a' as int + 10
    } else {
        c as int - 'A' as int + 10
    }
}

/// Every character of `s` is a hexadecimal digit.
pub open spec fn spec_all_hex(s: Seq<char>) -> bool {
    forall|i: int| 0 <= i < s.len() ==> spec_is_hex_digit(#[trigger] s[i])
}

/// Value of a hex-digit string read most-significant first.
pub open spec fn spec_hex_value(s: Seq<char>) -> int
    decreases s.len(),
{
    if s.len() == 0 {
        0
    } else {
        spec_hex_value(s.drop_last()) * 16 + spec_hex_val(s.last())
    }
}

/// A hex string of at most four digits stays under sixteen bits.
pub proof fn lemma_hex_value_bound(s: Seq<char>)
    requires
        spec_all_hex(s),
        s.len() <= 4,
    ensures
        0 <= spec_hex_value(s) < 0x10000,
    decreases s.len(),
{
    lemma_hex_value_bound_general(s);
    lemma_pow16_le(s.len() as int, 4);
    assert(spec_pow16(0) == 1);
    assert(spec_pow16(1) == 16);
    assert(spec_pow16(2) == 256);
    assert(spec_pow16(3) == 4096);
    assert(spec_pow16(4) == 0x10000);
}

proof fn lemma_hex_value_bound_general(s: Seq<char>)
    requires
        spec_all_hex(s),
    ensures
        0 <= spec_hex_value(s) < spec_pow16(s.len() as int),
    decreases s.len(),
{
    if s.len() == 0 {
    } else {
        let t = s.drop_last();
        assert(spec_all_hex(t));
        lemma_hex_value_bound_general(t);
        assert(spec_hex_value(t) * 16 + spec_hex_val(s.last()) < spec_pow16(t.len() as int) * 16)
            by (nonlinear_arith)
            requires
                spec_hex_value(t) < spec_pow16(t.len() as int),
                spec_hex_value(t) >= 0,
                0 <= spec_hex_val(s.last()) < 16,
        ;
    }
}

/// Sixteen to the `n`.
pub open spec fn spec_pow16(n: int) -> int
    decreases n,
{
    if n <= 0 {
        1
    } else {
        16 * spec_pow16(n - 1)
    }
}

proof fn lemma_pow16_pos(n: int)
    ensures
        spec_pow16(n) >= 1,
    decreases n,
{
    if n > 0 {
        lemma_pow16_pos(n - 1);
    }
}

proof fn lemma_pow16_le(a: int, b: int)
    requires
        a <= b,
    ensures
        spec_pow16(a) <= spec_pow16(b),
        spec_pow16(a) >= 1,
    decreases b - a,
{
    lemma_pow16_pos(a);
    if a < b {
        lemma_pow16_le(a, b - 1);
        lemma_pow16_pos(b - 1);
        if b > 0 {
            assert(spec_pow16(b) == 16 * spec_pow16(b - 1));
        }
    }
}

/// One group of an IPv6 address: one to four hex digits.
pub open spec fn spec_parse_hex_group(s: Seq<char>) -> Option<int> {
    if 1 <= s.len() <= 4 && spec_all_hex(s) {
        Some(spec_hex_value(s))
    } else {
        None
    }
}

/// Parse one IPv6 group; see [`spec_parse_hex_group`].
pub fn parse_hex_group(s: &str) -> (r: Option<u16>)
    ensures
        match r {
            Some(v) => spec_parse_hex_group(s@) == Some(v as int),
            None => spec_parse_hex_group(s@) is None,
        },
{
    let n = s.unicode_len();
    if n == 0 || n > 4 {
        return None;
    }
    let mut acc: u32 = 0;
    let mut i: usize = 0;
    while i < n
        invariant
            0 <= i <= n,
            n == s@.len() <= 4,
            spec_all_hex(s@.take(i as int)),
            acc == spec_hex_value(s@.take(i as int)),
            acc < 0x10000,
        decreases n - i,
    {
        let c = s.get_char(i);
        let u = c as u32;
        let d: u32 = if u >= 48 && u <= 57 {
            u - 48
        } else if u >= 97 && u <= 102 {
            u - 97 + 10
        } else if u >= 65 && u <= 70 {
            u - 65 + 10
        } else {
            assert(!spec_is_hex_digit(s@[i as int]));
            return None;
        };
        assert(spec_is_hex_digit(s@[i as int]) && spec_hex_val(s@[i as int]) == d);
        assert(s@.take(i + 1).drop_last() =~= s@.take(i as int));
        assert(s@.take(i + 1).last() == s@[i as int]);
        proof {
            lemma_hex_value_bound(s@.take(i + 1));
        }
        acc = acc * 16 + d;
        i = i + 1;
    }
    assert(s@.take(n as int) =~= s@);
    Some(acc as u16)
}

} // verus!
