//! Small verified string helpers: equality, substring search, ASCII case
//! folding, and fixed-width decimal formatting and parsing. These are the
//! building blocks of the comment scanning and of the merge-marker wire
//! format.
use vstd::prelude::*;

verus! {

/// True when `needle` occurs in `hay` starting at offset `k`.
pub open spec fn matches_at(hay: Seq<char>, needle: Seq<char>, k: int) -> bool {
    0 <= k && k + needle.len() <= hay.len() && hay.subrange(k, k + needle.len()) == needle
}

/// True when `needle` occurs somewhere in `hay`.
pub open spec fn contains_seq(hay: Seq<char>, needle: Seq<char>) -> bool {
    exists|k: int| matches_at(hay, needle, k)
}

/// Relies on String::push of std: appends exactly the one character.
#[verifier::external_body]
pub fn push_char(s: &mut String, c: char)
    ensures
        final(s)@ == old(s)@.push(c),
{
    s.push(c)
}

/// Character-wise string equality.
pub fn str_eq(a: &str, b: &str) -> (r: bool)
    ensures
        r == (a@ == b@),
{
    let na = a.unicode_len();
    let nb = b.unicode_len();
    if na != nb {
        return false;
    }
    let mut i: usize = 0;
    while i < na
        invariant
            na == a@.len(),
            na == b@.len(),
            i <= na,
            forall|k: int| 0 <= k < i ==> a@[k] == b@[k],
        decreases na - i,
    {
        if a.get_char(i) != b.get_char(i) {
            return false;
        }
        i += 1;
    }
    proof {
        assert(a@ =~= b@);
    }
    true
}

/// Substring search: whether `needle` occurs anywhere in `hay`.
pub fn contains_sub(hay: &str, needle: &str) -> (r: bool)
    ensures
        r == contains_seq(hay@, needle@),
{
    let nh = hay.unicode_len();
    let nn = needle.unicode_len();
    if nn > nh {
        proof {
            assert forall|k: int| !matches_at(hay@, needle@, k) by {}
        }
        return false;
    }
    if nn == 0 {
        proof {
            assert(hay@.subrange(0, 0) =~= needle@);
            assert(matches_at(hay@, needle@, 0));
        }
        return true;
    }
    let mut k: usize = 0;
    while k <= nh - nn
        invariant
            nh == hay@.len(),
            nn == needle@.len(),
            1 <= nn <= nh,
            k <= nh - nn + 1,
            forall|kk: int| 0 <= kk < k ==> !matches_at(hay@, needle@, kk),
        decreases nh - nn - k + 1,
    {
        let mut j: usize = 0;
        let mut all_match = true;
        while j < nn
            invariant
                nh == hay@.len(),
                nn == needle@.len(),
                nn <= nh,
                k <= nh - nn,
                j <= nn,
                all_match ==> forall|t: int| 0 <= t < j ==> hay@[k + t] == needle@[t],
                !all_match ==> !matches_at(hay@, needle@, k as int),
            decreases nn - j,
        {
            if hay.get_char(k + j) != needle.get_char(j) {
                proof {
                    if matches_at(hay@, needle@, k as int) {
                        assert(hay@.subrange(k as int, k + nn as int)[j as int] == needle@[
                            j as int]);
                    }
                }
                all_match = false;
                j = nn;
            } else {
                j += 1;
            }
        }
        if all_match {
            proof {
                assert(hay@.subrange(k as int, k + nn as int) =~= needle@);
                assert(matches_at(hay@, needle@, k as int));
            }
            return true;
        }
        k += 1;
    }
    proof {
        assert forall|kk: int| !matches_at(hay@, needle@, kk) by {
            if 0 <= kk && kk + needle@.len() <= hay@.len() {
                assert(kk < k);
            }
        }
    }
    false
}

/// ASCII lower-casing of a single character; anything outside `A`..`Z` is
/// kept as it is.
pub open spec fn lower_char(c: char) -> char {
    if 'A' <= c && c <= 'Z' {
        (((c as u8) + 32) as char)
    } else {
        c
    }
}

/// ASCII lower-casing of a character sequence.
pub open spec fn lower_seq(s: Seq<char>) -> Seq<char> {
    s.map_values(|c: char| lower_char(c))
}

/// Returns the ASCII lower-case form of one character.
pub fn to_lower_char(c: char) -> (r: char)
    ensures
        r == lower_char(c),
{
    let u = c as u32;
    if 65 <= u && u <= 90 {
        ((u + 32) as u8) as char
    } else {
        c
    }
}

/// Returns the ASCII lower-case form of a string.
pub fn to_lower(s: &str) -> (r: String)
    ensures
        r@ == lower_seq(s@),
{
    let n = s.unicode_len();
    let mut out = String::new();
    let mut i: usize = 0;
    while i < n
        invariant
            n == s@.len(),
            i <= n,
            out@ == lower_seq(s@.take(i as int)),
        decreases n - i,
    {
        let c = to_lower_char(s.get_char(i));
        push_char(&mut out, c);
        proof {
            assert(out@ =~= lower_seq(s@.take(i + 1int)));
        }
        i += 1;
    }
    proof {
        assert(s@.take(n as int) =~= s@);
    }
    out
}

/// True of the ten ASCII decimal digit characters.
pub open spec fn is_dec_digit(c: char) -> bool {
    '0' <= c && c <= '9'
}

/// The numeric value of a decimal digit character.
pub open spec fn digit_val(c: char) -> int {
    c as u32 - '0' as u32
}

/// The digit character of a value below ten.
pub open spec fn digit_char(v: int) -> char {
    ((v + 0x30) as u8) as char
}

/// The decimal digit string of `v`, zero-padded on the left to at least
/// `width` characters.
pub open spec fn dec_digits(v: nat, width: nat) -> Seq<char>
    decreases v, width,
{
    if v < 10 && width <= 1 {
        seq![digit_char(v as int)]
    } else {
        dec_digits(v / 10, if width == 0 {
            0
        } else {
            (width - 1) as nat
        }).push(digit_char((v % 10) as int))
    }
}

/// The value of a decimal digit string (most significant digit first).
pub open spec fn digits_val(s: Seq<char>) -> int
    decreases s.len(),
{
    if s.len() == 0 {
        0
    } else {
        digits_val(s.drop_last()) * 10 + digit_val(s.last())
    }
}

/// True when every character of `s` is a decimal digit.
pub open spec fn all_dec_digits(s: Seq<char>) -> bool {
    forall|i: int| 0 <= i < s.len() ==> is_dec_digit(#[trigger] s[i])
}

/// Appends the decimal digits of `v`, zero-padded on the left to at least
/// `width` characters.
pub fn push_decimal(out: &mut String, v: u64, width: usize)
    ensures
        final(out)@ == old(out)@ + dec_digits(v as nat, width as nat),
    decreases v, width,
{
    if v < 10 && width <= 1 {
        push_char(out, (0x30u8 + (v as u8)) as char);
        proof {
            assert(old(out)@.push(digit_char(v as int)) =~= old(out)@ + dec_digits(
                v as nat,
                width as nat,
            ));
        }
    } else {
        push_decimal(out, v / 10, if width == 0 {
            0
        } else {
            width - 1
        });
        push_char(out, (0x30u8 + ((v % 10) as u8)) as char);
        proof {
            assert(final(out)@ =~= old(out)@ + dec_digits(v as nat, width as nat));
        }
    }
}

/// Reads `len` characters of `s` starting at `from` as an unsigned decimal
/// number. Returns the value exactly when every one of those characters is a
/// decimal digit.
pub fn parse_fixed_digits(s: &str, from: usize, len: usize) -> (r: Option<u64>)
    requires
        from + len <= s@.len(),
        from + len <= usize::MAX,
        len <= 9,
    ensures
        match r {
            Some(v) => all_dec_digits(s@.subrange(from as int, from + len)) && v as int
                == digits_val(s@.subrange(from as int, from + len)),
            None => !all_dec_digits(s@.subrange(from as int, from + len)),
        },
{
    let mut acc: u64 = 0;
    let mut j: usize = 0;
    proof {
        assert(s@.subrange(from as int, from as int) =~= Seq::<char>::empty());
    }
    while j < len
        invariant
            from + len <= s@.len(),
            from + len <= usize::MAX,
            len <= 9,
            j <= len,
            all_dec_digits(s@.subrange(from as int, from + j)),
            acc as int == digits_val(s@.subrange(from as int, from + j)),
        decreases len - j,
    {
        let c = s.get_char(from + j);
        let u = c as u32;
        if u < 0x30 || u > 0x39 {
            proof {
                let sub = s@.subrange(from as int, from + len);
                assert(sub[j as int] == c);
                assert(!is_dec_digit(sub[j as int]));
            }
            return None;
        }
        proof {
            let pre = s@.subrange(from as int, from + j);
            let now = s@.subrange(from as int, from + j + 1);
            assert(now.drop_last() =~= pre);
            assert(now.last() == c);
            assert(digits_val(now) == digits_val(pre) * 10 + digit_val(c));
            assert forall|t: int| 0 <= t < now.len() implies is_dec_digit(#[trigger] now[t]) by {
                if t < j {
                    assert(pre[t] == now[t]);
                }
            }
            lemma_digits_val_bounds(pre);
            lemma_pow10_at_most_eight(pre.len() as nat);
            assert(acc * 10 + 9 < 1_000_000_000) by (nonlinear_arith)
                requires
                    0 <= acc < 100_000_000,
            ;
        }
        acc = acc * 10 + ((u - 0x30) as u64);
        j += 1;
    }
    proof {
        assert(s@.subrange(from as int, from + j) =~= s@.subrange(from as int, from + len));
    }
    Some(acc)
}

/// Ten to the `n`, for small `n`.
pub open spec fn pow10(n: nat) -> int
    decreases n,
{
    if n == 0 {
        1
    } else {
        10 * pow10((n - 1) as nat)
    }
}

/// Ten to the `n` is positive.
proof fn lemma_pow10_pos(n: nat)
    ensures
        pow10(n) >= 1,
    decreases n,
{
    if n > 0 {
        lemma_pow10_pos((n - 1) as nat);
    }
}

/// Ten to the `n` grows with `n`.
proof fn lemma_pow10_mono(a: nat, b: nat)
    requires
        a <= b,
    ensures
        pow10(a) <= pow10(b),
    decreases b,
{
    if a < b {
        lemma_pow10_mono(a, (b - 1) as nat);
        lemma_pow10_pos((b - 1) as nat);
    }
}

/// A digit string of at most eight digits has a value below ten to the
/// eighth.
proof fn lemma_pow10_at_most_eight(n: nat)
    requires
        n <= 8,
    ensures
        pow10(n) <= 100_000_000,
{
    lemma_pow10_mono(n, 8);
    assert(pow10(0) == 1);
    assert(pow10(1) == 10);
    assert(pow10(2) == 100);
    assert(pow10(3) == 1000);
    assert(pow10(4) == 10000);
    assert(pow10(5) == 100000);
    assert(pow10(6) == 1000000);
    assert(pow10(7) == 10000000);
    assert(pow10(8) == 100000000);
}

/// A decimal digit string never has a negative value, and one of at most
/// eight digits stays below ten to the eighth.
pub proof fn lemma_digits_val_bounds(s: Seq<char>)
    requires
        all_dec_digits(s),
        s.len() <= 8,
    ensures
        0 <= digits_val(s) < 100_000_000,
{
    lemma_digits_val_pow(s);
    lemma_pow10_at_most_eight(s.len() as nat);
}

/// A digit string of `n` digits has a value below ten to the `n`.
pub proof fn lemma_digits_val_pow(s: Seq<char>)
    requires
        all_dec_digits(s),
    ensures
        0 <= digits_val(s) < pow10(s.len() as nat),
    decreases s.len(),
{
    if s.len() == 0 {
    } else {
        let pre = s.drop_last();
        assert forall|t: int| 0 <= t < pre.len() implies is_dec_digit(#[trigger] pre[t]) by {
            assert(pre[t] == s[t]);
        }
        lemma_digits_val_pow(pre);
        assert(0 <= digit_val(s.last()) <= 9);
        assert(digits_val(s) == digits_val(pre) * 10 + digit_val(s.last()));
        assert(digits_val(pre) * 10 <= (pow10(pre.len() as nat) - 1) * 10) by (nonlinear_arith)
            requires
                digits_val(pre) <= pow10(pre.len() as nat) - 1,
        ;
        assert(digits_val(pre) * 10 >= 0) by (nonlinear_arith)
            requires
                digits_val(pre) >= 0,
        ;
        assert(pow10(s.len() as nat) == 10 * pow10(pre.len() as nat));
    }
}

/// Whether the list holds a string with exactly these characters.
pub open spec fn str_listed(list: Seq<Seq<char>>, s: Seq<char>) -> bool {
    exists|i: int| 0 <= i < list.len() && list[i] == s
}

/// Returns whether the list holds a string equal to `s`.
pub fn str_list_contains(list: &Vec<String>, s: &str) -> (r: bool)
    ensures
        r == str_listed(list.deep_view(), s@),
{
    let n = list.len();
    let mut i: usize = 0;
    while i < n
        invariant
            n == list@.len(),
            i <= n,
            forall|k: int| 0 <= k < i ==> list.deep_view()[k] != s@,
        decreases n - i,
    {
        if str_eq(list[i].as_str(), s) {
            proof {
                assert(list.deep_view()[i as int] == s@);
            }
            return true;
        }
        proof {
            assert(list.deep_view()[i as int] == list@[i as int]@);
        }
        i += 1;
    }
    false
}

} // verus!
