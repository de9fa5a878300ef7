//! Building and comparing text.
use vstd::prelude::*;

verus! {

/// `String::push` of std appends one character and keeps what was there.
pub assume_specification[ String::push ](s: &mut String, c: char)
    ensures
        final(s)@ == old(s)@.push(c),
;

/// The character of the digit `d`, with lower-case letters from ten on.
pub open spec fn digit_char(d: nat) -> char {
    if d < 10 {
        (48 + d) as char
    } else {
        (87 + d) as char
    }
}

/// `n` in decimal, without leading zeros.
pub open spec fn decimal(n: nat) -> Seq<char>
    decreases n,
{
    if n < 10 {
        seq![digit_char(n)]
    } else {
        decimal(n / 10).push(digit_char(n % 10))
    }
}

/// The `width` low hexadecimal digits of `v`, padded with zeros on the left.
pub open spec fn hex(v: nat, width: nat) -> Seq<char>
    decreases width,
{
    if width == 0 {
        Seq::empty()
    } else {
        hex(v / 16, (width - 1) as nat).push(digit_char(v % 16))
    }
}

/// Appends `n` in decimal.
pub fn push_decimal(out: &mut String, n: u64)
    ensures
        final(out)@ == old(out)@ + decimal(n as nat),
    decreases n,
{
    if n >= 10 {
        push_decimal(out, n / 10);
    }
    let digit: u8 = (n % 10) as u8;
    out.push((48 + digit) as char);
}

/// Appends the `width` low hexadecimal digits of `v`.
pub fn push_hex(out: &mut String, v: u128, width: usize)
    ensures
        final(out)@ == old(out)@ + hex(v as nat, width as nat),
    decreases width,
{
    if width > 0 {
        push_hex(out, v / 16, width - 1);
        let digit: u8 = (v % 16) as u8;
        if digit < 10 {
            out.push((48 + digit) as char);
        } else {
            out.push((87 + digit) as char);
        }
    }
}

/// Where the first zero byte of `s` is, or its length if there is none.
pub open spec fn nul_at(s: Seq<u8>) -> nat
    decreases s.len(),
{
    if s.len() == 0 || s[0] == 0 {
        0
    } else {
        1 + nul_at(s.drop_first())
    }
}

/// Where the first zero byte is.
pub proof fn lemma_nul_at(s: Seq<u8>)
    ensures
        nul_at(s) <= s.len(),
        forall|i: int| 0 <= i < nul_at(s) ==> #[trigger] s[i] != 0,
        nul_at(s) < s.len() ==> s[nul_at(s) as int] == 0,
    decreases s.len(),
{
    if s.len() > 0 && s[0] != 0 {
        let rest = s.drop_first();
        lemma_nul_at(rest);
        assert forall|i: int| 0 <= i < nul_at(s) implies #[trigger] s[i] != 0 by {
            if i > 0 {
                assert(rest[i - 1] != 0);
            }
        }
        if nul_at(s) < s.len() {
            assert(rest[nul_at(rest) as int] == 0);
        }
    }
}

/// The bytes of a text have a zero among them exactly where the text has a null character.
pub proof fn lemma_zero_bytes(s: Seq<char>)
    ensures
        s.contains('\0') <==> exists|i: int|
            0 <= i < vstd::utf8::encode_utf8(s).len() && #[trigger] vstd::utf8::encode_utf8(s)[i]
                == 0,
    decreases s.len(),
{
    let all = vstd::utf8::encode_utf8(s);
    if s.len() > 0 {
        let first = vstd::utf8::encode_scalar(s[0] as u32);
        let rest = s.drop_first();
        let others = vstd::utf8::encode_utf8(rest);
        lemma_zero_bytes(rest);
        vstd::utf8::char_is_scalar(s[0]);
        vstd::utf8::char_u32_cast(s[0], s[0] as u32);
        assert(all =~= first + others);
        if s[0] == '\0' {
            assert(s.contains(s[0]));
            lemma_scalar_zero();
            assert(all[0] == 0);
        } else {
            lemma_scalar_bytes(s[0] as u32);
            if rest.contains('\0') {
                let i = choose|i: int| 0 <= i < others.len() && #[trigger] others[i] == 0;
                assert(all[first.len() + i] == 0);
                let j = rest.index_of('\0');
                assert(s[j + 1] == '\0');
            } else {
                assert forall|i: int| 0 <= i < all.len() implies #[trigger] all[i] != 0 by {
                    if i < first.len() {
                        assert(all[i] == first[i]);
                    } else {
                        assert(all[i] == others[i - first.len()]);
                    }
                }
                assert forall|i: int| 0 <= i < s.len() implies s[i] != '\0' by {
                    if i > 0 {
                        assert(rest.contains(rest[i - 1]));
                    }
                }
            }
        }
    }
}

/// The null character is one zero byte.
proof fn lemma_scalar_zero()
    ensures
        vstd::utf8::encode_scalar(0).len() == 1,
        vstd::utf8::encode_scalar(0)[0] == 0,
{
    assert((0u32 & 0x7f) as u8 == 0) by (bit_vector);
}

/// The bytes of a scalar value other than zero are not zero.
proof fn lemma_scalar_bytes(v: u32)
    requires
        vstd::utf8::is_scalar(v),
        v != 0,
    ensures
        forall|i: int|
            0 <= i < vstd::utf8::encode_scalar(v).len() ==> #[trigger] vstd::utf8::encode_scalar(
                v,
            )[i] != 0,
{
    assert(0 < v <= 0x7f ==> (v & 0x7f) as u8 != 0) by (bit_vector);
    assert(forall|x: u8| #[trigger] (0xC0u8 | x) != 0) by (bit_vector);
    assert(forall|x: u8| #[trigger] (0xE0u8 | x) != 0) by (bit_vector);
    assert(forall|x: u8| #[trigger] (0xF0u8 | x) != 0) by (bit_vector);
    assert(forall|x: u8| #[trigger] (0x80u8 | x) != 0) by (bit_vector);
}

/// Where the first zero byte is, or the length if there is none.
pub fn find_nul(s: &[u8]) -> (at: usize)
    ensures
        at == nul_at(s@),
{
    let mut at: usize = 0;
    assert(s@.skip(0) =~= s@);
    while at < s.len() && s[at] != 0
        invariant
            at <= s@.len(),
            nul_at(s@) == at + nul_at(s@.skip(at as int)),
        decreases s@.len() - at,
    {
        assert(s@.skip(at as int).drop_first() =~= s@.skip(at + 1));
        at = at + 1;
    }
    at
}

/// Two strings with the same bytes have the same characters.
pub proof fn lemma_same_bytes_same_text(a: Seq<char>, b: Seq<char>)
    requires
        vstd::utf8::encode_utf8(a) == vstd::utf8::encode_utf8(b),
    ensures
        a == b,
{
    vstd::utf8::encode_utf8_decode_utf8(a);
    vstd::utf8::encode_utf8_decode_utf8(b);
}

/// Whether two byte strings are equal.
pub fn same_bytes(a: &[u8], b: &[u8]) -> (r: bool)
    ensures
        r == (a@ == b@),
{
    if a.len() != b.len() {
        return false;
    }
    let n: usize = a.len();
    let mut i: usize = 0;
    while i < n
        invariant
            i <= n,
            n == a@.len(),
            n == b@.len(),
            forall|j: int| 0 <= j < i ==> a@[j] == b@[j],
        decreases n - i,
    {
        if a[i] != b[i] {
            return false;
        }
        i = i + 1;
    }
    assert(a@ =~= b@);
    true
}

/// Whether two strings are equal.
pub fn same_text(a: &str, b: &str) -> (r: bool)
    ensures
        r == (a@ == b@),
{
    proof {
        if vstd::utf8::encode_utf8(a@) == vstd::utf8::encode_utf8(b@) {
            lemma_same_bytes_same_text(a@, b@);
        }
    }
    same_bytes(a.as_bytes(), b.as_bytes())
}

/// A number below ten is written as its digit, and `10 * m + d` as `m` is, with the digit `d`
/// behind; so there are no leading zeros.
pub proof fn law_decimal(m: nat, d: nat)
    requires
        d < 10,
    ensures
        decimal(d).len() == 1,
        decimal(d)[0] as int == 48 + d,
        m > 0 ==> decimal(10 * m + d) == decimal(m).push(decimal(d)[0]),
{
}

/// A hexadecimal number has as many digits as were asked for, `0` to `9` and `a` to `f`, of which
/// the last stands for the remainder by 16 and the others for the quotient.
pub proof fn law_hex(v: nat, width: nat)
    requires
        width > 0,
    ensures
        hex(v, width).len() == width,
        hex(v, width).last() as int == if v % 16 < 10 {
            48 + (v % 16) as int
        } else {
            87 + (v % 16) as int
        },
        hex(v, width).drop_last() == hex(v / 16, (width - 1) as nat),
        hex(v, 0).len() == 0,
    decreases width,
{
    if width > 1 {
        law_hex(v / 16, (width - 1) as nat);
    }
    assert(hex(v, width).drop_last() =~= hex(v / 16, (width - 1) as nat));
}

} // verus!
