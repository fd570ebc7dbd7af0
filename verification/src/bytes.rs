//! Byte-level encodings: big-endian integers, decimal digits, and the
//! lexicographic order of byte strings.

use vstd::prelude::*;

verus! {

/// The `len` low-order base-256 digits of `n`, most significant first.
pub open spec fn be_bytes(n: nat, len: nat) -> Seq<u8>
    decreases len,
{
    if len == 0 {
        Seq::empty()
    } else {
        be_bytes(n / 256, (len - 1) as nat).push((n % 256) as u8)
    }
}

/// The number that `digits` is the big-endian base-256 encoding of.
pub open spec fn be_value(digits: Seq<u8>) -> nat
    decreases digits.len(),
{
    if digits.len() == 0 {
        0
    } else {
        be_value(digits.drop_last()) * 256 + digits.last() as nat
    }
}

/// The 4-byte big-endian encoding of `n`.
pub open spec fn be4(n: u32) -> Seq<u8> {
    be_bytes(n as nat, 4)
}

/// The 8-byte big-endian encoding of `n`.
pub open spec fn be8(n: u64) -> Seq<u8> {
    be_bytes(n as nat, 8)
}

pub proof fn lemma_be_bytes_len(n: nat, len: nat)
    ensures
        be_bytes(n, len).len() == len,
    decreases len,
{
    if len > 0 {
        lemma_be_bytes_len(n / 256, (len - 1) as nat);
    }
}

/// Reading a 4-byte encoding back gives the encoded number.
pub proof fn lemma_be4(n: u32)
    ensures
        be4(n).len() == 4,
        be_value(be4(n)) == n,
{
    lemma_be_bytes_len(n as nat, 4);
    lemma_be_value_of_be_bytes(n as nat, 4);
    reveal_with_fuel(digits_bound, 5);
}

/// Reading an 8-byte encoding back gives the encoded number.
pub proof fn lemma_be8(n: u64)
    ensures
        be8(n).len() == 8,
        be_value(be8(n)) == n,
{
    lemma_be_bytes_len(n as nat, 8);
    lemma_be_value_of_be_bytes(n as nat, 8);
    reveal_with_fuel(digits_bound, 9);
}

/// The number of values that `len` base-256 digits can express.
spec fn digits_bound(len: nat) -> nat
    decreases len,
{
    if len == 0 {
        1
    } else {
        256 * digits_bound((len - 1) as nat)
    }
}

proof fn lemma_be_value_of_be_bytes(n: nat, len: nat)
    ensures
        n < digits_bound(len) ==> be_value(be_bytes(n, len)) == n,
    decreases len,
{
    if len > 0 && n < digits_bound(len) {
        let rest = be_bytes(n / 256, (len - 1) as nat);
        lemma_be_value_of_be_bytes(n / 256, (len - 1) as nat);
        assert(rest.push((n % 256) as u8).drop_last() =~= rest);
    }
}

/// Appends the `len` low-order base-256 digits of `n` to `out`.
fn push_be_bytes(out: &mut Vec<u8>, n: u64, len: u8)
    ensures
        final(out)@ == old(out)@ + be_bytes(n as nat, len as nat),
    decreases len,
{
    if len > 0 {
        push_be_bytes(out, n / 256, len - 1);
        out.push((n % 256) as u8);
    }
}

/// Appends the 4-byte big-endian encoding of `n` to `out`.
pub fn push_be4(out: &mut Vec<u8>, n: u32)
    ensures
        final(out)@ == old(out)@ + be4(n),
{
    push_be_bytes(out, n as u64, 4);
}

/// Appends the 8-byte big-endian encoding of `n` to `out`.
pub fn push_be8(out: &mut Vec<u8>, n: u64)
    ensures
        final(out)@ == old(out)@ + be8(n),
{
    push_be_bytes(out, n, 8);
}

/// Reads the first 8 bytes of a digest as a big-endian number.
pub fn read_be8(digest: &[u8; 32]) -> (n: u64)
    ensures
        n == be_value(digest@.take(8)),
{
    let mut n: u64 = 0;
    let mut i: usize = 0;
    while i < 8
        invariant
            i <= 8,
            n == be_value(digest@.take(i as int)),
            n < digits_bound(i as nat),
        decreases 8 - i,
    {
        proof {
            assert(digest@.take(i + 1).drop_last() =~= digest@.take(i as int));
            reveal_with_fuel(digits_bound, 9);
        }
        n = n * 256 + digest[i] as u64;
        i += 1;
    }
    n
}

/// Appends a byte slice to `out`.
pub fn push_bytes(out: &mut Vec<u8>, bytes: &[u8])
    ensures
        final(out)@ == old(out)@ + bytes@,
{
    let mut i: usize = 0;
    while i < bytes.len()
        invariant
            i <= bytes@.len(),
            out@ == old(out)@ + bytes@.take(i as int),
        decreases bytes@.len() - i,
    {
        out.push(bytes[i]);
        i += 1;
    }
    assert(bytes@.take(bytes@.len() as int) =~= bytes@);
}

/// The bytes of an ASCII text, one per character.
pub open spec fn ascii(text: Seq<char>) -> Seq<u8> {
    text.map_values(|c: char| c as u8)
}

/// Appends the bytes of an ASCII text to `out`.
pub fn push_ascii(out: &mut Vec<u8>, text: &str)
    requires
        text.is_ascii(),
    ensures
        final(out)@ == old(out)@ + ascii(text@),
{
    let encoded = text.as_bytes();
    proof {
        vstd::string::is_ascii_spec_bytes(text);
        assert(encoded@ =~= ascii(text@));
    }
    push_bytes(out, encoded);
}

/// Whether two byte strings are equal.
pub fn same_bytes(a: &[u8], b: &[u8]) -> (same: bool)
    ensures
        same == (a@ == b@),
{
    if a.len() != b.len() {
        return false;
    }
    let mut i: usize = 0;
    while i < a.len()
        invariant
            i <= a@.len(),
            a@.len() == b@.len(),
            forall|j: int| 0 <= j < i ==> a@[j] == b@[j],
        decreases a@.len() - i,
    {
        if a[i] != b[i] {
            return false;
        }
        i += 1;
    }
    assert(a@ =~= b@);
    true
}

/// Two arrays with the same contents are the same array.
pub proof fn lemma_array_ext<const N: usize>(a: [u8; N], b: [u8; N])
    requires
        a@ == b@,
    ensures
        a == b,
{
    assert forall|i: int| 0 <= i < N implies a[i] == b[i] by {
        assert(a@[i] == b@[i]);
    }
    assert(a =~= b);
}

/// There is an array that begins with the first `n` of 32 bytes.
proof fn lemma_array_with_prefix(bytes: Seq<u8>, n: int) -> (array: [u8; 32])
    requires
        bytes.len() == 32,
        0 <= n <= 32,
    ensures
        forall|i: int| 0 <= i < n ==> array@[i] == bytes[i],
    decreases n,
{
    if n == 0 {
        vstd::pervasive::arbitrary()
    } else {
        let earlier = lemma_array_with_prefix(bytes, n - 1);
        let array = vstd::array::spec_array_update(earlier, n - 1, bytes[n - 1]);
        assert(array@ == earlier@.update(n - 1, bytes[n - 1]));
        array
    }
}

/// There is an array of any 32 bytes.
pub proof fn lemma_array32(bytes: Seq<u8>) -> (array: [u8; 32])
    requires
        bytes.len() == 32,
    ensures
        array@ == bytes,
{
    let array = lemma_array_with_prefix(bytes, 32);
    assert(array@ =~= bytes);
    array
}

/// Copies a 32-byte slice into an array; `None` for any other length.
pub fn to_array32(bytes: &[u8]) -> (array: Option<[u8; 32]>)
    ensures
        array is Some <==> bytes@.len() == 32,
        array matches Some(a) ==> a@ == bytes@,
{
    if bytes.len() != 32 {
        return None;
    }
    let mut array: [u8; 32] = [0u8; 32];
    let mut i: usize = 0;
    while i < 32
        invariant
            i <= 32,
            bytes@.len() == 32,
            forall|j: int| 0 <= j < i ==> array@[j] == bytes@[j],
        decreases 32 - i,
    {
        array[i] = bytes[i];
        i += 1;
    }
    assert(array@ =~= bytes@);
    Some(array)
}

// ---------------------------------------------------------------------------
// Lexicographic order
// ---------------------------------------------------------------------------

/// Whether `a` and `b` agree before position `i` and `a` is the smaller there:
/// it ends, or has the smaller byte.
pub open spec fn smaller_at(a: Seq<u8>, b: Seq<u8>, i: int) -> bool {
    &&& 0 <= i <= a.len()
    &&& i < b.len()
    &&& forall|j: int| 0 <= j < i ==> a[j] == b[j]
    &&& i == a.len() || a[i] < b[i]
}

/// The lexicographic order of byte strings.
pub open spec fn lex_less(a: Seq<u8>, b: Seq<u8>) -> bool {
    exists|i: int| smaller_at(a, b, i)
}

/// The lexicographic order is irreflexive.
pub proof fn lemma_lex_irreflexive(a: Seq<u8>)
    ensures
        !lex_less(a, a),
{
}

/// The lexicographic order is transitive.
pub proof fn lemma_lex_transitive(a: Seq<u8>, b: Seq<u8>, c: Seq<u8>)
    requires
        lex_less(a, b),
        lex_less(b, c),
    ensures
        lex_less(a, c),
{
    let i = choose|i: int| smaller_at(a, b, i);
    let j = choose|j: int| smaller_at(b, c, j);
    assert(smaller_at(a, c, if i < j { i } else { j }));
}

/// The first position at which two different byte strings differ, or at which
/// one of them ends.
proof fn lemma_first_difference(a: Seq<u8>, b: Seq<u8>, i: int)
    requires
        a != b,
        0 <= i <= a.len(),
        i <= b.len(),
        forall|j: int| 0 <= j < i ==> a[j] == b[j],
    ensures
        lex_less(a, b) || lex_less(b, a),
    decreases a.len() - i,
{
    if i == a.len() || i == b.len() {
        if a.len() == b.len() {
            assert(a =~= b);
        }
        assert(smaller_at(a, b, i) || smaller_at(b, a, i));
    } else if a[i] == b[i] {
        lemma_first_difference(a, b, i + 1);
    } else {
        assert(smaller_at(a, b, i) || smaller_at(b, a, i));
    }
}

/// The lexicographic order is total.
pub proof fn lemma_lex_total(a: Seq<u8>, b: Seq<u8>)
    ensures
        lex_less(a, b) || a == b || lex_less(b, a),
{
    if a != b {
        lemma_first_difference(a, b, 0);
    }
}

/// Whether `a` comes before `b` in the lexicographic order.
pub fn comes_before(a: &[u8], b: &[u8]) -> (before: bool)
    ensures
        before == lex_less(a@, b@),
        !before && a@ != b@ ==> lex_less(b@, a@),
{
    let mut i: usize = 0;
    while i < a.len() && i < b.len() && a[i] == b[i]
        invariant
            i <= a@.len(),
            i <= b@.len(),
            forall|j: int| 0 <= j < i ==> a@[j] == b@[j],
        decreases a@.len() - i,
    {
        i += 1;
    }
    if i < b.len() && (i == a.len() || a[i] < b[i]) {
        assert(smaller_at(a@, b@, i as int));
        true
    } else {
        proof {
            assert forall|k: int| !smaller_at(a@, b@, k) by {
                if smaller_at(a@, b@, k) {
                    if k < i {
                        assert(a@[k] == b@[k]);
                    } else if i < k {
                        assert(a@[i as int] == b@[i as int]);
                    }
                }
            }
            if a@ != b@ {
                if i == b@.len() && i == a@.len() {
                    assert(a@ =~= b@);
                }
                assert(smaller_at(b@, a@, i as int));
            }
        }
        false
    }
}

// ---------------------------------------------------------------------------
// Decimal text
// ---------------------------------------------------------------------------

/// The decimal digit for `d`.
pub open spec fn digit(d: nat) -> char {
    (48 + d) as char
}

/// The decimal text of `n`, without leading zeros.
pub open spec fn decimal(n: nat) -> Seq<char>
    decreases n,
{
    if n < 10 {
        seq![digit(n)]
    } else {
        decimal(n / 10).push(digit(n % 10))
    }
}

fn digit_text(d: u64) -> (text: &'static str)
    requires
        d < 10,
    ensures
        text@ == seq![digit(d as nat)],
{
    proof {
        reveal_strlit("0");
        reveal_strlit("1");
        reveal_strlit("2");
        reveal_strlit("3");
        reveal_strlit("4");
        reveal_strlit("5");
        reveal_strlit("6");
        reveal_strlit("7");
        reveal_strlit("8");
        reveal_strlit("9");
    }
    if d == 0 {
        "0"
    } else if d == 1 {
        "1"
    } else if d == 2 {
        "2"
    } else if d == 3 {
        "3"
    } else if d == 4 {
        "4"
    } else if d == 5 {
        "5"
    } else if d == 6 {
        "6"
    } else if d == 7 {
        "7"
    } else if d == 8 {
        "8"
    } else {
        "9"
    }
}

/// Appends the decimal text of `n` to `out`.
pub fn push_decimal(out: &mut String, n: u64)
    ensures
        final(out)@ == old(out)@ + decimal(n as nat),
    decreases n,
{
    if n >= 10 {
        push_decimal(out, n / 10);
    }
    out.append(digit_text(n % 10));
}

} // verus!
