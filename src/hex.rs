//! Lowercase hexadecimal text for byte strings.
use vstd::prelude::*;

verus! {

/// The ASCII digit for a nibble value below sixteen.
pub open spec fn digit(n: u8) -> u8 {
    if n < 10 {
        (48 + n) as u8
    } else {
        (87 + n) as u8
    }
}

/// Whether `c` is a lowercase hexadecimal digit.
pub open spec fn is_digit(c: u8) -> bool {
    (48 <= c && c <= 57) || (97 <= c && c <= 102)
}

/// The nibble value of a lowercase hexadecimal digit.
pub open spec fn digit_value(c: u8) -> u8 {
    if c <= 57 {
        (c - 48) as u8
    } else {
        (c - 87) as u8
    }
}

/// Two digits per byte, high nibble first.
pub open spec fn hex_of(s: Seq<u8>) -> Seq<u8>
    decreases s.len(),
{
    if s.len() == 0 {
        Seq::empty()
    } else {
        let b = s.last();
        hex_of(s.drop_last()).push(digit(b / 16)).push(digit(b % 16))
    }
}

proof fn lemma_byte_split(b: u8)
    ensures
        b / 16 < 16,
        b % 16 < 16,
        b == (b / 16) * 16 + b % 16,
{
}

proof fn lemma_digit(n: u8)
    requires
        n < 16,
    ensures
        is_digit(digit(n)),
        digit_value(digit(n)) == n,
{
}

/// Each byte stands at two fixed positions of its text, and every character is a digit.
pub proof fn lemma_hex_shape(s: Seq<u8>)
    ensures
        hex_of(s).len() == 2 * s.len(),
        forall|i: int| 0 <= i < s.len() ==> #[trigger] hex_of(s)[2 * i] == digit(s[i] / 16)
            && hex_of(s)[2 * i + 1] == digit(s[i] % 16),
        forall|j: int| 0 <= j < hex_of(s).len() ==> is_digit(#[trigger] hex_of(s)[j]),
    decreases s.len(),
{
    if s.len() > 0 {
        let t = s.drop_last();
        lemma_hex_shape(t);
        lemma_byte_split(s.last());
        lemma_digit(s.last() / 16);
        lemma_digit(s.last() % 16);
        assert forall|i: int| 0 <= i < s.len() implies #[trigger] hex_of(s)[2 * i] == digit(
            s[i] / 16,
        ) && hex_of(s)[2 * i + 1] == digit(s[i] % 16) by {
            if i < t.len() {
                assert(hex_of(t)[2 * i] == digit(t[i] / 16));
            }
        }
        assert forall|j: int| 0 <= j < hex_of(s).len() implies is_digit(#[trigger] hex_of(s)[j]) by {
            if j < hex_of(t).len() {
                assert(is_digit(hex_of(t)[j]));
            }
        }
    }
}

/// Distinct byte strings have distinct texts.
pub proof fn lemma_hex_injective(a: Seq<u8>, b: Seq<u8>)
    requires
        hex_of(a) == hex_of(b),
    ensures
        a == b,
{
    lemma_hex_shape(a);
    lemma_hex_shape(b);
    assert forall|i: int| 0 <= i < a.len() implies a[i] == b[i] by {
        assert(hex_of(a)[2 * i] == digit(a[i] / 16));
        assert(hex_of(b)[2 * i] == digit(b[i] / 16));
        assert(hex_of(a)[2 * i + 1] == digit(a[i] % 16));
        assert(hex_of(b)[2 * i + 1] == digit(b[i] % 16));
        lemma_byte_split(a[i]);
        lemma_byte_split(b[i]);
        lemma_digit(a[i] / 16);
        lemma_digit(b[i] / 16);
        lemma_digit(a[i] % 16);
        lemma_digit(b[i] % 16);
    }
    assert(a =~= b);
}

fn digit_exec(n: u8) -> (r: u8)
    requires
        n < 16,
    ensures
        r == digit(n),
{
    if n < 10 {
        48 + n
    } else {
        87 + n
    }
}

/// Appends the hexadecimal text of `src` to `out`.
pub fn push_hex(out: &mut Vec<u8>, src: &[u8])
    ensures
        final(out)@ == old(out)@ + hex_of(src@),
{
    let ghost start = out@;
    let mut i: usize = 0;
    while i < src.len()
        invariant
            i <= src@.len(),
            out@ == start + hex_of(src@.subrange(0, i as int)),
        decreases src@.len() - i,
    {
        let b = src[i];
        proof {
            lemma_byte_split(b);
            assert(src@.subrange(0, i + 1).drop_last() =~= src@.subrange(0, i as int));
        }
        out.push(digit_exec(b / 16));
        out.push(digit_exec(b % 16));
        i += 1;
    }
    assert(src@.subrange(0, src@.len() as int) =~= src@);
}

/// Reads back the bytes whose text is `text[from..to]`, or `None` where that range is
/// not the text of any byte string.
pub fn parse_hex(text: &[u8], from: usize, to: usize) -> (r: Option<Vec<u8>>)
    requires
        from <= to <= text@.len(),
    ensures
        match r {
            Some(v) => hex_of(v@) == text@.subrange(from as int, to as int),
            None => forall|v: Seq<u8>| hex_of(v) != text@.subrange(from as int, to as int),
        },
{
    let ghost t = text@.subrange(from as int, to as int);
    if (to - from) % 2 != 0 {
        proof {
            assert forall|v: Seq<u8>| hex_of(v) != t by {
                lemma_hex_shape(v);
            }
        }
        return None;
    }
    let n: usize = (to - from) / 2;
    let mut out: Vec<u8> = Vec::new();
    let mut i: usize = 0;
    while i < n
        invariant
            from <= to <= text@.len(),
            n * 2 == to - from,
            t == text@.subrange(from as int, to as int),
            i <= n,
            out@.len() == i,
            hex_of(out@) == t.subrange(0, 2 * i),
        decreases n - i,
    {
        let hi = text[from + 2 * i];
        let lo = text[from + 2 * i + 1];
        let hi_ok = (48 <= hi && hi <= 57) || (97 <= hi && hi <= 102);
        let lo_ok = (48 <= lo && lo <= 57) || (97 <= lo && lo <= 102);
        if !hi_ok || !lo_ok {
            proof {
                assert forall|v: Seq<u8>| hex_of(v) != t by {
                    lemma_hex_shape(v);
                    if hex_of(v) == t {
                        assert(t.len() == 2 * n);
                        assert(t[2 * i] == hi && t[2 * i + 1] == lo);
                        assert(is_digit(hex_of(v)[2 * i]));
                        assert(is_digit(hex_of(v)[2 * i + 1]));
                    }
                }
            }
            return None;
        }
        let hv: u8 = if hi <= 57 { hi - 48 } else { hi - 87 };
        let lv: u8 = if lo <= 57 { lo - 48 } else { lo - 87 };
        let b: u8 = hv * 16 + lv;
        proof {
            lemma_byte_split(b);
            assert(b / 16 == hv && b % 16 == lv);
            assert(out@.push(b).drop_last() =~= out@);
            assert(t.subrange(0, 2 * i + 2) =~= t.subrange(0, 2 * i).push(hi).push(lo));
        }
        out.push(b);
        i += 1;
    }
    assert(t.subrange(0, 2 * n as int) =~= t);
    Some(out)
}

} // verus!
