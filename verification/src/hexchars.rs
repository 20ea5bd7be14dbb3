//! Lower-case hexadecimal encoding and decoding of byte strings.
//!
//! Snapshot directory names embed epoch identifiers and merkle roots as
//! lower-case hex.  The codec is specified character by character, so that
//! name construction and name parsing can be proved inverse to each other.

use vstd::prelude::*;
use vstd::arithmetic::div_mod::lemma_fundamental_div_mod;
use vstd::string::*;

verus! {

/// The lower-case hex digit for a value below sixteen.
pub open spec fn hex_char(n: int) -> char
    recommends
        0 <= n < 16,
{
    if n == 0 {
        '0'
    } else if n == 1 {
        '1'
    } else if n == 2 {
        '2'
    } else if n == 3 {
        '3'
    } else if n == 4 {
        '4'
    } else if n == 5 {
        '5'
    } else if n == 6 {
        '6'
    } else if n == 7 {
        '7'
    } else if n == 8 {
        '8'
    } else if n == 9 {
        '9'
    } else if n == 10 {
        'a'
    } else if n == 11 {
        'b'
    } else if n == 12 {
        'c'
    } else if n == 13 {
        'd'
    } else if n == 14 {
        'e'
    } else {
        'f'
    }
}

/// Whether a character is a lower-case hex digit.
pub open spec fn is_hex_digit(c: char) -> bool {
    c == '0' || c == '1' || c == '2' || c == '3' || c == '4' || c == '5' || c == '6' || c == '7'
        || c == '8' || c == '9' || c == 'a' || c == 'b' || c == 'c' || c == 'd' || c == 'e' || c
        == 'f'
}

/// The value of a lower-case hex digit; sixteen for anything else.
pub open spec fn hex_val(c: char) -> int {
    if c == '0' {
        0
    } else if c == '1' {
        1
    } else if c == '2' {
        2
    } else if c == '3' {
        3
    } else if c == '4' {
        4
    } else if c == '5' {
        5
    } else if c == '6' {
        6
    } else if c == '7' {
        7
    } else if c == '8' {
        8
    } else if c == '9' {
        9
    } else if c == 'a' {
        10
    } else if c == 'b' {
        11
    } else if c == 'c' {
        12
    } else if c == 'd' {
        13
    } else if c == 'e' {
        14
    } else if c == 'f' {
        15
    } else {
        16
    }
}

/// Decoding a digit undoes encoding a nibble.
pub proof fn lemma_hex_char_round_trip(n: int)
    requires
        0 <= n < 16,
    ensures
        is_hex_digit(hex_char(n)),
        hex_val(hex_char(n)) == n,
{
}

/// The two hex digits of one byte, high nibble first.
pub open spec fn hex_of_byte(b: u8) -> Seq<char> {
    seq![hex_char(b as int / 16), hex_char(b as int % 16)]
}

/// The hex rendering of a byte string.
pub open spec fn hex_of_bytes(s: Seq<u8>) -> Seq<char> {
    Seq::new(
        2 * s.len(),
        |i: int|
            if i % 2 == 0 {
                hex_char(s[i / 2] as int / 16)
            } else {
                hex_char(s[i / 2] as int % 16)
            },
    )
}

/// The bytes behind an even-length digit string.
pub open spec fn bytes_of_hex(h: Seq<char>) -> Seq<u8> {
    Seq::new((h.len() / 2) as nat, |i: int| (hex_val(h[2 * i]) * 16 + hex_val(h[2 * i + 1])) as u8)
}

/// Every character of a hex rendering is a hex digit.
pub proof fn lemma_hex_of_bytes_digits(s: Seq<u8>)
    ensures
        hex_of_bytes(s).len() == 2 * s.len(),
        forall|i: int| 0 <= i < 2 * s.len() ==> is_hex_digit(#[trigger] hex_of_bytes(s)[i]),
{
    assert forall|i: int| 0 <= i < 2 * s.len() implies is_hex_digit(#[trigger] hex_of_bytes(s)[i]) by {
        let b = s[i / 2];
        assert(0 <= b as int / 16 < 16);
        assert(0 <= b as int % 16 < 16);
        if i % 2 == 0 {
            lemma_hex_char_round_trip(b as int / 16);
        } else {
            lemma_hex_char_round_trip(b as int % 16);
        }
    }
}

/// Decoding undoes encoding.
pub proof fn lemma_hex_round_trip(s: Seq<u8>)
    ensures
        bytes_of_hex(hex_of_bytes(s)) =~= s,
{
    let h = hex_of_bytes(s);
    assert(h.len() == 2 * s.len());
    assert forall|i: int| 0 <= i < s.len() implies bytes_of_hex(h)[i] == s[i] by {
        let b = s[i];
        assert(h[2 * i] == hex_char(b as int / 16));
        assert(h[2 * i + 1] == hex_char(b as int % 16));
        lemma_hex_char_round_trip(b as int / 16);
        lemma_hex_char_round_trip(b as int % 16);
        lemma_fundamental_div_mod(b as int, 16);
    }
}

/// Hex renderings of distinct byte strings are distinct.
pub proof fn lemma_hex_of_bytes_injective(a: Seq<u8>, b: Seq<u8>)
    requires
        hex_of_bytes(a) == hex_of_bytes(b),
    ensures
        a =~= b,
{
    lemma_hex_round_trip(a);
    lemma_hex_round_trip(b);
}

/// Append the digit of one nibble to a string.
fn push_nibble(s: &mut String, n: u8)
    requires
        n < 16,
    ensures
        final(s)@ == old(s)@.push(hex_char(n as int)),
{
    proof {
        reveal_strlit("0");
        reveal_strlit("1");
        reveal_strlit("2");
        reveal_strlit("3");
        reveal_strlit("4");
        reveal_strlit("5");
        reveal_strlit("6");
        reveal_strlit("7");
        reveal_strlit("8");
        reveal_strlit("9");
        reveal_strlit("a");
        reveal_strlit("b");
        reveal_strlit("c");
        reveal_strlit("d");
        reveal_strlit("e");
        reveal_strlit("f");
    }
    match n {
        0 => s.append("0"),
        1 => s.append("1"),
        2 => s.append("2"),
        3 => s.append("3"),
        4 => s.append("4"),
        5 => s.append("5"),
        6 => s.append("6"),
        7 => s.append("7"),
        8 => s.append("8"),
        9 => s.append("9"),
        10 => s.append("a"),
        11 => s.append("b"),
        12 => s.append("c"),
        13 => s.append("d"),
        14 => s.append("e"),
        _ => s.append("f"),
    }
    assert(final(s)@ =~= old(s)@.push(hex_char(n as int)));
}

/// Append both digits of one byte to a string.
pub fn push_hex_byte(s: &mut String, b: u8)
    ensures
        final(s)@ == old(s)@ + hex_of_byte(b),
{
    let high: u8 = b / 16;
    let low: u8 = b % 16;
    push_nibble(s, high);
    push_nibble(s, low);
    assert(final(s)@ =~= old(s)@ + hex_of_byte(b));
}

/// Extending a byte string extends its rendering by one byte's digits.
proof fn lemma_hex_of_bytes_step(s: Seq<u8>, i: int)
    requires
        0 <= i < s.len(),
    ensures
        hex_of_bytes(s.subrange(0, i + 1)) =~= hex_of_bytes(s.subrange(0, i)) + hex_of_byte(s[i]),
{
    let left = hex_of_bytes(s.subrange(0, i + 1));
    let right = hex_of_bytes(s.subrange(0, i)) + hex_of_byte(s[i]);
    assert(left.len() == right.len());
    assert forall|k: int| 0 <= k < left.len() implies left[k] == right[k] by {
        if k < 2 * i {
            assert(s.subrange(0, i + 1)[k / 2] == s.subrange(0, i)[k / 2]);
        } else {
            assert(k / 2 == i) by {
                lemma_fundamental_div_mod(k, 2);
            }
            assert(s.subrange(0, i + 1)[i] == s[i]);
            if k % 2 == 0 {
                assert(k == 2 * i);
            } else {
                assert(k == 2 * i + 1);
            }
        }
    }
}

/// The hex string of a byte vector.
pub fn hex_string_of_bytes(bytes: &Vec<u8>) -> (s: String)
    ensures
        s@ == hex_of_bytes(bytes@),
{
    let mut s = String::new();
    let mut i: usize = 0;
    while i < bytes.len()
        invariant
            i <= bytes.len(),
            s@ == hex_of_bytes(bytes@.subrange(0, i as int)),
        decreases bytes.len() - i,
    {
        push_hex_byte(&mut s, bytes[i]);
        proof {
            lemma_hex_of_bytes_step(bytes@, i as int);
        }
        i = i + 1;
    }
    assert(bytes@.subrange(0, bytes@.len() as int) =~= bytes@);
    s
}

/// The value of one character, when it is a lower-case hex digit.
pub fn hex_val_of_char(c: char) -> (r: Option<u8>)
    ensures
        r is Some <==> is_hex_digit(c),
        r is Some ==> r->0 as int == hex_val(c) && r->0 < 16,
{
    match c {
        '0' => Some(0),
        '1' => Some(1),
        '2' => Some(2),
        '3' => Some(3),
        '4' => Some(4),
        '5' => Some(5),
        '6' => Some(6),
        '7' => Some(7),
        '8' => Some(8),
        '9' => Some(9),
        'a' => Some(10),
        'b' => Some(11),
        'c' => Some(12),
        'd' => Some(13),
        'e' => Some(14),
        'f' => Some(15),
        _ => None,
    }
}

/// Parse `n` bytes out of the `2 * n` characters of `s` starting at `from`.
///
/// Returns the bytes exactly when every character in that window is a
/// lower-case hex digit.
pub fn bytes_of_hex_str(s: &str, from: usize, n: usize) -> (r: Option<Vec<u8>>)
    requires
        from + 2 * n <= s@.len(),
        from + 2 * n <= usize::MAX,
    ensures
        r is Some <==> (forall|k: int|
            from <= k < from + 2 * n ==> is_hex_digit(#[trigger] s@[k])),
        r is Some ==> r->0@ =~= bytes_of_hex(s@.subrange(from as int, from as int + 2 * n)),
{
    let ghost window = s@.subrange(from as int, from as int + 2 * n);
    let mut out: Vec<u8> = Vec::new();
    let mut i: usize = 0;
    while i < n
        invariant
            i <= n,
            from + 2 * n <= s@.len(),
            from + 2 * n <= usize::MAX,
            window == s@.subrange(from as int, from as int + 2 * n),
            out@.len() == i,
            forall|k: int| from <= k < from + 2 * i ==> is_hex_digit(#[trigger] s@[k]),
            forall|j: int|
                0 <= j < i ==> out@[j] == (hex_val(window[2 * j]) * 16 + hex_val(
                    window[2 * j + 1],
                )) as u8,
        decreases n - i,
    {
        let c_high = s.get_char(from + 2 * i);
        let c_low = s.get_char(from + 2 * i + 1);
        let high = match hex_val_of_char(c_high) {
            Some(v) => v,
            None => {
                return None;
            },
        };
        let low = match hex_val_of_char(c_low) {
            Some(v) => v,
            None => {
                return None;
            },
        };
        out.push(high * 16 + low);
        proof {
            assert(window[2 * i] == s@[from + 2 * i]);
            assert(window[2 * i + 1] == s@[from + 2 * i + 1]);
        }
        i = i + 1;
    }
    proof {
        assert(out@ =~= bytes_of_hex(window));
    }
    Some(out)
}

} // verus!
