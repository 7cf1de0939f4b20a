//! The base-37 name codec.
use crate::ascii::{ascii_lower, is_lower_alnum_byte};
use vstd::prelude::*;
use vstd::string::*;
use vstd::utf8::encode_utf8;

verus! {

/// The longest name, in bytes, that the encoder accepts, and the most
/// characters the decoder produces.
pub const MAX_NAME_LEN: usize = 12;

/// Digit value of one byte, ASCII letters folded to lowercase: 1..=26 for
/// `a`..=`z`, 27..=36 for `0`..=`9`, 0 for anything else.
pub open spec fn digit_value(b: u8) -> nat {
    let c = ascii_lower(b);
    if 97 <= c && c <= 122 {
        (c - 96) as nat
    } else if 48 <= c && c <= 57 {
        (c - 21) as nat
    } else {
        0
    }
}

/// The bytes read as a base-37 number, first byte most significant.
pub open spec fn base37_value(bytes: Seq<u8>) -> nat
    decreases bytes.len(),
{
    if bytes.len() == 0 {
        0
    } else {
        base37_value(bytes.drop_last()) * 37 + digit_value(bytes.last())
    }
}

/// `37^n`.
pub open spec fn pow37(n: nat) -> nat
    decreases n,
{
    if n == 0 {
        1
    } else {
        37 * pow37((n - 1) as nat)
    }
}

proof fn lemma_pow37_mono(a: nat, b: nat)
    requires
        a <= b,
    ensures
        pow37(a) <= pow37(b),
    decreases b,
{
    if a < b {
        lemma_pow37_mono(a, (b - 1) as nat);
    }
}

proof fn lemma_pow37_twelve()
    ensures
        pow37(12) == 6582952005840035281,
{
    reveal_with_fuel(pow37, 13);
}

/// Encodes a name as its identity code. A name longer than twelve bytes is
/// refused with the sentinel 0. Otherwise the bytes, ASCII letters folded to
/// lowercase, are read as a base-37 number, first byte most significant;
/// blanks and bytes other than ASCII letters and digits count as digit 0.
/// Twelve digits always fit in 64 bits, so the code is exact.
pub fn username_to_hash(name: String) -> (r: u64)
    ensures
        encode_utf8(name@).len() > MAX_NAME_LEN ==> r == 0,
        encode_utf8(name@).len() <= MAX_NAME_LEN ==> r == base37_value(encode_utf8(name@)),
        encode_utf8(name@).len() <= MAX_NAME_LEN ==> r < pow37(encode_utf8(name@).len()),
{
    let bytes = name.as_str().as_bytes_vec();
    if bytes.len() > MAX_NAME_LEN {
        return 0;
    }
    let mut hash: u64 = 0;
    let mut i: usize = 0;
    proof {
        lemma_pow37_twelve();
    }
    while i < bytes.len()
        invariant
            i <= bytes@.len() <= MAX_NAME_LEN,
            bytes@ == encode_utf8(name@),
            pow37(12) == 6582952005840035281,
            hash == base37_value(bytes@.subrange(0, i as int)),
            hash < pow37(i as nat),
        decreases bytes@.len() - i,
    {
        let b = bytes[i];
        let c: u8 = if b >= 65 && b <= 90 {
            b + 32
        } else {
            b
        };
        let d: u64 = if c >= 97 && c <= 122 {
            (c - 96) as u64
        } else if c >= 48 && c <= 57 {
            (c - 21) as u64
        } else {
            0
        };
        proof {
            let pre = bytes@.subrange(0, i as int);
            let next = bytes@.subrange(0, i + 1);
            assert(next.drop_last() =~= pre);
            assert(next.last() == b);
            lemma_pow37_mono((i + 1) as nat, 12);
        }
        hash = hash * 37 + d;
        i = i + 1;
    }
    assert(bytes@.subrange(0, bytes@.len() as int) =~= bytes@);
    hash
}

/// The character for one base-37 digit: digit 0 is a blank, 1..=26 a letter,
/// uppercase only where it opens the name, 27..=36 a decimal digit.
pub open spec fn digit_char(digit: u8, first: bool) -> char {
    if digit == 0 {
        ' '
    } else if digit <= 26 {
        if first {
            (digit + 64) as u8 as char
        } else {
            (digit + 96) as u8 as char
        }
    } else {
        (digit + 21) as u8 as char
    }
}

/// The name that `code` spells in at most `fuel` characters: its `fuel` lowest
/// base-37 digits, most significant first, with leading zero digits dropped.
/// A character opens the name where no character is produced above it.
pub open spec fn name_of(code: nat, fuel: nat) -> Seq<char>
    decreases fuel,
{
    if code == 0 || fuel == 0 {
        Seq::empty()
    } else {
        name_of(code / 37, (fuel - 1) as nat).push(
            digit_char((code % 37) as u8, code / 37 == 0 || fuel == 1),
        )
    }
}

/// The decoder's result: `"null"` for the code 0, else the name it spells.
pub open spec fn decoded(code: u64) -> Seq<char> {
    if code == 0 {
        seq!['n', 'u', 'l', 'l']
    } else {
        name_of(code as nat, MAX_NAME_LEN as nat)
    }
}

fn char_for_digit(digit: u8, first: bool) -> (c: char)
    requires
        digit < 37,
    ensures
        c == digit_char(digit, first),
{
    if digit == 0 {
        ' '
    } else if digit <= 26 {
        if first {
            (digit + 64) as char
        } else {
            (digit + 96) as char
        }
    } else {
        (digit + 21) as char
    }
}

fn push_name(code: u64, fuel: usize, out: &mut Vec<char>)
    ensures
        final(out)@ == old(out)@ + name_of(code as nat, fuel as nat),
    decreases fuel,
{
    if code == 0 || fuel == 0 {
        assert(old(out)@ + Seq::<char>::empty() =~= old(out)@);
        return;
    }
    let rest = code / 37;
    push_name(rest, fuel - 1, out);
    let c = char_for_digit((code % 37) as u8, rest == 0 || fuel == 1);
    out.push(c);
    proof {
        let tail = name_of(rest as nat, (fuel - 1) as nat);
        assert(old(out)@ + tail.push(c) =~= (old(out)@ + tail).push(c));
    }
}

/// Relies on `String`'s `FromIterator<char>`: the string of the given characters, in order.
#[verifier::external_body]
fn string_of_chars(chars: Vec<char>) -> (r: String)
    ensures
        r@ == chars@,
{
    chars.into_iter().collect()
}

/// Decodes an identity code into its display name: the code's base-37 digits,
/// most significant first, at most twelve characters (the twelve lowest
/// digits). Digit 0 is a blank, 1..=26 a letter, uppercase only as the first
/// character, 27..=36 a decimal digit. Blanks are kept as they are. The code 0
/// is refused with the sentinel `"null"`.
pub fn hash_to_username(hash: u64) -> (r: String)
    ensures
        r@ == decoded(hash),
{
    if hash == 0 {
        let r = String::from_str("null");
        proof {
            reveal_strlit("null");
            assert(r@ =~= seq!['n', 'u', 'l', 'l']);
        }
        return r;
    }
    let mut out: Vec<char> = Vec::new();
    push_name(hash, MAX_NAME_LEN, &mut out);
    assert(out@ =~= name_of(hash as nat, MAX_NAME_LEN as nat));
    string_of_chars(out)
}

proof fn lemma_base37_bound(bytes: Seq<u8>, n: nat)
    requires
        bytes.len() <= n,
    ensures
        base37_value(bytes) < pow37(n),
    decreases n,
{
    if bytes.len() > 0 {
        lemma_base37_bound(bytes.drop_last(), (n - 1) as nat);
    } else if n > 0 {
        lemma_base37_bound(bytes, (n - 1) as nat);
    }
}

/// How the decoder shows a lowercase letter or digit byte: uppercase where it
/// is a letter that opens the name, else as it is.
pub open spec fn shown(b: u8, first: bool) -> char {
    if first && 97 <= b && b <= 122 {
        (b - 32) as u8 as char
    } else {
        b as char
    }
}

proof fn lemma_name_of_base37(bytes: Seq<u8>, fuel: nat)
    requires
        bytes.len() <= fuel,
        forall|i: int| 0 <= i < bytes.len() ==> is_lower_alnum_byte(#[trigger] bytes[i]),
    ensures
        name_of(base37_value(bytes), fuel) =~= Seq::new(
            bytes.len(),
            |i: int| shown(bytes[i], i == 0),
        ),
    decreases bytes.len(),
{
    if bytes.len() > 0 {
        let pre = bytes.drop_last();
        let q = base37_value(pre);
        let d = digit_value(bytes.last());
        let v = base37_value(bytes);
        vstd::arithmetic::div_mod::lemma_fundamental_div_mod_converse(v as int, 37, q as int, d as int);
        lemma_name_of_base37(pre, (fuel - 1) as nat);
        if pre.len() > 0 {
            let d2 = digit_value(pre.last());
            vstd::arithmetic::div_mod::lemma_fundamental_div_mod_converse(
                q as int,
                37,
                base37_value(pre.drop_last()) as int,
                d2 as int,
            );
        }
    }
}

/// A name with its first character, where that is a letter, made uppercase.
pub open spec fn display_form(name: Seq<char>) -> Seq<char> {
    Seq::new(
        name.len(),
        |i: int|
            if i == 0 && 'a' <= name[0] && name[0] <= 'z' {
                ((name[0] as u32) - 32) as u8 as char
            } else {
                name[i]
            },
    )
}

/// A string of ASCII lowercase letters and digits only.
pub open spec fn is_lower_alnum(s: Seq<char>) -> bool {
    forall|i: int|
        0 <= i < s.len() ==> (('a' <= #[trigger] s[i] && s[i] <= 'z') || ('0' <= s[i] && s[i]
            <= '9'))
}

/// Round trip: a name of one to twelve ASCII lowercase letters and digits
/// encodes to a code that decodes to the same name, its first letter
/// uppercase.
pub proof fn lemma_round_trip(name: Seq<char>)
    requires
        is_lower_alnum(name),
        1 <= name.len() <= MAX_NAME_LEN,
    ensures
        decoded(base37_value(encode_utf8(name)) as u64) == display_form(name),
{
    assert(vstd::utf8::is_ascii_chars(name));
    vstd::utf8::is_ascii_chars_encode_utf8(name);
    let bytes = encode_utf8(name);
    assert forall|i: int| 0 <= i < bytes.len() implies is_lower_alnum_byte(#[trigger] bytes[i]) by {
        assert(name[i] as u8 == bytes[i]);
    }
    lemma_base37_bound(bytes, MAX_NAME_LEN as nat);
    lemma_pow37_twelve();
    lemma_name_of_base37(bytes, MAX_NAME_LEN as nat);
    assert(base37_value(bytes) > 0) by {
        assert(digit_value(bytes.last()) > 0);
    }
    assert(decoded(base37_value(bytes) as u64) =~= display_form(name)) by {
        assert forall|i: int| 0 <= i < name.len() implies shown(bytes[i], i == 0)
            == display_form(name)[i] by {
            assert(name[i] as u8 == bytes[i]);
        }
    }
}

proof fn lemma_name_of_encodes(code: nat, fuel: nat)
    requires
        code < pow37(fuel),
    ensures
        vstd::utf8::is_ascii_chars(name_of(code, fuel)),
        name_of(code, fuel).len() <= fuel,
        base37_value(encode_utf8(name_of(code, fuel))) == code,
    decreases fuel,
{
    let s = name_of(code, fuel);
    if code == 0 || fuel == 0 {
        assert(s.len() == 0);
        assert(vstd::utf8::is_ascii_chars(s));
        vstd::utf8::is_ascii_chars_encode_utf8(s);
    } else {
        let q = code / 37;
        let r = code % 37;
        vstd::arithmetic::div_mod::lemma_fundamental_div_mod(code as int, 37);
        lemma_name_of_encodes(q, (fuel - 1) as nat);
        let pre = name_of(q, (fuel - 1) as nat);
        let ch = digit_char(r as u8, q == 0 || fuel == 1);
        assert(s == pre.push(ch));
        assert(digit_value(ch as u8) == r);
        assert(vstd::utf8::is_ascii_chars(s)) by {
            assert forall|i: int| 0 <= i < s.len() implies '\0' <= #[trigger] s[i] <= '\u{7f}' by {
                if i < pre.len() {
                    assert(s[i] == pre[i]);
                }
            }
        }
        vstd::utf8::is_ascii_chars_encode_utf8(s);
        vstd::utf8::is_ascii_chars_encode_utf8(pre);
        let bytes = encode_utf8(s);
        assert(bytes.drop_last() =~= encode_utf8(pre)) by {
            assert forall|i: int| 0 <= i < pre.len() implies bytes[i] == encode_utf8(pre)[i] by {
                assert(s[i] == pre[i]);
            }
        }
        assert(bytes.last() == ch as u8);
    }
}

/// Encoding a decoded name gives back the code: every nonzero code below
/// `37^12` decodes to a name of at most twelve bytes whose code it is.
pub proof fn lemma_decode_then_encode(code: u64)
    requires
        0 < code < pow37(MAX_NAME_LEN as nat),
    ensures
        encode_utf8(decoded(code)).len() <= MAX_NAME_LEN,
        base37_value(encode_utf8(decoded(code))) == code,
{
    lemma_name_of_encodes(code as nat, MAX_NAME_LEN as nat);
    vstd::utf8::is_ascii_chars_encode_utf8(decoded(code));
}

} // verus!
