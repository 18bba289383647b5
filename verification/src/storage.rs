//! Percent-encoding of storage keys into safe file names.
//!
//! A key may hold path separators, wildcard characters and other
//! bytes that file systems refuse; encoding maps each of them to a
//! `%XX` escape (and a leading dot, which would hide the file, to
//! `%2E`), and decoding maps the escapes back.

use vstd::prelude::*;
use vstd::string::StrSliceExecFns;

use crate::markdown::push_char;

verus! {

/// What encoding emits for one character; a dot is escaped only at
/// the start of the key, where it would hide the file.
pub open spec fn enc_char(c: char, first: bool) -> Seq<char> {
    if c == '/' {
        seq!['%', '2', 'F']
    } else if c == '\\' {
        seq!['%', '5', 'C']
    } else if c == ':' {
        seq!['%', '3', 'A']
    } else if c == '*' {
        seq!['%', '2', 'A']
    } else if c == '?' {
        seq!['%', '3', 'F']
    } else if c == '"' {
        seq!['%', '2', '2']
    } else if c == '<' {
        seq!['%', '3', 'C']
    } else if c == '>' {
        seq!['%', '3', 'E']
    } else if c == '|' {
        seq!['%', '7', 'C']
    } else if c == '%' {
        seq!['%', '2', '5']
    } else if c == ' ' {
        seq!['%', '2', '0']
    } else if c == '.' && first {
        seq!['%', '2', 'E']
    } else {
        seq![c]
    }
}

/// The encoded form of the key from position `i` on.
pub open spec fn enc_from(s: Seq<char>, i: int) -> Seq<char>
    decreases s.len() - i,
{
    if i < 0 || i >= s.len() {
        Seq::empty()
    } else {
        enc_char(s[i], i == 0) + enc_from(s, i + 1)
    }
}

/// The encoded form of a whole key.
pub open spec fn spec_encode_key(s: Seq<char>) -> Seq<char> {
    enc_from(s, 0)
}

/// Hexadecimal digit, either case.
pub open spec fn is_hex_digit(c: char) -> bool {
    (48 <= c as u32 && c as u32 <= 57) || (97 <= c as u32 && c as u32 <= 102) || (65 <= c as u32
        && c as u32 <= 70)
}

/// Value of a hexadecimal digit.
pub open spec fn hex_val(c: char) -> int {
    if 48 <= c as u32 && c as u32 <= 57 {
        c as u32 - 48
    } else if 97 <= c as u32 && c as u32 <= 102 {
        c as u32 - 87
    } else {
        c as u32 - 55
    }
}

/// Whether the two characters after a `%` parse as a byte: two hex
/// digits, or a leading plus sign before one hex digit, which the
/// integer parser also accepts.
pub open spec fn pair_valid(h1: char, h2: char) -> bool {
    (is_hex_digit(h1) && is_hex_digit(h2)) || (h1 == '+' && is_hex_digit(h2))
}

/// The character the parsed byte stands for.
pub open spec fn pair_char(h1: char, h2: char) -> char {
    if h1 == '+' {
        (hex_val(h2) as u8) as char
    } else {
        ((16 * hex_val(h1) + hex_val(h2)) as u8) as char
    }
}

/// The decoded form of the file name from position `i` on: each
/// parsable `%XX` escape becomes its byte, a malformed escape is kept
/// as it stands.
pub open spec fn dec_from(s: Seq<char>, i: int) -> Seq<char>
    decreases s.len() - i,
{
    if i < 0 || i >= s.len() {
        Seq::empty()
    } else if s[i] != '%' {
        seq![s[i]] + dec_from(s, i + 1)
    } else if i + 3 <= s.len() {
        if pair_valid(s[i + 1], s[i + 2]) {
            seq![pair_char(s[i + 1], s[i + 2])] + dec_from(s, i + 3)
        } else {
            seq!['%', s[i + 1], s[i + 2]] + dec_from(s, i + 3)
        }
    } else if i + 2 <= s.len() {
        seq!['%', s[i + 1]] + dec_from(s, i + 2)
    } else {
        seq!['%'] + dec_from(s, i + 1)
    }
}

/// The decoded form of a whole file name.
pub open spec fn spec_decode_filename(s: Seq<char>) -> Seq<char> {
    dec_from(s, 0)
}

/// The file extension under which a value is stored.
pub open spec fn yaml_suffix() -> Seq<char> {
    seq!['.', 'y', 'a', 'm', 'l']
}

/// Whether `s` ends in the yaml extension.
pub open spec fn ends_with_yaml(s: Seq<char>) -> bool {
    s.len() >= 5 && s.subrange(s.len() - 5, s.len() as int) == yaml_suffix()
}

/// `s` with every trailing repetition of the yaml extension removed,
/// as the store's directory listing does.
pub open spec fn strip_yaml_suffixes(s: Seq<char>) -> Seq<char>
    decreases s.len(),
{
    if ends_with_yaml(s) {
        strip_yaml_suffixes(s.subrange(0, s.len() - 5))
    } else {
        s
    }
}

/// The key a stored file's name stands for: only names with the yaml
/// extension name a key, with every trailing extension removed and
/// the remainder decoded.
pub open spec fn spec_file_name_to_key(s: Seq<char>) -> Option<Seq<char>> {
    if ends_with_yaml(s) {
        Some(spec_decode_filename(strip_yaml_suffixes(s)))
    } else {
        None
    }
}

/// Whether the first `end` characters of `s` end in the yaml extension.
fn ends_with_yaml_upto(s: &str, end: usize) -> (r: bool)
    requires
        end <= s@.len(),
    ensures
        r == ends_with_yaml(s@.subrange(0, end as int)),
{
    if end < 5 {
        false
    } else {
        let r = s.get_char(end - 5) == '.' && s.get_char(end - 4) == 'y' && s.get_char(end - 3)
            == 'a' && s.get_char(end - 2) == 'm' && s.get_char(end - 1) == 'l';
        proof {
            let pre = s@.subrange(0, end as int);
            let tail = pre.subrange(pre.len() - 5, pre.len() as int);
            assert(tail[0] == s@[end - 5]);
            assert(tail[1] == s@[end - 4]);
            assert(tail[2] == s@[end - 3]);
            assert(tail[3] == s@[end - 2]);
            assert(tail[4] == s@[end - 1]);
            if r {
                assert(tail =~= yaml_suffix());
            }
        }
        r
    }
}

/// The file name under which a key is stored: the encoded key with
/// the yaml extension.
pub fn key_to_file_name(key: &str) -> (r: String)
    ensures
        r@ == spec_encode_key(key@) + yaml_suffix(),
{
    let mut out = encode_key_to_filename(key);
    out.append(".yaml");
    proof {
        reveal_strlit(".yaml");
        assert(".yaml"@ =~= yaml_suffix());
    }
    out
}

/// The key a stored file's name stands for, or nothing for a file
/// that is not one of the store's: reverses `key_to_file_name`.
pub fn file_name_to_key(file_name: &str) -> (r: Option<String>)
    ensures
        match r {
            Some(k) => spec_file_name_to_key(file_name@) == Some(k@),
            None => spec_file_name_to_key(file_name@) is None,
        },
{
    let ghost s = file_name@;
    let n = file_name.unicode_len();
    if !ends_with_yaml_upto(file_name, n) {
        proof {
            assert(s.subrange(0, n as int) =~= s);
        }
        return None;
    }
    let mut end: usize = n;
    proof {
        assert(s.subrange(0, n as int) =~= s);
    }
    while ends_with_yaml_upto(file_name, end)
        invariant
            n == s.len(),
            s == file_name@,
            end <= n,
            strip_yaml_suffixes(s) == strip_yaml_suffixes(s.subrange(0, end as int)),
        decreases end,
    {
        proof {
            let pre = s.subrange(0, end as int);
            assert(pre.subrange(0, pre.len() - 5) =~= s.subrange(0, end - 5));
        }
        end = end - 5;
    }
    let stem = file_name.substring_char(0, end);
    let key = decode_filename_to_key(stem);
    proof {
        assert(strip_yaml_suffixes(s.subrange(0, end as int)) == s.subrange(0, end as int));
        assert(stem@ == s.subrange(0, end as int));
    }
    Some(key)
}

/// Decoding from a position inside the second part of a
/// concatenation never looks at the first part.
proof fn lemma_dec_shift(a: Seq<char>, b: Seq<char>, j: int)
    requires
        0 <= j,
    ensures
        dec_from(a + b, a.len() + j) == dec_from(b, j),
    decreases b.len() - j,
{
    if j < b.len() {
        if b[j] != '%' {
            lemma_dec_shift(a, b, j + 1);
        } else if j + 3 <= b.len() {
            lemma_dec_shift(a, b, j + 3);
        } else if j + 2 <= b.len() {
            lemma_dec_shift(a, b, j + 2);
        } else {
            lemma_dec_shift(a, b, j + 1);
        }
    }
}

/// Decoding undoes encoding, from position `i` on.
proof fn lemma_round_trip_from(s: Seq<char>, i: int)
    requires
        0 <= i <= s.len(),
    ensures
        dec_from(enc_from(s, i), 0) == s.subrange(i, s.len() as int),
    decreases s.len() - i,
{
    if i == s.len() {
        assert(dec_from(enc_from(s, i), 0) =~= s.subrange(i, s.len() as int));
    } else {
        lemma_round_trip_from(s, i + 1);
        let c = s[i];
        let chunk = enc_char(c, i == 0);
        let rest = enc_from(s, i + 1);
        assert(enc_from(s, i) == chunk + rest);
        if chunk.len() == 3 {
            assert(pair_valid(chunk[1], chunk[2]));
            assert(pair_char(chunk[1], chunk[2]) == c);
            lemma_dec_shift(chunk, rest, 0);
            assert(dec_from(chunk + rest, 0) =~= seq![c] + dec_from(rest, 0));
        } else {
            assert(chunk[0] == c && c != '%');
            lemma_dec_shift(chunk, rest, 0);
            assert(dec_from(chunk + rest, 0) =~= seq![c] + dec_from(rest, 0));
        }
        assert(seq![c] + s.subrange(i + 1, s.len() as int) =~= s.subrange(i, s.len() as int));
    }
}

/// Decoding a file name undoes encoding the key: the two functions
/// form a round trip for every key.
pub proof fn lemma_encode_decode_round_trip(s: Seq<char>)
    ensures
        spec_decode_filename(spec_encode_key(s)) == s,
{
    lemma_round_trip_from(s, 0);
    assert(s.subrange(0, s.len() as int) =~= s);
}

/// Appends `%` and two digits.
fn push_escape(out: &mut String, a: char, b: char)
    ensures
        final(out)@ == old(out)@ + seq!['%', a, b],
{
    push_char(out, '%');
    push_char(out, a);
    push_char(out, b);
    proof {
        assert(out@ =~= old(out)@ + seq!['%', a, b]);
    }
}

/// Encodes a key into a name that is safe for a file: every
/// forbidden character, and a leading dot, becomes a `%XX` escape.
pub fn encode_key_to_filename(key: &str) -> (r: String)
    ensures
        r@ == spec_encode_key(key@),
{
    let ghost s = key@;
    let n = key.unicode_len();
    let mut out = String::new();
    let mut i: usize = 0;
    while i < n
        invariant
            n == s.len(),
            s == key@,
            0 <= i <= n,
            spec_encode_key(s) == out@ + enc_from(s, i as int),
        decreases n - i,
    {
        let ghost pre = out@;
        let c = key.get_char(i);
        let first = i == 0;
        if c == '/' {
            push_escape(&mut out, '2', 'F');
        } else if c == '\\' {
            push_escape(&mut out, '5', 'C');
        } else if c == ':' {
            push_escape(&mut out, '3', 'A');
        } else if c == '*' {
            push_escape(&mut out, '2', 'A');
        } else if c == '?' {
            push_escape(&mut out, '3', 'F');
        } else if c == '"' {
            push_escape(&mut out, '2', '2');
        } else if c == '<' {
            push_escape(&mut out, '3', 'C');
        } else if c == '>' {
            push_escape(&mut out, '3', 'E');
        } else if c == '|' {
            push_escape(&mut out, '7', 'C');
        } else if c == '%' {
            push_escape(&mut out, '2', '5');
        } else if c == ' ' {
            push_escape(&mut out, '2', '0');
        } else if c == '.' && first {
            push_escape(&mut out, '2', 'E');
        } else {
            push_char(&mut out, c);
        }
        proof {
            assert(out@ =~= pre + enc_char(s[i as int], i == 0));
            assert((pre + enc_char(s[i as int], i == 0)) + enc_from(s, i + 1) =~= pre + (enc_char(
                s[i as int],
                i == 0,
            ) + enc_from(s, i + 1)));
        }
        i = i + 1;
    }
    out
}

/// Value of one hexadecimal digit, either case.
fn hex_digit_val(c: char) -> (r: Option<u8>)
    ensures
        match r {
            Some(v) => is_hex_digit(c) && v as int == hex_val(c) && v < 16,
            None => !is_hex_digit(c),
        },
{
    let u = c as u32;
    if 48 <= u && u <= 57 {
        Some((u - 48) as u8)
    } else if 97 <= u && u <= 102 {
        Some((u - 87) as u8)
    } else if 65 <= u && u <= 70 {
        Some((u - 55) as u8)
    } else {
        None
    }
}

/// Decodes a file name back into the original key, reversing
/// `encode_key_to_filename`; a `%` escape that does not parse as a
/// byte is kept as it stands.
pub fn decode_filename_to_key(filename: &str) -> (r: String)
    ensures
        r@ == spec_decode_filename(filename@),
{
    let ghost s = filename@;
    let n = filename.unicode_len();
    let mut out = String::new();
    let mut i: usize = 0;
    while i < n
        invariant
            n == s.len(),
            s == filename@,
            0 <= i <= n,
            spec_decode_filename(s) == out@ + dec_from(s, i as int),
        decreases n - i,
    {
        let ghost pre = out@;
        let ghost i0 = i as int;
        let c = filename.get_char(i);
        if c != '%' {
            push_char(&mut out, c);
            proof {
                assert(out@ =~= pre + seq![s[i0]]);
                assert((pre + seq![s[i0]]) + dec_from(s, i0 + 1) =~= pre + (seq![s[i0]] + dec_from(
                    s,
                    i0 + 1,
                )));
            }
            i = i + 1;
        } else if n - i >= 3 {
            let h1 = filename.get_char(i + 1);
            let h2 = filename.get_char(i + 2);
            let v1 = hex_digit_val(h1);
            let v2 = hex_digit_val(h2);
            match (v1, v2) {
                (Some(a), Some(b)) => {
                    let byte: u8 = 16 * a + b;
                    push_char(&mut out, byte as char);
                    proof {
                        assert(out@ =~= pre + seq![pair_char(h1, h2)]);
                    }
                },
                (None, Some(b)) => {
                    if h1 == '+' {
                        push_char(&mut out, b as char);
                        proof {
                            assert(out@ =~= pre + seq![pair_char(h1, h2)]);
                        }
                    } else {
                        push_char(&mut out, '%');
                        push_char(&mut out, h1);
                        push_char(&mut out, h2);
                        proof {
                            assert(out@ =~= pre + seq!['%', h1, h2]);
                        }
                    }
                },
                (_, None) => {
                    push_char(&mut out, '%');
                    push_char(&mut out, h1);
                    push_char(&mut out, h2);
                    proof {
                        assert(out@ =~= pre + seq!['%', h1, h2]);
                    }
                },
            }
            proof {
                let chunk = if pair_valid(h1, h2) {
                    seq![pair_char(h1, h2)]
                } else {
                    seq!['%', h1, h2]
                };
                assert((pre + chunk) + dec_from(s, i0 + 3) =~= pre + (chunk + dec_from(s, i0 + 3)));
            }
            i = i + 3;
        } else if n - i == 2 {
            let h1 = filename.get_char(i + 1);
            push_char(&mut out, '%');
            push_char(&mut out, h1);
            proof {
                assert(out@ =~= pre + seq!['%', s[i0 + 1]]);
                assert((pre + seq!['%', s[i0 + 1]]) + dec_from(s, i0 + 2) =~= pre + (seq![
                    '%',
                    s[i0 + 1],
                ] + dec_from(s, i0 + 2)));
            }
            i = i + 2;
        } else {
            push_char(&mut out, '%');
            proof {
                assert(out@ =~= pre + seq!['%']);
                assert((pre + seq!['%']) + dec_from(s, i0 + 1) =~= pre + (seq!['%'] + dec_from(
                    s,
                    i0 + 1,
                )));
            }
            i = i + 1;
        }
    }
    out
}

} // verus!
