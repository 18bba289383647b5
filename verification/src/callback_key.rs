//! The key under which one inline button's callback data is stored.
//!
//! A key names a chat, a message and a button position.  It travels
//! as a reference string of the form `cb:{chat}:{message}:{position}`
//! that fits the transport's limit on callback payloads; formatting
//! and parsing of that form are exact inverses here.

use vstd::prelude::*;
use vstd::string::StrSliceExecFns;
use vstd::string::StringExecFns;

use crate::decimal::dec_int;
use crate::decimal::dec_nat;
use crate::decimal::i64_to_decimal;
use crate::decimal::parse_i32_decimal;
use crate::decimal::parse_i64_decimal;
use crate::decimal::parse_usize_decimal;
use crate::decimal::spec_parse_i32;
use crate::decimal::spec_parse_i64;
use crate::decimal::spec_parse_usize;
use crate::decimal::u64_to_decimal;
use crate::markdown::push_char;

verus! {

/// The key for one stored callback payload: the chat, the message
/// and the button's position within the message's keyboard.
#[derive(Debug, Clone, PartialEq, Eq, Structural, Hash)]
pub struct CallbackDataKey {
    /// The chat the message belongs to.
    pub chat_id: i64,
    /// The message carrying the keyboard.
    pub message_id: i32,
    /// The button's position within the keyboard.
    pub button_pos: usize,
}

/// The reference string a key travels as.
pub open spec fn spec_reference_string(k: CallbackDataKey) -> Seq<char> {
    seq!['c', 'b', ':'] + dec_int(k.chat_id as int) + seq![':'] + dec_int(k.message_id as int)
        + seq![':'] + dec_nat(k.button_pos as int)
}

/// The colon-separated fields of `s` from position `i` on, continuing
/// a field `cur` with finished fields `acc`; empty fields are kept.
pub open spec fn split_colon(s: Seq<char>, i: int, cur: Seq<char>, acc: Seq<Seq<char>>) -> Seq<
    Seq<char>,
>
    decreases s.len() - i,
{
    if i < 0 || i >= s.len() {
        acc.push(cur)
    } else if s[i] == ':' {
        split_colon(s, i + 1, Seq::empty(), acc.push(cur))
    } else {
        split_colon(s, i + 1, cur.push(s[i]), acc)
    }
}

/// The colon-separated fields of a whole string; there is always at
/// least one.
pub open spec fn spec_split_colon(s: Seq<char>) -> Seq<Seq<char>> {
    split_colon(s, 0, Seq::empty(), Seq::empty())
}

/// The key a reference string names, or nothing when the string is
/// not of the reference form: exactly four colon-separated fields,
/// the first `cb`, the others parsing as the key's three integers.
pub open spec fn spec_parse_reference(s: Seq<char>) -> Option<CallbackDataKey> {
    let parts = spec_split_colon(s);
    if parts.len() != 4 || parts[0] != seq!['c', 'b'] {
        None
    } else {
        match (spec_parse_i64(parts[1]), spec_parse_i32(parts[2]), spec_parse_usize(parts[3])) {
            (Some(chat), Some(msg), Some(pos)) => Some(
                CallbackDataKey {
                    chat_id: chat as i64,
                    message_id: msg as i32,
                    button_pos: pos as usize,
                },
            ),
            _ => None,
        }
    }
}

/// A colon-free stretch is consumed whole into the current field.
proof fn lemma_split_colon_run(s: Seq<char>, i: int, upto: int, cur: Seq<char>, acc: Seq<
    Seq<char>,
>)
    requires
        0 <= i <= upto <= s.len(),
        forall|j: int| i <= j < upto ==> s[j] != ':',
    ensures
        split_colon(s, i, cur, acc) == split_colon(s, upto, cur + s.subrange(i, upto), acc),
    decreases upto - i,
{
    if i < upto {
        lemma_split_colon_run(s, i + 1, upto, cur.push(s[i]), acc);
        assert(cur.push(s[i]) + s.subrange(i + 1, upto) =~= cur + s.subrange(i, upto));
    } else {
        assert(cur + s.subrange(i, upto) =~= cur);
    }
}

/// Reading a reference string back gives the key it was written
/// from: the reference form is a faithful round trip for every key.
pub proof fn lemma_reference_round_trip(k: CallbackDataKey)
    ensures
        spec_parse_reference(spec_reference_string(k)) == Some(k),
{
    let a = dec_int(k.chat_id as int);
    let b = dec_int(k.message_id as int);
    let c = dec_nat(k.button_pos as int);
    let s = spec_reference_string(k);
    crate::decimal::lemma_dec_int_parses(k.chat_id as int);
    crate::decimal::lemma_dec_int_parses(k.message_id as int);
    crate::decimal::lemma_dec_nat_digits(k.button_pos as int);
    let la = a.len() as int;
    let lb = b.len() as int;
    let lc = c.len() as int;
    assert(s.len() == 5 + la + lb + lc);
    assert(s.subrange(0, 2) =~= seq!['c', 'b']);
    assert(s[2] == ':');
    assert(s.subrange(3, 3 + la) =~= a);
    assert(s[3 + la] == ':');
    assert(s.subrange(4 + la, 4 + la + lb) =~= b);
    assert(s[4 + la + lb] == ':');
    assert(s.subrange(5 + la + lb, s.len() as int) =~= c);
    assert forall|j: int| 0 <= j < 2 implies s[j] != ':' by {
        assert(s[j] == s.subrange(0, 2)[j]);
    }
    assert forall|j: int| 3 <= j < 3 + la implies s[j] != ':' by {
        assert(s[j] == a[j - 3]);
        assert(a[j - 3] == '-' || crate::decimal::is_digit(a[j - 3]));
    }
    assert forall|j: int| 4 + la <= j < 4 + la + lb implies s[j] != ':' by {
        assert(s[j] == b[j - 4 - la]);
        assert(b[j - 4 - la] == '-' || crate::decimal::is_digit(b[j - 4 - la]));
    }
    assert forall|j: int| 5 + la + lb <= j < s.len() implies s[j] != ':' by {
        assert(s[j] == c[j - 5 - la - lb]);
        assert(crate::decimal::is_digit(c[j - 5 - la - lb]));
    }
    let cb = seq!['c', 'b'];
    lemma_split_colon_run(s, 0, 2, Seq::empty(), Seq::empty());
    assert(Seq::<char>::empty() + s.subrange(0, 2) =~= cb);
    assert(split_colon(s, 2, cb, Seq::empty()) == split_colon(
        s,
        3,
        Seq::empty(),
        Seq::<Seq<char>>::empty().push(cb),
    ));
    let acc1 = Seq::<Seq<char>>::empty().push(cb);
    lemma_split_colon_run(s, 3, 3 + la, Seq::empty(), acc1);
    assert(Seq::<char>::empty() + s.subrange(3, 3 + la) =~= a);
    assert(split_colon(s, 3 + la, a, acc1) == split_colon(s, 4 + la, Seq::empty(), acc1.push(a)));
    let acc2 = acc1.push(a);
    lemma_split_colon_run(s, 4 + la, 4 + la + lb, Seq::empty(), acc2);
    assert(Seq::<char>::empty() + s.subrange(4 + la, 4 + la + lb) =~= b);
    assert(split_colon(s, 4 + la + lb, b, acc2) == split_colon(
        s,
        5 + la + lb,
        Seq::empty(),
        acc2.push(b),
    ));
    let acc3 = acc2.push(b);
    lemma_split_colon_run(s, 5 + la + lb, s.len() as int, Seq::empty(), acc3);
    assert(Seq::<char>::empty() + s.subrange(5 + la + lb, s.len() as int) =~= c);
    assert(split_colon(s, s.len() as int, c, acc3) == acc3.push(c));
    let parts = spec_split_colon(s);
    assert(parts == acc3.push(c));
    assert(parts.len() == 4);
    assert(parts[0] == cb);
    assert(parts[1] == a);
    assert(parts[2] == b);
    assert(parts[3] == c);
    assert(c.len() > 0 && crate::decimal::is_digit(c[0]));
    assert(c[0] != '-');
}

/// Splits a string on colons, keeping empty fields.
fn split_colon_parts(s: &str) -> (r: Vec<String>)
    ensures
        r.deep_view() == spec_split_colon(s@),
{
    let ghost sq = s@;
    let n = s.unicode_len();
    let mut parts: Vec<String> = Vec::new();
    let mut cur = String::new();
    let mut i: usize = 0;
    proof {
        assert(parts.deep_view() =~= Seq::<Seq<char>>::empty());
    }
    while i < n
        invariant
            n == sq.len(),
            sq == s@,
            0 <= i <= n,
            spec_split_colon(sq) == split_colon(sq, i as int, cur@, parts.deep_view()),
        decreases n - i,
    {
        let ghost pre_cur = cur@;
        let ghost pre_parts = parts.deep_view();
        let c = s.get_char(i);
        if c == ':' {
            parts.push(cur);
            cur = String::new();
            proof {
                assert(parts.deep_view() =~= pre_parts.push(pre_cur));
            }
        } else {
            push_char(&mut cur, c);
        }
        i = i + 1;
    }
    let ghost pre_parts = parts.deep_view();
    let ghost pre_cur = cur@;
    parts.push(cur);
    proof {
        assert(parts.deep_view() =~= pre_parts.push(pre_cur));
    }
    parts
}

/// Whether a field holds exactly `cb`.
fn is_cb_field(p: &str) -> (r: bool)
    ensures
        r == (p@ == seq!['c', 'b']),
{
    let n = p.unicode_len();
    if n == 2 {
        let r = p.get_char(0) == 'c' && p.get_char(1) == 'b';
        proof {
            if r {
                assert(p@ =~= seq!['c', 'b']);
            }
        }
        r
    } else {
        false
    }
}

impl CallbackDataKey {
    /// A key from its three parts.
    pub fn new(chat_id: i64, message_id: i32, button_pos: usize) -> (r: CallbackDataKey)
        ensures
            r == (CallbackDataKey { chat_id, message_id, button_pos }),
    {
        CallbackDataKey { chat_id, message_id, button_pos }
    }

    /// Writes the key as its reference string.
    pub fn to_reference_string(&self) -> (r: String)
        ensures
            r@ == spec_reference_string(*self),
    {
        let mut out = String::new();
        out.append("cb:");
        let chat = i64_to_decimal(self.chat_id);
        out.append(chat.as_str());
        push_char(&mut out, ':');
        let msg = i64_to_decimal(self.message_id as i64);
        out.append(msg.as_str());
        push_char(&mut out, ':');
        let pos = u64_to_decimal(self.button_pos as u64);
        out.append(pos.as_str());
        proof {
            reveal_strlit("cb:");
            assert("cb:"@ =~= seq!['c', 'b', ':']);
            assert(out@ =~= spec_reference_string(*self));
        }
        out
    }

    /// Reads a key back from a reference string; nothing for a string
    /// that is not of the reference form.
    pub fn parse_reference(s: &str) -> (r: Option<CallbackDataKey>)
        ensures
            r == spec_parse_reference(s@),
    {
        let parts = split_colon_parts(s);
        if parts.len() != 4 {
            return None;
        }
        if !is_cb_field(parts[0].as_str()) {
            return None;
        }
        let chat = parse_i64_decimal(parts[1].as_str());
        let msg = parse_i32_decimal(parts[2].as_str());
        let pos = parse_usize_decimal(parts[3].as_str());
        proof {
            assert(parts.deep_view()[1] == parts@[1]@);
            assert(parts.deep_view()[2] == parts@[2]@);
            assert(parts.deep_view()[3] == parts@[3]@);
        }
        match (chat, msg, pos) {
            (Some(chat_id), Some(message_id), Some(button_pos)) => Some(
                CallbackDataKey { chat_id, message_id, button_pos },
            ),
            _ => None,
        }
    }
}

} // verus!
