//! Pure logic of the command layer: splitting a command's argument
//! line on unescaped spaces, screening spaces for the reverse
//! direction, rebuilding a command string from its parameters, and
//! the decisions behind callback-button payloads.

use vstd::prelude::*;
use vstd::string::StrSliceExecFns;
use vstd::string::StringExecFns;
use vstd::string::StringSliceAdditionalSpecFns;

use crate::markdown::push_char;

verus! {

/// Argument of a command that takes none; parses only from an empty
/// string.
#[derive(Default, Debug, Clone, PartialEq)]
pub struct EmptyArg;

impl EmptyArg {
    /// Accepts exactly the empty argument.
    pub fn parse_command_arg(arg: &str) -> (r: Option<EmptyArg>)
        ensures
            r is Some <==> arg@.len() == 0,
    {
        if arg.is_empty() {
            Some(EmptyArg)
        } else {
            None
        }
    }
}

/// A command that does nothing and takes no arguments.
#[derive(Debug, Clone)]
pub struct NoopCommand;

/// One inline keyboard button: a callback button carrying its
/// callback data, or a switch-inline-query button carrying the query
/// text; both hold their label first.
#[derive(Clone)]
pub enum ButtonData {
    /// Callback button with label and callback data.
    Callback(String, String),
    /// Switch inline query button with label and query text.
    SwitchInlineQuery(String, String),
}

impl From<(String, String)> for ButtonData {
    /// A plain pair of label and data is a callback button.
    fn from(pair: (String, String)) -> (r: ButtonData) {
        ButtonData::Callback(pair.0, pair.1)
    }
}

impl vstd::std_specs::convert::FromSpecImpl<(String, String)> for ButtonData {
    closed spec fn obeys_from_spec() -> bool {
        false
    }

    closed spec fn from_spec(pair: (String, String)) -> ButtonData {
        ButtonData::Callback(pair.0, pair.1)
    }
}

/// Index of the first newline at or after `i`, or the length.
pub open spec fn line_end(s: Seq<char>, i: int) -> int
    decreases s.len() - i,
{
    if i < 0 || i >= s.len() {
        s.len() as int
    } else if s[i] == '\n' {
        i
    } else {
        line_end(s, i + 1)
    }
}

/// End of the first line of the argument text: everything after the
/// first newline is dropped, and a carriage return right before that
/// newline is dropped with it.
pub open spec fn arg_line_end(s: Seq<char>) -> int {
    let e = line_end(s, 0);
    if e < s.len() && e > 0 && s[e - 1] == '\r' {
        e - 1
    } else {
        e
    }
}

/// The split of `s[i .. end]` on unescaped spaces, continuing a token
/// `cur` with finished tokens `acc`: `\\` stands for one backslash,
/// `\ ` for a literal space, a lone backslash stands for itself, and
/// an unescaped space ends the token (empty tokens are dropped).
pub open spec fn split_rec(
    s: Seq<char>,
    i: int,
    end: int,
    cur: Seq<char>,
    acc: Seq<Seq<char>>,
) -> Seq<Seq<char>>
    decreases end - i,
{
    if i < 0 || i >= end {
        if cur.len() > 0 {
            acc.push(cur)
        } else {
            acc
        }
    } else if s[i] == '\\' {
        if i + 1 < end && s[i + 1] == '\\' {
            split_rec(s, i + 2, end, cur.push('\\'), acc)
        } else if i + 1 < end && s[i + 1] == ' ' {
            split_rec(s, i + 2, end, cur.push(' '), acc)
        } else {
            split_rec(s, i + 1, end, cur.push('\\'), acc)
        }
    } else if s[i] == ' ' {
        if cur.len() > 0 {
            split_rec(s, i + 1, end, Seq::empty(), acc.push(cur))
        } else {
            split_rec(s, i + 1, end, cur, acc)
        }
    } else {
        split_rec(s, i + 1, end, cur.push(s[i]), acc)
    }
}

/// The arguments of a command line: its first line split on
/// unescaped spaces.
pub open spec fn spec_split_args(s: Seq<char>) -> Seq<Seq<char>> {
    split_rec(s, 0, arg_line_end(s), Seq::empty(), Seq::empty())
}

/// Splits an argument line into arguments on unescaped spaces.  Only
/// the first line counts; `\\` gives a backslash, `\ ` a literal
/// space, and empty arguments are dropped.
pub fn split_with_screened_spaces(arg: &str) -> (r: Vec<String>)
    ensures
        r.deep_view() == spec_split_args(arg@),
{
    let ghost s = arg@;
    let n = arg.unicode_len();
    let mut e: usize = 0;
    while e < n && arg.get_char(e) != '\n'
        invariant
            n == s.len(),
            s == arg@,
            0 <= e <= n,
            line_end(s, 0) == line_end(s, e as int),
            forall|j: int| 0 <= j < e ==> s[j] != '\n',
        decreases n - e,
    {
        e = e + 1;
    }
    let end: usize = if e < n && e > 0 && arg.get_char(e - 1) == '\r' {
        e - 1
    } else {
        e
    };
    proof {
        assert(end as int == arg_line_end(s));
    }
    let mut args: Vec<String> = Vec::new();
    let mut cur = String::new();
    let mut i: usize = 0;
    proof {
        assert(args.deep_view() =~= Seq::<Seq<char>>::empty());
    }
    while i < end
        invariant
            n == s.len(),
            s == arg@,
            0 <= i <= end <= n,
            spec_split_args(s) == split_rec(s, i as int, end as int, cur@, args.deep_view()),
        decreases end - i,
    {
        let ghost pre_cur = cur@;
        let ghost pre_args = args.deep_view();
        let c = arg.get_char(i);
        if c == '\\' {
            if i + 1 < end && arg.get_char(i + 1) == '\\' {
                push_char(&mut cur, '\\');
                i = i + 2;
            } else if i + 1 < end && arg.get_char(i + 1) == ' ' {
                push_char(&mut cur, ' ');
                i = i + 2;
            } else {
                push_char(&mut cur, '\\');
                i = i + 1;
            }
        } else if c == ' ' {
            if !cur.as_str().is_empty() {
                args.push(cur);
                cur = String::new();
                proof {
                    assert(args.deep_view() =~= pre_args.push(pre_cur));
                }
            }
            i = i + 1;
        } else {
            push_char(&mut cur, c);
            i = i + 1;
        }
    }
    if !cur.as_str().is_empty() {
        let ghost pre_args = args.deep_view();
        let ghost pre_cur = cur@;
        args.push(cur);
        proof {
            assert(args.deep_view() =~= pre_args.push(pre_cur));
        }
    }
    args
}

/// What screening emits for one character.
pub open spec fn screen_char(c: char) -> Seq<char> {
    if c == '\\' {
        seq!['\\', '\\']
    } else if c == ' ' {
        seq!['\\', ' ']
    } else {
        seq![c]
    }
}

/// The screened form of `s` from position `i` on.
pub open spec fn screen_from(s: Seq<char>, i: int) -> Seq<char>
    decreases s.len() - i,
{
    if i < 0 || i >= s.len() {
        Seq::empty()
    } else {
        screen_char(s[i]) + screen_from(s, i + 1)
    }
}

/// The screened form of a whole argument.
pub open spec fn spec_screen_spaces(s: Seq<char>) -> Seq<char> {
    screen_from(s, 0)
}

/// Escapes an argument so it survives the split: each backslash is
/// doubled and each space gains a backslash.
pub fn screen_spaces(s: &str) -> (r: String)
    ensures
        r@ == spec_screen_spaces(s@),
{
    let ghost sq = s@;
    let n = s.unicode_len();
    let mut out = String::new();
    let mut i: usize = 0;
    while i < n
        invariant
            n == sq.len(),
            sq == s@,
            0 <= i <= n,
            spec_screen_spaces(sq) == out@ + screen_from(sq, i as int),
        decreases n - i,
    {
        let ghost pre = out@;
        let c = s.get_char(i);
        if c == '\\' {
            push_char(&mut out, '\\');
            push_char(&mut out, '\\');
        } else if c == ' ' {
            push_char(&mut out, '\\');
            push_char(&mut out, ' ');
        } else {
            push_char(&mut out, c);
        }
        proof {
            assert(out@ =~= pre + screen_char(sq[i as int]));
            assert((pre + screen_char(sq[i as int])) + screen_from(sq, i + 1) =~= pre + (
            screen_char(sq[i as int]) + screen_from(sq, i + 1)));
        }
        i = i + 1;
    }
    out
}

/// Splitting from a position inside the second part of a
/// concatenation never looks at the first part.
proof fn lemma_split_shift(a: Seq<char>, b: Seq<char>, j: int, k: int, cur: Seq<char>, acc: Seq<
    Seq<char>,
>)
    requires
        0 <= j,
        k <= b.len(),
    ensures
        split_rec(a + b, a.len() + j, a.len() + k, cur, acc) == split_rec(b, j, k, cur, acc),
    decreases k - j,
{
    if j < k {
        if b[j] == '\\' {
            if j + 1 < k && b[j + 1] == '\\' {
                lemma_split_shift(a, b, j + 2, k, cur.push('\\'), acc);
            } else if j + 1 < k && b[j + 1] == ' ' {
                lemma_split_shift(a, b, j + 2, k, cur.push(' '), acc);
            } else {
                lemma_split_shift(a, b, j + 1, k, cur.push('\\'), acc);
            }
        } else if b[j] == ' ' {
            if cur.len() > 0 {
                lemma_split_shift(a, b, j + 1, k, Seq::empty(), acc.push(cur));
            } else {
                lemma_split_shift(a, b, j + 1, k, cur, acc);
            }
        } else {
            lemma_split_shift(a, b, j + 1, k, cur.push(b[j]), acc);
        }
    }
}

/// Screening adds no newline.
proof fn lemma_screen_no_newline(t: Seq<char>, i: int)
    requires
        0 <= i,
        forall|j: int| 0 <= j < t.len() ==> t[j] != '\n',
    ensures
        forall|j: int| 0 <= j < screen_from(t, i).len() ==> #[trigger] screen_from(t, i)[j]
            != '\n',
    decreases t.len() - i,
{
    if i < t.len() {
        lemma_screen_no_newline(t, i + 1);
        let chunk = screen_char(t[i]);
        let rest = screen_from(t, i + 1);
        assert forall|j: int| 0 <= j < screen_from(t, i).len() implies #[trigger] screen_from(
            t,
            i,
        )[j] != '\n' by {
            if j < chunk.len() {
                assert(screen_from(t, i)[j] == chunk[j]);
            } else {
                assert(screen_from(t, i)[j] == rest[j - chunk.len()]);
            }
        }
    }
}

/// Splitting a screened token from position `i` on closes the token
/// that `cur` has accumulated so far, extended by the rest of `t`.
proof fn lemma_split_screen_from(t: Seq<char>, i: int, cur: Seq<char>, acc: Seq<Seq<char>>)
    requires
        0 <= i <= t.len(),
    ensures
        split_rec(
            screen_from(t, i),
            0,
            screen_from(t, i).len() as int,
            cur,
            acc,
        ) == (if cur.len() + t.len() - i > 0 {
            acc.push(cur + t.subrange(i, t.len() as int))
        } else {
            acc
        }),
    decreases t.len() - i,
{
    if i == t.len() {
        assert(cur + t.subrange(i, t.len() as int) =~= cur);
    } else {
        let c = t[i];
        let chunk = screen_char(c);
        let rest = screen_from(t, i + 1);
        let whole = screen_from(t, i);
        assert(whole == chunk + rest);
        if c == '\\' {
            lemma_split_shift(chunk, rest, 0, rest.len() as int, cur.push('\\'), acc);
            lemma_split_screen_from(t, i + 1, cur.push('\\'), acc);
        } else if c == ' ' {
            lemma_split_shift(chunk, rest, 0, rest.len() as int, cur.push(' '), acc);
            lemma_split_screen_from(t, i + 1, cur.push(' '), acc);
        } else {
            lemma_split_shift(chunk, rest, 0, rest.len() as int, cur.push(c), acc);
            lemma_split_screen_from(t, i + 1, cur.push(c), acc);
        }
        assert(cur.push(c) + t.subrange(i + 1, t.len() as int) =~= cur + t.subrange(
            i,
            t.len() as int,
        ));
    }
}

/// Screening an argument and splitting the result gives the argument
/// back as the only token: the round trip behind rebuilding and
/// re-parsing a command string.
pub proof fn lemma_screen_split_round_trip(t: Seq<char>)
    requires
        t.len() > 0,
        forall|j: int| 0 <= j < t.len() ==> t[j] != '\n',
    ensures
        spec_split_args(spec_screen_spaces(t)) == seq![t],
{
    let screened = spec_screen_spaces(t);
    lemma_screen_no_newline(t, 0);
    lemma_line_end_no_newline(screened, 0);
    assert(arg_line_end(screened) == screened.len() as int);
    lemma_split_screen_from(t, 0, Seq::empty(), Seq::empty());
    assert(Seq::<char>::empty() + t.subrange(0, t.len() as int) =~= t);
    assert(spec_split_args(screened) =~= seq![t]);
}

/// A text without a newline has its line end at its length.
proof fn lemma_line_end_no_newline(s: Seq<char>, i: int)
    requires
        0 <= i,
        forall|j: int| 0 <= j < s.len() ==> s[j] != '\n',
    ensures
        line_end(s, i) == s.len() as int,
    decreases s.len() - i,
{
    if i < s.len() {
        lemma_line_end_no_newline(s, i + 1);
    }
}

/// Highest index below `i` at which a parameter is present, or -1.
pub open spec fn last_present(params: Seq<Option<String>>, i: int) -> int
    decreases i,
{
    if i <= 0 {
        -1
    } else if params[i - 1] is Some {
        i - 1
    } else {
        last_present(params, i - 1)
    }
}

/// Index of the last command part to emit: the last present
/// parameter for a partial command, the last placeholder for a
/// complete one; -1 when there is nothing to emit.
pub open spec fn spec_max_index(
    params: Seq<Option<String>>,
    nplace: int,
    complete: bool,
) -> int {
    if !complete {
        last_present(params, params.len() as int)
    } else {
        nplace - 1
    }
}

/// Text of the command part at `i`: the parameter when present, its
/// placeholder otherwise.
pub open spec fn part_text(
    params: Seq<Option<String>>,
    placeholders: Seq<String>,
    i: int,
) -> Seq<char> {
    match params[i] {
        Some(p) => p@,
        None => placeholders[i]@,
    }
}

/// The command string up to part `upto`: the slash-prefixed name,
/// then each part screened and preceded by one space.
pub open spec fn parts_text(
    name: Seq<char>,
    params: Seq<Option<String>>,
    placeholders: Seq<String>,
    upto: int,
) -> Seq<char>
    decreases upto + 1,
{
    if upto < 0 {
        seq!['/'] + name
    } else {
        parts_text(name, params, placeholders, upto - 1) + seq![' '] + spec_screen_spaces(
            part_text(params, placeholders, upto),
        )
    }
}

/// The whole command string, with a trailing space when placeholders
/// remain unfilled.
pub open spec fn spec_command_string(
    name: Seq<char>,
    params: Seq<Option<String>>,
    placeholders: Seq<String>,
    complete: bool,
) -> Seq<char> {
    let m = spec_max_index(params, placeholders.len() as int, complete);
    let joined = parts_text(name, params, placeholders, m);
    if m + 1 < placeholders.len() {
        joined + seq![' ']
    } else {
        joined
    }
}

/// A non-negative `last_present` index holds a parameter.
proof fn lemma_last_present_some(params: Seq<Option<String>>, i: int)
    requires
        0 <= i,
        last_present(params, i) >= 0,
    ensures
        params[last_present(params, i)] is Some,
    decreases i,
{
    if i > 0 && !(params[i - 1] is Some) {
        lemma_last_present_some(params, i - 1);
    }
}

/// Rebuilds a command string from a command's name, its parameters
/// and their placeholders.  A partial command stops after the last
/// parameter that is present; a complete one emits every placeholder
/// position.  Parts are screened so the result splits back into the
/// same arguments, and a trailing space is left when placeholders
/// remain unfilled.
pub fn to_command_string(
    name: &str,
    params: &Vec<Option<String>>,
    placeholders: &Vec<String>,
    complete: bool,
) -> (r: String)
    requires
        placeholders@.len() <= params@.len(),
        forall|j: int| 0 <= j < params@.len() && params@[j] is Some ==> j < placeholders@.len(),
    ensures
        r@ == spec_command_string(name@, params@, placeholders@, complete),
{
    let np = params.len();
    let npl = placeholders.len();
    let mut max_opt: Option<usize> = None;
    if !complete {
        let mut j: usize = 0;
        while j < np
            invariant
                0 <= j <= np,
                np == params@.len(),
                match max_opt {
                    Some(v) => last_present(params@, j as int) == v as int && (v as int) < np,
                    None => last_present(params@, j as int) == -1,
                },
            decreases np - j,
        {
            if params[j].is_some() {
                max_opt = Some(j);
            }
            j = j + 1;
        }
    } else {
        if npl == 0 {
            max_opt = None;
        } else {
            max_opt = Some(npl - 1);
        }
    }
    let ghost m = spec_max_index(params@, placeholders@.len() as int, complete);
    proof {
        match max_opt {
            Some(v) => {
                assert(m == v as int);
            },
            None => {
                assert(m == -1);
            },
        }
    }
    let mut out = String::new();
    push_char(&mut out, '/');
    out.append(name);
    proof {
        assert(out@ =~= seq!['/'] + name@);
    }
    match max_opt {
        None => {},
        Some(mx) => {
            proof {
                if !complete {
                    lemma_last_present_some(params@, params@.len() as int);
                    assert(params@[mx as int] is Some);
                }
                assert((mx as int) < npl as int);
            }
            let mut i: usize = 0;
            while i <= mx
                invariant
                    np == params@.len(),
                    npl == placeholders@.len(),
                    npl <= np,
                    (mx as int) < npl as int,
                    0 <= i <= mx + 1,
                    out@ == parts_text(name@, params@, placeholders@, i as int - 1),
                decreases mx - i + 1,
            {
                let ghost pre = out@;
                push_char(&mut out, ' ');
                let screened = match &params[i] {
                    Some(p) => screen_spaces(p.as_str()),
                    None => screen_spaces(placeholders[i].as_str()),
                };
                out.append(screened.as_str());
                proof {
                    assert(out@ =~= parts_text(name@, params@, placeholders@, i as int));
                }
                i = i + 1;
            }
        },
    }
    let needs_trailing = match max_opt {
        None => npl > 0,
        Some(mx) => mx + 1 < npl,
    };
    if needs_trailing {
        let ghost pre = out@;
        push_char(&mut out, ' ');
        proof {
            assert(out@ =~= pre + seq![' ']);
        }
    }
    out
}

/// Callback data that cannot ride on the button itself: longer than
/// the transport's 64-byte limit, or not pure ASCII.  Such data is
/// stored behind a short reference instead.
pub fn callback_data_needs_storage(data: &str) -> (r: bool)
    ensures
        r == (data.spec_bytes().len() as usize > 64 || !vstd::string::is_ascii(data)),
{
    data.len() > 64 || !data.is_ascii()
}

/// Whether a callback payload is a storage reference: it starts with
/// the `cb:` prefix that stored references carry.
pub fn is_storage_reference(callback_data: &str) -> (r: bool)
    ensures
        r == (callback_data@.len() >= 3 && callback_data@.subrange(0, 3) == "cb:"@),
{
    proof {
        reveal_strlit("cb:");
    }
    let n = callback_data.unicode_len();
    if n >= 3 {
        let r = callback_data.get_char(0) == 'c' && callback_data.get_char(1) == 'b'
            && callback_data.get_char(2) == ':';
        proof {
            if r {
                assert(callback_data@.subrange(0, 3) =~= "cb:"@);
            } else {
                assert(callback_data@.subrange(0, 3)[0] == callback_data@[0]);
                assert(callback_data@.subrange(0, 3)[1] == callback_data@[1]);
                assert(callback_data@.subrange(0, 3)[2] == callback_data@[2]);
            }
        }
        r
    } else {
        false
    }
}

} // verus!
