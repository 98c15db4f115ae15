//! Building text output: escaping for DOT and JSON string literals and
//! lowercase hexadecimal.
use vstd::prelude::*;

verus! {

/// The concatenation of `f` over the items of `s`.
pub open spec fn join_all<A>(s: Seq<A>, f: spec_fn(A) -> Seq<char>) -> Seq<char>
    decreases s.len(),
{
    if s.len() == 0 {
        Seq::empty()
    } else {
        join_all(s.drop_last(), f) + f(s.last())
    }
}

/// One more item extends `join_all` by its text.
pub proof fn lemma_join_all_step<A>(s: Seq<A>, i: int, f: spec_fn(A) -> Seq<char>)
    requires
        0 <= i < s.len(),
    ensures
        join_all(s.take(i + 1), f) == join_all(s.take(i), f) + f(s[i]),
{
    assert(s.take(i + 1).drop_last() == s.take(i));
}

/// How DOT label text escapes one character: backslash and double quote get
/// a backslash, a newline becomes `\n`.
pub open spec fn dot_escape_char(c: char) -> Seq<char> {
    if c == '\\' {
        seq!['\\', '\\']
    } else if c == '"' {
        seq!['\\', '"']
    } else if c == '\n' {
        seq!['\\', 'n']
    } else {
        seq![c]
    }
}

/// How DOT label text escapes one character when newlines are kept.
pub open spec fn dot_escape_char_keep_newline(c: char) -> Seq<char> {
    if c == '\\' {
        seq!['\\', '\\']
    } else if c == '"' {
        seq!['\\', '"']
    } else {
        seq![c]
    }
}

/// `s` with every character escaped by `f`.
pub open spec fn escape_with(s: Seq<char>, f: spec_fn(char) -> Seq<char>) -> Seq<char> {
    join_all(s, f)
}

/// Appends `s` escaped for a DOT label; with `newlines`, newlines become `\n`
/// too.
pub fn push_dot_escaped(out: &mut Vec<char>, s: &[char], newlines: bool)
    ensures
        final(out)@ == old(out)@ + escape_with(
            s@,
            if newlines {
                |c: char| dot_escape_char(c)
            } else {
                |c: char| dot_escape_char_keep_newline(c)
            },
        ),
{
    let ghost f = if newlines {
        |c: char| dot_escape_char(c)
    } else {
        |c: char| dot_escape_char_keep_newline(c)
    };
    let mut i: usize = 0;
    while i < s.len()
        invariant
            i <= s@.len(),
            f == (if newlines {
                |c: char| dot_escape_char(c)
            } else {
                |c: char| dot_escape_char_keep_newline(c)
            }),
            out@ == old(out)@ + join_all(s@.take(i as int), f),
        decreases s@.len() - i,
    {
        proof { lemma_join_all_step(s@, i as int, f); }
        let c = s[i];
        if c == '\\' {
            out.push('\\');
            out.push('\\');
        } else if c == '"' {
            out.push('\\');
            out.push('"');
        } else if c == '\n' && newlines {
            out.push('\\');
            out.push('n');
        } else {
            out.push(c);
        }
        assert(out@ =~= old(out)@ + join_all(s@.take(i + 1), f));
        i += 1;
    }
    assert(s@.take(s@.len() as int) == s@);
}

/// A control character (Unicode general category Cc): U+0000 to U+001F and
/// U+007F to U+009F.
pub open spec fn is_control(c: char) -> bool {
    (c as u32) <= 0x1f || (0x7f <= (c as u32) && (c as u32) <= 0x9f)
}

/// The lowercase hexadecimal digit for `d` (`0 <= d < 16`).
pub open spec fn hex_digit(d: int) -> char {
    if d < 10 {
        ((d + 48) as u32) as char
    } else {
        ((d - 10 + 97) as u32) as char
    }
}

/// `n` (below 0x10000) as four lowercase hexadecimal digits.
pub open spec fn hex4(n: int) -> Seq<char> {
    seq![
        hex_digit((n / 4096) % 16),
        hex_digit((n / 256) % 16),
        hex_digit((n / 16) % 16),
        hex_digit(n % 16),
    ]
}

/// `b` as two lowercase hexadecimal digits.
pub open spec fn hex2(b: u8) -> Seq<char> {
    seq![hex_digit((b / 16) as int), hex_digit((b % 16) as int)]
}

/// The lowercase hexadecimal digit for `d`.
pub fn hex_digit_exec(d: u32) -> (c: char)
    requires
        d < 16,
    ensures
        c == hex_digit(d as int),
{
    if d < 10 {
        let v: u8 = (d + 48) as u8;
        v as char
    } else {
        let v: u8 = (d - 10 + 97) as u8;
        v as char
    }
}

/// Appends `b` as two lowercase hexadecimal digits.
pub fn push_hex2(out: &mut Vec<char>, b: u8)
    ensures
        final(out)@ == old(out)@ + hex2(b),
{
    out.push(hex_digit_exec((b / 16) as u32));
    out.push(hex_digit_exec((b % 16) as u32));
    assert(out@ =~= old(out)@ + hex2(b));
}

/// How a JSON string literal escapes one character.
pub open spec fn json_escape_char(c: char) -> Seq<char> {
    if c == '"' {
        seq!['\\', '"']
    } else if c == '\\' {
        seq!['\\', '\\']
    } else if c == '\n' {
        seq!['\\', 'n']
    } else if c == '\r' {
        seq!['\\', 'r']
    } else if c == '\t' {
        seq!['\\', 't']
    } else if is_control(c) {
        seq!['\\', 'u'] + hex4(c as u32 as int)
    } else {
        seq![c]
    }
}

/// `s` as a JSON string literal, in double quotes.
pub open spec fn json_quoted(s: Seq<char>) -> Seq<char> {
    seq!['"'] + escape_with(s, |c: char| json_escape_char(c)) + seq!['"']
}

/// Appends `s` as a JSON string literal.
pub fn push_json_escaped(out: &mut Vec<char>, s: &[char])
    ensures
        final(out)@ == old(out)@ + json_quoted(s@),
{
    let ghost f = |c: char| json_escape_char(c);
    out.push('"');
    let ghost start = out@;
    let mut i: usize = 0;
    while i < s.len()
        invariant
            i <= s@.len(),
            f == (|c: char| json_escape_char(c)),
            start == old(out)@.push('"'),
            out@ == start + join_all(s@.take(i as int), f),
        decreases s@.len() - i,
    {
        proof { lemma_join_all_step(s@, i as int, f); }
        let c = s[i];
        let ghost before = out@;
        if c == '"' {
            out.push('\\');
            out.push('"');
        } else if c == '\\' {
            out.push('\\');
            out.push('\\');
        } else if c == '\n' {
            out.push('\\');
            out.push('n');
        } else if c == '\r' {
            out.push('\\');
            out.push('r');
        } else if c == '\t' {
            out.push('\\');
            out.push('t');
        } else {
            let v: u32 = c as u32;
            if v <= 0x1f || (0x7f <= v && v <= 0x9f) {
                out.push('\\');
                out.push('u');
                out.push(hex_digit_exec((v / 4096) % 16));
                out.push(hex_digit_exec((v / 256) % 16));
                out.push(hex_digit_exec((v / 16) % 16));
                out.push(hex_digit_exec(v % 16));
                assert(out@ =~= before + json_escape_char(c));
            } else {
                out.push(c);
            }
        }
        assert(out@ =~= before + json_escape_char(c));
        assert(out@ =~= start + join_all(s@.take(i + 1), f));
        i += 1;
    }
    assert(s@.take(s@.len() as int) == s@);
    out.push('"');
    assert(out@ =~= old(out)@ + json_quoted(s@));
}

/// Appends `s` (a string slice) as a JSON string literal.
pub fn push_json_str(out: &mut Vec<char>, s: &str)
    ensures
        final(out)@ == old(out)@ + json_quoted(s@),
{
    let cs = crate::text::chars_of(s);
    push_json_escaped(out, cs.as_slice());
}

/// The texts `f` gives for the items of `s`, with `sep` between them.
pub open spec fn join_sep<A>(s: Seq<A>, f: spec_fn(A) -> Seq<char>, sep: Seq<char>) -> Seq<char>
    decreases s.len(),
{
    if s.len() == 0 {
        Seq::empty()
    } else if s.len() == 1 {
        f(s[0])
    } else {
        join_sep(s.drop_last(), f, sep) + sep + f(s.last())
    }
}

/// One more item extends `join_sep` by a separator (unless it is the first)
/// and its text.
pub proof fn lemma_join_sep_step<A>(s: Seq<A>, i: int, f: spec_fn(A) -> Seq<char>, sep: Seq<char>)
    requires
        0 <= i < s.len(),
    ensures
        join_sep(s.take(i + 1), f, sep) == join_sep(s.take(i), f, sep) + (if i > 0 {
            sep
        } else {
            Seq::empty()
        }) + f(s[i]),
{
    assert(s.take(i + 1).drop_last() == s.take(i));
    if i == 0 {
        assert(s.take(1)[0] == s[0]);
        assert(join_sep(s.take(0), f, sep) == Seq::<char>::empty());
    }
}

} // verus!
