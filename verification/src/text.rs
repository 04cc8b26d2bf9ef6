//! Canonical source text of literal values and literal types.
//!
//! Every resolved value has one textual form, used both as the canonical
//! spelling of the literal in the emitted conversions and as the normal
//! form that duplicate detection is independent of source formatting by.

use vstd::prelude::*;
use vstd::string::{StrSliceExecFns, StringExecFns};
use crate::schema::{IntWidth, LiteralType};
use crate::value::{Value, ValueView};

verus! {

/// Relies on String::push: it appends the given character to the end of
/// the string.
#[verifier::external_body]
fn push_char(s: &mut String, c: char)
    ensures
        final(s)@ == old(s)@.push(c),
{
    s.push(c);
}

/// The hexadecimal digit of a value below sixteen, in lower case.
pub open spec fn hex_digit(d: int) -> char {
    if d < 10 {
        ((48 + d) as u8) as char
    } else {
        ((87 + d) as u8) as char
    }
}

/// The decimal digits of an integer.
pub open spec fn dec_text(n: int) -> Seq<char>
    decreases n,
{
    if n < 10 {
        seq![((48 + if n < 0 { 0 } else { n }) as u8) as char]
    } else {
        dec_text(n / 10).push(((48 + n % 10) as u8) as char)
    }
}

/// Executable counterpart of [`dec_text`].
pub fn dec_string(n: u128) -> (s: String)
    ensures
        s@ == dec_text(n as int),
    decreases n,
{
    if n < 10 {
        let mut s = String::new();
        push_char(&mut s, ((48 + n) as u8) as char);
        proof {
            assert(s@ =~= dec_text(n as int));
        }
        s
    } else {
        let mut s = dec_string(n / 10);
        push_char(&mut s, ((48 + (n % 10)) as u8) as char);
        s
    }
}

/// The escape of one character inside a double-quoted text literal: the
/// quote, the backslash and the common control characters are escaped,
/// every other character stands for itself.
pub open spec fn esc_dq(c: char) -> Seq<char> {
    if c == '"' {
        "\\\""@
    } else if c == '\\' {
        "\\\\"@
    } else if c == '\n' {
        "\\n"@
    } else if c == '\r' {
        "\\r"@
    } else if c == '\t' {
        "\\t"@
    } else if c == '\0' {
        "\\0"@
    } else {
        seq![c]
    }
}

/// The escape of one character inside a single-quoted character literal.
pub open spec fn esc_sq(c: char) -> Seq<char> {
    if c == '\'' {
        "\\'"@
    } else if c == '\\' {
        "\\\\"@
    } else if c == '\n' {
        "\\n"@
    } else if c == '\r' {
        "\\r"@
    } else if c == '\t' {
        "\\t"@
    } else if c == '\0' {
        "\\0"@
    } else {
        seq![c]
    }
}

/// The escape of one byte inside a double-quoted byte-string or C-string
/// literal: besides the escapes of text literals, every byte outside the
/// printable range stands as a two-digit hexadecimal escape.
pub open spec fn esc_bq(b: u8) -> Seq<char> {
    if b == 34 {
        "\\\""@
    } else if b == 92 {
        "\\\\"@
    } else if b == 10 {
        "\\n"@
    } else if b == 13 {
        "\\r"@
    } else if b == 9 {
        "\\t"@
    } else if b == 0 {
        "\\0"@
    } else if 32 <= b && b < 127 {
        seq![b as char]
    } else {
        "\\x"@ + seq![hex_digit(b as int / 16), hex_digit(b as int % 16)]
    }
}

/// The escape of one byte inside a single-quoted byte literal.
pub open spec fn esc_bsq(b: u8) -> Seq<char> {
    if b == 39 {
        "\\'"@
    } else if b == 92 {
        "\\\\"@
    } else if b == 10 {
        "\\n"@
    } else if b == 13 {
        "\\r"@
    } else if b == 9 {
        "\\t"@
    } else if b == 0 {
        "\\0"@
    } else if 32 <= b && b < 127 {
        seq![b as char]
    } else {
        "\\x"@ + seq![hex_digit(b as int / 16), hex_digit(b as int % 16)]
    }
}

/// The body of a double-quoted text literal: each character escaped.
pub open spec fn escape_chars(s: Seq<char>) -> Seq<char>
    decreases s.len(),
{
    if s.len() == 0 {
        Seq::empty()
    } else {
        escape_chars(s.drop_last()) + esc_dq(s.last())
    }
}

/// The body of a double-quoted byte-string literal: each byte escaped.
pub open spec fn escape_bytes(s: Seq<u8>) -> Seq<char>
    decreases s.len(),
{
    if s.len() == 0 {
        Seq::empty()
    } else {
        escape_bytes(s.drop_last()) + esc_bq(s.last())
    }
}

/// Append the escape of one text-literal character.
fn push_esc_dq(out: &mut String, c: char)
    ensures
        final(out)@ == old(out)@ + esc_dq(c),
{
    if c == '"' {
        out.append("\\\"");
    } else if c == '\\' {
        out.append("\\\\");
    } else if c == '\n' {
        out.append("\\n");
    } else if c == '\r' {
        out.append("\\r");
    } else if c == '\t' {
        out.append("\\t");
    } else if c == '\0' {
        out.append("\\0");
    } else {
        push_char(out, c);
        proof {
            assert(old(out)@.push(c) =~= old(out)@ + seq![c]);
        }
    }
}

/// Append the escape of one character-literal character.
fn push_esc_sq(out: &mut String, c: char)
    ensures
        final(out)@ == old(out)@ + esc_sq(c),
{
    if c == '\'' {
        out.append("\\'");
    } else if c == '\\' {
        out.append("\\\\");
    } else if c == '\n' {
        out.append("\\n");
    } else if c == '\r' {
        out.append("\\r");
    } else if c == '\t' {
        out.append("\\t");
    } else if c == '\0' {
        out.append("\\0");
    } else {
        push_char(out, c);
        proof {
            assert(old(out)@.push(c) =~= old(out)@ + seq![c]);
        }
    }
}

/// Append a two-digit hexadecimal escape of a byte.
fn push_hex(out: &mut String, b: u8)
    ensures
        final(out)@ == old(out)@ + "\\x"@ + seq![
            hex_digit(b as int / 16),
            hex_digit(b as int % 16),
        ],
{
    out.append("\\x");
    let hi = b / 16;
    let lo = b % 16;
    let hc: char = if hi < 10 {
        (48 + hi) as char
    } else {
        (87 + hi) as char
    };
    let lc: char = if lo < 10 {
        (48 + lo) as char
    } else {
        (87 + lo) as char
    };
    push_char(out, hc);
    push_char(out, lc);
    proof {
        assert(hc == hex_digit(b as int / 16));
        assert(lc == hex_digit(b as int % 16));
        assert(final(out)@ =~= old(out)@ + "\\x"@ + seq![
            hex_digit(b as int / 16),
            hex_digit(b as int % 16),
        ]);
    }
}

/// Append the escape of one byte-string byte.
fn push_esc_bq(out: &mut String, b: u8)
    ensures
        final(out)@ == old(out)@ + esc_bq(b),
{
    if b == 34 {
        out.append("\\\"");
    } else if b == 92 {
        out.append("\\\\");
    } else if b == 10 {
        out.append("\\n");
    } else if b == 13 {
        out.append("\\r");
    } else if b == 9 {
        out.append("\\t");
    } else if b == 0 {
        out.append("\\0");
    } else if 32 <= b && b < 127 {
        push_char(out, b as char);
        proof {
            assert(old(out)@.push(b as char) =~= old(out)@ + seq![b as char]);
        }
    } else {
        push_hex(out, b);
    }
}

/// Append the escape of one byte-literal byte.
fn push_esc_bsq(out: &mut String, b: u8)
    ensures
        final(out)@ == old(out)@ + esc_bsq(b),
{
    if b == 39 {
        out.append("\\'");
    } else if b == 92 {
        out.append("\\\\");
    } else if b == 10 {
        out.append("\\n");
    } else if b == 13 {
        out.append("\\r");
    } else if b == 9 {
        out.append("\\t");
    } else if b == 0 {
        out.append("\\0");
    } else if 32 <= b && b < 127 {
        push_char(out, b as char);
        proof {
            assert(old(out)@.push(b as char) =~= old(out)@ + seq![b as char]);
        }
    } else {
        push_hex(out, b);
    }
}

/// Append the escaped body of a text literal.
fn push_escaped_chars(out: &mut String, s: &String)
    ensures
        final(out)@ == old(out)@ + escape_chars(s@),
{
    let n = s.as_str().unicode_len();
    let mut i: usize = 0;
    while i < n
        invariant
            i <= n,
            n == s@.len(),
            out@ == old(out)@ + escape_chars(s@.subrange(0, i as int)),
        decreases n - i,
    {
        let c = s.as_str().get_char(i);
        push_esc_dq(out, c);
        proof {
            let pre = s@.subrange(0, i as int);
            let cur = s@.subrange(0, i + 1);
            assert(cur.drop_last() =~= pre);
            assert(cur.last() == s@[i as int]);
            assert(out@ =~= old(out)@ + escape_chars(cur));
        }
        i += 1;
    }
    proof {
        assert(s@.subrange(0, n as int) =~= s@);
    }
}

/// Append the escaped body of a byte-string literal.
fn push_escaped_bytes(out: &mut String, s: &Vec<u8>)
    ensures
        final(out)@ == old(out)@ + escape_bytes(s@),
{
    let n = s.len();
    let mut i: usize = 0;
    while i < n
        invariant
            i <= n,
            n == s@.len(),
            out@ == old(out)@ + escape_bytes(s@.subrange(0, i as int)),
        decreases n - i,
    {
        push_esc_bq(out, s[i]);
        proof {
            let pre = s@.subrange(0, i as int);
            let cur = s@.subrange(0, i + 1);
            assert(cur.drop_last() =~= pre);
            assert(cur.last() == s@[i as int]);
            assert(out@ =~= old(out)@ + escape_bytes(cur));
        }
        i += 1;
    }
    proof {
        assert(s@.subrange(0, n as int) =~= s@);
    }
}

/// The canonical source text of a resolved literal value.
pub open spec fn value_text(v: ValueView) -> Seq<char> {
    match v {
        ValueView::Str(s) => seq!['"'] + escape_chars(s) + seq!['"'],
        ValueView::Bytes(b) => "b\""@ + escape_bytes(b) + seq!['"'],
        ValueView::CBytes(b) => "c\""@ + escape_bytes(b) + seq!['"'],
        ValueView::Byte(b) => "b'"@ + esc_bsq(b) + seq!['\''],
        ValueView::Char(c) => seq!['\''] + esc_sq(c) + seq!['\''],
        ValueView::Int(n) => dec_text(n as int),
        ValueView::Bool(b) => if b {
            "true"@
        } else {
            "false"@
        },
    }
}

/// Append the canonical source text of a value.
pub fn push_value_text(out: &mut String, v: &Value)
    ensures
        final(out)@ == old(out)@ + value_text(v@),
{
    match v {
        Value::Str(s) => {
            push_char(out, '"');
            proof {
                assert(out@ =~= old(out)@ + seq!['"']);
            }
            push_escaped_chars(out, s);
            push_char(out, '"');
            proof {
                assert(out@ =~= old(out)@ + (seq!['"'] + escape_chars(s@) + seq!['"']));
            }
        },
        Value::Bytes(b) => {
            out.append("b\"");
            push_escaped_bytes(out, b);
            push_char(out, '"');
            proof {
                assert(out@ =~= old(out)@ + ("b\""@ + escape_bytes(b@) + seq!['"']));
            }
        },
        Value::CBytes(b) => {
            out.append("c\"");
            push_escaped_bytes(out, b);
            push_char(out, '"');
            proof {
                assert(out@ =~= old(out)@ + ("c\""@ + escape_bytes(b@) + seq!['"']));
            }
        },
        Value::Byte(b) => {
            out.append("b'");
            push_esc_bsq(out, *b);
            push_char(out, '\'');
            proof {
                assert(out@ =~= old(out)@ + ("b'"@ + esc_bsq(*b) + seq!['\'']));
            }
        },
        Value::Char(c) => {
            push_char(out, '\'');
            proof {
                assert(out@ =~= old(out)@ + seq!['\'']);
            }
            push_esc_sq(out, *c);
            push_char(out, '\'');
            proof {
                assert(out@ =~= old(out)@ + (seq!['\''] + esc_sq(*c) + seq!['\'']));
            }
        },
        Value::Int(n) => {
            let d = dec_string(*n);
            out.append(d.as_str());
        },
        Value::Bool(b) => {
            if *b {
                out.append("true");
            } else {
                out.append("false");
            }
        },
    }
}

/// [`escape_chars`], taken apart at the front instead of the back.
proof fn lemma_escape_chars_front(s: Seq<char>)
    requires
        s.len() > 0,
    ensures
        escape_chars(s) == esc_dq(s[0]) + escape_chars(s.drop_first()),
    decreases s.len(),
{
    if s.len() == 1 {
        assert(s.drop_last() =~= Seq::<char>::empty());
        assert(s.drop_first() =~= Seq::<char>::empty());
        assert(escape_chars(s) =~= esc_dq(s[0]) + escape_chars(s.drop_first()));
    } else {
        let b = s.drop_last();
        lemma_escape_chars_front(b);
        assert(b.drop_first() =~= s.drop_first().drop_last());
        assert(s.drop_first().last() == s.last());
        assert(escape_chars(s) =~= esc_dq(s[0]) + escape_chars(s.drop_first()));
    }
}

/// The character a text-literal escape code stands for.
spec fn unesc_dq(c: char) -> char {
    if c == 'n' {
        '\n'
    } else if c == 'r' {
        '\r'
    } else if c == 't' {
        '\t'
    } else if c == '0' {
        '\0'
    } else {
        c
    }
}

/// Decode the body of a double-quoted text literal.
spec fn unescape_chars(e: Seq<char>) -> Seq<char>
    decreases e.len(),
{
    if e.len() == 0 {
        Seq::empty()
    } else if e[0] == '\\' && e.len() >= 2 {
        seq![unesc_dq(e[1])] + unescape_chars(e.subrange(2, e.len() as int))
    } else {
        seq![e[0]] + unescape_chars(e.drop_first())
    }
}

/// Decoding inverts escaping, so the escaped body determines the text.
proof fn lemma_unescape_escape_chars(s: Seq<char>)
    ensures
        unescape_chars(escape_chars(s)) == s,
    decreases s.len(),
{
    reveal_strlit("\\\"");
    reveal_strlit("\\\\");
    reveal_strlit("\\n");
    reveal_strlit("\\r");
    reveal_strlit("\\t");
    reveal_strlit("\\0");
    if s.len() > 0 {
        lemma_escape_chars_front(s);
        lemma_unescape_escape_chars(s.drop_first());
        let c = s[0];
        let e = escape_chars(s);
        let rest = escape_chars(s.drop_first());
        if c == '"' || c == '\\' || c == '\n' || c == '\r' || c == '\t' || c == '\0' {
            assert(esc_dq(c).len() == 2 && esc_dq(c)[0] == '\\');
            assert(e[0] == '\\');
            assert(e[1] == esc_dq(c)[1]);
            assert(unesc_dq(e[1]) == c);
            assert(e.subrange(2, e.len() as int) =~= rest);
            assert(unescape_chars(e) =~= s);
        } else {
            assert(esc_dq(c) =~= seq![c]);
            assert(e[0] == c && c != '\\');
            assert(e.drop_first() =~= rest);
            assert(unescape_chars(e) =~= s);
        }
    } else {
        assert(escape_chars(s) =~= Seq::<char>::empty());
    }
}

/// Two texts with the same escaped body are the same text.
proof fn lemma_escape_chars_injective(s1: Seq<char>, s2: Seq<char>)
    requires
        escape_chars(s1) == escape_chars(s2),
    ensures
        s1 == s2,
{
    lemma_unescape_escape_chars(s1);
    lemma_unescape_escape_chars(s2);
}

/// [`escape_bytes`], taken apart at the front instead of the back.
proof fn lemma_escape_bytes_front(s: Seq<u8>)
    requires
        s.len() > 0,
    ensures
        escape_bytes(s) == esc_bq(s[0]) + escape_bytes(s.drop_first()),
    decreases s.len(),
{
    if s.len() == 1 {
        assert(s.drop_last() =~= Seq::<u8>::empty());
        assert(s.drop_first() =~= Seq::<u8>::empty());
        assert(escape_bytes(s) =~= esc_bq(s[0]) + escape_bytes(s.drop_first()));
    } else {
        let b = s.drop_last();
        lemma_escape_bytes_front(b);
        assert(b.drop_first() =~= s.drop_first().drop_last());
        assert(s.drop_first().last() == s.last());
        assert(escape_bytes(s) =~= esc_bq(s[0]) + escape_bytes(s.drop_first()));
    }
}

/// The byte a byte-string escape code stands for.
spec fn unesc_bq(c: char) -> u8 {
    if c == 'n' {
        10
    } else if c == 'r' {
        13
    } else if c == 't' {
        9
    } else if c == '0' {
        0
    } else if c == '"' {
        34
    } else {
        92
    }
}

/// The value of a lower-case hexadecimal digit.
spec fn unhex(c: char) -> int {
    if c as u32 >= 97 {
        c as u32 - 87
    } else {
        c as u32 - 48
    }
}

/// Decode the body of a double-quoted byte-string literal.
spec fn unescape_bytes(e: Seq<char>) -> Seq<u8>
    decreases e.len(),
{
    if e.len() == 0 {
        Seq::empty()
    } else if e[0] == '\\' && e.len() >= 4 && e[1] == 'x' {
        seq![(unhex(e[2]) * 16 + unhex(e[3])) as u8] + unescape_bytes(
            e.subrange(4, e.len() as int),
        )
    } else if e[0] == '\\' && e.len() >= 2 {
        seq![unesc_bq(e[1])] + unescape_bytes(e.subrange(2, e.len() as int))
    } else {
        seq![e[0] as u8] + unescape_bytes(e.drop_first())
    }
}

/// Decoding inverts escaping, so the escaped body determines the bytes.
proof fn lemma_unescape_escape_bytes(s: Seq<u8>)
    ensures
        unescape_bytes(escape_bytes(s)) == s,
    decreases s.len(),
{
    reveal_strlit("\\\"");
    reveal_strlit("\\\\");
    reveal_strlit("\\n");
    reveal_strlit("\\r");
    reveal_strlit("\\t");
    reveal_strlit("\\0");
    reveal_strlit("\\x");
    if s.len() > 0 {
        lemma_escape_bytes_front(s);
        lemma_unescape_escape_bytes(s.drop_first());
        let b = s[0];
        let e = escape_bytes(s);
        let rest = escape_bytes(s.drop_first());
        if b == 34 || b == 92 || b == 10 || b == 13 || b == 9 || b == 0 {
            assert(esc_bq(b).len() == 2 && esc_bq(b)[0] == '\\' && esc_bq(b)[1] != 'x');
            assert(e[0] == '\\' && e[1] == esc_bq(b)[1]);
            assert(unesc_bq(e[1]) == b);
            assert(e.subrange(2, e.len() as int) =~= rest);
            assert(unescape_bytes(e) =~= s);
        } else if 32 <= b && b < 127 {
            assert(esc_bq(b) =~= seq![b as char]);
            assert(e[0] == b as char && e[0] != '\\');
            assert(e.drop_first() =~= rest);
            assert(unescape_bytes(e) =~= s);
        } else {
            let hi = b as int / 16;
            let lo = b as int % 16;
            assert(esc_bq(b) =~= seq!['\\', 'x', hex_digit(hi), hex_digit(lo)]);
            assert(e[0] == '\\' && e[1] == 'x');
            assert(unhex(hex_digit(hi)) == hi);
            assert(unhex(hex_digit(lo)) == lo);
            assert((unhex(e[2]) * 16 + unhex(e[3])) as u8 == b);
            assert(e.subrange(4, e.len() as int) =~= rest);
            assert(unescape_bytes(e) =~= s);
        }
    } else {
        assert(escape_bytes(s) =~= Seq::<char>::empty());
    }
}

/// Two byte sequences with the same escaped body are the same.
proof fn lemma_escape_bytes_injective(s1: Seq<u8>, s2: Seq<u8>)
    requires
        escape_bytes(s1) == escape_bytes(s2),
    ensures
        s1 == s2,
{
    lemma_unescape_escape_bytes(s1);
    lemma_unescape_escape_bytes(s2);
}

/// A decimal rendering is never empty.
proof fn lemma_dec_text_len(n: int)
    requires
        n >= 0,
    ensures
        dec_text(n).len() >= 1,
    decreases n,
{
}

/// Two integers with the same decimal rendering are equal.
proof fn lemma_dec_text_injective(a: int, b: int)
    requires
        a >= 0,
        b >= 0,
        dec_text(a) == dec_text(b),
    ensures
        a == b,
    decreases a,
{
    if a < 10 && b < 10 {
        assert(dec_text(a) == seq![((48 + a) as u8) as char]);
        assert(dec_text(b) == seq![((48 + b) as u8) as char]);
        assert(dec_text(a)[0] == ((48 + a) as u8) as char);
        assert(dec_text(b)[0] == ((48 + b) as u8) as char);
        assert(((48 + a) as u8) as char == ((48 + b) as u8) as char);
        assert((((48 + a) as u8) as char) as u32 == 48 + a);
        assert((((48 + b) as u8) as char) as u32 == 48 + b);
    } else if a < 10 {
        lemma_dec_text_len(b / 10);
        assert(dec_text(b) == dec_text(b / 10).push(((48 + b % 10) as u8) as char));
        assert(dec_text(a).len() == 1 && dec_text(b).len() >= 2);
    } else if b < 10 {
        lemma_dec_text_len(a / 10);
        assert(dec_text(a) == dec_text(a / 10).push(((48 + a % 10) as u8) as char));
        assert(dec_text(b).len() == 1 && dec_text(a).len() >= 2);
    } else {
        assert(dec_text(a) == dec_text(a / 10).push(((48 + a % 10) as u8) as char));
        assert(dec_text(b) == dec_text(b / 10).push(((48 + b % 10) as u8) as char));
        assert(dec_text(a).last() == ((48 + a % 10) as u8) as char);
        assert(dec_text(b).last() == ((48 + b % 10) as u8) as char);
        assert(dec_text(a).last() == dec_text(b).last());
        assert((((48 + a % 10) as u8) as char) as u32 == 48 + a % 10);
        assert((((48 + b % 10) as u8) as char) as u32 == 48 + b % 10);
        assert(a % 10 == b % 10);
        assert(dec_text(a).drop_last() =~= dec_text(a / 10));
        assert(dec_text(b).drop_last() =~= dec_text(b / 10));
        lemma_dec_text_injective(a / 10, b / 10);
    }
}

/// Two characters with the same character-literal escape are equal.
proof fn lemma_esc_sq_injective(c1: char, c2: char)
    requires
        esc_sq(c1) == esc_sq(c2),
    ensures
        c1 == c2,
{
    reveal_strlit("\\'");
    reveal_strlit("\\\\");
    reveal_strlit("\\n");
    reveal_strlit("\\r");
    reveal_strlit("\\t");
    reveal_strlit("\\0");
    let e1 = esc_sq(c1);
    let e2 = esc_sq(c2);
    let esc1 = c1 == '\'' || c1 == '\\' || c1 == '\n' || c1 == '\r' || c1 == '\t' || c1 == '\0';
    let esc2 = c2 == '\'' || c2 == '\\' || c2 == '\n' || c2 == '\r' || c2 == '\t' || c2 == '\0';
    if esc1 && esc2 {
        assert(e1[1] == e2[1]);
    } else if !esc1 && !esc2 {
        assert(e1 == seq![c1] && e2 == seq![c2]);
        assert(e1[0] == e2[0]);
    } else if esc1 {
        assert(e1.len() == 2 && e2.len() == 1);
    } else {
        assert(e1.len() == 1 && e2.len() == 2);
    }
}

/// Two bytes with the same byte-literal escape are equal.
proof fn lemma_esc_bsq_injective(b1: u8, b2: u8)
    requires
        esc_bsq(b1) == esc_bsq(b2),
    ensures
        b1 == b2,
{
    reveal_strlit("\\'");
    reveal_strlit("\\\\");
    reveal_strlit("\\n");
    reveal_strlit("\\r");
    reveal_strlit("\\t");
    reveal_strlit("\\0");
    reveal_strlit("\\x");
    let e1 = esc_bsq(b1);
    let e2 = esc_bsq(b2);
    let cls1: int = if b1 == 39 || b1 == 92 || b1 == 10 || b1 == 13 || b1 == 9 || b1 == 0 {
        2
    } else if 32 <= b1 && b1 < 127 {
        1
    } else {
        4
    };
    let cls2: int = if b2 == 39 || b2 == 92 || b2 == 10 || b2 == 13 || b2 == 9 || b2 == 0 {
        2
    } else if 32 <= b2 && b2 < 127 {
        1
    } else {
        4
    };
    assert(e1.len() == cls1 && e2.len() == cls2);
    if cls1 == 2 && cls2 == 2 {
        assert(e1[1] == e2[1]);
    } else if cls1 == 1 && cls2 == 1 {
        assert(e1[0] == b1 as char && e2[0] == b2 as char);
        assert((b1 as char) as u32 == b1 as u32 && (b2 as char) as u32 == b2 as u32);
    } else if cls1 == 4 && cls2 == 4 {
        assert(e1[2] == hex_digit(b1 as int / 16) && e1[3] == hex_digit(b1 as int % 16));
        assert(e2[2] == hex_digit(b2 as int / 16) && e2[3] == hex_digit(b2 as int % 16));
        assert(unhex(hex_digit(b1 as int / 16)) == b1 as int / 16);
        assert(unhex(hex_digit(b1 as int % 16)) == b1 as int % 16);
        assert(unhex(hex_digit(b2 as int / 16)) == b2 as int / 16);
        assert(unhex(hex_digit(b2 as int % 16)) == b2 as int % 16);
    }
}

/// Canonical texts are faithful: two values of the schema's literal type
/// have the same canonical source text exactly when they are the same
/// value, so detecting repeats by value and by normalized text coincide.
pub proof fn lemma_canonical_text_faithful(t: LiteralType, v1: ValueView, v2: ValueView)
    requires
        crate::value::fits(v1, t),
        crate::value::fits(v2, t),
    ensures
        (value_text(v1) == value_text(v2)) <==> (v1 == v2),
{
    reveal_strlit("b\"");
    reveal_strlit("c\"");
    reveal_strlit("b'");
    reveal_strlit("true");
    reveal_strlit("false");
    if value_text(v1) == value_text(v2) {
        let x1 = value_text(v1);
        let x2 = value_text(v2);
        match (v1, v2) {
            (ValueView::Str(s1), ValueView::Str(s2)) => {
                let e1 = escape_chars(s1);
                let e2 = escape_chars(s2);
                assert(x1.len() == e1.len() + 2 && x2.len() == e2.len() + 2);
                assert forall|k: int| 0 <= k < e1.len() implies e1[k] == e2[k] by {
                    assert(x1[k + 1] == e1[k]);
                    assert(x2[k + 1] == e2[k]);
                }
                assert(e1 =~= e2);
                lemma_escape_chars_injective(s1, s2);
            },
            (ValueView::Bytes(s1), ValueView::Bytes(s2)) => {
                let e1 = escape_bytes(s1);
                let e2 = escape_bytes(s2);
                assert(x1.len() == e1.len() + 3 && x2.len() == e2.len() + 3);
                assert forall|k: int| 0 <= k < e1.len() implies e1[k] == e2[k] by {
                    assert(x1[k + 2] == e1[k]);
                    assert(x2[k + 2] == e2[k]);
                }
                assert(e1 =~= e2);
                lemma_escape_bytes_injective(s1, s2);
            },
            (ValueView::CBytes(s1), ValueView::CBytes(s2)) => {
                let e1 = escape_bytes(s1);
                let e2 = escape_bytes(s2);
                assert(x1.len() == e1.len() + 3 && x2.len() == e2.len() + 3);
                assert forall|k: int| 0 <= k < e1.len() implies e1[k] == e2[k] by {
                    assert(x1[k + 2] == e1[k]);
                    assert(x2[k + 2] == e2[k]);
                }
                assert(e1 =~= e2);
                lemma_escape_bytes_injective(s1, s2);
            },
            (ValueView::Byte(b1), ValueView::Byte(b2)) => {
                let e1 = esc_bsq(b1);
                let e2 = esc_bsq(b2);
                assert(x1.len() == e1.len() + 3 && x2.len() == e2.len() + 3);
                assert forall|k: int| 0 <= k < e1.len() implies e1[k] == e2[k] by {
                    assert(x1[k + 2] == e1[k]);
                    assert(x2[k + 2] == e2[k]);
                }
                assert(e1 =~= e2);
                lemma_esc_bsq_injective(b1, b2);
            },
            (ValueView::Char(c1), ValueView::Char(c2)) => {
                let e1 = esc_sq(c1);
                let e2 = esc_sq(c2);
                assert(x1.len() == e1.len() + 2 && x2.len() == e2.len() + 2);
                assert forall|k: int| 0 <= k < e1.len() implies e1[k] == e2[k] by {
                    assert(x1[k + 1] == e1[k]);
                    assert(x2[k + 1] == e2[k]);
                }
                assert(e1 =~= e2);
                lemma_esc_sq_injective(c1, c2);
            },
            (ValueView::Int(n1), ValueView::Int(n2)) => {
                lemma_dec_text_injective(n1 as int, n2 as int);
            },
            (ValueView::Bool(b1), ValueView::Bool(b2)) => {
                assert("true"@.len() != "false"@.len());
            },
            _ => {},
        }
    }
}

/// The source text of the integer type of a given width and signedness.
pub open spec fn int_type_text(width: IntWidth, signed: bool) -> Seq<char> {
    match (signed, width) {
        (false, IntWidth::W8) => "u8"@,
        (false, IntWidth::W16) => "u16"@,
        (false, IntWidth::W32) => "u32"@,
        (false, IntWidth::W64) => "u64"@,
        (false, IntWidth::W128) => "u128"@,
        (false, IntWidth::WSize) => "usize"@,
        (true, IntWidth::W8) => "i8"@,
        (true, IntWidth::W16) => "i16"@,
        (true, IntWidth::W32) => "i32"@,
        (true, IntWidth::W64) => "i64"@,
        (true, IntWidth::W128) => "i128"@,
        (true, IntWidth::WSize) => "isize"@,
    }
}

/// The source text of a literal type, as it stands in the generated
/// conversions.  The view types borrow for the scope named in the emitted
/// impl header.
pub open spec fn type_text(t: LiteralType) -> Seq<char> {
    match t {
        LiteralType::StrView => "&'a str"@,
        LiteralType::ByteView => "&'a [u8]"@,
        LiteralType::CStrView => "&'a core::ffi::CStr"@,
        LiteralType::Byte => "u8"@,
        LiteralType::Char => "char"@,
        LiteralType::Int { width, signed } => int_type_text(width, signed),
        LiteralType::Bool => "bool"@,
    }
}

/// Executable counterpart of [`type_text`].
pub fn type_str(t: &LiteralType) -> (s: &'static str)
    ensures
        s@ == type_text(*t),
{
    match t {
        LiteralType::StrView => "&'a str",
        LiteralType::ByteView => "&'a [u8]",
        LiteralType::CStrView => "&'a core::ffi::CStr",
        LiteralType::Byte => "u8",
        LiteralType::Char => "char",
        LiteralType::Int { width, signed } => match (signed, width) {
            (false, IntWidth::W8) => "u8",
            (false, IntWidth::W16) => "u16",
            (false, IntWidth::W32) => "u32",
            (false, IntWidth::W64) => "u64",
            (false, IntWidth::W128) => "u128",
            (false, IntWidth::WSize) => "usize",
            (true, IntWidth::W8) => "i8",
            (true, IntWidth::W16) => "i16",
            (true, IntWidth::W32) => "i32",
            (true, IntWidth::W64) => "i64",
            (true, IntWidth::W128) => "i128",
            (true, IntWidth::WSize) => "isize",
        },
        LiteralType::Bool => "bool",
    }
}

} // verus!
