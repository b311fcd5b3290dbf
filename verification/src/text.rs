//! Character-level helpers shared by the scanner and both parsers:
//! whitespace classification, ASCII case folding, hex digits, and
//! conversions between `String` and `Vec<char>`.

use vstd::prelude::*;

verus! {

/// Whether a character has the Unicode `White_Space` property: tab through
/// carriage return and the space character on ASCII, and the fixed set of
/// separator characters beyond it. Opaque: the parsers treat whitespace as a
/// class and never need one character's membership.
#[verifier::opaque]
pub open spec fn whitespace_char(c: char) -> bool {
    ||| ('\u{9}' <= c && c <= '\u{d}')
    ||| c == ' '
    ||| c == '\u{85}'
    ||| c == '\u{a0}'
    ||| c == '\u{1680}'
    ||| ('\u{2000}' <= c && c <= '\u{200a}')
    ||| c == '\u{2028}'
    ||| c == '\u{2029}'
    ||| c == '\u{202f}'
    ||| c == '\u{205f}'
    ||| c == '\u{3000}'
}

/// Relies on `char::is_whitespace` (std): true exactly of characters with the
/// Unicode `White_Space` property, the fixed set that `whitespace_char`
/// lists.
pub assume_specification[ char::is_whitespace ](c: char) -> (r: bool)
    ensures
        r == whitespace_char(c),
;

/// The predicate form of `whitespace_char`, for use with `scan_while`.
pub open spec fn ws_pred() -> spec_fn(char) -> bool {
    |c: char| whitespace_char(c)
}

/// Its complement: the characters that class tokens are made of.
pub open spec fn non_ws_pred() -> spec_fn(char) -> bool {
    |c: char| !whitespace_char(c)
}

/// The position reached by consuming characters from `pos` for as long as
/// they satisfy `p`.
pub open spec fn scan_while(s: Seq<char>, pos: int, p: spec_fn(char) -> bool) -> int
    decreases s.len() - pos,
{
    if pos < s.len() && p(s[pos]) {
        scan_while(s, pos + 1, p)
    } else {
        pos
    }
}

pub broadcast proof fn lemma_scan_while_bounds(s: Seq<char>, pos: int, p: spec_fn(char) -> bool)
    requires
        0 <= pos <= s.len(),
    ensures
        pos <= #[trigger] scan_while(s, pos, p) <= s.len(),
    decreases s.len() - pos,
{
    if pos < s.len() && p(s[pos]) {
        lemma_scan_while_bounds(s, pos + 1, p);
    }
}

/// When `scan_while` stops short of the end, it stops on a character that
/// fails `p`.
pub proof fn lemma_scan_while_stops(s: Seq<char>, pos: int, p: spec_fn(char) -> bool)
    requires
        0 <= pos <= s.len(),
    ensures
        scan_while(s, pos, p) < s.len() ==> !p(s[scan_while(s, pos, p)]),
    decreases s.len() - pos,
{
    if pos < s.len() && p(s[pos]) {
        lemma_scan_while_stops(s, pos + 1, p);
    }
}

/// `scan_while` stops exactly at the first position whose character fails `p`.
pub proof fn lemma_scan_while_exact(s: Seq<char>, pos: int, end: int, p: spec_fn(char) -> bool)
    requires
        0 <= pos <= end <= s.len(),
        forall|i: int| pos <= i < end ==> p(s[i]),
        end < s.len() ==> !p(s[end]),
    ensures
        scan_while(s, pos, p) == end,
    decreases end - pos,
{
    if pos < end {
        assert(p(s[pos]));
        lemma_scan_while_exact(s, pos + 1, end, p);
    }
}

/// ASCII case folding of a single character, as `into_ascii_lower` does it:
/// uppercase ASCII letters map to lowercase, everything else is unchanged.
pub open spec fn lower_char(c: char) -> char {
    if 'A' <= c && c <= 'Z' {
        ((c as u32) + 32) as char
    } else {
        c
    }
}

pub fn to_lower_char(c: char) -> (r: char)
    ensures
        r == lower_char(c),
{
    if 'A' <= c && c <= 'Z' {
        (((c as u32) + 32) as u8) as char
    } else {
        c
    }
}

pub open spec fn is_hex_digit(c: char) -> bool {
    ('0' <= c && c <= '9') || ('a' <= c && c <= 'f') || ('A' <= c && c <= 'F')
}

/// The numeric value of a hexadecimal digit.
pub open spec fn hex_digit_value(c: char) -> u8 {
    if '0' <= c && c <= '9' {
        ((c as u32) - 48) as u8
    } else if 'a' <= c && c <= 'f' {
        ((c as u32) - 87) as u8
    } else if 'A' <= c && c <= 'F' {
        ((c as u32) - 55) as u8
    } else {
        0
    }
}

pub fn hex_digit(c: char) -> (r: Option<u8>)
    ensures
        r is Some <==> is_hex_digit(c),
        r is Some ==> r == Some(hex_digit_value(c)),
{
    if '0' <= c && c <= '9' {
        Some((((c as u32) - 48) as u8))
    } else if 'a' <= c && c <= 'f' {
        Some((((c as u32) - 87) as u8))
    } else if 'A' <= c && c <= 'F' {
        Some((((c as u32) - 55) as u8))
    } else {
        None
    }
}

/// Two spaces per indent level.
pub open spec fn spec_indent(n: nat) -> Seq<char> {
    Seq::new(2 * n, |i: int| ' ')
}

pub fn render_indent(n: usize) -> (r: String)
    ensures
        r@ == spec_indent(n as nat),
{
    let mut v: Vec<char> = Vec::new();
    let mut i: usize = 0;
    while i < n
        invariant
            i <= n,
            v@ == spec_indent(i as nat),
        decreases n - i,
    {
        v.push(' ');
        v.push(' ');
        i = i + 1;
        proof {
            assert(v@ =~= spec_indent(i as nat));
        }
    }
    chars_to_string(&v)
}

/// The characters starting at `pos` in `s` are exactly those of `pat`.
pub open spec fn seq_starts_with(s: Seq<char>, pos: int, pat: Seq<char>) -> bool {
    &&& 0 <= pos
    &&& pos + pat.len() <= s.len()
    &&& forall|i: int| 0 <= i < pat.len() ==> s[pos + i] == pat[i]
}

/// Relies on `String: FromIterator<char>` (std): collecting characters yields
/// the string of exactly those characters, in order.
#[verifier::external_body]
pub fn chars_to_string(v: &Vec<char>) -> (r: String)
    ensures
        r@ == v@,
{
    v.iter().cloned().collect()
}

pub fn string_to_chars(s: &str) -> (r: Vec<char>)
    ensures
        r@ == s@,
{
    let n = s.unicode_len();
    let mut r: Vec<char> = Vec::new();
    let mut i: usize = 0;
    while i < n
        invariant
            n == s@.len(),
            i <= n,
            r@ == s@.subrange(0, i as int),
        decreases n - i,
    {
        r.push(s.get_char(i));
        i = i + 1;
        proof {
            assert(r@ =~= s@.subrange(0, i as int));
        }
    }
    proof {
        assert(r@ =~= s@);
    }
    r
}

pub fn str_eq(a: &str, b: &str) -> (r: bool)
    ensures
        r == (a@ == b@),
{
    let n = a.unicode_len();
    if n != b.unicode_len() {
        return false;
    }
    let mut i: usize = 0;
    while i < n
        invariant
            n == a@.len(),
            n == b@.len(),
            i <= n,
            forall|j: int| 0 <= j < i ==> a@[j] == b@[j],
        decreases n - i,
    {
        if a.get_char(i) != b.get_char(i) {
            return false;
        }
        i = i + 1;
    }
    proof {
        assert(a@ =~= b@);
    }
    true
}

} // verus!
