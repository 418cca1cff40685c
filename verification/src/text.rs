//! Verified text utilities for the wire protocol: trimming, splitting a line
//! at the first space, string equality, and decimal rendering of counters.
use vstd::prelude::*;
use vstd::string::StrSliceExecFns;
use vstd::string::StringExecFns;

verus! {

/// The characters that count as whitespace when a line is trimmed
/// (the Unicode `White_Space` set).
pub open spec fn is_ws_char(c: char) -> bool {
    c == ' ' || c == '\t' || c == '\n' || c == '\u{000B}' || c == '\u{000C}' || c == '\r'
        || c == '\u{0085}' || c == '\u{00A0}' || c == '\u{1680}' || c == '\u{2000}'
        || c == '\u{2001}' || c == '\u{2002}' || c == '\u{2003}' || c == '\u{2004}'
        || c == '\u{2005}' || c == '\u{2006}' || c == '\u{2007}' || c == '\u{2008}'
        || c == '\u{2009}' || c == '\u{200A}' || c == '\u{2028}' || c == '\u{2029}'
        || c == '\u{202F}' || c == '\u{205F}' || c == '\u{3000}'
}

fn is_ws(c: char) -> (b: bool)
    ensures
        b == is_ws_char(c),
{
    c == ' ' || c == '\t' || c == '\n' || c == '\u{000B}' || c == '\u{000C}' || c == '\r'
        || c == '\u{0085}' || c == '\u{00A0}' || c == '\u{1680}' || c == '\u{2000}'
        || c == '\u{2001}' || c == '\u{2002}' || c == '\u{2003}' || c == '\u{2004}'
        || c == '\u{2005}' || c == '\u{2006}' || c == '\u{2007}' || c == '\u{2008}'
        || c == '\u{2009}' || c == '\u{200A}' || c == '\u{2028}' || c == '\u{2029}'
        || c == '\u{202F}' || c == '\u{205F}' || c == '\u{3000}'
}

/// Index of the first non-whitespace character at or after `i`, or `s.len()`.
pub open spec fn first_non_ws_from(s: Seq<char>, i: int) -> int
    decreases s.len() - i,
{
    if i < 0 || i >= s.len() {
        s.len() as int
    } else if !is_ws_char(s[i]) {
        i
    } else {
        first_non_ws_from(s, i + 1)
    }
}

/// Index of the last non-whitespace character at or before `i`, or `-1`.
pub open spec fn last_non_ws_from(s: Seq<char>, i: int) -> int
    decreases i + 1,
{
    if i < 0 || i >= s.len() {
        -1
    } else if !is_ws_char(s[i]) {
        i
    } else {
        last_non_ws_from(s, i - 1)
    }
}

/// What trimming a line yields: the subrange from the first to the last
/// non-whitespace character, or the empty sequence if there is none.
pub open spec fn trim_spec(s: Seq<char>) -> Seq<char> {
    let f = first_non_ws_from(s, 0);
    if f == s.len() {
        Seq::empty()
    } else {
        s.subrange(f, last_non_ws_from(s, s.len() - 1) + 1)
    }
}

/// Strips leading and trailing whitespace from a line.
pub fn trim(s: &str) -> (r: &str)
    ensures
        r@ == trim_spec(s@),
{
    let len = s.unicode_len();
    let mut f: usize = 0;
    while f < len && is_ws(s.get_char(f))
        invariant
            len == s@.len(),
            f <= len,
            first_non_ws_from(s@, 0) == first_non_ws_from(s@, f as int),
        decreases len - f,
    {
        proof {
            assert(first_non_ws_from(s@, f as int) == first_non_ws_from(s@, f + 1));
        }
        f = f + 1;
    }
    if f == len {
        proof {
            reveal_strlit("");
            assert(""@ =~= trim_spec(s@));
        }
        return "";
    }
    assert(first_non_ws_from(s@, 0) == f);
    let mut l: usize = len - 1;
    while is_ws(s.get_char(l))
        invariant
            len == s@.len(),
            f <= l < len,
            !is_ws_char(s@[f as int]),
            last_non_ws_from(s@, len - 1) == last_non_ws_from(s@, l as int),
        decreases l,
    {
        proof {
            assert(l != f);
            assert(last_non_ws_from(s@, l as int) == last_non_ws_from(s@, l - 1));
        }
        l = l - 1;
    }
    assert(last_non_ws_from(s@, len - 1) == l);
    let r = s.substring_char(f, l + 1);
    proof {
        assert(r@ =~= trim_spec(s@));
    }
    r
}

/// Index of the first space at or after `i`, or `s.len()` if there is none.
pub open spec fn first_space_from(s: Seq<char>, i: int) -> int
    decreases s.len() - i,
{
    if i < 0 || i >= s.len() {
        s.len() as int
    } else if s[i] == ' ' {
        i
    } else {
        first_space_from(s, i + 1)
    }
}

/// Finds the first space of a line, as `splitn(2, ' ')` would cut it.
pub fn find_space(s: &str) -> (r: usize)
    ensures
        r as int == first_space_from(s@, 0),
        r <= s@.len(),
{
    let len = s.unicode_len();
    let mut i: usize = 0;
    while i < len && s.get_char(i) != ' '
        invariant
            len == s@.len(),
            i <= len,
            first_space_from(s@, 0) == first_space_from(s@, i as int),
        decreases len - i,
    {
        proof {
            assert(first_space_from(s@, i as int) == first_space_from(s@, i + 1));
        }
        i = i + 1;
    }
    i
}

/// Character-for-character string equality.
pub fn str_eq(a: &str, b: &str) -> (r: bool)
    ensures
        r == (a@ == b@),
{
    let la = a.unicode_len();
    let lb = b.unicode_len();
    if la != lb {
        return false;
    }
    let mut i: usize = 0;
    while i < la
        invariant
            la == a@.len(),
            la == b@.len(),
            i <= la,
            forall|k: int| 0 <= k < i ==> a@[k] == b@[k],
        decreases la - i,
    {
        if a.get_char(i) != b.get_char(i) {
            return false;
        }
        i = i + 1;
    }
    proof {
        assert(a@ =~= b@);
    }
    true
}

/// The character that writes a single decimal digit.
pub open spec fn digit_char(d: nat) -> char {
    if d == 0 {
        '0'
    } else if d == 1 {
        '1'
    } else if d == 2 {
        '2'
    } else if d == 3 {
        '3'
    } else if d == 4 {
        '4'
    } else if d == 5 {
        '5'
    } else if d == 6 {
        '6'
    } else if d == 7 {
        '7'
    } else if d == 8 {
        '8'
    } else {
        '9'
    }
}

/// The decimal digits of `n`, most significant first.
pub open spec fn dec_digits(n: nat) -> Seq<char>
    decreases n,
{
    if n < 10 {
        seq![digit_char(n)]
    } else {
        dec_digits(n / 10) + seq![digit_char(n % 10)]
    }
}

fn append_digit(out: &mut String, d: usize)
    requires
        d < 10,
    ensures
        final(out)@ == old(out)@ + seq![digit_char(d as nat)],
{
    if d == 0 {
        proof { reveal_strlit("0"); }
        out.append("0");
        proof { assert(out@ =~= old(out)@ + seq![digit_char(d as nat)]); }
    } else if d == 1 {
        proof { reveal_strlit("1"); }
        out.append("1");
        proof { assert(out@ =~= old(out)@ + seq![digit_char(d as nat)]); }
    } else if d == 2 {
        proof { reveal_strlit("2"); }
        out.append("2");
        proof { assert(out@ =~= old(out)@ + seq![digit_char(d as nat)]); }
    } else if d == 3 {
        proof { reveal_strlit("3"); }
        out.append("3");
        proof { assert(out@ =~= old(out)@ + seq![digit_char(d as nat)]); }
    } else if d == 4 {
        proof { reveal_strlit("4"); }
        out.append("4");
        proof { assert(out@ =~= old(out)@ + seq![digit_char(d as nat)]); }
    } else if d == 5 {
        proof { reveal_strlit("5"); }
        out.append("5");
        proof { assert(out@ =~= old(out)@ + seq![digit_char(d as nat)]); }
    } else if d == 6 {
        proof { reveal_strlit("6"); }
        out.append("6");
        proof { assert(out@ =~= old(out)@ + seq![digit_char(d as nat)]); }
    } else if d == 7 {
        proof { reveal_strlit("7"); }
        out.append("7");
        proof { assert(out@ =~= old(out)@ + seq![digit_char(d as nat)]); }
    } else if d == 8 {
        proof { reveal_strlit("8"); }
        out.append("8");
        proof { assert(out@ =~= old(out)@ + seq![digit_char(d as nat)]); }
    } else {
        proof { reveal_strlit("9"); }
        out.append("9");
        proof { assert(out@ =~= old(out)@ + seq![digit_char(d as nat)]); }
    }
}

fn push_dec_digits(out: &mut String, n: usize)
    ensures
        final(out)@ == old(out)@ + dec_digits(n as nat),
    decreases n,
{
    if n >= 10 {
        push_dec_digits(out, n / 10);
    }
    append_digit(out, n % 10);
    proof {
        if n < 10 {
            assert(dec_digits(n as nat) =~= seq![digit_char((n % 10) as nat)]);
        } else {
            assert(out@ =~= old(out)@ + dec_digits(n as nat));
        }
    }
}

/// Writes `n` in decimal.
pub fn usize_to_string(n: usize) -> (s: String)
    ensures
        s@ == dec_digits(n as nat),
{
    let mut s = String::new();
    push_dec_digits(&mut s, n);
    proof {
        assert(s@ =~= dec_digits(n as nat));
    }
    s
}

} // verus!
