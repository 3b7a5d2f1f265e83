//! Lexical classification of source lines. A line, after trimming, is one
//! of: blank (empty or a `//` comment), a `.section` declaration, a data
//! literal (a quoted string or a comma-separated list of numbers), a label
//! declaration (holds a colon), or an instruction (mnemonic and argument
//! tokens split on single spaces).
//!
//! Every classification is specified by `classify_line`, a pure function
//! of the line's characters.

use vstd::prelude::*;
use crate::errors::LineError;
use crate::symbols::Section;
use crate::isa::i16_bits;
use vstd::utf8::{encode_utf8, is_ascii_chars};
use crate::isa::to_bits;

verus! {

// ------------------------- character classes -------------------------

/// Whitespace as trimmed from line ends.
pub open spec fn is_space_char(c: char) -> bool {
    c == ' ' || c == '\t' || c == '\n' || c == '\r'
}

/// An ASCII decimal digit.
pub open spec fn is_digit_char(c: char) -> bool {
    '0' <= c && c <= '9'
}

fn is_space_c(c: char) -> (r: bool)
    ensures
        r == is_space_char(c),
{
    c == ' ' || c == '\t' || c == '\n' || c == '\r'
}

fn is_digit_c(c: char) -> (r: bool)
    ensures
        r == is_digit_char(c),
{
    '0' <= c && c <= '9'
}

// ------------------------- trimming -------------------------

/// A sequence without its leading whitespace.
pub open spec fn spec_trim_front(s: Seq<char>) -> Seq<char>
    decreases s.len(),
{
    if s.len() > 0 && is_space_char(s[0]) {
        spec_trim_front(s.drop_first())
    } else {
        s
    }
}

/// A sequence without its trailing whitespace.
pub open spec fn spec_trim_back(s: Seq<char>) -> Seq<char>
    decreases s.len(),
{
    if s.len() > 0 && is_space_char(s.last()) {
        spec_trim_back(s.drop_last())
    } else {
        s
    }
}

/// A sequence without its surrounding whitespace.
pub open spec fn spec_trim(s: Seq<char>) -> Seq<char> {
    spec_trim_back(spec_trim_front(s))
}

proof fn lemma_trim_front(s: Seq<char>, k: int)
    requires
        0 <= k <= s.len(),
        forall|i: int| 0 <= i < k ==> is_space_char(s[i]),
        k == s.len() || !is_space_char(s[k]),
    ensures
        spec_trim_front(s) =~= s.skip(k),
    decreases k,
{
    if k == 0 {
        assert(s.skip(0) =~= s);
    } else {
        lemma_trim_front(s.drop_first(), k - 1);
        assert(s.drop_first().skip(k - 1) =~= s.skip(k));
    }
}

proof fn lemma_trim_back(s: Seq<char>, m: int)
    requires
        0 <= m <= s.len(),
        forall|i: int| m <= i < s.len() ==> is_space_char(s[i]),
        m == 0 || !is_space_char(s[m - 1]),
    ensures
        spec_trim_back(s) =~= s.take(m),
    decreases s.len(),
{
    if s.len() > 0 && is_space_char(s.last()) {
        lemma_trim_back(s.drop_last(), m);
    } else {
        assert(m == s.len());
        assert(s.take(m) =~= s);
    }
}

/// The line without surrounding whitespace.
pub fn trim_str<'a>(s: &'a str) -> (r: &'a str)
    ensures
        r@ == spec_trim(s@),
{
    let n = s.unicode_len();
    let mut a: usize = 0;
    while a < n && is_space_c(s.get_char(a))
        invariant
            0 <= a <= n,
            n == s@.len(),
            forall|i: int| 0 <= i < a ==> is_space_char(s@[i]),
        decreases n - a,
    {
        a = a + 1;
    }
    let mut b: usize = n;
    while b > a && is_space_c(s.get_char(b - 1))
        invariant
            a <= b <= n,
            n == s@.len(),
            forall|i: int| 0 <= i < a ==> is_space_char(s@[i]),
            a == n || !is_space_char(s@[a as int]),
            forall|i: int| b <= i < n ==> is_space_char(s@[i]),
        decreases b,
    {
        b = b - 1;
    }
    proof {
        lemma_trim_front(s@, a as int);
        let u = s@.skip(a as int);
        lemma_trim_back(u, b - a);
        assert(u.take(b - a) =~= s@.subrange(a as int, b as int));
    }
    s.substring_char(a, b)
}

// ------------------------- quote stripping -------------------------

/// A sequence without its leading double quotes.
pub open spec fn strip_quotes_front(s: Seq<char>) -> Seq<char>
    decreases s.len(),
{
    if s.len() > 0 && s[0] == '"' {
        strip_quotes_front(s.drop_first())
    } else {
        s
    }
}

/// A sequence without its trailing double quotes.
pub open spec fn strip_quotes_back(s: Seq<char>) -> Seq<char>
    decreases s.len(),
{
    if s.len() > 0 && s.last() == '"' {
        strip_quotes_back(s.drop_last())
    } else {
        s
    }
}

/// A sequence without its surrounding double quotes.
pub open spec fn strip_quotes(s: Seq<char>) -> Seq<char> {
    strip_quotes_back(strip_quotes_front(s))
}

proof fn lemma_strip_front(s: Seq<char>, k: int)
    requires
        0 <= k <= s.len(),
        forall|i: int| 0 <= i < k ==> s[i] == '"',
        k == s.len() || s[k] != '"',
    ensures
        strip_quotes_front(s) =~= s.skip(k),
    decreases k,
{
    if k == 0 {
        assert(s.skip(0) =~= s);
    } else {
        lemma_strip_front(s.drop_first(), k - 1);
        assert(s.drop_first().skip(k - 1) =~= s.skip(k));
    }
}

proof fn lemma_strip_back(s: Seq<char>, m: int)
    requires
        0 <= m <= s.len(),
        forall|i: int| m <= i < s.len() ==> s[i] == '"',
        m == 0 || s[m - 1] != '"',
    ensures
        strip_quotes_back(s) =~= s.take(m),
    decreases s.len(),
{
    if s.len() > 0 && s.last() == '"' {
        lemma_strip_back(s.drop_last(), m);
    } else {
        assert(m == s.len());
        assert(s.take(m) =~= s);
    }
}

/// The line without surrounding double quotes.
pub fn strip_quotes_str<'a>(s: &'a str) -> (r: &'a str)
    ensures
        r@ == strip_quotes(s@),
{
    let n = s.unicode_len();
    let mut a: usize = 0;
    while a < n && s.get_char(a) == '"'
        invariant
            0 <= a <= n,
            n == s@.len(),
            forall|i: int| 0 <= i < a ==> s@[i] == '"',
        decreases n - a,
    {
        a = a + 1;
    }
    let mut b: usize = n;
    while b > a && s.get_char(b - 1) == '"'
        invariant
            a <= b <= n,
            n == s@.len(),
            forall|i: int| 0 <= i < a ==> s@[i] == '"',
            a == n || s@[a as int] != '"',
            forall|i: int| b <= i < n ==> s@[i] == '"',
        decreases b,
    {
        b = b - 1;
    }
    proof {
        lemma_strip_front(s@, a as int);
        let u = s@.skip(a as int);
        lemma_strip_back(u, b - a);
        assert(u.take(b - a) =~= s@.subrange(a as int, b as int));
    }
    s.substring_char(a, b)
}

// ------------------------- line shape predicates -------------------------

/// The trimmed line is a `//` comment.
pub open spec fn is_comment_line(t: Seq<char>) -> bool {
    t.len() >= 2 && t[0] == '/' && t[1] == '/'
}

/// The trimmed line opens with `.section`.
pub open spec fn is_section_line(t: Seq<char>) -> bool {
    t.len() >= 8 && t[0] == '.' && t[1] == 's' && t[2] == 'e' && t[3] == 'c' && t[4] == 't' && t[5]
        == 'i' && t[6] == 'o' && t[7] == 'n'
}

/// The trimmed line opens a data literal: a double quote or a digit.
pub open spec fn is_data_line(t: Seq<char>) -> bool {
    t.len() >= 1 && (t[0] == '"' || is_digit_char(t[0]))
}

/// The word `code` or `Code` occurs at position `i`.
pub open spec fn code_at(t: Seq<char>, i: int) -> bool {
    0 <= i && i + 4 <= t.len() && (t[i] == 'c' || t[i] == 'C') && t[i + 1] == 'o' && t[i + 2] == 'd'
        && t[i + 3] == 'e'
}

/// The word `code` or `Code` occurs somewhere in the line.
pub open spec fn contains_code(t: Seq<char>) -> bool {
    exists|i: int| code_at(t, i)
}

/// The word `data` or `Data` occurs at position `i`.
pub open spec fn data_at(t: Seq<char>, i: int) -> bool {
    0 <= i && i + 4 <= t.len() && (t[i] == 'd' || t[i] == 'D') && t[i + 1] == 'a' && t[i + 2] == 't'
        && t[i + 3] == 'a'
}

/// The word `data` or `Data` occurs somewhere in the line.
pub open spec fn contains_data(t: Seq<char>) -> bool {
    exists|i: int| data_at(t, i)
}

/// The line holds a colon somewhere.
pub open spec fn has_colon(t: Seq<char>) -> bool {
    exists|i: int| 0 <= i < t.len() && t[i] == ':'
}

/// How many colons the line holds.
pub open spec fn count_colons(t: Seq<char>) -> int
    decreases t.len(),
{
    if t.len() == 0 {
        0
    } else {
        count_colons(t.drop_last()) + if t.last() == ':' {
            1int
        } else {
            0int
        }
    }
}

/// Whitespace as rejected inside a label name: a space or a tab.
pub open spec fn has_label_ws(name: Seq<char>) -> bool {
    exists|i: int| 0 <= i < name.len() && (name[i] == ' ' || name[i] == '\t')
}

fn scan_code(s: &str) -> (r: bool)
    ensures
        r == contains_code(s@),
{
    let n = s.unicode_len();
    if n < 4 {
        proof {
            assert(forall|i: int| !code_at(s@, i));
        }
        return false;
    }
    let mut i: usize = 0;
    while i <= n - 4
        invariant
            4 <= n == s@.len(),
            0 <= i <= n - 3,
            forall|j: int| 0 <= j < i ==> !code_at(s@, j),
        decreases n - i,
    {
        let c0 = s.get_char(i);
        if (c0 == 'c' || c0 == 'C') && s.get_char(i + 1) == 'o' && s.get_char(i + 2) == 'd'
            && s.get_char(i + 3) == 'e' {
            proof {
                assert(code_at(s@, i as int));
            }
            return true;
        }
        i = i + 1;
    }
    proof {
        assert(forall|j: int| code_at(s@, j) ==> 0 <= j <= s@.len() - 4);
    }
    false
}

fn scan_data(s: &str) -> (r: bool)
    ensures
        r == contains_data(s@),
{
    let n = s.unicode_len();
    if n < 4 {
        proof {
            assert(forall|i: int| !data_at(s@, i));
        }
        return false;
    }
    let mut i: usize = 0;
    while i <= n - 4
        invariant
            4 <= n == s@.len(),
            0 <= i <= n - 3,
            forall|j: int| 0 <= j < i ==> !data_at(s@, j),
        decreases n - i,
    {
        let c0 = s.get_char(i);
        if (c0 == 'd' || c0 == 'D') && s.get_char(i + 1) == 'a' && s.get_char(i + 2) == 't'
            && s.get_char(i + 3) == 'a' {
            proof {
                assert(data_at(s@, i as int));
            }
            return true;
        }
        i = i + 1;
    }
    proof {
        assert(forall|j: int| data_at(s@, j) ==> 0 <= j <= s@.len() - 4);
    }
    false
}

fn scan_colons(s: &str) -> (r: usize)
    ensures
        r == count_colons(s@),
        r <= s@.len(),
{
    let n = s.unicode_len();
    let mut i: usize = 0;
    let mut cnt: usize = 0;
    while i < n
        invariant
            0 <= i <= n,
            n == s@.len(),
            cnt == count_colons(s@.take(i as int)),
            cnt <= i,
        decreases n - i,
    {
        proof {
            assert(s@.take(i + 1).drop_last() =~= s@.take(i as int));
            assert(s@.take(i + 1).last() == s@[i as int]);
        }
        if s.get_char(i) == ':' {
            cnt = cnt + 1;
        }
        i = i + 1;
    }
    proof {
        assert(s@.take(n as int) =~= s@);
    }
    cnt
}

proof fn lemma_count_colons_nonneg(t: Seq<char>)
    ensures
        count_colons(t) >= 0,
    decreases t.len(),
{
    if t.len() > 0 {
        lemma_count_colons_nonneg(t.drop_last());
    }
}

proof fn lemma_count_colons_has(t: Seq<char>)
    ensures
        (count_colons(t) > 0) == has_colon(t),
    decreases t.len(),
{
    if t.len() > 0 {
        lemma_count_colons_has(t.drop_last());
        lemma_count_colons_nonneg(t.drop_last());
        if t.last() == ':' {
            assert(t[t.len() - 1] == ':');
            assert(has_colon(t));
        } else {
            assert(t[t.len() - 1] == t.last());
            if has_colon(t.drop_last()) {
                let i = choose|i: int| 0 <= i < t.drop_last().len() && t.drop_last()[i] == ':';
                assert(t[i] == ':');
                assert(has_colon(t));
            }
            if has_colon(t) {
                let i = choose|i: int| 0 <= i < t.len() && t[i] == ':';
                assert(i != t.len() - 1);
                assert(t.drop_last()[i] == ':');
                assert(has_colon(t.drop_last()));
            }
        }
    }
}

// ------------------------- splitting -------------------------

/// The pieces of a sequence split on a separator character; adjacent
/// separators yield empty pieces, and there is always at least one piece.
pub open spec fn split_on(s: Seq<char>, sep: char) -> Seq<Seq<char>>
    decreases s.len(),
{
    if s.len() == 0 {
        seq![Seq::<char>::empty()]
    } else if s[0] == sep {
        seq![Seq::<char>::empty()] + split_on(s.drop_first(), sep)
    } else {
        let r = split_on(s.drop_first(), sep);
        seq![seq![s[0]] + r[0]] + r.drop_first()
    }
}

proof fn lemma_split_on_len(s: Seq<char>, sep: char)
    ensures
        split_on(s, sep).len() >= 1,
    decreases s.len(),
{
    if s.len() > 0 {
        lemma_split_on_len(s.drop_first(), sep);
    }
}

fn split_from(s: &str, i: usize, sep: char) -> (r: Vec<String>)
    requires
        i <= s@.len(),
    ensures
        r.deep_view() =~= split_on(s@.skip(i as int), sep),
        r@.len() >= 1,
    decreases s@.len() - i,
{
    let n = s.unicode_len();
    if i == n {
        let mut v: Vec<String> = Vec::new();
        v.push(String::new());
        proof {
            assert(s@.skip(i as int).len() == 0);
            assert(v.deep_view() =~= split_on(s@.skip(i as int), sep));
        }
        v
    } else {
        let c = s.get_char(i);
        proof {
            assert(s@.skip(i as int)[0] == s@[i as int]);
            assert(s@.skip(i as int).drop_first() =~= s@.skip(i as int + 1));
            lemma_split_on_len(s@.skip(i as int + 1), sep);
        }
        if c == sep {
            let mut rest = split_from(s, i + 1, sep);
            rest.insert(0, String::new());
            proof {
                assert(rest.deep_view() =~= split_on(s@.skip(i as int), sep));
            }
            rest
        } else {
            let mut rest = split_from(s, i + 1, sep);
            let head: String = s.substring_char(i, i + 1).to_owned();
            let tok: String = head.concat(rest[0].as_str());
            proof {
                assert(s@.subrange(i as int, i as int + 1) =~= seq![s@[i as int]]);
            }
            rest[0] = tok;
            proof {
                assert(rest.deep_view() =~= split_on(s@.skip(i as int), sep));
            }
            rest
        }
    }
}

// ------------------------- lowercasing -------------------------

/// An ASCII capital letter lowered; every other character unchanged.
pub open spec fn lower_char(c: char) -> char {
    if 'A' <= c && c <= 'Z' {
        ((c as u8) + 32) as char
    } else {
        c
    }
}

/// A sequence with its ASCII capital letters lowered.
pub open spec fn lower(s: Seq<char>) -> Seq<char> {
    Seq::new(s.len(), |i: int| lower_char(s[i]))
}

fn lower_piece<'a>(s: &'a str, i: usize) -> (r: &'a str)
    requires
        i < s@.len(),
        s@.len() <= usize::MAX,
    ensures
        r@ =~= seq![lower_char(s@[i as int])],
{
    let c = s.get_char(i);
    if c == 'A' {
        proof {
            reveal_strlit("a");
        }
        "a"
    } else if c == 'B' {
        proof {
            reveal_strlit("b");
        }
        "b"
    } else if c == 'C' {
        proof {
            reveal_strlit("c");
        }
        "c"
    } else if c == 'D' {
        proof {
            reveal_strlit("d");
        }
        "d"
    } else if c == 'E' {
        proof {
            reveal_strlit("e");
        }
        "e"
    } else if c == 'F' {
        proof {
            reveal_strlit("f");
        }
        "f"
    } else if c == 'G' {
        proof {
            reveal_strlit("g");
        }
        "g"
    } else if c == 'H' {
        proof {
            reveal_strlit("h");
        }
        "h"
    } else if c == 'I' {
        proof {
            reveal_strlit("i");
        }
        "i"
    } else if c == 'J' {
        proof {
            reveal_strlit("j");
        }
        "j"
    } else if c == 'K' {
        proof {
            reveal_strlit("k");
        }
        "k"
    } else if c == 'L' {
        proof {
            reveal_strlit("l");
        }
        "l"
    } else if c == 'M' {
        proof {
            reveal_strlit("m");
        }
        "m"
    } else if c == 'N' {
        proof {
            reveal_strlit("n");
        }
        "n"
    } else if c == 'O' {
        proof {
            reveal_strlit("o");
        }
        "o"
    } else if c == 'P' {
        proof {
            reveal_strlit("p");
        }
        "p"
    } else if c == 'Q' {
        proof {
            reveal_strlit("q");
        }
        "q"
    } else if c == 'R' {
        proof {
            reveal_strlit("r");
        }
        "r"
    } else if c == 'S' {
        proof {
            reveal_strlit("s");
        }
        "s"
    } else if c == 'T' {
        proof {
            reveal_strlit("t");
        }
        "t"
    } else if c == 'U' {
        proof {
            reveal_strlit("u");
        }
        "u"
    } else if c == 'V' {
        proof {
            reveal_strlit("v");
        }
        "v"
    } else if c == 'W' {
        proof {
            reveal_strlit("w");
        }
        "w"
    } else if c == 'X' {
        proof {
            reveal_strlit("x");
        }
        "x"
    } else if c == 'Y' {
        proof {
            reveal_strlit("y");
        }
        "y"
    } else if c == 'Z' {
        proof {
            reveal_strlit("z");
        }
        "z"
    } else {
        let p = s.substring_char(i, i + 1);
        proof {
            assert(p@ =~= seq![s@[i as int]]);
        }
        p
    }
}

/// The string with its ASCII capital letters lowered.
pub fn to_lower(s: &str) -> (r: String)
    ensures
        r@ =~= lower(s@),
{
    let n = s.unicode_len();
    let mut out = String::new();
    let mut i: usize = 0;
    while i < n
        invariant
            0 <= i <= n,
            n == s@.len(),
            out@ =~= lower(s@).take(i as int),
        decreases n - i,
    {
        let piece = lower_piece(s, i);
        out.append(piece);
        proof {
            let ii = i as int;
            assert(lower(s@).take(ii + 1) =~= lower(s@).take(ii) + seq![lower_char(s@[ii])]);
        }
        i = i + 1;
    }
    proof {
        assert(lower(s@).take(n as int) =~= lower(s@));
    }
    out
}

// ------------------------- number parsing -------------------------

/// The value of a digit string, most significant digit first.
pub open spec fn digits_val(s: Seq<char>) -> int
    decreases s.len(),
{
    if s.len() == 0 {
        0
    } else {
        digits_val(s.drop_last()) * 10 + (s.last() as u32 - 48)
    }
}

/// Every character is an ASCII digit.
pub open spec fn all_digits(s: Seq<char>) -> bool {
    forall|i: int| 0 <= i < s.len() ==> is_digit_char(#[trigger] s[i])
}

/// The digit part of a signed decimal token: past a single leading `-` or
/// `+`, if there is one.
pub open spec fn num_body(s: Seq<char>) -> Seq<char> {
    if s.len() > 0 && (s[0] == '-' || s[0] == '+') {
        s.drop_first()
    } else {
        s
    }
}

/// The token denotes a negative number.
pub open spec fn num_neg(s: Seq<char>) -> bool {
    s.len() > 0 && s[0] == '-'
}

/// A signed decimal integer read from the whole token, accepted exactly
/// when the digit part is non-empty and all digits and the value lies in
/// `lo..=hi`.
pub open spec fn spec_parse_int(s: Seq<char>, lo: int, hi: int) -> Option<int> {
    let b = num_body(s);
    if b.len() == 0 || !all_digits(b) {
        None
    } else {
        let v = if num_neg(s) {
            -digits_val(b)
        } else {
            digits_val(b)
        };
        if lo <= v <= hi {
            Some(v)
        } else {
            None
        }
    }
}

/// A signed 16-bit integer read from the whole token.
pub open spec fn spec_parse_i16(s: Seq<char>) -> Option<i16> {
    match spec_parse_int(s, -32768, 32767) {
        Some(v) => Some(v as i16),
        None => None,
    }
}

/// A signed 8-bit integer read from the whole token.
pub open spec fn spec_parse_i8(s: Seq<char>) -> Option<i8> {
    match spec_parse_int(s, -128, 127) {
        Some(v) => Some(v as i8),
        None => None,
    }
}

proof fn lemma_digits_val_nonneg(s: Seq<char>)
    requires
        all_digits(s),
    ensures
        digits_val(s) >= 0,
    decreases s.len(),
{
    if s.len() > 0 {
        assert(all_digits(s.drop_last())) by {
            assert(forall|i: int| 0 <= i < s.len() - 1 ==> s.drop_last()[i] == #[trigger] s[i]);
        }
        lemma_digits_val_nonneg(s.drop_last());
        assert(is_digit_char(s.last()));
    }
}

proof fn lemma_digits_val_monotone(s: Seq<char>, i: int, j: int)
    requires
        all_digits(s),
        0 <= i <= j <= s.len(),
    ensures
        digits_val(s.take(i)) <= digits_val(s.take(j)),
    decreases j - i,
{
    if i < j {
        lemma_digits_val_monotone(s, i, j - 1);
        assert(s.take(j).drop_last() =~= s.take(j - 1));
        assert(s.take(j).last() == s[j - 1]);
        assert(all_digits(s.take(j - 1))) by {
            assert(forall|k: int| 0 <= k < j - 1 ==> s.take(j - 1)[k] == #[trigger] s[k]);
        }
        lemma_digits_val_nonneg(s.take(j - 1));
        assert(is_digit_char(s[j - 1]));
    }
}

fn parse_digits(s: &str, from: usize) -> (r: Option<u32>)
    requires
        from <= s@.len(),
    ensures
        ({
            let b = s@.skip(from as int);
            match r {
                Some(v) => b.len() > 0 && all_digits(b) && v == digits_val(b) && v <= 99999,
                None => b.len() == 0 || !all_digits(b) || digits_val(b) > 99999,
            }
        }),
{
    let ghost b = s@.skip(from as int);
    let n = s.unicode_len();
    if from == n {
        return None;
    }
    let mut acc: u32 = 0;
    let mut k: usize = from;
    while k < n
        invariant
            from <= k <= n,
            n == s@.len(),
            from < n,
            b =~= s@.skip(from as int),
            all_digits(b.take(k - from)),
            acc == digits_val(b.take(k - from)),
            acc <= 99999,
        decreases n - k,
    {
        let c = s.get_char(k);
        proof {
            assert(b[k - from] == s@[k as int]);
        }
        if !is_digit_c(c) {
            proof {
                assert(!is_digit_char(b[k - from]));
            }
            return None;
        }
        let d: u32 = (c as u32) - 48;
        proof {
            assert(c as u32 >= 48 && c as u32 <= 57);
            assert(b.take(k - from + 1).drop_last() =~= b.take(k - from));
            assert(b.take(k - from + 1).last() == b[k - from]);
            assert(forall|t: int| 0 <= t < k - from + 1 ==> is_digit_char(#[trigger] b.take(
                k - from + 1,
            )[t]));
        }
        let next: u32 = acc * 10 + d;
        if next > 99999 {
            proof {
                if all_digits(b) {
                    lemma_digits_val_monotone(b, k - from + 1, b.len() as int);
                    assert(b.take(b.len() as int) =~= b);
                }
            }
            return None;
        }
        acc = next;
        k = k + 1;
    }
    proof {
        assert(b.take(n - from) =~= b);
    }
    Some(acc)
}

/// A signed 16-bit integer read from a whole token, as `spec_parse_i16`.
pub fn parse_i16_tok(s: &str) -> (r: Option<i16>)
    ensures
        r == spec_parse_i16(s@),
{
    let n = s.unicode_len();
    let neg = n > 0 && s.get_char(0) == '-';
    let signed = neg || (n > 0 && s.get_char(0) == '+');
    let from: usize = if signed {
        1
    } else {
        0
    };
    proof {
        assert(num_body(s@) =~= s@.skip(from as int));
    }
    match parse_digits(s, from) {
        None => {
            proof {
                if !(num_body(s@).len() == 0 || !all_digits(num_body(s@))) {
                    lemma_digits_val_nonneg(num_body(s@));
                }
            }
            None
        },
        Some(v) => {
            if neg {
                if v <= 32768 {
                    Some((-(v as i32)) as i16)
                } else {
                    None
                }
            } else {
                if v <= 32767 {
                    Some(v as i16)
                } else {
                    None
                }
            }
        },
    }
}

/// A signed 8-bit integer read from a whole token, as `spec_parse_i8`.
pub fn parse_i8_tok(s: &str) -> (r: Option<i8>)
    ensures
        r == spec_parse_i8(s@),
{
    let n = s.unicode_len();
    let neg = n > 0 && s.get_char(0) == '-';
    let signed = neg || (n > 0 && s.get_char(0) == '+');
    let from: usize = if signed {
        1
    } else {
        0
    };
    proof {
        assert(num_body(s@) =~= s@.skip(from as int));
    }
    match parse_digits(s, from) {
        None => {
            proof {
                if !(num_body(s@).len() == 0 || !all_digits(num_body(s@))) {
                    lemma_digits_val_nonneg(num_body(s@));
                }
            }
            None
        },
        Some(v) => {
            if neg {
                if v <= 128 {
                    Some((-(v as i32)) as i8)
                } else {
                    None
                }
            } else {
                if v <= 127 {
                    Some(v as i8)
                } else {
                    None
                }
            }
        },
    }
}

// ------------------------- control-character substitution -------------------------

/// Bytes with the two-byte escapes substituted: a backslash before `n`
/// becomes one newline byte, before `t` one tab byte; the pair is
/// consumed, everything else is kept.
pub open spec fn replace_ctl(b: Seq<u8>) -> Seq<u8>
    decreases b.len(),
{
    if b.len() < 2 {
        b
    } else if b[0] == 92 && (b[1] == 110 || b[1] == 116) {
        let sub: u8 = if b[1] == 110 {
            10
        } else {
            9
        };
        seq![sub] + replace_ctl(b.skip(2))
    } else {
        seq![b[0]] + replace_ctl(b.skip(1))
    }
}

fn replace_from(s: &Vec<u8>, i: usize) -> (r: Vec<u8>)
    requires
        i <= s@.len(),
    ensures
        r@ =~= replace_ctl(s@.skip(i as int)),
    decreases s@.len() - i,
{
    let n = s.len();
    proof {
        assert(s@.skip(i as int).len() == n - i);
    }
    if n - i < 2 {
        let mut out: Vec<u8> = Vec::new();
        if i < n {
            out.push(s[i]);
            proof {
                assert(s@.skip(i as int) =~= seq![s@[i as int]]);
            }
        }
        out
    } else {
        proof {
            assert(s@.skip(i as int)[0] == s@[i as int]);
            assert(s@.skip(i as int)[1] == s@[i as int + 1]);
            assert(s@.skip(i as int).skip(2) =~= s@.skip(i as int + 2));
            assert(s@.skip(i as int).skip(1) =~= s@.skip(i as int + 1));
        }
        if s[i] == 92 && (s[i + 1] == 110 || s[i + 1] == 116) {
            let sub: u8 = if s[i + 1] == 110 {
                10
            } else {
                9
            };
            let mut out = replace_from(s, i + 2);
            out.insert(0, sub);
            out
        } else {
            let b = s[i];
            let mut out = replace_from(s, i + 1);
            out.insert(0, b);
            out
        }
    }
}

/// Substitutes the `\n` and `\t` escapes in a byte vector in place.
pub fn replace_control_ascii(s: &mut Vec<u8>)
    ensures
        final(s)@ =~= replace_ctl(old(s)@),
{
    let r = replace_from(s, 0);
    proof {
        assert(old(s)@.skip(0) =~= old(s)@);
    }
    *s = r;
}

// ------------------------- data words -------------------------

/// The 16-bit words a quoted data string emits: the body's bytes after
/// escape substitution, a terminating NUL byte appended, one word per
/// byte.
pub open spec fn string_words(t: Seq<char>) -> Seq<u16> {
    let body = replace_ctl(encode_utf8(strip_quotes(t))).push(0u8);
    Seq::new(body.len(), |i: int| body[i] as u16)
}

/// The word one comma-separated piece emits: its trimmed text read as a
/// signed 16-bit integer, reinterpreted as a word; an unreadable piece
/// emits zero.
pub open spec fn piece_word(p: Seq<char>) -> u16 {
    match spec_parse_i16(spec_trim(p)) {
        Some(v) => i16_bits(v),
        None => 0,
    }
}

/// The words a comma-separated number list emits.
pub open spec fn array_words(t: Seq<char>) -> Seq<u16> {
    split_on(t, ',').map_values(|p: Seq<char>| piece_word(p))
}

/// The words a data literal emits.
pub open spec fn data_words(t: Seq<char>) -> Seq<u16> {
    if t.len() > 0 && t[0] == '"' {
        string_words(t)
    } else {
        array_words(t)
    }
}

/// The big-endian byte stream of a word sequence.
pub open spec fn words_bytes(ws: Seq<u16>) -> Seq<u8>
    decreases ws.len(),
{
    if ws.len() == 0 {
        Seq::<u8>::empty()
    } else {
        words_bytes(ws.drop_last()) + seq![(ws.last() >> 8) as u8, (ws.last() & 0xFF) as u8]
    }
}

proof fn lemma_byte_widen(b: u8)
    by (bit_vector)
    ensures
        ((b as u16) >> 8) == 0,
        ((b as u16) & 0xFF) == b,
{
}

// ------------------------- classification -------------------------

/// What one source line is.
pub enum LineContent {
    Label(String),
    Instruction(String, Vec<String>),
    Data(Vec<u8>),
    Section(Section),
    NonRelevant,
}

/// Ghost mirror of `LineContent`, over character sequences; a data line
/// is carried as the 16-bit words it emits.
pub enum LineKind {
    Blank,
    SectionDecl(Section),
    DataWords(Seq<u16>),
    LabelDecl(Seq<char>),
    Instr(Seq<char>, Seq<Seq<char>>),
}

/// A classification fault, with the offending text.
pub enum LineFault {
    WrongSection(Seq<char>),
    LabelMoreColon(Seq<char>),
    LabelWhitespace(Seq<char>),
    Unrecognized(Seq<char>),
}

/// The classification of one raw source line, in priority order: blank,
/// section declaration, data literal, label declaration, instruction.
pub open spec fn classify_line(raw: Seq<char>) -> Result<LineKind, LineFault> {
    let t = spec_trim(raw);
    if t.len() == 0 || is_comment_line(t) {
        Ok(LineKind::Blank)
    } else if is_section_line(t) {
        if contains_code(t) {
            Ok(LineKind::SectionDecl(Section::Code))
        } else if contains_data(t) {
            Ok(LineKind::SectionDecl(Section::Data))
        } else {
            Err(LineFault::WrongSection(t))
        }
    } else if is_data_line(t) {
        Ok(LineKind::DataWords(data_words(t)))
    } else if has_colon(t) {
        if count_colons(t) > 1 {
            Err(LineFault::LabelMoreColon(t))
        } else {
            let name = t.take(t.len() - 1);
            if has_label_ws(name) {
                Err(LineFault::LabelWhitespace(name))
            } else {
                Ok(LineKind::LabelDecl(name))
            }
        }
    } else {
        let toks = split_on(t, ' ');
        if is_ascii_chars(toks[0]) {
            Ok(LineKind::Instr(lower(toks[0]), toks.drop_first()))
        } else {
            Err(LineFault::Unrecognized(t))
        }
    }
}

/// An executable classification denotes a ghost one.
pub open spec fn content_matches(c: LineContent, k: LineKind) -> bool {
    match (c, k) {
        (LineContent::NonRelevant, LineKind::Blank) => true,
        (LineContent::Section(s1), LineKind::SectionDecl(s2)) => s1 == s2,
        (LineContent::Data(bytes), LineKind::DataWords(ws)) => bytes@ == words_bytes(ws),
        (LineContent::Label(n), LineKind::LabelDecl(nm)) => n@ == nm,
        (LineContent::Instruction(m, args), LineKind::Instr(sm, sa)) => m@ == sm
            && args.deep_view() == sa,
        _ => false,
    }
}

/// An executable error denotes a ghost fault at a line.
pub open spec fn fault_matches(e: LineError, f: LineFault, ln: int) -> bool {
    match (e, f) {
        (LineError::WrongSection(s, n), LineFault::WrongSection(t)) => s@ == t && n == ln,
        (LineError::LabelMoreColon(s, n), LineFault::LabelMoreColon(t)) => s@ == t && n == ln,
        (LineError::LabelWhitespace(s, n), LineFault::LabelWhitespace(t)) => s@ == t && n == ln,
        (LineError::Unrecognized(s, n), LineFault::Unrecognized(t)) => s@ == t && n == ln,
        _ => false,
    }
}

// ------------------------- trim idempotence -------------------------

proof fn lemma_trim_front_first(s: Seq<char>)
    ensures
        spec_trim_front(s).len() > 0 ==> !is_space_char(spec_trim_front(s)[0]),
    decreases s.len(),
{
    if s.len() > 0 && is_space_char(s[0]) {
        lemma_trim_front_first(s.drop_first());
    }
}

proof fn lemma_trim_back_last(s: Seq<char>)
    ensures
        spec_trim_back(s).len() > 0 ==> !is_space_char(spec_trim_back(s).last()),
    decreases s.len(),
{
    if s.len() > 0 && is_space_char(s.last()) {
        lemma_trim_back_last(s.drop_last());
    }
}

proof fn lemma_trim_back_first(s: Seq<char>)
    ensures
        spec_trim_back(s).len() > 0 ==> spec_trim_back(s)[0] == s[0],
    decreases s.len(),
{
    if s.len() > 0 && is_space_char(s.last()) {
        lemma_trim_back_first(s.drop_last());
    }
}

/// Trimming an already trimmed line changes nothing.
pub proof fn lemma_trim_idempotent(s: Seq<char>)
    ensures
        spec_trim(spec_trim(s)) == spec_trim(s),
{
    let t = spec_trim(s);
    lemma_trim_front_first(s);
    lemma_trim_back_first(spec_trim_front(s));
    lemma_trim_back_last(spec_trim_front(s));
    if t.len() > 0 {
        assert(!is_space_char(t[0]));
        assert(!is_space_char(t.last()));
    }
    assert(spec_trim_front(t) == t);
    assert(spec_trim_back(t) == t);
}

// ------------------------- executable classification -------------------------

/// Classifies a `.section` line by the words it holds; a line that names
/// neither section is a fault carrying the trimmed text.
pub fn parsed_section(line: &str, line_num: usize) -> (r: Result<LineContent, LineError>)
    ensures
        contains_code(line@) ==> r is Ok && content_matches(
            r->Ok_0,
            LineKind::SectionDecl(Section::Code),
        ),
        !contains_code(line@) && contains_data(line@) ==> r is Ok && content_matches(
            r->Ok_0,
            LineKind::SectionDecl(Section::Data),
        ),
        !contains_code(line@) && !contains_data(line@) ==> r is Err && fault_matches(
            r->Err_0,
            LineFault::WrongSection(spec_trim(line@)),
            line_num as int,
        ),
{
    if scan_code(line) {
        Ok(LineContent::Section(Section::Code))
    } else if scan_data(line) {
        Ok(LineContent::Section(Section::Data))
    } else {
        let tr = trim_str(line);
        Err(LineError::WrongSection(tr.to_owned(), line_num))
    }
}

fn scan_label_ws(s: &str) -> (r: bool)
    ensures
        r == has_label_ws(s@),
{
    let n = s.unicode_len();
    let mut i: usize = 0;
    while i < n
        invariant
            0 <= i <= n,
            n == s@.len(),
            forall|j: int| 0 <= j < i ==> !(s@[j] == ' ' || s@[j] == '\t'),
        decreases n - i,
    {
        let c = s.get_char(i);
        if c == ' ' || c == '\t' {
            return true;
        }
        i = i + 1;
    }
    false
}

/// Classifies a label line: rejects more than one colon, drops the final
/// character to form the name, and rejects whitespace inside the name.
pub fn parsed_label(line: &str, line_num: usize) -> (r: Result<LineContent, LineError>)
    requires
        line@.len() >= 1,
    ensures
        count_colons(line@) > 1 ==> r is Err && fault_matches(
            r->Err_0,
            LineFault::LabelMoreColon(line@),
            line_num as int,
        ),
        count_colons(line@) <= 1 && has_label_ws(line@.take(line@.len() - 1)) ==> r is Err
            && fault_matches(
            r->Err_0,
            LineFault::LabelWhitespace(line@.take(line@.len() - 1)),
            line_num as int,
        ),
        count_colons(line@) <= 1 && !has_label_ws(line@.take(line@.len() - 1)) ==> r is Ok
            && content_matches(r->Ok_0, LineKind::LabelDecl(line@.take(line@.len() - 1))),
{
    let cnt = scan_colons(line);
    if cnt > 1 {
        Err(LineError::LabelMoreColon(line.to_owned(), line_num))
    } else {
        let n = line.unicode_len();
        let name = line.substring_char(0, n - 1);
        proof {
            assert(name@ =~= line@.take(line@.len() - 1));
        }
        if scan_label_ws(name) {
            Err(LineError::LabelWhitespace(name.to_owned(), line_num))
        } else {
            Ok(LineContent::Label(name.to_owned()))
        }
    }
}

/// Classifies an instruction line: tokens split on single spaces, the
/// first token lowered as the mnemonic, the rest as arguments; a
/// non-ASCII first token is a fault carrying the trimmed line.
pub fn parsed_instruction(line: &str, line_num: usize) -> (r: Result<LineContent, LineError>)
    ensures
        ({
            let toks = split_on(line@, ' ');
            if is_ascii_chars(toks[0]) {
                r is Ok && content_matches(
                    r->Ok_0,
                    LineKind::Instr(lower(toks[0]), toks.drop_first()),
                )
            } else {
                r is Err && fault_matches(
                    r->Err_0,
                    LineFault::Unrecognized(spec_trim(line@)),
                    line_num as int,
                )
            }
        }),
{
    let mut toks = split_from(line, 0, ' ');
    proof {
        assert(line@.skip(0) =~= line@);
    }
    let ghost all = toks.deep_view();
    if toks[0].is_ascii() {
        let first = toks.remove(0);
        let m = to_lower(first.as_str());
        proof {
            assert(toks.deep_view() =~= all.drop_first()) by {
                assert(forall|i: int|
                    0 <= i < toks.deep_view().len() ==> toks.deep_view()[i]
                        == all.drop_first()[i]);
            }
        }
        Ok(LineContent::Instruction(m, toks))
    } else {
        let tr = trim_str(line);
        Err(LineError::Unrecognized(tr.to_owned(), line_num))
    }
}

/// Classifies a data line and renders its words as big-endian bytes.
pub fn parsed_data(line: &str, line_num: usize) -> (r: Result<LineContent, LineError>)
    requires
        is_data_line(line@),
    ensures
        r is Ok && content_matches(r->Ok_0, LineKind::DataWords(data_words(line@))),
{
    let _ = line_num;
    if line.get_char(0) == '"' {
        let stripped = strip_quotes_str(line);
        let mut bytes = stripped.as_bytes_vec();
        replace_control_ascii(&mut bytes);
        bytes.push(0);
        let ghost words = string_words(line@);
        proof {
            assert(bytes@.len() == words.len());
        }
        let mut out: Vec<u8> = Vec::new();
        let m = bytes.len();
        let mut j: usize = 0;
        while j < m
            invariant
                0 <= j <= m,
                m == bytes@.len(),
                m == words.len(),
                forall|i: int| 0 <= i < m ==> words[i] == bytes@[i] as u16,
                out@ =~= words_bytes(words.take(j as int)),
            decreases m - j,
        {
            let b = bytes[j];
            out.push(0);
            out.push(b);
            proof {
                lemma_byte_widen(b);
                assert(words.take(j + 1).drop_last() =~= words.take(j as int));
                assert(words.take(j + 1).last() == words[j as int]);
            }
            j = j + 1;
        }
        proof {
            assert(words.take(m as int) =~= words);
        }
        Ok(LineContent::Data(out))
    } else {
        let pieces = split_from(line, 0, ',');
        proof {
            assert(line@.skip(0) =~= line@);
        }
        let ghost words = array_words(line@);
        proof {
            assert(words.len() == pieces.deep_view().len());
        }
        let mut out: Vec<u8> = Vec::new();
        let m = pieces.len();
        let mut j: usize = 0;
        while j < m
            invariant
                0 <= j <= m,
                m == pieces@.len(),
                m == words.len(),
                pieces.deep_view() =~= split_on(line@, ','),
                words == array_words(line@),
                forall|i: int| 0 <= i < m ==> words[i] == piece_word(pieces.deep_view()[i]),
                out@ =~= words_bytes(words.take(j as int)),
            decreases m - j,
        {
            let t = trim_str(pieces[j].as_str());
            let w: u16 = match parse_i16_tok(t) {
                Some(v) => to_bits(v),
                None => 0,
            };
            proof {
                assert(pieces.deep_view()[j as int] == pieces@[j as int]@);
                assert(w == piece_word(pieces.deep_view()[j as int]));
                crate::isa::lemma_split_word(w);
                assert(words.take(j + 1).drop_last() =~= words.take(j as int));
                assert(words.take(j + 1).last() == words[j as int]);
            }
            out.push((w >> 8) as u8);
            out.push((w & 0xFF) as u8);
            j = j + 1;
        }
        proof {
            assert(words.take(m as int) =~= words);
        }
        Ok(LineContent::Data(out))
    }
}

/// Classifies one raw source line, trimming it first; see `classify_line`
/// for the exact rules.
pub fn parse_line(line: &String, line_num: usize) -> (r: Result<LineContent, LineError>)
    ensures
        ({
            match classify_line(line@) {
                Ok(k) => r is Ok && content_matches(r->Ok_0, k),
                Err(f) => r is Err && fault_matches(r->Err_0, f, line_num as int),
            }
        }),
{
    let t: &str = trim_str(line.as_str());
    proof {
        lemma_trim_idempotent(line@);
    }
    let n = t.unicode_len();
    if n == 0 || (n >= 2 && t.get_char(0) == '/' && t.get_char(1) == '/') {
        Ok(LineContent::NonRelevant)
    } else if n >= 8 && t.get_char(0) == '.' && t.get_char(1) == 's' && t.get_char(2) == 'e'
        && t.get_char(3) == 'c' && t.get_char(4) == 't' && t.get_char(5) == 'i' && t.get_char(6)
        == 'o' && t.get_char(7) == 'n' {
        parsed_section(t, line_num)
    } else if t.get_char(0) == '"' || is_digit_c(t.get_char(0)) {
        parsed_data(t, line_num)
    } else if scan_colons(t) > 0 {
        proof {
            lemma_count_colons_has(t@);
        }
        parsed_label(t, line_num)
    } else {
        proof {
            lemma_count_colons_has(t@);
        }
        parsed_instruction(t, line_num)
    }
}

// ------------------------- argument cleanup -------------------------

/// A token of nothing but whitespace.
pub open spec fn is_blank_tok(t: Seq<char>) -> bool {
    forall|i: int| 0 <= i < t.len() ==> is_space_char(#[trigger] t[i])
}

/// Argument tokens cut at the first `//` token, with whitespace-only
/// tokens dropped.
pub open spec fn spec_trim_comments(args: Seq<Seq<char>>) -> Seq<Seq<char>>
    decreases args.len(),
{
    if args.len() == 0 {
        Seq::<Seq<char>>::empty()
    } else if is_comment_line(args[0]) {
        Seq::<Seq<char>>::empty()
    } else if is_blank_tok(args[0]) {
        spec_trim_comments(args.drop_first())
    } else {
        seq![args[0]] + spec_trim_comments(args.drop_first())
    }
}

fn is_blank_tok_c(s: &String) -> (r: bool)
    ensures
        r == is_blank_tok(s@),
{
    let t = s.as_str();
    let n = t.unicode_len();
    let mut i: usize = 0;
    while i < n
        invariant
            0 <= i <= n,
            n == s@.len(),
            t@ == s@,
            forall|j: int| 0 <= j < i ==> is_space_char(#[trigger] s@[j]),
        decreases n - i,
    {
        if !is_space_c(t.get_char(i)) {
            return false;
        }
        i = i + 1;
    }
    true
}

fn is_comment_tok(s: &String) -> (r: bool)
    ensures
        r == is_comment_line(s@),
{
    let t = s.as_str();
    let n = t.unicode_len();
    n >= 2 && t.get_char(0) == '/' && t.get_char(1) == '/'
}

fn trim_comments_from(args: &Vec<String>, i: usize) -> (r: Vec<String>)
    requires
        i <= args@.len(),
    ensures
        r.deep_view() =~= spec_trim_comments(args.deep_view().skip(i as int)),
    decreases args@.len() - i,
{
    if i == args.len() {
        Vec::new()
    } else {
        proof {
            assert(args.deep_view().skip(i as int)[0] == args@[i as int]@);
            assert(args.deep_view().skip(i as int).drop_first() =~= args.deep_view().skip(
                i as int + 1,
            ));
        }
        if is_comment_tok(&args[i]) {
            Vec::new()
        } else if is_blank_tok_c(&args[i]) {
            trim_comments_from(args, i + 1)
        } else {
            let mut rest = trim_comments_from(args, i + 1);
            let tok = args[i].clone();
            rest.insert(0, tok);
            proof {
                assert(rest.deep_view() =~= spec_trim_comments(args.deep_view().skip(i as int)));
            }
            rest
        }
    }
}

/// Cuts the argument list at the first `//` token and drops tokens of
/// nothing but whitespace.
pub fn trim_comments(args: Vec<String>) -> (r: Vec<String>)
    ensures
        r.deep_view() =~= spec_trim_comments(args.deep_view()),
{
    proof {
        assert(args.deep_view().skip(0) =~= args.deep_view());
    }
    trim_comments_from(&args, 0)
}

} // verus!
