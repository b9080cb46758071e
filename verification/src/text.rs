//! Character-level text handling shared by the configuration formats.
//!
//! Every format the boot loader reads is line oriented: `lines` splits text
//! the way `str::lines` does, `trim` removes Unicode white space the way
//! `str::trim` does, and the remaining helpers locate separators. The
//! executable helpers work on a `Vec<char>` and half-open index ranges into
//! it, so that a whole file is decoded once.

use vstd::prelude::*;

verus! {

broadcast use vstd::string::group_string_axioms;

// ---------------------------------------------------------------------------
// Specifications
// ---------------------------------------------------------------------------

/// The Unicode `White_Space` property, which `char::is_whitespace` tests.
pub open spec fn is_white(c: char) -> bool {
    let n = c as u32;
    ||| 0x09 <= n <= 0x0d
    ||| n == 0x20
    ||| n == 0x85
    ||| n == 0xa0
    ||| n == 0x1680
    ||| 0x2000 <= n <= 0x200a
    ||| n == 0x2028
    ||| n == 0x2029
    ||| n == 0x202f
    ||| n == 0x205f
    ||| n == 0x3000
}

/// `s` without its leading white space.
pub open spec fn trim_start(s: Seq<char>) -> Seq<char>
    decreases s.len(),
{
    if s.len() > 0 && is_white(s[0]) {
        trim_start(s.drop_first())
    } else {
        s
    }
}

/// `s` without its trailing white space.
pub open spec fn trim_end(s: Seq<char>) -> Seq<char>
    decreases s.len(),
{
    if s.len() > 0 && is_white(s.last()) {
        trim_end(s.drop_last())
    } else {
        s
    }
}

/// `s` without leading and trailing white space (`str::trim`).
pub open spec fn trim(s: Seq<char>) -> Seq<char> {
    trim_end(trim_start(s))
}

/// Index of the first `c` in `s`, or `s.len()` when there is none.
pub open spec fn find_char(s: Seq<char>, c: char) -> int
    decreases s.len(),
{
    if s.len() == 0 {
        0
    } else if s[0] == c {
        0
    } else {
        1 + find_char(s.drop_first(), c)
    }
}

/// Whether `c` occurs in `s`.
pub open spec fn has_char(s: Seq<char>, c: char) -> bool {
    exists|i: int| 0 <= i < s.len() && s[i] == c
}

/// The part of `s` before its first `c` (`s.split(c).next()`).
pub open spec fn before_char(s: Seq<char>, c: char) -> Seq<char> {
    s.subrange(0, find_char(s, c))
}

/// `s.split_once(c)`: the text around the first `c`, if there is one.
pub open spec fn split_once(s: Seq<char>, c: char) -> Option<(Seq<char>, Seq<char>)> {
    let i = find_char(s, c);
    if i < s.len() {
        Some((s.subrange(0, i), s.subrange(i + 1, s.len() as int)))
    } else {
        None
    }
}

/// The text of an optional string.
pub open spec fn opt_view(o: Option<String>) -> Option<Seq<char>> {
    match o {
        Some(s) => Some(s@),
        None => None,
    }
}

/// The texts of a list of strings.
pub open spec fn strings_view(v: Seq<String>) -> Seq<Seq<char>> {
    v.map_values(|s: String| s@)
}

/// Index of the first white-space character of `s`, or `s.len()`.
pub open spec fn find_white(s: Seq<char>) -> int
    decreases s.len(),
{
    if s.len() == 0 {
        0
    } else if is_white(s[0]) {
        0
    } else {
        1 + find_white(s.drop_first())
    }
}

/// `s.split_once(char::is_whitespace)`: the text around the first white
/// space character, if there is one.
pub open spec fn split_white(s: Seq<char>) -> Option<(Seq<char>, Seq<char>)> {
    let i = find_white(s);
    if i < s.len() {
        Some((s.subrange(0, i), s.subrange(i + 1, s.len() as int)))
    } else {
        None
    }
}

/// A line that ended in `"\r\n"` loses its carriage return.
pub open spec fn strip_cr(line: Seq<char>) -> Seq<char> {
    if line.len() > 0 && line.last() == '\r' {
        line.drop_last()
    } else {
        line
    }
}

/// `str::lines`: pieces separated by `'\n'`, without the terminators; a
/// `'\r'` directly before a `'\n'` belongs to the terminator, and a final
/// terminator does not start an empty line.
pub open spec fn lines(s: Seq<char>) -> Seq<Seq<char>>
    decreases s.len(),
{
    if s.len() == 0 {
        Seq::empty()
    } else {
        let i = find_char(s, '\n');
        if 0 <= i < s.len() {
            seq![strip_cr(s.subrange(0, i))] + lines(s.subrange(i + 1, s.len() as int))
        } else {
            seq![s]
        }
    }
}

/// The comment-free, trimmed form of a configuration line:
/// `line.split('#').next().trim()`.
pub open spec fn clean_line(line: Seq<char>) -> Seq<char> {
    trim(before_char(line, '#'))
}

/// `value.strip_prefix('"').and_then(|v| v.strip_suffix('"')).unwrap_or(value)`.
pub open spec fn unquote(s: Seq<char>) -> Seq<char> {
    if s.len() >= 2 && s[0] == '"' && s.last() == '"' {
        s.subrange(1, s.len() - 1)
    } else {
        s
    }
}

/// Whether `s` starts with `prefix`.
pub open spec fn has_prefix(s: Seq<char>, prefix: Seq<char>) -> bool {
    prefix.len() <= s.len() && s.subrange(0, prefix.len() as int) == prefix
}

/// Whether `s` ends with `suffix`.
pub open spec fn has_suffix(s: Seq<char>, suffix: Seq<char>) -> bool {
    suffix.len() <= s.len() && s.subrange(s.len() - suffix.len(), s.len() as int) == suffix
}

/// The decimal digit character for `d < 10`.
pub open spec fn digit_char(d: nat) -> char {
    ((d + 48) as u32) as char
}

/// Whether `c` is one of `'0'..='9'`.
pub open spec fn is_digit(c: char) -> bool {
    48 <= c as u32 <= 57
}

/// The value of the decimal digit `c`.
pub open spec fn digit_value(c: char) -> nat {
    ((c as u32) - 48) as nat
}

/// The decimal text of `n`, without leading zeros.
pub open spec fn decimal(n: nat) -> Seq<char>
    decreases n,
{
    if n < 10 {
        seq![digit_char(n)]
    } else {
        decimal(n / 10).push(digit_char(n % 10))
    }
}

/// Why a string is not a decimal number (`core::num::IntErrorKind`).
#[derive(Clone, Copy, Debug, PartialEq, Eq, Structural)]
pub enum IntErrorKind {
    /// The string is empty.
    Empty,
    /// A character is not a decimal digit.
    InvalidDigit,
    /// The number does not fit the target type.
    PosOverflow,
}

/// Reads the digits of `d` from the left, as `u32::from_str` and
/// `u64::from_str` do: the first character that is no digit, or the first
/// digit that takes the value above `max`, decides the error.
pub open spec fn digits_value(d: Seq<char>, max: int) -> Result<int, IntErrorKind>
    decreases d.len(),
{
    if d.len() == 0 {
        Ok(0)
    } else {
        match digits_value(d.drop_last(), max) {
            Err(e) => Err(e),
            Ok(v) => if !is_digit(d.last()) {
                Err(IntErrorKind::InvalidDigit)
            } else if v * 10 + digit_value(d.last()) > max {
                Err(IntErrorKind::PosOverflow)
            } else {
                Ok(v * 10 + digit_value(d.last()))
            },
        }
    }
}

/// `FromStr` for an unsigned integer type whose largest value is `max`:
/// an optional `+`, then at least one decimal digit.
pub open spec fn parse_unsigned(s: Seq<char>, max: int) -> Result<int, IntErrorKind> {
    if s.len() == 0 {
        Err(IntErrorKind::Empty)
    } else if (s[0] == '+' || s[0] == '-') && s.len() == 1 {
        Err(IntErrorKind::InvalidDigit)
    } else if s[0] == '+' {
        digits_value(s.drop_first(), max)
    } else {
        digits_value(s, max)
    }
}

/// `s.parse::<u32>()`.
pub open spec fn parse_u32(s: Seq<char>) -> Result<u32, IntErrorKind> {
    match parse_unsigned(s, u32::MAX as int) {
        Ok(v) => Ok(v as u32),
        Err(e) => Err(e),
    }
}

/// `s.parse::<u64>()`.
pub open spec fn parse_u64(s: Seq<char>) -> Result<u64, IntErrorKind> {
    match parse_unsigned(s, u64::MAX as int) {
        Ok(v) => Ok(v as u64),
        Err(e) => Err(e),
    }
}

/// `s.parse::<bool>()`: exactly `true` or `false`.
pub open spec fn parse_bool(s: Seq<char>) -> Option<bool> {
    if s == "true"@ {
        Some(true)
    } else if s == "false"@ {
        Some(false)
    } else {
        None
    }
}

/// The text of a `bool` as `Display` writes it.
pub open spec fn bool_text(b: bool) -> Seq<char> {
    if b {
        "true"@
    } else {
        "false"@
    }
}

/// Converts an error result to `None`, as `Result::ok` does.
pub open spec fn ok_of<T>(r: Result<T, IntErrorKind>) -> Option<T> {
    match r {
        Ok(v) => Some(v),
        Err(_) => None,
    }
}

// ---------------------------------------------------------------------------
// Lemmas
// ---------------------------------------------------------------------------

/// `find_char` is the first occurrence, or the length.
pub proof fn lemma_find_char(s: Seq<char>, c: char)
    ensures
        0 <= find_char(s, c) <= s.len(),
        forall|j: int| 0 <= j < find_char(s, c) ==> s[j] != c,
        find_char(s, c) < s.len() ==> s[find_char(s, c)] == c,
    decreases s.len(),
{
    if s.len() > 0 && s[0] != c {
        lemma_find_char(s.drop_first(), c);
        assert forall|j: int| 0 <= j < find_char(s, c) implies s[j] != c by {
            if j > 0 {
                assert(s[j] == s.drop_first()[j - 1]);
            }
        }
    }
}

/// Any index with the properties of the first occurrence is `find_char`.
pub proof fn lemma_find_char_unique(s: Seq<char>, c: char, i: int)
    requires
        0 <= i <= s.len(),
        forall|j: int| 0 <= j < i ==> s[j] != c,
        i < s.len() ==> s[i] == c,
    ensures
        find_char(s, c) == i,
    decreases s.len(),
{
    if s.len() > 0 && s[0] != c {
        assert(i > 0);
        let t = s.drop_first();
        assert forall|j: int| 0 <= j < i - 1 implies t[j] != c by {
            assert(t[j] == s[j + 1]);
        }
        lemma_find_char_unique(t, c, i - 1);
    }
}

/// Any index with the properties of the first white space is `find_white`.
pub proof fn lemma_find_white_unique(s: Seq<char>, i: int)
    requires
        0 <= i <= s.len(),
        forall|j: int| 0 <= j < i ==> !is_white(s[j]),
        i < s.len() ==> is_white(s[i]),
    ensures
        find_white(s) == i,
    decreases s.len(),
{
    if s.len() > 0 && !is_white(s[0]) {
        let t = s.drop_first();
        assert forall|j: int| 0 <= j < i - 1 implies !is_white(t[j]) by {
            assert(t[j] == s[j + 1]);
        }
        lemma_find_white_unique(t, i - 1);
    }
}

/// `c` occurs in `s` exactly when `find_char` stops before the end.
pub proof fn lemma_has_char(s: Seq<char>, c: char)
    ensures
        has_char(s, c) <==> find_char(s, c) < s.len(),
{
    lemma_find_char(s, c);
    if find_char(s, c) < s.len() {
        assert(s[find_char(s, c)] == c);
    }
}

/// The lines of a text that starts with one terminated line.
pub proof fn lemma_lines_cons(line: Seq<char>, rest: Seq<char>)
    requires
        !has_char(line, '\n'),
    ensures
        lines(line.push('\n') + rest) == seq![strip_cr(line)] + lines(rest),
{
    let s = line.push('\n') + rest;
    assert forall|j: int| 0 <= j < line.len() implies s[j] != '\n' by {
        assert(s[j] == line[j]);
        if s[j] == '\n' {
            assert(has_char(line, '\n'));
        }
    }
    lemma_find_char_unique(s, '\n', line.len() as int);
    assert(s.subrange(0, line.len() as int) == line);
    assert(s.subrange(line.len() + 1 as int, s.len() as int) == rest);
}

/// Whether `s` is empty or ends with a line terminator.
pub open spec fn terminated(s: Seq<char>) -> bool {
    s.len() == 0 || s.last() == '\n'
}

/// Lines of a concatenation whose first part ends a line.
pub proof fn lemma_lines_append(a: Seq<char>, b: Seq<char>)
    requires
        terminated(a),
    ensures
        lines(a + b) == lines(a) + lines(b),
    decreases a.len(),
{
    if a.len() == 0 {
        assert(a + b == b);
        assert(lines(a) =~= Seq::<Seq<char>>::empty());
        assert(lines(a) + lines(b) == lines(b));
    } else {
        let s = a + b;
        lemma_find_char(a, '\n');
        let i = find_char(a, '\n');
        assert(i < a.len()) by {
            if i == a.len() {
                assert(a[a.len() - 1] == '\n');
            }
        }
        assert forall|j: int| 0 <= j < i implies s[j] != '\n' by {
            assert(s[j] == a[j]);
        }
        lemma_find_char_unique(s, '\n', i);
        let a2 = a.subrange(i + 1, a.len() as int);
        assert(terminated(a2));
        lemma_lines_append(a2, b);
        assert(s.subrange(0, i) == a.subrange(0, i));
        assert(s.subrange(i + 1, s.len() as int) == a2 + b);
        assert(lines(a + b) == seq![strip_cr(a.subrange(0, i))] + lines(a2 + b));
        assert(lines(a) == seq![strip_cr(a.subrange(0, i))] + lines(a2));
        assert(lines(a + b) =~= lines(a) + lines(b));
    }
}

/// The lines of one terminated line.
pub proof fn lemma_lines_single(line: Seq<char>)
    requires
        !has_char(line, '\n'),
        line.len() == 0 || line.last() != '\r',
    ensures
        lines(line.push('\n')) == seq![line],
{
    lemma_lines_cons(line, Seq::empty());
    assert(line.push('\n') + Seq::<char>::empty() == line.push('\n'));
    assert(lines(Seq::<char>::empty()) =~= Seq::<Seq<char>>::empty());
    assert(seq![strip_cr(line)] + Seq::<Seq<char>>::empty() =~= seq![line]);
}

/// A text without `c` has no first `c`.
pub proof fn lemma_find_absent(s: Seq<char>, c: char)
    requires
        !has_char(s, c),
    ensures
        find_char(s, c) == s.len(),
{
    lemma_has_char(s, c);
    lemma_find_char(s, c);
}

/// `trim_start` only drops white space from the front.
pub proof fn lemma_trim_start_prefix(s: Seq<char>, k: int)
    requires
        0 <= k <= s.len(),
        forall|j: int| 0 <= j < k ==> is_white(s[j]),
    ensures
        trim_start(s) == trim_start(s.subrange(k, s.len() as int)),
    decreases k,
{
    if k > 0 {
        let t = s.drop_first();
        assert forall|j: int| 0 <= j < k - 1 implies is_white(t[j]) by {
            assert(t[j] == s[j + 1]);
        }
        lemma_trim_start_prefix(t, k - 1);
        assert(t.subrange(k - 1, t.len() as int) == s.subrange(k, s.len() as int));
    } else {
        assert(s.subrange(0, s.len() as int) == s);
    }
}

/// `trim_end` only drops white space from the back.
pub proof fn lemma_trim_end_suffix(s: Seq<char>, k: int)
    requires
        0 <= k <= s.len(),
        forall|j: int| k <= j < s.len() ==> is_white(s[j]),
    ensures
        trim_end(s) == trim_end(s.subrange(0, k)),
    decreases s.len() - k,
{
    if k < s.len() {
        let t = s.drop_last();
        assert forall|j: int| k <= j < t.len() implies is_white(t[j]) by {
            assert(t[j] == s[j]);
        }
        lemma_trim_end_suffix(t, k);
        assert(t.subrange(0, k) == s.subrange(0, k));
    } else {
        assert(s.subrange(0, k) == s);
    }
}

/// A text that neither starts nor ends with white space is its own trim.
pub proof fn lemma_trim_fixed(s: Seq<char>)
    requires
        s.len() > 0 ==> !is_white(s[0]) && !is_white(s.last()),
    ensures
        trim(s) == s,
{
}

/// A key that can start a `key = value` line: no surrounding white space,
/// not a table header, and no `=`, `#` or line break.
pub open spec fn key_ok(k: Seq<char>) -> bool {
    &&& k.len() > 0
    &&& !is_white(k[0])
    &&& !is_white(k.last())
    &&& k[0] != '['
    &&& !has_char(k, '=')
    &&& !has_char(k, '#')
    &&& !has_char(k, '\n')
}

/// How a `key = w` line reads back: it is one line, its own clean form, and
/// it splits into `key` and `w`.
pub proof fn lemma_assignment_line(key: Seq<char>, w: Seq<char>)
    requires
        key_ok(key),
        w.len() > 0,
        !is_white(w[0]),
        !is_white(w.last()),
        !has_char(w, '\n'),
        !has_char(w, '#'),
    ensures
        ({
            let line = key + seq![' ', '=', ' '] + w;
            &&& !has_char(line, '\n')
            &&& line.len() > 0
            &&& line[0] == key[0]
            &&& line.last() == w.last()
            &&& clean_line(line) == line
            &&& split_once(line, '=') == Some((key.push(' '), seq![' '] + w))
            &&& trim(key.push(' ')) == key
            &&& trim(seq![' '] + w) == w
        }),
{
    let line = key + seq![' ', '=', ' '] + w;
    let n = key.len() as int;
    assert forall|j: int| 0 <= j < line.len() implies line[j] != '\n' && line[j] != '#' by {
        if j < n {
            assert(line[j] == key[j]);
            if key[j] == '\n' {
                assert(has_char(key, '\n'));
            }
            if key[j] == '#' {
                assert(has_char(key, '#'));
            }
        } else if j >= n + 3 {
            assert(line[j] == w[j - n - 3]);
            if w[j - n - 3] == '\n' {
                assert(has_char(w, '\n'));
            }
            if w[j - n - 3] == '#' {
                assert(has_char(w, '#'));
            }
        }
    }
    assert(!has_char(line, '\n'));
    assert(!has_char(line, '#'));
    assert(line.last() == w.last());
    lemma_find_absent(line, '#');
    assert(before_char(line, '#') == line);
    assert(line[0] == key[0]);
    lemma_trim_fixed(line);
    assert forall|j: int| 0 <= j < n + 1 implies line[j] != '=' by {
        if j < n {
            assert(line[j] == key[j]);
            if key[j] == '=' {
                assert(has_char(key, '='));
            }
        }
    }
    lemma_find_char_unique(line, '=', n + 1);
    let k = line.subrange(0, n + 1);
    let v = line.subrange(n + 2, line.len() as int);
    assert(k == key.push(' '));
    assert(v == seq![' '] + w);
    lemma_trim_end_suffix(k, n);
    assert(k.subrange(0, n) == key);
    assert(trim_start(k) == k);
    assert(trim_end(key) == key);
    lemma_trim_start_prefix(v, 1);
    assert(v.subrange(1, v.len() as int) == w);
    assert(trim_start(w) == w);
    assert(trim_end(w) == w);
}

/// The decimal text of a number is a non-empty run of digits whose value is
/// the number.
pub proof fn lemma_decimal_digits(n: nat, max: int)
    requires
        n <= max,
    ensures
        decimal(n).len() > 0,
        forall|j: int| 0 <= j < decimal(n).len() ==> is_digit(#[trigger] decimal(n)[j]),
        decimal(n)[0] != '+' && decimal(n)[0] != '-',
        digits_value(decimal(n), max) == Ok::<int, IntErrorKind>(n as int),
    decreases n,
{
    if n >= 10 {
        lemma_decimal_digits(n / 10, max);
        let d = decimal(n);
        assert(d.drop_last() == decimal(n / 10));
        assert(d.last() == digit_char(n % 10));
        assert(digit_value(digit_char(n % 10)) == n % 10);
        assert((n / 10) * 10 + n % 10 == n);
        assert(d[0] == decimal(n / 10)[0]);
    } else {
        let d = decimal(n);
        assert(d.drop_last() =~= Seq::<char>::empty());
        assert(digits_value(d.drop_last(), max) == Ok::<int, IntErrorKind>(0));
        assert(d.last() == digit_char(n));
        assert(digit_value(digit_char(n)) == n);
    }
}

/// Parsing the decimal text of a `u32` gives it back.
pub proof fn lemma_parse_decimal_u32(n: u32)
    ensures
        parse_u32(decimal(n as nat)) == Ok::<u32, IntErrorKind>(n),
{
    lemma_decimal_digits(n as nat, u32::MAX as int);
}

/// Parsing the decimal text of a `u64` gives it back.
pub proof fn lemma_parse_decimal_u64(n: u64)
    ensures
        parse_u64(decimal(n as nat)) == Ok::<u64, IntErrorKind>(n),
{
    lemma_decimal_digits(n as nat, u64::MAX as int);
}

/// Trailing white space does not change what `trim` keeps.
pub proof fn lemma_trim_drop_white(s: Seq<char>)
    requires
        s.len() > 0,
        is_white(s.last()),
    ensures
        trim(s) == trim(s.drop_last()),
    decreases s.len(),
{
    if is_white(s[0]) {
        assert(trim_start(s) == trim_start(s.drop_first()));
        if s.len() == 1 {
            assert(s.drop_first() =~= Seq::<char>::empty());
            assert(s.drop_last() =~= Seq::<char>::empty());
        } else {
            let t = s.drop_first();
            assert(t.last() == s.last());
            lemma_trim_drop_white(t);
            assert(s.drop_last().drop_first() =~= t.drop_last());
            assert(s.drop_last()[0] == s[0]);
            assert(trim_start(s.drop_last()) == trim_start(t.drop_last()));
        }
    } else {
        assert(s.len() >= 2);
        assert(s.drop_last()[0] == s[0]);
        assert(trim_start(s) == s);
        assert(trim_start(s.drop_last()) == s.drop_last());
        assert(trim_end(s) == trim_end(s.drop_last()));
    }
}

/// A line's `'\r'` terminator does not change its clean form.
pub proof fn lemma_clean_strip_cr(line: Seq<char>)
    ensures
        clean_line(strip_cr(line)) == clean_line(line),
{
    if line.len() > 0 && line.last() == '\r' {
        let d = line.drop_last();
        lemma_find_char(line, '#');
        lemma_find_char(d, '#');
        let i = find_char(line, '#');
        if i < line.len() {
            assert(i < d.len());
            lemma_find_char_unique(d, '#', i);
            assert(before_char(d, '#') =~= before_char(line, '#'));
        } else {
            let j = find_char(d, '#');
            if j < d.len() {
                assert(line[j] == d[j]);
                assert(false);
            }
            assert(before_char(line, '#') =~= line);
            assert(before_char(d, '#') =~= d);
            assert(is_white('\r'));
            lemma_trim_drop_white(line);
        }
    }
}

/// Parsing the text of a `bool` gives it back.
pub proof fn lemma_parse_bool_text(b: bool)
    ensures
        parse_bool(bool_text(b)) == Some(b),
{
    reveal_strlit("true");
    reveal_strlit("false");
    assert("false"@.len() != "true"@.len());
}

// ---------------------------------------------------------------------------
// Executable helpers
// ---------------------------------------------------------------------------

/// The characters of `s`, in order.
pub fn chars_of(s: &str) -> (res: Vec<char>)
    ensures
        res@ == s@,
{
    let mut out: Vec<char> = Vec::new();
    for c in it: s.chars()
        invariant
            out@ == it.seq().take(it.index() as int),
            it.seq() == s@,
    {
        out.push(c);
    }
    out
}

/// Appends one character (`String::push`).
#[verifier::external_body]
pub fn push_char(s: &mut String, c: char)
    ensures
        final(s)@ == old(s)@.push(c),
{
    s.push(c);
}

/// Appends `v[lo..hi]` to `out`.
pub fn push_range(out: &mut String, v: &Vec<char>, lo: usize, hi: usize)
    requires
        lo <= hi <= v@.len(),
    ensures
        final(out)@ == old(out)@ + v@.subrange(lo as int, hi as int),
{
    let mut i = lo;
    while i < hi
        invariant
            lo <= i <= hi <= v@.len(),
            out@ == old(out)@ + v@.subrange(lo as int, i as int),
        decreases hi - i,
    {
        push_char(out, v[i]);
        assert(v@.subrange(lo as int, i + 1) == v@.subrange(lo as int, i as int).push(v@[i as int]));
        i += 1;
    }
}

/// A new string holding `v[lo..hi]`.
pub fn string_of(v: &Vec<char>, lo: usize, hi: usize) -> (res: String)
    requires
        lo <= hi <= v@.len(),
    ensures
        res@ == v@.subrange(lo as int, hi as int),
{
    let mut s = String::new();
    push_range(&mut s, v, lo, hi);
    s
}

/// Appends the text of a literal or other string slice.
pub fn push_str(out: &mut String, s: &str)
    ensures
        final(out)@ == old(out)@ + s@,
{
    out.append(s);
}

/// Appends the decimal text of `n`.
pub fn push_decimal(out: &mut String, n: u64)
    ensures
        final(out)@ == old(out)@ + decimal(n as nat),
    decreases n,
{
    if n >= 10 {
        push_decimal(out, n / 10);
    }
    let d = (n % 10) as u32 + 48;
    let c = char_of_ascii(d);
    push_char(out, c);
    assert(decimal(n as nat) =~= if n >= 10 {
        decimal((n / 10) as nat).push(digit_char((n % 10) as nat))
    } else {
        seq![digit_char(n as nat)]
    });
}

/// The character with ASCII code `d`.
fn char_of_ascii(d: u32) -> (c: char)
    requires
        d < 128,
    ensures
        c == d as char,
        c as u32 == d,
{
    let c = d as u8 as char;
    c
}

/// `char::is_whitespace`.
pub fn is_white_char(c: char) -> (b: bool)
    ensures
        b == is_white(c),
{
    let n = c as u32;
    (0x09 <= n && n <= 0x0d) || n == 0x20 || n == 0x85 || n == 0xa0 || n == 0x1680 || (0x2000
        <= n && n <= 0x200a) || n == 0x2028 || n == 0x2029 || n == 0x202f || n == 0x205f || n
        == 0x3000
}

/// Index of the first `c` in `v[lo..hi]`, or `hi`.
pub fn find_in(v: &Vec<char>, lo: usize, hi: usize, c: char) -> (r: usize)
    requires
        lo <= hi <= v@.len(),
    ensures
        lo <= r <= hi,
        r - lo == find_char(v@.subrange(lo as int, hi as int), c),
{
    let ghost s = v@.subrange(lo as int, hi as int);
    let mut i = lo;
    while i < hi
        invariant
            lo <= i <= hi <= v@.len(),
            s == v@.subrange(lo as int, hi as int),
            forall|j: int| 0 <= j < i - lo ==> s[j] != c,
        decreases hi - i,
    {
        if v[i] == c {
            proof {
                lemma_find_char_unique(s, c, i - lo);
            }
            return i;
        }
        i += 1;
    }
    proof {
        lemma_find_char_unique(s, c, i - lo);
    }
    i
}

/// Index of the first white space in `v[lo..hi]`, or `hi`.
pub fn find_white_in(v: &Vec<char>, lo: usize, hi: usize) -> (r: usize)
    requires
        lo <= hi <= v@.len(),
    ensures
        lo <= r <= hi,
        r - lo == find_white(v@.subrange(lo as int, hi as int)),
{
    let ghost s = v@.subrange(lo as int, hi as int);
    let mut i = lo;
    while i < hi
        invariant
            lo <= i <= hi <= v@.len(),
            s == v@.subrange(lo as int, hi as int),
            forall|j: int| 0 <= j < i - lo ==> !is_white(s[j]),
        decreases hi - i,
    {
        if is_white_char(v[i]) {
            proof {
                lemma_find_white_unique(s, i - lo);
            }
            return i;
        }
        i += 1;
    }
    proof {
        lemma_find_white_unique(s, i - lo);
    }
    i
}

/// Bounds of `trim(v[lo..hi])` inside `v`.
pub fn trim_range(v: &Vec<char>, lo: usize, hi: usize) -> (r: (usize, usize))
    requires
        lo <= hi <= v@.len(),
    ensures
        lo <= r.0 <= r.1 <= hi,
        v@.subrange(r.0 as int, r.1 as int) == trim(v@.subrange(lo as int, hi as int)),
{
    let ghost s = v@.subrange(lo as int, hi as int);
    let mut a = lo;
    while a < hi && is_white_char(v[a])
        invariant
            lo <= a <= hi <= v@.len(),
            s == v@.subrange(lo as int, hi as int),
            forall|j: int| lo <= j < a ==> is_white(v@[j]),
        decreases hi - a,
    {
        a += 1;
    }
    proof {
        lemma_trim_start_prefix(s, a - lo);
        assert(s.subrange(a - lo, s.len() as int) == v@.subrange(a as int, hi as int));
        let t = v@.subrange(a as int, hi as int);
        assert(t.len() > 0 ==> !is_white(t[0]));
    }
    let ghost t = v@.subrange(a as int, hi as int);
    assert(trim_start(s) == trim_start(t));
    assert(trim_start(t) == t) by {
        assert(t.len() > 0 ==> !is_white(t[0]));
    }
    let mut b = hi;
    while b > a && is_white_char(v[b - 1])
        invariant
            lo <= a <= b <= hi <= v@.len(),
            t == v@.subrange(a as int, hi as int),
            forall|j: int| b <= j < hi ==> is_white(v@[j]),
        decreases b - a,
    {
        b -= 1;
    }
    proof {
        lemma_trim_end_suffix(t, b - a);
        assert(t.subrange(0, b - a) == v@.subrange(a as int, b as int));
        let u = v@.subrange(a as int, b as int);
        assert(u.len() > 0 ==> !is_white(u.last()));
    }
    (a, b)
}

/// Bounds of the next line of `v` that starts at `pos`, and where the line
/// after it starts.
pub fn next_line(v: &Vec<char>, pos: usize) -> (r: (usize, usize, usize))
    requires
        pos < v@.len(),
    ensures
        pos <= r.0 <= r.1 <= r.2 <= v@.len(),
        r.0 == pos,
        pos < r.2,
        lines(v@.subrange(pos as int, v@.len() as int)) == seq![v@.subrange(r.0 as int, r.1 as int)]
            + lines(v@.subrange(r.2 as int, v@.len() as int)),
{
    let len = v.len();
    let i = find_in(v, pos, len, '\n');
    let ghost s = v@.subrange(pos as int, len as int);
    proof {
        lemma_find_char(s, '\n');
    }
    if i < len {
        let end = if i > pos && v[i - 1] == '\r' {
            i - 1
        } else {
            i
        };
        proof {
            assert(s.subrange(0, i - pos) == v@.subrange(pos as int, i as int));
            assert(s.subrange(i - pos + 1, s.len() as int) == v@.subrange(i + 1, len as int));
            assert(strip_cr(v@.subrange(pos as int, i as int)) == v@.subrange(pos as int, end as int));
        }
        (pos, end, i + 1)
    } else {
        proof {
            assert(v@.subrange(len as int, len as int) =~= Seq::<char>::empty());
        }
        (pos, len, len)
    }
}

/// Bounds of `clean_line(v[lo..hi])`.
pub fn clean_range(v: &Vec<char>, lo: usize, hi: usize) -> (r: (usize, usize))
    requires
        lo <= hi <= v@.len(),
    ensures
        lo <= r.0 <= r.1 <= hi,
        v@.subrange(r.0 as int, r.1 as int) == clean_line(v@.subrange(lo as int, hi as int)),
{
    let h = find_in(v, lo, hi, '#');
    proof {
        let s = v@.subrange(lo as int, hi as int);
        assert(before_char(s, '#') == v@.subrange(lo as int, h as int));
    }
    trim_range(v, lo, h)
}

/// Bounds of `unquote(v[lo..hi])`.
pub fn unquote_range(v: &Vec<char>, lo: usize, hi: usize) -> (r: (usize, usize))
    requires
        lo <= hi <= v@.len(),
    ensures
        lo <= r.0 <= r.1 <= hi,
        v@.subrange(r.0 as int, r.1 as int) == unquote(v@.subrange(lo as int, hi as int)),
{
    if hi - lo >= 2 && v[lo] == '"' && v[hi - 1] == '"' {
        (lo + 1, hi - 1)
    } else {
        (lo, hi)
    }
}

/// Whether `v[lo..hi]` equals the text of `s`.
pub fn range_eq(v: &Vec<char>, lo: usize, hi: usize, s: &str) -> (b: bool)
    requires
        lo <= hi <= v@.len(),
    ensures
        b == (v@.subrange(lo as int, hi as int) == s@),
{
    let w = chars_of(s);
    if hi - lo != w.len() {
        return false;
    }
    let mut i: usize = 0;
    while i < w.len()
        invariant
            lo <= hi <= v@.len(),
            hi - lo == w@.len(),
            w@ == s@,
            0 <= i <= w@.len(),
            forall|j: int| 0 <= j < i ==> v@[lo + j] == w@[j],
        decreases w@.len() - i,
    {
        if v[lo + i] != w[i] {
            assert(v@.subrange(lo as int, hi as int)[i as int] != s@[i as int]);
            return false;
        }
        i += 1;
    }
    assert(v@.subrange(lo as int, hi as int) =~= s@);
    true
}

/// Whether two string slices hold the same text.
pub fn text_is(s: &str, lit: &str) -> (b: bool)
    ensures
        b == (s@ == lit@),
{
    let v = chars_of(s);
    let b = range_eq(&v, 0, v.len(), lit);
    assert(v@.subrange(0, v@.len() as int) == v@);
    b
}

/// Whether `v[lo..hi]` starts with the text of `s`.
pub fn range_starts_with(v: &Vec<char>, lo: usize, hi: usize, s: &str) -> (b: bool)
    requires
        lo <= hi <= v@.len(),
    ensures
        b == has_prefix(v@.subrange(lo as int, hi as int), s@),
{
    let w = chars_of(s);
    if w.len() > hi - lo {
        return false;
    }
    let r = range_eq(v, lo, lo + w.len(), s);
    proof {
        assert(v@.subrange(lo as int, hi as int).subrange(0, w@.len() as int) == v@.subrange(
            lo as int,
            lo + w@.len(),
        ));
    }
    r
}

/// Whether `v[lo..hi]` ends with the text of `s`.
pub fn range_ends_with(v: &Vec<char>, lo: usize, hi: usize, s: &str) -> (b: bool)
    requires
        lo <= hi <= v@.len(),
    ensures
        b == has_suffix(v@.subrange(lo as int, hi as int), s@),
{
    let w = chars_of(s);
    if w.len() > hi - lo {
        return false;
    }
    let r = range_eq(v, hi - w.len(), hi, s);
    proof {
        let t = v@.subrange(lo as int, hi as int);
        assert(t.subrange(t.len() - w@.len(), t.len() as int) == v@.subrange(
            hi - w@.len(),
            hi as int,
        ));
    }
    r
}

/// Whether two ranges of `v` and `w` hold the same text.
pub fn ranges_eq(v: &Vec<char>, lo: usize, hi: usize, w: &Vec<char>, wlo: usize, whi: usize) -> (b:
    bool)
    requires
        lo <= hi <= v@.len(),
        wlo <= whi <= w@.len(),
    ensures
        b == (v@.subrange(lo as int, hi as int) == w@.subrange(wlo as int, whi as int)),
{
    if hi - lo != whi - wlo {
        assert(v@.subrange(lo as int, hi as int).len() != w@.subrange(wlo as int, whi as int).len());
        return false;
    }
    let mut i: usize = 0;
    while i < hi - lo
        invariant
            lo <= hi <= v@.len(),
            wlo <= whi <= w@.len(),
            hi - lo == whi - wlo,
            0 <= i <= hi - lo,
            v@.subrange(lo as int, lo + i) =~= w@.subrange(wlo as int, wlo + i),
        decreases hi - lo - i,
    {
        if v[lo + i] != w[wlo + i] {
            assert(v@.subrange(lo as int, hi as int)[i as int] != w@.subrange(
                wlo as int,
                whi as int,
            )[i as int]);
            return false;
        }
        proof {
            assert(v@.subrange(lo as int, lo + i + 1) =~= v@.subrange(lo as int, lo + i).push(v@[lo + i]));
            assert(w@.subrange(wlo as int, wlo + i + 1) =~= w@.subrange(wlo as int, wlo + i).push(w@[wlo + i]));
        }
        i += 1;
    }
    true
}

/// The value of the digits `v[lo..hi]` under the rules of `digits_value`.
fn digits_in(v: &Vec<char>, lo: usize, hi: usize, max: u64) -> (r: Result<u64, IntErrorKind>)
    requires
        lo <= hi <= v@.len(),
        max >= 9,
    ensures
        r matches Ok(n) ==> n <= max && digits_value(v@.subrange(lo as int, hi as int), max as int)
            == Ok::<int, IntErrorKind>(n as int),
        r matches Err(e) ==> digits_value(v@.subrange(lo as int, hi as int), max as int) == Err::<
            int,
            IntErrorKind,
        >(e),
{
    let mut acc: u64 = 0;
    let mut i = lo;
    while i < hi
        invariant
            lo <= i <= hi <= v@.len(),
            digits_value(v@.subrange(lo as int, i as int), max as int) == Ok::<int, IntErrorKind>(
                acc as int,
            ),
            acc <= max,
            max >= 9,
        decreases hi - i,
    {
        let c = v[i];
        proof {
            let t = v@.subrange(lo as int, i + 1);
            assert(t.drop_last() == v@.subrange(lo as int, i as int));
            assert(t.last() == c);
        }
        let code = c as u32;
        if !(48 <= code && code <= 57) {
            proof {
                lemma_digits_err_stays(v@, lo as int, i + 1, hi as int, max as int);
            }
            return Err(IntErrorKind::InvalidDigit);
        }
        let d = (code - 48) as u64;
        if acc > (max - d) / 10 {
            assert(acc * 10 + d > max) by (nonlinear_arith)
                requires
                    acc > (max - d) / 10,
                    d <= max,
            ;
            proof {
                lemma_digits_err_stays(v@, lo as int, i + 1, hi as int, max as int);
            }
            return Err(IntErrorKind::PosOverflow);
        }
        assert(acc * 10 + d <= max) by (nonlinear_arith)
            requires
                acc <= (max - d) / 10,
                d <= 9,
        ;
        acc = acc * 10 + d;
        i += 1;
    }
    Ok(acc)
}

/// Once the digits read so far are refused, more digits do not help.
proof fn lemma_digits_err_stays(v: Seq<char>, lo: int, i: int, hi: int, max: int)
    requires
        0 <= lo <= i <= hi <= v.len(),
        digits_value(v.subrange(lo, i), max) is Err,
    ensures
        digits_value(v.subrange(lo, hi), max) == digits_value(v.subrange(lo, i), max),
    decreases hi - i,
{
    if hi > i {
        lemma_digits_err_stays(v, lo, i, hi - 1, max);
        assert(v.subrange(lo, hi).drop_last() == v.subrange(lo, hi - 1));
    }
}

/// `v[lo..hi].parse::<u64>()`-style parsing for a type whose largest value is `max`.
fn parse_unsigned_range(v: &Vec<char>, lo: usize, hi: usize, max: u64) -> (r: Result<
    u64,
    IntErrorKind,
>)
    requires
        lo <= hi <= v@.len(),
        max >= 9,
    ensures
        r matches Ok(n) ==> n <= max && parse_unsigned(v@.subrange(lo as int, hi as int), max as int)
            == Ok::<int, IntErrorKind>(n as int),
        r matches Err(e) ==> parse_unsigned(v@.subrange(lo as int, hi as int), max as int) == Err::<
            int,
            IntErrorKind,
        >(e),
{
    let ghost s = v@.subrange(lo as int, hi as int);
    if lo == hi {
        return Err(IntErrorKind::Empty);
    }
    if (v[lo] == '+' || v[lo] == '-') && hi - lo == 1 {
        return Err(IntErrorKind::InvalidDigit);
    }
    if v[lo] == '+' {
        assert(s.drop_first() == v@.subrange(lo + 1, hi as int));
        digits_in(v, lo + 1, hi, max)
    } else {
        digits_in(v, lo, hi, max)
    }
}

/// `v[lo..hi].parse::<u32>()`.
pub fn parse_u32_range(v: &Vec<char>, lo: usize, hi: usize) -> (r: Result<u32, IntErrorKind>)
    requires
        lo <= hi <= v@.len(),
    ensures
        r == parse_u32(v@.subrange(lo as int, hi as int)),
{
    let ghost s = v@.subrange(lo as int, hi as int);
    let r = parse_unsigned_range(v, lo, hi, 0xffff_ffff);
    match r {
        Ok(n) => {
            Ok(n as u32)
        },
        Err(e) => Err(e),
    }
}

/// `v[lo..hi].parse::<u64>()`.
pub fn parse_u64_range(v: &Vec<char>, lo: usize, hi: usize) -> (r: Result<u64, IntErrorKind>)
    requires
        lo <= hi <= v@.len(),
    ensures
        r == parse_u64(v@.subrange(lo as int, hi as int)),
{
    parse_unsigned_range(v, lo, hi, 0xffff_ffff_ffff_ffff)
}

/// `v[lo..hi].parse::<bool>()`.
pub fn parse_bool_range(v: &Vec<char>, lo: usize, hi: usize) -> (r: Option<bool>)
    requires
        lo <= hi <= v@.len(),
    ensures
        r == parse_bool(v@.subrange(lo as int, hi as int)),
{
    if range_eq(v, lo, hi, "true") {
        Some(true)
    } else if range_eq(v, lo, hi, "false") {
        Some(false)
    } else {
        None
    }
}

/// The message `ParseIntError` displays for an error kind.
pub open spec fn int_error_text(k: IntErrorKind) -> Seq<char> {
    match k {
        IntErrorKind::Empty => "cannot parse integer from empty string"@,
        IntErrorKind::InvalidDigit => "invalid digit found in string"@,
        IntErrorKind::PosOverflow => "number too large to fit in target type"@,
    }
}

/// The message `ParseIntError` displays for an error kind.
pub fn int_error_message(k: IntErrorKind) -> (r: &'static str)
    ensures
        r@ == int_error_text(k),
{
    match k {
        IntErrorKind::Empty => "cannot parse integer from empty string",
        IntErrorKind::InvalidDigit => "invalid digit found in string",
        IntErrorKind::PosOverflow => "number too large to fit in target type",
    }
}

/// `s.parse::<u32>()`.
pub fn parse_u32_str(s: &str) -> (r: Result<u32, IntErrorKind>)
    ensures
        r == parse_u32(s@),
{
    let v = chars_of(s);
    assert(v@.subrange(0, v@.len() as int) == v@);
    parse_u32_range(&v, 0, v.len())
}

/// `s.parse::<u64>()`.
pub fn parse_u64_str(s: &str) -> (r: Result<u64, IntErrorKind>)
    ensures
        r == parse_u64(s@),
{
    let v = chars_of(s);
    assert(v@.subrange(0, v@.len() as int) == v@);
    parse_u64_range(&v, 0, v.len())
}

/// The concatenation of two string slices.
pub fn concat(a: &str, b: &str) -> (r: String)
    ensures
        r@ == a@ + b@,
{
    let mut out = String::new();
    push_str(&mut out, a);
    push_str(&mut out, b);
    assert(out@ =~= a@ + b@);
    out
}

/// An owned copy of a string slice.
pub fn owned(s: &str) -> (r: String)
    ensures
        r@ == s@,
{
    s.to_owned()
}

} // verus!
