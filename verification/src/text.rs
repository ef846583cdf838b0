//! Character-level utilities: classification, extraction of the characters
//! of a string, trimming, decimal parsing, substring search and line
//! splitting, each against a direct specification over `Seq<char>`.

use vstd::prelude::*;

verus! {

use vstd::string::StrSliceExecFns;
use vstd::string::StringExecFns;

/// An ASCII code point.
pub open spec fn is_ascii_char(c: char) -> bool {
    (c as u32) < 128
}

/// An ASCII alphanumeric code point: the characters tokens are made of.
pub open spec fn is_token_char(c: char) -> bool {
    &&& is_ascii_char(c)
    &&& {
        ||| ('0' as u32) <= (c as u32) <= ('9' as u32)
        ||| ('a' as u32) <= (c as u32) <= ('z' as u32)
        ||| ('A' as u32) <= (c as u32) <= ('Z' as u32)
    }
}

/// Executable ASCII test.
pub fn ascii_char(c: char) -> (r: bool)
    ensures
        r == is_ascii_char(c),
{
    (c as u32) < 128
}

/// Executable token-character test.
pub fn token_char(c: char) -> (r: bool)
    ensures
        r == is_token_char(c),
{
    let u = c as u32;
    u < 128 && ((48 <= u && u <= 57) || (97 <= u && u <= 122) || (65 <= u && u <= 90))
}

/// The characters of a string, as a vector.
pub fn chars_of(s: &str) -> (r: Vec<char>)
    ensures
        r@ == s@,
{
    let n = s.unicode_len();
    let mut r: Vec<char> = Vec::new();
    for i in 0..n
        invariant
            n == s@.len(),
            r@ == s@.take(i as int),
    {
        r.push(s.get_char(i));
        assert(r@ == s@.take(i + 1));
    }
    assert(s@.take(n as int) == s@);
    r
}

/// A code point with the Unicode `White_Space` property, the set `str::trim`
/// removes.
pub open spec fn is_whitespace_char(c: char) -> bool {
    let u = c as u32;
    ||| (9 <= u && u <= 13)
    ||| u == 32
    ||| u == 0x85
    ||| u == 0xA0
    ||| u == 0x1680
    ||| (0x2000 <= u && u <= 0x200A)
    ||| u == 0x2028
    ||| u == 0x2029
    ||| u == 0x202F
    ||| u == 0x205F
    ||| u == 0x3000
}

/// Executable whitespace test.
pub fn whitespace_char(c: char) -> (r: bool)
    ensures
        r == is_whitespace_char(c),
{
    let u = c as u32;
    (9 <= u && u <= 13) || u == 32 || u == 0x85 || u == 0xA0 || u == 0x1680 || (0x2000 <= u && u
        <= 0x200A) || u == 0x2028 || u == 0x2029 || u == 0x202F || u == 0x205F || u == 0x3000
}

/// The string with its leading whitespace removed.
pub open spec fn trim_front(s: Seq<char>) -> Seq<char>
    decreases s.len(),
{
    if s.len() > 0 && is_whitespace_char(s[0]) {
        trim_front(s.drop_first())
    } else {
        s
    }
}

/// The string with its trailing whitespace removed.
pub open spec fn trim_back(s: Seq<char>) -> Seq<char>
    decreases s.len(),
{
    if s.len() > 0 && is_whitespace_char(s.last()) {
        trim_back(s.drop_last())
    } else {
        s
    }
}

/// The string with whitespace removed from both ends, as `str::trim` leaves
/// it.
pub open spec fn trim_spec(s: Seq<char>) -> Seq<char> {
    trim_back(trim_front(s))
}

/// Trim whitespace from both ends of a string.
pub fn trim(s: &str) -> (r: String)
    ensures
        r@ == trim_spec(s@),
{
    let n = s.unicode_len();
    let mut a: usize = 0;
    assert(s@.skip(0) =~= s@);
    while a < n && whitespace_char(s.get_char(a))
        invariant
            a <= n,
            n == s@.len(),
            trim_front(s@) == trim_front(s@.skip(a as int)),
        decreases n - a,
    {
        assert(s@.skip(a as int)[0] == s@[a as int]);
        assert(s@.skip(a as int).drop_first() =~= s@.skip(a + 1));
        a = a + 1;
    }
    assert(trim_front(s@) =~= s@.subrange(a as int, n as int)) by {
        if a < n {
            assert(s@.skip(a as int)[0] == s@[a as int]);
        }
        assert(s@.skip(a as int) =~= s@.subrange(a as int, n as int));
    }
    let mut b: usize = n;
    while b > a && whitespace_char(s.get_char(b - 1))
        invariant
            a <= b <= n,
            n == s@.len(),
            trim_back(trim_front(s@)) == trim_back(s@.subrange(a as int, b as int)),
            trim_front(s@) =~= s@.subrange(a as int, n as int),
        decreases b,
    {
        assert(s@.subrange(a as int, b as int).last() == s@[b - 1]);
        assert(s@.subrange(a as int, b as int).drop_last() =~= s@.subrange(a as int, b - 1));
        b = b - 1;
    }
    assert(trim_spec(s@) == s@.subrange(a as int, b as int)) by {
        if b > a {
            assert(s@.subrange(a as int, b as int).last() == s@[b - 1]);
        }
    }
    let t = s.substring_char(a, b);
    t.to_owned()
}

/// An ASCII decimal digit.
pub open spec fn is_digit_char(c: char) -> bool {
    ('0' as u32) <= (c as u32) <= ('9' as u32)
}

/// The numeric value of a decimal digit.
pub open spec fn digit_val(c: char) -> nat {
    ((c as u32) - ('0' as u32)) as nat
}

/// Whether every character of the string is a decimal digit.
pub open spec fn all_digits(s: Seq<char>) -> bool {
    forall|i: int| 0 <= i < s.len() ==> is_digit_char(#[trigger] s[i])
}

/// The value of a string of decimal digits, most significant first.
pub open spec fn digits_val(s: Seq<char>) -> nat
    decreases s.len(),
{
    if s.len() == 0 {
        0
    } else {
        digits_val(s.drop_last()) * 10 + digit_val(s.last())
    }
}

/// A string accepted as a 1-based line number: one or more decimal digits
/// whose value is positive and fits in `usize`.
pub open spec fn is_line_number(s: Seq<char>) -> bool {
    &&& s.len() > 0
    &&& all_digits(s)
    &&& 1 <= digits_val(s) <= usize::MAX
}

/// The value of a digit string never drops when digits are appended.
proof fn lemma_digits_val_take(s: Seq<char>, i: int)
    requires
        0 <= i <= s.len(),
    ensures
        digits_val(s.take(i)) <= digits_val(s),
    decreases s.len() - i,
{
    if i < s.len() {
        assert(s.take(i + 1).drop_last() =~= s.take(i));
        assert(s.take(i + 1).last() == s[i]);
        assert(digits_val(s.take(i)) <= digits_val(s.take(i + 1)));
        lemma_digits_val_take(s, i + 1);
    } else {
        assert(s.take(i) =~= s);
    }
}

/// Parse a 1-based line number.  Returns `None` exactly on the strings that
/// `is_line_number` rejects: empty, non-digit, zero, or too large for
/// `usize`.
pub fn parse_line_number(s: &str) -> (r: Option<usize>)
    ensures
        match r {
            Some(v) => is_line_number(s@) && v == digits_val(s@),
            None => !is_line_number(s@),
        },
{
    let n = s.unicode_len();
    if n == 0 {
        return None;
    }
    let mut val: usize = 0;
    let mut i: usize = 0;
    while i < n
        invariant
            i <= n,
            n == s@.len(),
            all_digits(s@.take(i as int)),
            val == digits_val(s@.take(i as int)),
        decreases n - i,
    {
        let c = s.get_char(i);
        let u = c as u32;
        if u < 48 || u > 57 {
            assert(!all_digits(s@));
            return None;
        }
        let d = (u - 48) as usize;
        proof {
            assert(s@.take(i + 1).drop_last() =~= s@.take(i as int));
            assert(s@.take(i + 1).last() == s@[i as int]);
        }
        if val > (usize::MAX - d) / 10 {
            proof {
                let m = (usize::MAX - d) as int;
                vstd::arithmetic::div_mod::lemma_fundamental_div_mod(m, 10);
                assert(val * 10 >= (m / 10 + 1) * 10) by (nonlinear_arith)
                    requires
                        val >= m / 10 + 1,
                ;
                assert(digits_val(s@.take(i + 1)) > usize::MAX);
                if all_digits(s@) {
                    lemma_digits_val_take(s@, i + 1);
                }
            }
            return None;
        }
        proof {
            let m = (usize::MAX - d) as int;
            vstd::arithmetic::div_mod::lemma_fundamental_div_mod(m, 10);
            assert(val * 10 <= (m / 10) * 10) by (nonlinear_arith)
                requires
                    val <= m / 10,
            ;
        }
        val = val * 10 + d;
        i = i + 1;
    }
    assert(s@.take(n as int) =~= s@);
    if val == 0 {
        None
    } else {
        Some(val)
    }
}

/// Whether `sub` occurs in `s` as a contiguous substring.
pub open spec fn contains_seq(s: Seq<char>, sub: Seq<char>) -> bool {
    exists|i: int| 0 <= i && i + sub.len() <= s.len() && #[trigger] s.subrange(i, i + sub.len())
        == sub
}

/// Substring search, the decision `str::contains` makes.
pub fn contains_str(s: &str, sub: &str) -> (r: bool)
    ensures
        r == contains_seq(s@, sub@),
{
    let sv = chars_of(s);
    let subv = chars_of(sub);
    let n = sv.len();
    let m = subv.len();
    if m > n {
        assert(!contains_seq(s@, sub@));
        return false;
    }
    if m == 0 {
        assert(s@.subrange(0, 0 + sub@.len() as int) =~= sub@);
        return true;
    }
    let mut i: usize = 0;
    while i <= n - m
        invariant
            m <= n,
            sv@ == s@,
            subv@ == sub@,
            n == s@.len(),
            m == sub@.len(),
            1 <= m,
            i <= n - m + 1,
            forall|k: int| 0 <= k < i ==> #[trigger] s@.subrange(k, k + sub@.len()) != sub@,
        decreases n - i,
    {
        let mut j: usize = 0;
        let mut matches = true;
        while j < m
            invariant
                m <= n,
                i + m <= n,
                sv@ == s@,
                subv@ == sub@,
                n == s@.len(),
                m == sub@.len(),
                j <= m,
                matches ==> forall|k: int| 0 <= k < j ==> s@[i + k] == sub@[k],
                !matches ==> s@.subrange(i as int, i + sub@.len()) != sub@,
            decreases m - j,
        {
            if sv[i + j] != subv[j] {
                assert(s@.subrange(i as int, i + sub@.len())[j as int] == s@[i + j]);
                matches = false;
                j = m;
            } else {
                j = j + 1;
            }
        }
        if matches {
            assert(s@.subrange(i as int, i + sub@.len()) =~= sub@);
            return true;
        }
        i = i + 1;
    }
    assert forall|k: int| 0 <= k && k + sub@.len() <= s@.len() implies #[trigger] s@.subrange(
        k,
        k + sub@.len(),
    ) != sub@ by {
        assert(k < i);
    }
    false
}

/// Equality of two strings.
pub fn str_eq(a: &str, b: &str) -> (r: bool)
    ensures
        r == (a@ == b@),
{
    let n = a.unicode_len();
    let m = b.unicode_len();
    if n != m {
        assert(a@ != b@);
        return false;
    }
    let mut i: usize = 0;
    while i < n
        invariant
            i <= n,
            n == a@.len() == b@.len(),
            forall|k: int| 0 <= k < i ==> a@[k] == b@[k],
        decreases n - i,
    {
        if a.get_char(i) != b.get_char(i) {
            return false;
        }
        i = i + 1;
    }
    assert(a@ =~= b@);
    true
}

/// A line as `str::lines` yields it when the line was ended by a newline: a
/// carriage return directly before the newline is removed.
pub open spec fn strip_cr(l: Seq<char>) -> Seq<char> {
    if l.len() > 0 && l.last() == '\r' {
        l.drop_last()
    } else {
        l
    }
}

/// The lines of `s` after the partial line `cur`, splitting at `'\n'`.
pub open spec fn lines_acc(s: Seq<char>, cur: Seq<char>) -> Seq<Seq<char>>
    decreases s.len(),
{
    if s.len() == 0 {
        if cur.len() == 0 {
            seq![]
        } else {
            seq![cur]
        }
    } else if s[0] == '\n' {
        seq![strip_cr(cur)] + lines_acc(s.drop_first(), seq![])
    } else {
        lines_acc(s.drop_first(), cur.push(s[0]))
    }
}

/// The lines of a string, as `str::lines` yields them: split at `'\n'`, a
/// `"\r\n"` ending is removed with the newline, and a final newline ends the
/// last line rather than opening an empty one.
pub open spec fn lines_of(s: Seq<char>) -> Seq<Seq<char>> {
    lines_acc(s, seq![])
}

/// Split a string into its lines.
pub fn split_lines(s: &str) -> (r: Vec<String>)
    ensures
        r.deep_view() == lines_of(s@),
{
    let n = s.unicode_len();
    let mut r: Vec<String> = Vec::new();
    let mut start: usize = 0;
    let mut i: usize = 0;
    assert(s@.skip(0) =~= s@);
    assert(s@.subrange(0, 0) =~= Seq::<char>::empty());
    while i < n
        invariant
            start <= i <= n,
            n == s@.len(),
            lines_of(s@) == r.deep_view() + lines_acc(
                s@.skip(i as int),
                s@.subrange(start as int, i as int),
            ),
        decreases n - i,
    {
        let ghost cur = s@.subrange(start as int, i as int);
        assert(s@.skip(i as int)[0] == s@[i as int]);
        assert(s@.skip(i as int).drop_first() =~= s@.skip(i + 1));
        let c = s.get_char(i);
        if c == '\n' {
            let line = if i > start && s.get_char(i - 1) == '\r' {
                proof {
                    assert(cur.last() == s@[i - 1]);
                    assert(cur.drop_last() =~= s@.subrange(start as int, i - 1));
                }
                s.substring_char(start, i - 1)
            } else {
                s.substring_char(start, i)
            };
            assert(line@ == strip_cr(cur));
            let owned = line.to_owned();
            r.push(owned);
            proof {
                assert(r.deep_view().drop_last() + seq![strip_cr(cur)] =~= r.deep_view());
                assert(s@.subrange(i + 1, i + 1) =~= Seq::<char>::empty());
            }
            start = i + 1;
        } else {
            assert(cur.push(s@[i as int]) =~= s@.subrange(start as int, i + 1));
        }
        i = i + 1;
    }
    assert(s@.skip(n as int) =~= Seq::<char>::empty());
    if start < n {
        let line = s.substring_char(start, n);
        let owned = line.to_owned();
        r.push(owned);
        proof {
            let ghost cur = s@.subrange(start as int, n as int);
            assert(lines_acc(s@.skip(n as int), cur) =~= seq![cur]);
            assert(r.deep_view().drop_last() + seq![cur] =~= r.deep_view());
        }
    } else {
        assert(s@.subrange(start as int, n as int) =~= Seq::<char>::empty());
    }
    assert(r.deep_view() =~= lines_of(s@));
    r
}

/// The part of a path after its last `'/'`: the whole path when it holds no
/// `'/'`, empty when it ends in one.
pub open spec fn basename_spec(s: Seq<char>) -> Seq<char>
    decreases s.len(),
{
    if s.len() == 0 {
        s
    } else if s.last() == '/' {
        seq![]
    } else {
        basename_spec(s.drop_last()).push(s.last())
    }
}

/// The file name at the end of a path.
pub fn basename(s: &str) -> (r: String)
    ensures
        r@ == basename_spec(s@),
{
    let n = s.unicode_len();
    let mut i: usize = n;
    proof {
        assert(s@.take(n as int) =~= s@);
        assert(basename_spec(s@.take(n as int)) + s@.subrange(n as int, n as int) =~= basename_spec(
            s@,
        ));
    }
    while i > 0 && s.get_char(i - 1) != '/'
        invariant
            i <= n,
            n == s@.len(),
            basename_spec(s@) == basename_spec(s@.take(i as int)) + s@.subrange(i as int, n as int),
        decreases i,
    {
        assert(s@.take(i as int).last() == s@[i - 1]);
        assert(s@.take(i as int).drop_last() =~= s@.take(i - 1));
        assert(basename_spec(s@.take(i - 1)) + s@.subrange(i - 1, n as int) =~= basename_spec(
            s@.take(i as int),
        ) + s@.subrange(i as int, n as int));
        i = i - 1;
    }
    proof {
        if i > 0 {
            assert(s@.take(i as int).last() == s@[i - 1]);
            assert(basename_spec(s@.take(i as int)) =~= Seq::<char>::empty());
        } else {
            assert(s@.take(0) =~= Seq::<char>::empty());
        }
        assert(basename_spec(s@) =~= s@.subrange(i as int, n as int));
    }
    let t = s.substring_char(i, n);
    t.to_owned()
}

/// The decimal digit with the given value.
pub open spec fn digit_char(d: nat) -> char {
    if d == 0 {
        '0'
    } else if d == 1 {
        '1'
    } else if d == 2 {
        '2'
    } else if d == 3 {
        '3'
    } else if d == 4 {
        '4'
    } else if d == 5 {
        '5'
    } else if d == 6 {
        '6'
    } else if d == 7 {
        '7'
    } else if d == 8 {
        '8'
    } else {
        '9'
    }
}

/// The decimal rendering of a number, most significant digit first, no sign
/// and no leading zero.
pub open spec fn dec_str(n: nat) -> Seq<char>
    decreases n,
{
    if n < 10 {
        seq![digit_char(n)]
    } else {
        dec_str(n / 10).push(digit_char(n % 10))
    }
}

/// Append one decimal digit to a string.
fn append_digit(s: &mut String, d: usize)
    requires
        d < 10,
    ensures
        final(s)@ == old(s)@.push(digit_char(d as nat)),
{
    let t: &str = if d == 0 {
        "0"
    } else if d == 1 {
        "1"
    } else if d == 2 {
        "2"
    } else if d == 3 {
        "3"
    } else if d == 4 {
        "4"
    } else if d == 5 {
        "5"
    } else if d == 6 {
        "6"
    } else if d == 7 {
        "7"
    } else if d == 8 {
        "8"
    } else {
        "9"
    };
    proof {
        reveal_strlit("0");
        reveal_strlit("1");
        reveal_strlit("2");
        reveal_strlit("3");
        reveal_strlit("4");
        reveal_strlit("5");
        reveal_strlit("6");
        reveal_strlit("7");
        reveal_strlit("8");
        reveal_strlit("9");
    }
    s.append(t);
    assert(final(s)@ =~= old(s)@.push(digit_char(d as nat)));
}

/// Append the decimal rendering of a number to a string.
pub fn append_dec(s: &mut String, n: usize)
    ensures
        final(s)@ == old(s)@ + dec_str(n as nat),
    decreases n,
{
    if n < 10 {
        append_digit(s, n);
        assert(final(s)@ =~= old(s)@ + dec_str(n as nat));
    } else {
        append_dec(s, n / 10);
        append_digit(s, n % 10);
        assert(final(s)@ =~= old(s)@ + dec_str(n as nat));
    }
}

} // verus!


