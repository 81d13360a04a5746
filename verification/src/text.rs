//! Character-level helpers shared by the string and path modules.

use vstd::prelude::*;
use vstd::string::*;

verus! {

broadcast use vstd::string::group_string_axioms;

/// The characters of `s`, in order.
pub fn chars_of(s: &str) -> (v: Vec<char>)
    ensures
        v@ == s@,
{
    let mut v: Vec<char> = Vec::new();
    for c in it: s.chars()
        invariant
            v@ == it.seq().take(it.index() as int),
            it.seq() == s@,
    {
        v.push(c);
    }
    v
}

/// Collects characters into a `String` (std's `FromIterator<char>`).
#[verifier::external_body]
pub(crate) fn string_from_chars(v: &[char]) -> (s: String)
    ensures
        s@ == v@,
{
    v.iter().collect()
}

/// Appends one character to a `String` (std's `String::push`).
#[verifier::external_body]
pub(crate) fn push_char(s: &mut String, c: char)
    ensures
        final(s)@ == old(s)@.push(c),
{
    s.push(c)
}

/// `i` is the position of the last `c` in `s`.
pub open spec fn is_last_index(s: Seq<char>, c: char, i: int) -> bool {
    &&& 0 <= i < s.len()
    &&& s[i] == c
    &&& forall|j: int| i < j < s.len() ==> s[j] != c
}

/// Position of the last `c` in `s`, or `-1` when `c` does not occur.
pub open spec fn last_index(s: Seq<char>, c: char) -> int {
    if exists|i: int| is_last_index(s, c, i) {
        choose|i: int| is_last_index(s, c, i)
    } else {
        -1
    }
}

/// The last position of `c` is unique.
pub proof fn lemma_last_index_unique(s: Seq<char>, c: char, i: int)
    requires
        is_last_index(s, c, i),
    ensures
        last_index(s, c) == i,
{
    let k = choose|k: int| is_last_index(s, c, k);
    assert(is_last_index(s, c, k));
    if k < i {
        assert(s[i] != c);
    } else if i < k {
        assert(s[k] != c);
    }
}

/// No position holds `c`, so `last_index` is `-1`.
pub proof fn lemma_last_index_absent(s: Seq<char>, c: char)
    requires
        forall|j: int| 0 <= j < s.len() ==> s[j] != c,
    ensures
        last_index(s, c) == -1,
{
    if exists|i: int| is_last_index(s, c, i) {
        let k = choose|i: int| is_last_index(s, c, i);
        assert(s[k] == c);
    }
}

/// Scans from the end for the last `c`.
pub fn rfind_char(s: &Vec<char>, c: char) -> (r: Option<usize>)
    ensures
        match r {
            Some(i) => last_index(s@, c) == i as int && is_last_index(s@, c, i as int),
            None => last_index(s@, c) == -1 && forall|j: int| 0 <= j < s@.len() ==> s@[j] != c,
        },
{
    let mut i = s.len();
    while i > 0
        invariant
            i <= s.len(),
            forall|j: int| i <= j < s@.len() ==> s@[j] != c,
        decreases i,
    {
        if s[i - 1] == c {
            proof {
                lemma_last_index_unique(s@, c, (i - 1) as int);
            }
            return Some(i - 1);
        }
        i = i - 1;
    }
    proof {
        lemma_last_index_absent(s@, c);
    }
    None
}

/// Whether `c` has the Unicode `White_Space` property, the test that std's
/// `char::is_whitespace` makes: tab through carriage return, space, next
/// line, no-break space, ogham space mark, the spaces from en quad to hair
/// space, line and paragraph separators, narrow no-break space, medium
/// mathematical space and ideographic space.
pub open spec fn char_is_whitespace(c: char) -> bool {
    ||| '\u{9}' <= c <= '\u{d}'
    ||| c == ' '
    ||| c == '\u{85}'
    ||| c == '\u{a0}'
    ||| c == '\u{1680}'
    ||| '\u{2000}' <= c <= '\u{200a}'
    ||| c == '\u{2028}'
    ||| c == '\u{2029}'
    ||| c == '\u{202f}'
    ||| c == '\u{205f}'
    ||| c == '\u{3000}'
}

/// Whether `c` is Unicode whitespace.
pub fn is_whitespace(c: char) -> (r: bool)
    ensures
        r == char_is_whitespace(c),
{
    ('\u{9}' <= c && c <= '\u{d}') || c == ' ' || c == '\u{85}' || c == '\u{a0}'
        || c == '\u{1680}' || ('\u{2000}' <= c && c <= '\u{200a}') || c == '\u{2028}'
        || c == '\u{2029}' || c == '\u{202f}' || c == '\u{205f}' || c == '\u{3000}'
}

/// `s` without leading whitespace.
pub open spec fn trim_start_ws(s: Seq<char>) -> Seq<char>
    decreases s.len(),
{
    if s.len() > 0 && char_is_whitespace(s[0]) {
        trim_start_ws(s.drop_first())
    } else {
        s
    }
}

/// `s` without trailing whitespace.
pub open spec fn trim_end_ws(s: Seq<char>) -> Seq<char>
    decreases s.len(),
{
    if s.len() > 0 && char_is_whitespace(s.last()) {
        trim_end_ws(s.drop_last())
    } else {
        s
    }
}

/// `s` without leading and trailing whitespace.
pub open spec fn trim_ws(s: Seq<char>) -> Seq<char> {
    trim_end_ws(trim_start_ws(s))
}

/// `s` without leading and trailing whitespace.
pub fn trim(s: &str) -> (r: &str)
    ensures
        r@ == trim_ws(s@),
{
    let v = chars_of(s);
    let n = v.len();
    let mut a: usize = 0;
    assert(s@.subrange(0, n as int) =~= s@);
    while a < n && is_whitespace(v[a])
        invariant
            n == v@.len(),
            v@ == s@,
            a <= n,
            trim_start_ws(s@) == trim_start_ws(s@.subrange(a as int, n as int)),
        decreases n - a,
    {
        assert(s@.subrange(a as int, n as int).drop_first() =~= s@.subrange(a + 1, n as int));
        a = a + 1;
    }
    let mut b: usize = n;
    let ghost t = s@.subrange(a as int, n as int);
    assert(trim_start_ws(s@) == t);
    assert(t.take(t.len() as int) =~= t);
    while b > a && is_whitespace(v[b - 1])
        invariant
            n == v@.len(),
            v@ == s@,
            a <= b <= n,
            t == s@.subrange(a as int, n as int),
            trim_end_ws(t) == trim_end_ws(s@.subrange(a as int, b as int)),
        decreases b,
    {
        assert(s@.subrange(a as int, b as int).drop_last() =~= s@.subrange(a as int, b - 1));
        b = b - 1;
    }
    s.substring_char(a, b)
}

/// Whether `c` is an ASCII decimal digit.
pub open spec fn is_digit(c: char) -> bool {
    '0' <= c <= '9'
}

/// Decimal value of a string of digits.
pub open spec fn digits_value(d: Seq<char>) -> nat
    decreases d.len(),
{
    if d.len() == 0 {
        0
    } else {
        digits_value(d.drop_last()) * 10 + (d.last() as nat - '0' as nat) as nat
    }
}

/// Every character of `d` is an ASCII digit.
pub open spec fn all_digits(d: Seq<char>) -> bool {
    forall|i: int| 0 <= i < d.len() ==> is_digit(#[trigger] d[i])
}

/// The text with one leading `+` removed, if it has one.
pub open spec fn strip_plus(s: Seq<char>) -> Seq<char> {
    if s.len() > 0 && s[0] == '+' {
        s.drop_first()
    } else {
        s
    }
}

/// std's decimal parse of an unsigned integer: an optional `+` followed by
/// at least one ASCII digit, with a value that fits `usize`.
pub open spec fn parse_usize_spec(s: Seq<char>) -> Option<usize> {
    let d = strip_plus(s);
    if d.len() > 0 && all_digits(d) && digits_value(d) <= usize::MAX {
        Some(digits_value(d) as usize)
    } else {
        None
    }
}

/// Parses a decimal `usize` the way `str::parse::<usize>` does.
pub fn parse_usize(s: &str) -> (r: Option<usize>)
    ensures
        r == parse_usize_spec(s@),
{
    let v = chars_of(s);
    let n = v.len();
    let start: usize = if n > 0 && v[0] == '+' {
        1
    } else {
        0
    };
    let ghost d = strip_plus(s@);
    assert(d =~= s@.skip(start as int));
    if start == n {
        return None;
    }
    let mut acc: usize = 0;
    let mut overflow = false;
    let mut i: usize = start;
    assert(d.take(0) =~= Seq::<char>::empty());
    while i < n
        invariant
            n == v@.len(),
            v@ == s@,
            start <= i <= n,
            d == s@.skip(start as int),
            d == strip_plus(s@),
            forall|k: int| 0 <= k < i - start ==> is_digit(#[trigger] d[k]),
            overflow <==> digits_value(d.take(i - start)) > usize::MAX,
            !overflow ==> acc == digits_value(d.take(i - start)),
        decreases n - i,
    {
        let c = v[i];
        if !('0' <= c && c <= '9') {
            proof {
                let j: int = i - start;
                assert(0 <= j < d.len());
                assert(d[j] == c);
                assert(!is_digit(d[j]));
                assert(!all_digits(d));
            }
            return None;
        }
        let dig = (c as u32 - '0' as u32) as usize;
        assert(d.take(i + 1 - start).drop_last() =~= d.take(i - start));
        assert(d.take(i + 1 - start).last() == c);
        if !overflow {
            if acc > (usize::MAX - dig) / 10 {
                overflow = true;
            } else {
                acc = acc * 10 + dig;
            }
        }
        i = i + 1;
    }
    assert(d.take(n - start) =~= d);
    if overflow {
        None
    } else {
        Some(acc)
    }
}

/// `i` is the position of the first `c` in `s`.
pub open spec fn is_first_index(s: Seq<char>, c: char, i: int) -> bool {
    &&& 0 <= i < s.len()
    &&& s[i] == c
    &&& forall|j: int| 0 <= j < i ==> s[j] != c
}

/// Position of the first `c` in `s`, or -1 when `s` has none.
pub open spec fn first_index(s: Seq<char>, c: char) -> int {
    if exists|i: int| is_first_index(s, c, i) {
        choose|i: int| is_first_index(s, c, i)
    } else {
        -1
    }
}

/// The first position of a character is unique.
pub proof fn lemma_first_index_unique(s: Seq<char>, c: char, i: int)
    requires
        is_first_index(s, c, i),
    ensures
        first_index(s, c) == i,
{
    let k = choose|k: int| is_first_index(s, c, k);
    assert(is_first_index(s, c, k));
    if k < i {
        assert(s[k] != c);
    } else if i < k {
        assert(s[i] != c);
    }
}

/// Splits `s` at its first `c`, as `str::split_once` does with a `char`.
pub fn split_once(s: &str, c: char) -> (r: Option<(&str, &str)>)
    ensures
        match r {
            Some((a, b)) => {
                &&& 0 <= first_index(s@, c)
                &&& a@ == s@.take(first_index(s@, c))
                &&& b@ == s@.skip(first_index(s@, c) + 1)
            },
            None => first_index(s@, c) == -1,
        },
{
    let v = chars_of(s);
    let n = v.len();
    let mut i: usize = 0;
    while i < n
        invariant
            n == v@.len(),
            v@ == s@,
            i <= n,
            forall|j: int| 0 <= j < i ==> s@[j] != c,
        decreases n - i,
    {
        if v[i] == c {
            proof {
                lemma_first_index_unique(s@, c, i as int);
            }
            let a = s.substring_char(0, i);
            let b = s.substring_char(i + 1, n);
            assert(a@ =~= s@.take(i as int));
            assert(b@ =~= s@.skip(i + 1));
            return Some((a, b));
        }
        i = i + 1;
    }
    assert(!exists|k: int| is_first_index(s@, c, k));
    None
}

/// Whether two strings hold the same characters.
pub fn str_eq(a: &str, b: &str) -> (r: bool)
    ensures
        r == (a@ == b@),
{
    let x = chars_of(a);
    let y = chars_of(b);
    if x.len() != y.len() {
        return false;
    }
    let mut i: usize = 0;
    while i < x.len()
        invariant
            x@ == a@,
            y@ == b@,
            x@.len() == y@.len(),
            i <= x@.len(),
            forall|k: int| 0 <= k < i ==> x@[k] == y@[k],
        decreases x.len() - i,
    {
        if x[i] != y[i] {
            return false;
        }
        i = i + 1;
    }
    assert(a@ =~= b@);
    true
}

/// `s` without its first character (empty stays empty).
pub fn str_skip_first(s: &str) -> (r: &str)
    ensures
        s@.len() > 0 ==> r@ == s@.drop_first(),
        s@.len() == 0 ==> r@.len() == 0,
{
    let n = s.unicode_len();
    if n == 0 {
        let r = s.substring_char(0, 0);
        return r;
    }
    let r = s.substring_char(1, n);
    assert(r@ =~= s@.drop_first());
    r
}

/// The text that std's `String::from_utf8_lossy` decodes from `b`
/// (invalid sequences become U+FFFD).
pub uninterp spec fn utf8_lossy(b: Seq<u8>) -> Seq<char>;

/// std's `String::from_utf8_lossy`, made owned. Its result depends on the
/// bytes alone; for valid UTF-8 it is the decoded text, as std documents.
/// How invalid sequences are replaced is not spelled out here.
#[verifier::external_body]
pub(crate) fn lossy_string(b: &[u8]) -> (s: String)
    ensures
        s@ == utf8_lossy(b@),
        vstd::utf8::valid_utf8(b@) ==> s@ == vstd::utf8::decode_utf8(b@),
{
    String::from_utf8_lossy(b).into_owned()
}

/// The whitespace-separated words of `s`, in order (`str::split_whitespace`).
pub open spec fn words(s: Seq<char>) -> Seq<Seq<char>>
    decreases s.len(),
{
    if s.len() == 0 {
        Seq::empty()
    } else {
        let w = words(s.drop_last());
        let c = s.last();
        if char_is_whitespace(c) {
            w
        } else if s.len() >= 2 && !char_is_whitespace(s[s.len() - 2]) && w.len() > 0 {
            w.update(w.len() - 1, w.last().push(c))
        } else {
            w.push(seq![c])
        }
    }
}

proof fn lemma_words_last_nonempty(s: Seq<char>)
    ensures
        s.len() > 0 && !char_is_whitespace(s.last()) ==> words(s).len() > 0,
    decreases s.len(),
{
    if s.len() > 0 {
        lemma_words_last_nonempty(s.drop_last());
    }
}

/// Splits `s` into its whitespace-separated words.
pub fn split_words(s: &str) -> (r: Vec<String>)
    ensures
        r@.len() == words(s@).len(),
        forall|k: int| 0 <= k < r@.len() ==> #[trigger] r@[k]@ == words(s@)[k],
{
    let v = chars_of(s);
    let mut out: Vec<String> = Vec::new();
    let mut i: usize = 0;
    assert(s@.take(0) =~= Seq::<char>::empty());
    while i < v.len()
        invariant
            v@ == s@,
            i <= v@.len(),
            out@.len() == words(s@.take(i as int)).len(),
            forall|k: int| 0 <= k < out@.len() ==> #[trigger] out@[k]@ == words(s@.take(i as int))[k],
        decreases v.len() - i,
    {
        let c = v[i];
        let ghost t = s@.take(i + 1);
        assert(t.drop_last() =~= s@.take(i as int));
        assert(t.last() == c);
        if !is_whitespace(c) {
            if i > 0 && !is_whitespace(v[i - 1]) && out.len() > 0 {
                assert(t[t.len() - 2] == v@[i - 1]);
                let k = out.len() - 1;
                let mut last = out.pop().unwrap();
                push_char(&mut last, c);
                out.push(last);
                proof {
                    let w0 = words(s@.take(i as int));
                    assert(words(t) == w0.update(w0.len() - 1, w0.last().push(c)));
                    assert forall|q: int| 0 <= q < out@.len() implies #[trigger] out@[q]@ == words(t)[q] by {}
                }
            } else {
                let mut w = String::new();
                push_char(&mut w, c);
                out.push(w);
                proof {
                    if i > 0 {
                        assert(t[t.len() - 2] == v@[i - 1]);
                    }
                    assert(seq![c] =~= Seq::<char>::empty().push(c));
                }
            }
        }
        i = i + 1;
    }
    assert(s@.take(v@.len() as int) =~= s@);
    out
}

/// ASCII letters lowered, everything else kept (`str::to_ascii_lowercase`).
pub open spec fn ascii_lower(s: Seq<char>) -> Seq<char> {
    Seq::new(s.len(), |i: int| if 'A' <= s[i] <= 'Z' {
        ((s[i] as u32) + 32) as char
    } else {
        s[i]
    })
}

/// `s` with ASCII letters lowered.
pub fn to_ascii_lower(s: &str) -> (r: String)
    ensures
        r@ == ascii_lower(s@),
{
    let v = chars_of(s);
    let mut out = String::new();
    let mut i: usize = 0;
    while i < v.len()
        invariant
            v@ == s@,
            i <= v@.len(),
            out@ == ascii_lower(s@).take(i as int),
        decreases v.len() - i,
    {
        let c = v[i];
        let d = if 'A' <= c && c <= 'Z' {
            ((c as u8) + 32) as char
        } else {
            c
        };
        push_char(&mut out, d);
        assert(ascii_lower(s@).take(i + 1) =~= ascii_lower(s@).take(i as int).push(d));
        i = i + 1;
    }
    assert(ascii_lower(s@).take(v@.len() as int) =~= ascii_lower(s@));
    out
}

/// std's decimal parse of a `u64`: an optional `+` then at least one ASCII
/// digit, with a value that fits.
pub open spec fn parse_u64_spec(s: Seq<char>) -> Option<u64> {
    let d = strip_plus(s);
    if d.len() > 0 && all_digits(d) && digits_value(d) <= u64::MAX {
        Some(digits_value(d) as u64)
    } else {
        None
    }
}

/// Parses a decimal `u64` the way `str::parse::<u64>` does.
pub fn parse_u64(s: &str) -> (r: Option<u64>)
    ensures
        r == parse_u64_spec(s@),
{
    let v = chars_of(s);
    let n = v.len();
    let start: usize = if n > 0 && v[0] == '+' {
        1
    } else {
        0
    };
    let ghost d = strip_plus(s@);
    assert(d =~= s@.skip(start as int));
    if start == n {
        return None;
    }
    let mut acc: u64 = 0;
    let mut overflow = false;
    let mut i: usize = start;
    assert(d.take(0) =~= Seq::<char>::empty());
    while i < n
        invariant
            n == v@.len(),
            v@ == s@,
            start <= i <= n,
            d == s@.skip(start as int),
            d == strip_plus(s@),
            forall|k: int| 0 <= k < i - start ==> is_digit(#[trigger] d[k]),
            overflow <==> digits_value(d.take(i - start)) > u64::MAX,
            !overflow ==> acc == digits_value(d.take(i - start)),
        decreases n - i,
    {
        let c = v[i];
        if !('0' <= c && c <= '9') {
            proof {
                let j: int = i - start;
                assert(d[j] == c);
                assert(!all_digits(d));
            }
            return None;
        }
        let dig = (c as u32 - '0' as u32) as u64;
        assert(d.take(i + 1 - start).drop_last() =~= d.take(i - start));
        assert(d.take(i + 1 - start).last() == c);
        if !overflow {
            if acc > (u64::MAX - dig) / 10 {
                overflow = true;
            } else {
                acc = acc * 10 + dig;
            }
        }
        i = i + 1;
    }
    assert(d.take(n - start) =~= d);
    if overflow {
        None
    } else {
        Some(acc)
    }
}

/// Position of the last occurrence of `p` in `s`, or -1 (`str::rfind`).
pub open spec fn last_occurrence(s: Seq<char>, p: Seq<char>) -> int {
    if exists|i: int| crate::strutil::occurs_at(s, p, i) {
        choose|i: int| crate::strutil::occurs_at(s, p, i) && forall|j: int| i < j ==> !crate::strutil::occurs_at(s, p, j)
    } else {
        -1
    }
}

/// Finds the last occurrence of `p` in `s`.
pub fn rfind_str(s: &str, p: &str) -> (r: Option<usize>)
    ensures
        match r {
            Some(i) => i == last_occurrence(s@, p@) && crate::strutil::occurs_at(s@, p@, i as int),
            None => last_occurrence(s@, p@) == -1 && forall|i: int| !crate::strutil::occurs_at(s@, p@, i),
        },
{
    let v = chars_of(s);
    let w = chars_of(p);
    if w.len() > v.len() {
        return None;
    }
    let mut i: usize = v.len() - w.len();
    loop
        invariant
            v@ == s@,
            w@ == p@,
            w@.len() <= v@.len(),
            i <= v@.len() - w@.len(),
            forall|j: int| i < j ==> !crate::strutil::occurs_at(s@, p@, j),
        decreases i,
    {
        if crate::strutil::occurs_at_exec(&v, &w, i) {
            proof {
                let c = choose|x: int| crate::strutil::occurs_at(s@, p@, x) && forall|j: int| x < j ==> !crate::strutil::occurs_at(s@, p@, j);
                assert(crate::strutil::occurs_at(s@, p@, i as int) && forall|j: int| i < j ==> !crate::strutil::occurs_at(s@, p@, j));
                if c < i {
                    assert(false);
                } else if c > i {
                    assert(false);
                }
            }
            return Some(i);
        }
        if i == 0 {
            return None;
        }
        i = i - 1;
    }
}
} // verus!
