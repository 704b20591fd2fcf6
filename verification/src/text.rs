//! Character-level text helpers with exact specifications: whitespace,
//! word splitting, trimming, and decimal numbers.
use vstd::prelude::*;

verus! {

/// Whether two strings hold the same characters.
pub fn same_chars(a: &str, b: &str) -> (r: bool)
    ensures
        r == (a@ == b@),
{
    let n = a.unicode_len();
    let m = b.unicode_len();
    if n != m {
        return false;
    }
    let mut i: usize = 0;
    while i < n
        invariant
            n == a@.len(),
            m == b@.len(),
            n == m,
            i <= n,
            forall|k: int| 0 <= k < i ==> a@[k] == b@[k],
        decreases n - i,
    {
        if a.get_char(i) != b.get_char(i) {
            return false;
        }
        i = i + 1;
    }
    assert(a@ =~= b@);
    true
}

/// The characters of a string, in order.
pub fn chars_of(s: &str) -> (v: Vec<char>)
    ensures
        v@ == s@,
{
    let mut v: Vec<char> = Vec::new();
    for c in it: s.chars()
        invariant
            v@ == it.seq().take(it.index() as int),
    {
        v.push(c);
    }
    v
}

/// Whether `c` has the Unicode `White_Space` property, which is what
/// `char::is_whitespace` tests.
pub open spec fn is_ws(c: char) -> bool {
    let n = c as u32;
    ||| 9 <= n <= 13
    ||| n == 32
    ||| n == 0x85
    ||| n == 0xA0
    ||| n == 0x1680
    ||| 0x2000 <= n <= 0x200A
    ||| n == 0x2028
    ||| n == 0x2029
    ||| n == 0x202F
    ||| n == 0x205F
    ||| n == 0x3000
}

/// Executable test of [`is_ws`].
pub fn is_whitespace(c: char) -> (r: bool)
    ensures
        r == is_ws(c),
{
    let n = c as u32;
    (9 <= n && n <= 13) || n == 32 || n == 0x85 || n == 0xA0 || n == 0x1680 || (0x2000 <= n
        && n <= 0x200A) || n == 0x2028 || n == 0x2029 || n == 0x202F || n == 0x205F || n
        == 0x3000
}

/// The maximal runs of non-whitespace characters of `s`, in order: what
/// `str::split_whitespace` yields.
pub open spec fn words(s: Seq<char>) -> Seq<Seq<char>>
    decreases s.len(),
{
    if s.len() == 0 {
        Seq::empty()
    } else {
        let w = words(s.drop_last());
        let c = s.last();
        if is_ws(c) {
            w
        } else if s.len() >= 2 && !is_ws(s[s.len() - 2]) {
            w.update(w.len() - 1, w.last().push(c))
        } else {
            w.push(seq![c])
        }
    }
}

/// A string ending in a non-whitespace character has at least one word.
pub proof fn lemma_words_nonempty(s: Seq<char>)
    requires
        s.len() > 0,
        !is_ws(s.last()),
    ensures
        words(s).len() > 0,
    decreases s.len(),
{
    if s.len() >= 2 && !is_ws(s[s.len() - 2]) {
        lemma_words_nonempty(s.drop_last());
    }
}

/// Whether `w` is a word: non-empty and without whitespace.
pub open spec fn is_word(w: Seq<char>) -> bool {
    w.len() > 0 && forall|k: int| 0 <= k < w.len() ==> !is_ws(#[trigger] w[k])
}

/// Every word is non-empty and holds no whitespace.
pub proof fn lemma_words_are_words(s: Seq<char>)
    ensures
        forall|i: int| 0 <= i < words(s).len() ==> is_word(#[trigger] words(s)[i]),
    decreases s.len(),
{
    if s.len() > 0 {
        lemma_words_are_words(s.drop_last());
        let w = words(s.drop_last());
        let c = s.last();
        if is_ws(c) {
        } else if s.len() >= 2 && !is_ws(s[s.len() - 2]) {
            lemma_words_nonempty(s.drop_last());
            let last = w.last().push(c);
            assert(is_word(w[w.len() - 1]));
            assert forall|k: int| 0 <= k < last.len() implies !is_ws(#[trigger] last[k]) by {
                if k < last.len() - 1 {
                    assert(last[k] == w[w.len() - 1][k]);
                }
            }
            assert(is_word(last));
            assert forall|i: int| 0 <= i < words(s).len() implies is_word(#[trigger] words(s)[i]) by {
                if i < w.len() - 1 {
                    assert(words(s)[i] == w[i]);
                }
            }
        } else {
            assert(is_word(seq![c]));
            assert forall|i: int| 0 <= i < words(s).len() implies is_word(#[trigger] words(s)[i]) by {
                if i < w.len() {
                    assert(words(s)[i] == w[i]);
                }
            }
        }
    }
}

/// Whether the range `p` lies within `lo..hi`.
pub open spec fn span_within(p: (usize, usize), lo: int, hi: int) -> bool {
    lo <= p.0 <= p.1 <= hi
}

/// The index ranges (start, end) of the words of `chars[lo..hi]`, as
/// positions in `chars`.
pub fn word_spans(chars: &Vec<char>, lo: usize, hi: usize) -> (spans: Vec<(usize, usize)>)
    requires
        lo <= hi <= chars@.len(),
    ensures
        spans@.map_values(|p: (usize, usize)| chars@.subrange(p.0 as int, p.1 as int))
            == words(chars@.subrange(lo as int, hi as int)),
        forall|k: int|
            0 <= k < spans@.len() ==> span_within(#[trigger] spans@[k], lo as int, hi as int),
{
    let mut spans: Vec<(usize, usize)> = Vec::new();
    let mut j: usize = lo;
    while j < hi
        invariant
            lo <= j <= hi <= chars@.len(),
            spans@.map_values(|p: (usize, usize)| chars@.subrange(p.0 as int, p.1 as int))
                == words(chars@.subrange(lo as int, j as int)),
            forall|k: int|
                0 <= k < spans@.len() ==> span_within(#[trigger] spans@[k], lo as int, j as int),
            j > lo && !is_ws(chars@[j - 1]) ==> spans@.len() > 0 && spans@.last().1 == j,
        decreases hi - j,
    {
        let c = chars[j];
        let ghost before = spans@;
        let ghost sub = chars@.subrange(lo as int, j + 1);
        assert(sub.drop_last() =~= chars@.subrange(lo as int, j as int));
        assert(sub.last() == c);
        if is_whitespace(c) {
            assert forall|q: int| 0 <= q < spans@.len() implies span_within(
                #[trigger] spans@[q],
                lo as int,
                j + 1,
            ) by {
                assert(span_within(spans@[q], lo as int, j as int));
            }
        } else if j > lo && !is_whitespace(chars[j - 1]) {
            assert(sub[sub.len() - 2] == chars@[j - 1]);
            let k = spans.len() - 1;
            let start = spans[k].0;
            spans.set(k, (start, j + 1));
            proof {
                assert(spans@ == before.update(k as int, (start, (j + 1) as usize)));
                assert forall|q: int| 0 <= q < spans@.len() implies span_within(
                    #[trigger] spans@[q],
                    lo as int,
                    j + 1,
                ) by {
                    if q != k {
                        assert(spans@[q] == before[q]);
                        assert(span_within(before[q], lo as int, j as int));
                    } else {
                        assert(span_within(before[q], lo as int, j as int));
                    }
                }
                assert(chars@.subrange(start as int, j + 1) =~= chars@.subrange(
                    start as int,
                    j as int,
                ).push(c));
                assert(spans@.map_values(
                    |p: (usize, usize)| chars@.subrange(p.0 as int, p.1 as int),
                ) =~= words(sub));
            }
        } else {
            if j > lo {
                assert(sub[sub.len() - 2] == chars@[j - 1]);
            }
            spans.push((j, j + 1));
            proof {
                assert forall|q: int| 0 <= q < spans@.len() implies span_within(
                    #[trigger] spans@[q],
                    lo as int,
                    j + 1,
                ) by {
                    if q < before.len() {
                        assert(spans@[q] == before[q]);
                        assert(span_within(before[q], lo as int, j as int));
                    }
                }
                assert(chars@.subrange(j as int, j + 1) =~= seq![c]);
                assert(spans@.map_values(
                    |p: (usize, usize)| chars@.subrange(p.0 as int, p.1 as int),
                ) =~= words(sub));
            }
        }
        j = j + 1;
    }
    spans
}

/// `s` without its leading whitespace (`str::trim_start`).
pub open spec fn trim_start(s: Seq<char>) -> Seq<char>
    decreases s.len(),
{
    if s.len() > 0 && is_ws(s[0]) {
        trim_start(s.drop_first())
    } else {
        s
    }
}

/// `s` without its trailing whitespace (`str::trim_end`).
pub open spec fn trim_end(s: Seq<char>) -> Seq<char>
    decreases s.len(),
{
    if s.len() > 0 && is_ws(s.last()) {
        trim_end(s.drop_last())
    } else {
        s
    }
}

/// `s` without leading and trailing whitespace (`str::trim`).
pub open spec fn trimmed(s: Seq<char>) -> Seq<char> {
    trim_end(trim_start(s))
}

/// The first index from which `chars[i..]` starts with no whitespace.
fn skip_leading(chars: &Vec<char>) -> (a: usize)
    ensures
        a <= chars@.len(),
        trim_start(chars@) == chars@.subrange(a as int, chars@.len() as int),
{
    let n = chars.len();
    let mut i: usize = 0;
    assert(chars@.subrange(0, n as int) =~= chars@);
    while i < n && is_whitespace(chars[i])
        invariant
            i <= n == chars@.len(),
            trim_start(chars@) == trim_start(chars@.subrange(i as int, n as int)),
        decreases n - i,
    {
        let ghost rest = chars@.subrange(i as int, n as int);
        assert(rest.drop_first() =~= chars@.subrange(i + 1, n as int));
        i = i + 1;
    }
    assert(chars@.subrange(i as int, n as int).len() == 0 || !is_ws(
        chars@.subrange(i as int, n as int)[0],
    ));
    i
}

/// The end of `chars[a..]` once trailing whitespace is dropped.
fn skip_trailing(chars: &Vec<char>, a: usize) -> (b: usize)
    requires
        a <= chars@.len(),
    ensures
        a <= b <= chars@.len(),
        trim_end(chars@.subrange(a as int, chars@.len() as int)) == chars@.subrange(
            a as int,
            b as int,
        ),
{
    let n = chars.len();
    let mut b: usize = n;
    while b > a && is_whitespace(chars[b - 1])
        invariant
            a <= b <= n == chars@.len(),
            trim_end(chars@.subrange(a as int, n as int)) == trim_end(
                chars@.subrange(a as int, b as int),
            ),
        decreases b,
    {
        let ghost part = chars@.subrange(a as int, b as int);
        assert(part.drop_last() =~= chars@.subrange(a as int, b - 1));
        b = b - 1;
    }
    b
}

/// The characters of `s` between the first and the last non-whitespace
/// character, as index bounds.
pub fn trim_bounds(chars: &Vec<char>) -> (r: (usize, usize))
    ensures
        r.0 <= r.1 <= chars@.len(),
        chars@.subrange(r.0 as int, r.1 as int) == trimmed(chars@),
{
    let a = skip_leading(chars);
    let b = skip_trailing(chars, a);
    (a, b)
}

/// `s` with leading and trailing whitespace removed (`str::trim`).
pub fn trim(s: &str) -> (r: String)
    ensures
        r@ == trimmed(s@),
{
    let chars = chars_of(s);
    let (a, b) = trim_bounds(&chars);
    s.substring_char(a, b).to_owned()
}

/// Whether `c` is an ASCII decimal digit.
pub open spec fn is_digit(c: char) -> bool {
    48 <= (c as u32) <= 57
}

/// The value of a digit character.
pub open spec fn digit_value(c: char) -> nat {
    ((c as u32) - 48) as nat
}

/// The number that a sequence of decimal digits denotes (most significant first).
pub open spec fn digits_value(d: Seq<char>) -> nat
    decreases d.len(),
{
    if d.len() == 0 {
        0
    } else {
        digits_value(d.drop_last()) * 10 + digit_value(d.last())
    }
}

/// The digits part of a `u32` literal: `s` without one leading `+`.
pub open spec fn unsigned_digits(s: Seq<char>) -> Seq<char> {
    if s.len() > 0 && s[0] == '+' {
        s.drop_first()
    } else {
        s
    }
}

/// What `str::parse::<u32>` gives: an optional leading `+`, then one or
/// more ASCII digits whose value fits in a `u32`.
pub open spec fn parse_u32_spec(s: Seq<char>) -> Option<u32> {
    let d = unsigned_digits(s);
    if d.len() > 0 && (forall|k: int| 0 <= k < d.len() ==> is_digit(#[trigger] d[k]))
        && digits_value(d) <= u32::MAX {
        Some(digits_value(d) as u32)
    } else {
        None
    }
}

/// Parses a decimal `u32` as `str::parse::<u32>` does.
pub fn parse_u32(s: &str) -> (r: Option<u32>)
    ensures
        r == parse_u32_spec(s@),
{
    let chars = chars_of(s);
    let n = chars.len();
    let start: usize = if n > 0 && chars[0] == '+' {
        1
    } else {
        0
    };
    let ghost d = chars@.subrange(start as int, n as int);
    assert(d =~= unsigned_digits(s@));
    if start >= n {
        return None;
    }
    let cap: u64 = 0x1_0000_0000;
    let mut acc: u64 = 0;
    let mut i: usize = start;
    while i < n
        invariant
            start <= i <= n == chars@.len(),
            d == chars@.subrange(start as int, n as int),
            d == unsigned_digits(s@),
            cap == 0x1_0000_0000,
            forall|k: int| start <= k < i ==> is_digit(#[trigger] chars@[k]),
            acc == (if digits_value(chars@.subrange(start as int, i as int)) < cap {
                digits_value(chars@.subrange(start as int, i as int))
            } else {
                cap as nat
            }),
        decreases n - i,
    {
        let c = chars[i];
        let code = c as u32;
        if code < 48 || code > 57 {
            assert(d[i - start] == chars@[i as int]);
            assert(!is_digit(d[i - start]));
            return None;
        }
        let ghost pre = chars@.subrange(start as int, i as int);
        let ghost next = chars@.subrange(start as int, i + 1);
        assert(next.drop_last() =~= pre);
        assert(digits_value(next) == digits_value(pre) * 10 + digit_value(c));
        let v = (code - 48) as u64;
        let grown = acc * 10 + v;
        acc = if grown < cap {
            grown
        } else {
            cap
        };
        i = i + 1;
    }
    assert(chars@.subrange(start as int, n as int) =~= d);
    if acc < cap {
        Some(acc as u32)
    } else {
        None
    }
}

/// The character of a digit value below ten.
pub open spec fn digit_char(v: nat) -> char {
    (v + 48) as char
}

/// The decimal representation of `n`, without leading zeros (`to_string`).
pub open spec fn decimal(n: nat) -> Seq<char>
    decreases n,
{
    if n < 10 {
        seq![digit_char(n)]
    } else {
        decimal(n / 10).push(digit_char(n % 10))
    }
}

/// The one-character string of a digit.
fn digit_str(v: u32) -> (r: &'static str)
    requires
        v < 10,
    ensures
        r@ == seq![digit_char(v as nat)],
{
    let all = "0123456789";
    proof {
        reveal_strlit("0123456789");
    }
    let r = all.substring_char(v as usize, (v + 1) as usize);
    assert(r@ =~= seq![digit_char(v as nat)]);
    r
}

/// The decimal representation of `n` (`n.to_string()`).
pub fn decimal_string(n: u32) -> (r: String)
    ensures
        r@ == decimal(n as nat),
    decreases n,
{
    if n < 10 {
        digit_str(n).to_owned()
    } else {
        let mut s = decimal_string(n / 10);
        s.append(digit_str(n % 10));
        s
    }
}

/// Reading back a decimal representation gives the number again.
pub proof fn lemma_decimal_digits(n: nat)
    ensures
        decimal(n).len() > 0,
        forall|k: int| 0 <= k < decimal(n).len() ==> is_digit(#[trigger] decimal(n)[k]),
        digits_value(decimal(n)) == n,
    decreases n,
{
    let d = decimal(n);
    if n >= 10 {
        lemma_decimal_digits(n / 10);
        assert(d.drop_last() =~= decimal(n / 10));
        assert(d.last() == digit_char(n % 10));
        assert(digit_value(d.last()) == n % 10);
        assert(digits_value(d) == digits_value(decimal(n / 10)) * 10 + n % 10);
        assert((n / 10) * 10 + n % 10 == n);
        assert forall|k: int| 0 <= k < d.len() implies is_digit(#[trigger] d[k]) by {
            if k < d.len() - 1 {
                assert(d[k] == decimal(n / 10)[k]);
            }
        }
    } else {
        assert(d.drop_last() =~= Seq::<char>::empty());
        assert(digits_value(Seq::<char>::empty()) == 0);
        assert(digit_value(d.last()) == n);
    }
}

/// Parsing the decimal representation of a `u32` gives that `u32` back.
pub proof fn lemma_parse_decimal_roundtrip(n: u32)
    ensures
        parse_u32_spec(decimal(n as nat)) == Some(n),
{
    lemma_decimal_digits(n as nat);
}

/// Whether every character of `s` is whitespace.
pub open spec fn all_ws(s: Seq<char>) -> bool {
    forall|k: int| 0 <= k < s.len() ==> is_ws(#[trigger] s[k])
}

/// A string has no words exactly when it is all whitespace.
pub proof fn lemma_no_words_iff_all_ws(s: Seq<char>)
    ensures
        words(s).len() == 0 <==> all_ws(s),
    decreases s.len(),
{
    if s.len() > 0 {
        lemma_no_words_iff_all_ws(s.drop_last());
        if !is_ws(s.last()) {
            lemma_words_nonempty(s);
            assert(!is_ws(s[s.len() - 1]));
        } else {
            assert(all_ws(s) <==> all_ws(s.drop_last())) by {
                if all_ws(s.drop_last()) {
                    assert forall|k: int| 0 <= k < s.len() implies is_ws(#[trigger] s[k]) by {
                        if k < s.len() - 1 {
                            assert(s[k] == s.drop_last()[k]);
                        }
                    }
                }
                if all_ws(s) {
                    assert forall|k: int| 0 <= k < s.drop_last().len() implies is_ws(
                        #[trigger] s.drop_last()[k],
                    ) by {
                        assert(s[k] == s.drop_last()[k]);
                    }
                }
            }
        }
    }
}

/// Dropping trailing whitespace leaves nothing exactly when the string is
/// all whitespace.
proof fn lemma_trim_end_empty_iff_all_ws(s: Seq<char>)
    ensures
        trim_end(s).len() == 0 <==> all_ws(s),
    decreases s.len(),
{
    if s.len() > 0 {
        lemma_trim_end_empty_iff_all_ws(s.drop_last());
        if is_ws(s.last()) {
            assert(all_ws(s) <==> all_ws(s.drop_last())) by {
                if all_ws(s.drop_last()) {
                    assert forall|k: int| 0 <= k < s.len() implies is_ws(#[trigger] s[k]) by {
                        if k < s.len() - 1 {
                            assert(s[k] == s.drop_last()[k]);
                        }
                    }
                }
                if all_ws(s) {
                    assert forall|k: int| 0 <= k < s.drop_last().len() implies is_ws(
                        #[trigger] s.drop_last()[k],
                    ) by {
                        assert(s[k] == s.drop_last()[k]);
                    }
                }
            }
        } else {
            assert(!is_ws(s[s.len() - 1]));
        }
    }
}

/// Dropping leading whitespace leaves nothing exactly when the string is
/// all whitespace, and otherwise leaves a string that starts with a
/// non-whitespace character.
proof fn lemma_trim_start_shape(s: Seq<char>)
    ensures
        trim_start(s).len() == 0 <==> all_ws(s),
        trim_start(s).len() > 0 ==> !is_ws(trim_start(s)[0]),
    decreases s.len(),
{
    if s.len() > 0 {
        lemma_trim_start_shape(s.drop_first());
        if is_ws(s[0]) {
            assert(all_ws(s) <==> all_ws(s.drop_first())) by {
                if all_ws(s.drop_first()) {
                    assert forall|k: int| 0 <= k < s.len() implies is_ws(#[trigger] s[k]) by {
                        if k > 0 {
                            assert(s[k] == s.drop_first()[k - 1]);
                        }
                    }
                }
                if all_ws(s) {
                    assert forall|k: int| 0 <= k < s.drop_first().len() implies is_ws(
                        #[trigger] s.drop_first()[k],
                    ) by {
                        assert(s[k + 1] == s.drop_first()[k]);
                    }
                }
            }
        }
    }
}

/// A string trims to nothing exactly when it has no words: the test
/// `line.trim().is_empty()` and the absence of words agree.
pub proof fn lemma_blank_iff_no_words(s: Seq<char>)
    ensures
        trimmed(s).len() == 0 <==> words(s).len() == 0,
{
    lemma_no_words_iff_all_ws(s);
    lemma_trim_start_shape(s);
    let t = trim_start(s);
    lemma_trim_end_empty_iff_all_ws(t);
    if t.len() > 0 {
        assert(!all_ws(t)) by {
            assert(!is_ws(t[0]));
        }
    }
}

/// The decimal form of a number has no leading zero, unless it is `0`.
pub proof fn lemma_decimal_no_leading_zero(n: nat)
    ensures
        decimal(n).len() >= 1,
        n == 0 <==> decimal(n) == seq!['0'],
        n > 0 ==> decimal(n)[0] != '0',
    decreases n,
{
    if n >= 10 {
        lemma_decimal_no_leading_zero(n / 10);
        assert(decimal(n)[0] == decimal(n / 10)[0]);
    } else {
        assert(digit_char(0) == '0');
        if n > 0 {
            assert(decimal(n)[0] != '0') by {
                assert((n + 48) as char as u32 == n + 48);
            }
        }
    }
}

/// Trimming keeps a contiguous part of the text that starts and ends with
/// non-whitespace characters, and drops only whitespace around it.
pub proof fn lemma_trimmed_is_inner_part(s: Seq<char>)
    ensures
        exists|a: int, b: int|
            0 <= a <= b <= s.len() && trimmed(s) == s.subrange(a, b) && (forall|k: int|
                0 <= k < a ==> is_ws(#[trigger] s[k])) && (forall|k: int|
                b <= k < s.len() ==> is_ws(#[trigger] s[k])),
        trimmed(s).len() > 0 ==> !is_ws(trimmed(s)[0]) && !is_ws(trimmed(s).last()),
{
    let a = trim_start_index(s);
    let b = trim_end_index(s.subrange(a, s.len() as int));
    let t = s.subrange(a, s.len() as int);
    assert(trimmed(s) =~= s.subrange(a, a + b)) by {
        assert(t.subrange(0, b) =~= s.subrange(a, a + b));
    }
    assert forall|k: int| a + b <= k < s.len() implies is_ws(#[trigger] s[k]) by {
        assert(s[k] == t[k - a]);
    }
    assert(0 <= a <= a + b <= s.len());
}

/// The index at which the leading whitespace of `s` ends.
proof fn trim_start_index(s: Seq<char>) -> (a: int)
    ensures
        0 <= a <= s.len(),
        trim_start(s) == s.subrange(a, s.len() as int),
        forall|k: int| 0 <= k < a ==> is_ws(#[trigger] s[k]),
        a < s.len() ==> !is_ws(s[a]),
    decreases s.len(),
{
    if s.len() > 0 && is_ws(s[0]) {
        let t = s.drop_first();
        let a1 = trim_start_index(t);
        assert(t.subrange(a1, t.len() as int) =~= s.subrange(a1 + 1, s.len() as int));
        assert forall|k: int| 0 <= k < a1 + 1 implies is_ws(#[trigger] s[k]) by {
            if k > 0 {
                assert(s[k] == t[k - 1]);
            }
        }
        if a1 < t.len() {
            assert(s[a1 + 1] == t[a1]);
        }
        a1 + 1
    } else {
        assert(s.subrange(0, s.len() as int) =~= s);
        0
    }
}

/// The length that `s` keeps once its trailing whitespace is dropped.
proof fn trim_end_index(s: Seq<char>) -> (b: int)
    ensures
        0 <= b <= s.len(),
        trim_end(s) == s.subrange(0, b),
        forall|k: int| b <= k < s.len() ==> is_ws(#[trigger] s[k]),
        b > 0 ==> !is_ws(s[b - 1]),
    decreases s.len(),
{
    if s.len() > 0 && is_ws(s.last()) {
        let t = s.drop_last();
        let b1 = trim_end_index(t);
        assert(t.subrange(0, b1) =~= s.subrange(0, b1));
        assert forall|k: int| b1 <= k < s.len() implies is_ws(#[trigger] s[k]) by {
            if k < s.len() - 1 {
                assert(s[k] == t[k]);
            }
        }
        if b1 > 0 {
            assert(s[b1 - 1] == t[b1 - 1]);
        }
        b1
    } else {
        assert(s.subrange(0, s.len() as int) =~= s);
        s.len() as int
    }
}

/// A non-empty text without whitespace is a single word.
pub proof fn lemma_words_of_word(s: Seq<char>)
    requires
        is_word(s),
    ensures
        words(s) == seq![s],
    decreases s.len(),
{
    let c = s.last();
    assert(!is_ws(s[s.len() - 1]));
    if s.len() == 1 {
        assert(s.drop_last() =~= Seq::<char>::empty());
        assert(words(Seq::<char>::empty()) == Seq::<Seq<char>>::empty());
        assert(s =~= seq![c]);
        assert(words(s) =~= seq![s]);
    } else {
        let t = s.drop_last();
        assert forall|k: int| 0 <= k < t.len() implies !is_ws(#[trigger] t[k]) by {
            assert(t[k] == s[k]);
        }
        lemma_words_of_word(t);
        assert(!is_ws(s[s.len() - 2])) by {
            assert(s[s.len() - 2] == t[t.len() - 1]);
        }
        assert(t.push(c) =~= s);
        assert(words(s) == words(t).update(0, words(t)[0].push(c)));
        assert(words(s) =~= seq![s]);
    }
}

/// A whitespace character splits the words: the words of `a`, a whitespace
/// character, then `b`, are the words of `a` followed by those of `b`.
pub proof fn lemma_words_split_at_ws(a: Seq<char>, c: char, b: Seq<char>)
    requires
        is_ws(c),
    ensures
        words(a + seq![c] + b) == words(a) + words(b),
    decreases b.len(),
{
    let x = a + seq![c] + b;
    if b.len() == 0 {
        assert(x.drop_last() =~= a);
        assert(x.last() == c);
        assert(words(b) =~= Seq::<Seq<char>>::empty());
        assert(words(a) + words(b) =~= words(a));
    } else {
        let b1 = b.drop_last();
        let d = b.last();
        lemma_words_split_at_ws(a, c, b1);
        let x1 = a + seq![c] + b1;
        assert(x.drop_last() =~= x1);
        assert(x.last() == d);
        assert(x[x.len() - 2] == x1.last());
        if b1.len() > 0 {
            assert(x1.last() == b1.last());
            assert(b[b.len() - 2] == b1.last());
        } else {
            assert(x1.last() == c);
        }
        if is_ws(d) {
        } else if b1.len() > 0 && !is_ws(b1.last()) {
            lemma_words_nonempty(b1);
            assert(words(x) =~= words(a) + words(b));
        } else {
            if b1.len() == 0 {
                assert(b =~= seq![d]);
                assert(b.drop_last() =~= Seq::<char>::empty());
            }
            assert(words(x) =~= words(a) + words(b));
        }
    }
}

/// Parsing accepts one leading `+` before the digits.
pub proof fn lemma_parse_plus_sign(n: u32)
    ensures
        parse_u32_spec(seq!['+'] + decimal(n as nat)) == Some(n),
{
    lemma_decimal_digits(n as nat);
    assert((seq!['+'] + decimal(n as nat)).drop_first() =~= decimal(n as nat));
}

/// A leading zero does not change the value of a digit string.
proof fn lemma_leading_zero_value(d: Seq<char>)
    ensures
        digits_value(seq!['0'] + d) == digits_value(d),
    decreases d.len(),
{
    let z = seq!['0'] + d;
    if d.len() == 0 {
        assert(z =~= seq!['0']);
        assert(z.drop_last() =~= Seq::<char>::empty());
        assert(digits_value(Seq::<char>::empty()) == 0);
        assert(digit_value('0') == 0);
        assert(digits_value(z) == 0);
    } else {
        lemma_leading_zero_value(d.drop_last());
        assert(z.drop_last() =~= seq!['0'] + d.drop_last());
        assert(z.last() == d.last());
        assert(digits_value(z) == digits_value(z.drop_last()) * 10 + digit_value(z.last()));
    }
}

/// Parsing accepts leading zeros.
pub proof fn lemma_parse_leading_zero(n: u32)
    ensures
        parse_u32_spec(seq!['0'] + decimal(n as nat)) == Some(n),
{
    lemma_decimal_digits(n as nat);
    lemma_leading_zero_value(decimal(n as nat));
    let z = seq!['0'] + decimal(n as nat);
    assert(z[0] != '+');
    assert forall|k: int| 0 <= k < z.len() implies is_digit(#[trigger] z[k]) by {
        if k > 0 {
            assert(z[k] == decimal(n as nat)[k - 1]);
        }
    }
}

/// Parsing refuses numbers too large for a `u32`, the empty text, a lone
/// `+`, and a leading `-`.
pub proof fn lemma_parse_refuses(n: nat, t: Seq<char>)
    ensures
        n > u32::MAX ==> parse_u32_spec(decimal(n)) is None,
        parse_u32_spec(Seq::empty()) is None,
        parse_u32_spec(seq!['+']) is None,
        parse_u32_spec(seq!['-'] + t) is None,
{
    lemma_decimal_digits(n);
    assert(seq!['+'].drop_first() =~= Seq::<char>::empty());
    let m = seq!['-'] + t;
    assert(m[0] == '-');
    assert(!is_digit(m[0]));
}

/// What parses is an optional `+` followed by digits only.
pub proof fn lemma_parsed_text_is_digits(s: Seq<char>)
    requires
        parse_u32_spec(s) is Some,
    ensures
        s.len() > 0,
        forall|k: int| 0 <= k < s.len() && !(k == 0 && s[0] == '+') ==> is_digit(#[trigger] s[k]),
{
    let d = unsigned_digits(s);
    assert forall|k: int| 0 <= k < s.len() && !(k == 0 && s[0] == '+') implies is_digit(
        #[trigger] s[k],
    ) by {
        if s[0] == '+' {
            assert(s[k] == d[k - 1]);
        } else {
            assert(s[k] == d[k]);
        }
    }
}

} // verus!
