//! Text primitives shared by the transcript and agent stages: character
//! classes, whitespace splitting, trimming, byte lengths and decimal
//! rendering of counters.

use vstd::prelude::*;
use vstd::utf8::encode_utf8;

verus! {

/// Whether `c` has the Unicode `White_Space` property, which is what
/// `char::is_whitespace` tests: the 25 code points U+0009 to U+000D,
/// U+0020, U+0085, U+00A0, U+1680, U+2000 to U+200A, U+2028, U+2029,
/// U+202F, U+205F and U+3000.
pub open spec fn char_is_whitespace(c: char) -> bool {
    let u = c as u32;
    ||| 0x09 <= u <= 0x0d
    ||| u == 0x20
    ||| u == 0x85
    ||| u == 0xa0
    ||| u == 0x1680
    ||| 0x2000 <= u <= 0x200a
    ||| u == 0x2028
    ||| u == 0x2029
    ||| u == 0x202f
    ||| u == 0x205f
    ||| u == 0x3000
}

/// Whether `char::is_alphanumeric` holds of `c` (Unicode `Alphabetic` or
/// `Numeric`).
pub uninterp spec fn char_is_alphanumeric(c: char) -> bool;

/// What `str::to_lowercase` makes of a string.
pub uninterp spec fn lowercase_of(s: Seq<char>) -> Seq<char>;

/// Whether `c` is an ASCII letter or digit.
pub open spec fn ascii_alphanumeric(c: char) -> bool {
    let u = c as u32;
    ||| 0x30 <= u <= 0x39
    ||| 0x41 <= u <= 0x5a
    ||| 0x61 <= u <= 0x7a
}

/// The ASCII lowercase of `c`: `A` to `Z` become `a` to `z`, every other
/// character stays.
pub open spec fn ascii_lower(c: char) -> char {
    let u = c as u32;
    if 0x41 <= u <= 0x5a {
        (u + 32) as char
    } else {
        c
    }
}

/// `char::is_alphanumeric`: the result is named `char_is_alphanumeric`; of
/// ASCII characters, exactly the letters and digits are alphanumeric. The
/// Unicode tables beyond ASCII are not restated.
pub assume_specification[ char::is_alphanumeric ](c: char) -> (b: bool)
    ensures
        b == char_is_alphanumeric(c),
        (c as u32) < 0x80 ==> (b == ascii_alphanumeric(c)),
;

/// `str::to_lowercase`: a new string, named `lowercase_of` of the input;
/// an all-ASCII string is lowercased character by character, `A` to `Z`
/// becoming `a` to `z`. The Unicode case mapping beyond ASCII is not
/// restated.
pub assume_specification[ str::to_lowercase ](s: &str) -> (r: String)
    ensures
        r@ == lowercase_of(s@),
        (forall|i: int| 0 <= i < s@.len() ==> (#[trigger] s@[i] as u32) < 0x80) ==> r@
            == s@.map_values(|c: char| ascii_lower(c)),
;

/// `String::push`: appends one character.
pub assume_specification[ String::push ](s: &mut String, ch: char)
    ensures
        final(s)@ == old(s)@.push(ch),
;

/// `String::push_str`: appends a string slice.
pub assume_specification[ String::push_str ](s: &mut String, other: &str)
    ensures
        final(s)@ == old(s)@ + other@,
;

/// Whether `c` has the Unicode `White_Space` property (what
/// `char::is_whitespace` tests).
pub fn is_white_space(c: char) -> (b: bool)
    ensures
        b == char_is_whitespace(c),
{
    let u = c as u32;
    (0x09 <= u && u <= 0x0d) || u == 0x20 || u == 0x85 || u == 0xa0 || u == 0x1680 || (0x2000 <= u
        && u <= 0x200a) || u == 0x2028 || u == 0x2029 || u == 0x202f || u == 0x205f || u == 0x3000
}

/// Length in bytes of the UTF-8 encoding of `s` (what `str::len` returns).
pub open spec fn byte_len(s: Seq<char>) -> nat {
    encode_utf8(s).len()
}

/// The characters of a string slice, in order.
pub fn chars_of(s: &str) -> (v: Vec<char>)
    ensures
        v@ == s@,
{
    let mut v: Vec<char> = Vec::new();
    for c in it: s.chars()
        invariant
            v@ == it.seq().take(it.index() as int),
            it.seq() == s@,
    {
        v.push(c);
    }
    v
}

/// A string holding exactly the given characters.
pub fn string_from_chars(cs: &[char]) -> (s: String)
    ensures
        s@ == cs@,
{
    let mut s = String::new();
    let mut i: usize = 0;
    while i < cs.len()
        invariant
            i <= cs@.len(),
            s@ == cs@.take(i as int),
        decreases cs@.len() - i,
    {
        s.push(cs[i]);
        i = i + 1;
        proof {
            assert(s@ =~= cs@.take(i as int));
        }
    }
    proof {
        assert(cs@.take(cs@.len() as int) =~= cs@);
    }
    s
}

/// Scanning `s[0..n]` for whitespace-separated words: the words completed
/// so far, and the word being read (empty between words).
pub open spec fn split_state(s: Seq<char>, n: int) -> (Seq<Seq<char>>, Seq<char>)
    decreases n,
{
    if n <= 0 {
        (Seq::empty(), Seq::empty())
    } else {
        let (done, cur) = split_state(s, n - 1);
        let c = s[n - 1];
        if char_is_whitespace(c) {
            if cur.len() > 0 {
                (done.push(cur), Seq::empty())
            } else {
                (done, cur)
            }
        } else {
            (done, cur.push(c))
        }
    }
}

/// The maximal runs of non-whitespace characters of `s`, in order: what
/// `str::split_whitespace` yields.
pub open spec fn split_whitespace(s: Seq<char>) -> Seq<Seq<char>> {
    let (done, cur) = split_state(s, s.len() as int);
    if cur.len() > 0 {
        done.push(cur)
    } else {
        done
    }
}

/// Number of whitespace-separated words in `s`.
pub open spec fn word_count(s: Seq<char>) -> nat {
    split_whitespace(s).len()
}

/// Whether a word begins at position `i` of `s`: a character that is not
/// whitespace, at the start or right after whitespace.
pub open spec fn starts_word(s: Seq<char>, i: int) -> bool {
    !char_is_whitespace(s[i]) && (i == 0 || char_is_whitespace(s[i - 1]))
}

/// How many words begin among the first `n` characters of `s`.
pub open spec fn word_starts(s: Seq<char>, n: int) -> nat
    decreases n,
{
    if n <= 0 {
        0
    } else {
        word_starts(s, n - 1) + if starts_word(s, n - 1) {
            1nat
        } else {
            0nat
        }
    }
}

proof fn lemma_split_state_counts(s: Seq<char>, n: int)
    requires
        0 <= n <= s.len(),
    ensures
        split_state(s, n).0.len() + (if split_state(s, n).1.len() > 0 {
            1nat
        } else {
            0nat
        }) == word_starts(s, n),
        split_state(s, n).1.len() > 0 <==> (n > 0 && !char_is_whitespace(s[n - 1])),
    decreases n,
{
    if n > 0 {
        lemma_split_state_counts(s, n - 1);
    }
}

proof fn lemma_word_starts_prefix(s: Seq<char>, t: Seq<char>, n: int)
    requires
        0 <= n <= s.len(),
        n <= t.len(),
        forall|k: int| 0 <= k < n ==> s[k] == t[k],
    ensures
        word_starts(s, n) == word_starts(t, n),
    decreases n,
{
    if n > 0 {
        lemma_word_starts_prefix(s, t, n - 1);
    }
}

proof fn lemma_word_starts_concat(a: Seq<char>, b: Seq<char>, k: int)
    requires
        0 <= k <= b.len(),
    ensures
        word_starts(a.push(' ') + b, a.len() + 1 + k) == word_starts(a, a.len() as int) + word_starts(
            b,
            k,
        ),
    decreases k,
{
    let x = a.push(' ');
    let s = x + b;
    assert(char_is_whitespace(' '));
    if k == 0 {
        assert forall|i: int| 0 <= i < a.len() implies s[i] == a[i] by {
            assert(s[i] == x[i]);
        }
        lemma_word_starts_prefix(s, a, a.len() as int);
        assert(s[a.len() as int] == ' ');
    } else {
        lemma_word_starts_concat(a, b, k - 1);
        let j = k - 1;
        assert(s[a.len() + 1 + j] == b[j]);
        if j > 0 {
            assert(s[a.len() + j] == b[j - 1]);
        } else {
            assert(s[a.len() + j] == ' ');
        }
    }
}

/// `word_count` counts every maximal run of non-whitespace characters,
/// however short: it is the number of positions where a word begins. So a
/// single non-whitespace character is one word, and joining two texts with
/// a space adds their word counts.
pub proof fn word_count_counts_every_word(s: Seq<char>, a: Seq<char>, b: Seq<char>, c: char)
    ensures
        word_count(s) == word_starts(s, s.len() as int),
        !char_is_whitespace(c) ==> word_count(seq![c]) == 1,
        word_count(a.push(' ') + b) == word_count(a) + word_count(b),
{
    lemma_split_state_counts(s, s.len() as int);
    lemma_split_state_counts(seq![c], 1);
    assert(seq![c][0] == c);
    assert(word_starts(seq![c], 1) == word_starts(seq![c], 0) + if starts_word(seq![c], 0) {
        1nat
    } else {
        0nat
    });
    lemma_split_state_counts(a, a.len() as int);
    lemma_split_state_counts(b, b.len() as int);
    let ab = a.push(' ') + b;
    lemma_split_state_counts(ab, ab.len() as int);
    lemma_word_starts_concat(a, b, b.len() as int);
}

proof fn lemma_split_state_words(s: Seq<char>, n: int)
    requires
        0 <= n <= s.len(),
    ensures
        forall|k: int|
            0 <= k < split_state(s, n).0.len() ==> (#[trigger] split_state(s, n).0[k]).len() > 0,
        forall|k: int, j: int|
            0 <= k < split_state(s, n).0.len() && 0 <= j < split_state(s, n).0[k].len()
                ==> !char_is_whitespace(#[trigger] split_state(s, n).0[k][j]),
        forall|j: int|
            0 <= j < split_state(s, n).1.len() ==> !char_is_whitespace(
                #[trigger] split_state(s, n).1[j],
            ),
    decreases n,
{
    if n > 0 {
        lemma_split_state_words(s, n - 1);
        let (d0, c0) = split_state(s, n - 1);
        let c = s[n - 1];
        let (d1, c1) = split_state(s, n);
        if char_is_whitespace(c) {
            if c0.len() > 0 {
                assert(d1 == d0.push(c0));
                assert forall|k: int| 0 <= k < d1.len() implies (#[trigger] d1[k]).len() > 0 by {
                    if k < d0.len() {
                        assert(d1[k] == d0[k]);
                    }
                }
                assert forall|k: int, j: int| 0 <= k < d1.len() && 0 <= j < d1[k].len()
                    implies !char_is_whitespace(#[trigger] d1[k][j]) by {
                    if k < d0.len() {
                        assert(d1[k] == d0[k]);
                    } else {
                        assert(d1[k] == c0);
                    }
                }
            }
        } else {
            assert(c1 == c0.push(c));
            assert forall|j: int| 0 <= j < c1.len() implies !char_is_whitespace(#[trigger] c1[j]) by {
                if j < c0.len() {
                    assert(c1[j] == c0[j]);
                }
            }
        }
    }
}

/// The words `split_whitespace` yields are never empty and hold no
/// whitespace character.
pub proof fn words_are_nonempty_runs_without_whitespace(s: Seq<char>)
    ensures
        forall|k: int| 0 <= k < split_whitespace(s).len() ==> (#[trigger] split_whitespace(s)[k]).len() > 0,
        forall|k: int, j: int|
            0 <= k < split_whitespace(s).len() && 0 <= j < split_whitespace(s)[k].len()
                ==> !char_is_whitespace(#[trigger] split_whitespace(s)[k][j]),
{
    lemma_split_state_words(s, s.len() as int);
    let (done, cur) = split_state(s, s.len() as int);
    if cur.len() > 0 {
        assert forall|k: int, j: int|
            0 <= k < done.push(cur).len() && 0 <= j < done.push(cur)[k].len()
                implies !char_is_whitespace(#[trigger] done.push(cur)[k][j]) by {
            if k < done.len() {
                assert(done.push(cur)[k] == done[k]);
            }
        }
    }
}

/// Counts the whitespace-separated words of `text`.
pub fn count_words(text: &str) -> (n: usize)
    ensures
        n == word_count(text@),
{
    let cs = chars_of(text);
    let mut done: usize = 0;
    let mut in_word = false;
    let mut i: usize = 0;
    while i < cs.len()
        invariant
            i <= cs@.len(),
            cs@ == text@,
            done == split_state(cs@, i as int).0.len(),
            in_word == (split_state(cs@, i as int).1.len() > 0),
            done <= i,
            in_word ==> done < i,
        decreases cs@.len() - i,
    {
        let c = cs[i];
        if is_white_space(c) {
            if in_word {
                done = done + 1;
            }
            in_word = false;
        } else {
            in_word = true;
        }
        i = i + 1;
    }
    if in_word {
        done + 1
    } else {
        done
    }
}

/// Splits `text` into its whitespace-separated words.
pub fn split_words(text: &str) -> (words: Vec<Vec<char>>)
    ensures
        words@.len() == split_whitespace(text@).len(),
        forall|i: int|
            0 <= i < words@.len() ==> #[trigger] words@[i]@ == split_whitespace(text@)[i],
{
    let cs = chars_of(text);
    let mut words: Vec<Vec<char>> = Vec::new();
    let mut cur: Vec<char> = Vec::new();
    let mut i: usize = 0;
    while i < cs.len()
        invariant
            i <= cs@.len(),
            cs@ == text@,
            words@.len() == split_state(cs@, i as int).0.len(),
            forall|k: int|
                0 <= k < words@.len() ==> #[trigger] words@[k]@ == split_state(cs@, i as int).0[k],
            cur@ == split_state(cs@, i as int).1,
        decreases cs@.len() - i,
    {
        let c = cs[i];
        if is_white_space(c) {
            if cur.len() > 0 {
                words.push(cur);
                cur = Vec::new();
            }
        } else {
            cur.push(c);
        }
        i = i + 1;
    }
    if cur.len() > 0 {
        words.push(cur);
    }
    words
}

/// `s` without its leading characters that are not alphanumeric.
pub open spec fn trim_start_non_alnum(s: Seq<char>) -> Seq<char>
    decreases s.len(),
{
    if s.len() > 0 && !char_is_alphanumeric(s[0]) {
        trim_start_non_alnum(s.drop_first())
    } else {
        s
    }
}

/// `s` without its trailing characters that are not alphanumeric.
pub open spec fn trim_end_non_alnum(s: Seq<char>) -> Seq<char>
    decreases s.len(),
{
    if s.len() > 0 && !char_is_alphanumeric(s.last()) {
        trim_end_non_alnum(s.drop_last())
    } else {
        s
    }
}

/// What `trim_matches(|c| !c.is_alphanumeric())` leaves of `s`.
pub open spec fn trim_non_alnum(s: Seq<char>) -> Seq<char> {
    trim_end_non_alnum(trim_start_non_alnum(s))
}

proof fn lemma_trim_start(s: Seq<char>, i: int)
    requires
        0 <= i <= s.len(),
        forall|k: int| 0 <= k < i ==> !char_is_alphanumeric(#[trigger] s[k]),
        i == s.len() || char_is_alphanumeric(s[i]),
    ensures
        trim_start_non_alnum(s) == s.subrange(i, s.len() as int),
    decreases i,
{
    if i > 0 {
        assert(s.drop_first().subrange(i - 1, s.len() - 1) =~= s.subrange(i, s.len() as int));
        lemma_trim_start(s.drop_first(), i - 1);
    } else {
        assert(s.subrange(0, s.len() as int) =~= s);
    }
}

proof fn lemma_trim_end(s: Seq<char>, j: int)
    requires
        0 <= j <= s.len(),
        forall|k: int| j <= k < s.len() ==> !char_is_alphanumeric(#[trigger] s[k]),
        j == 0 || char_is_alphanumeric(s[j - 1]),
    ensures
        trim_end_non_alnum(s) == s.subrange(0, j),
    decreases s.len() - j,
{
    if j < s.len() {
        assert(s.drop_last().subrange(0, j) =~= s.subrange(0, j));
        lemma_trim_end(s.drop_last(), j);
    } else {
        assert(s.subrange(0, j) =~= s);
    }
}

/// Strips leading and trailing characters that are not alphanumeric.
pub fn trim_non_alphanumeric(cs: &[char]) -> (out: Vec<char>)
    ensures
        out@ == trim_non_alnum(cs@),
{
    let mut i: usize = 0;
    while i < cs.len() && !cs[i].is_alphanumeric()
        invariant
            i <= cs@.len(),
            forall|k: int| 0 <= k < i ==> !char_is_alphanumeric(#[trigger] cs@[k]),
        decreases cs@.len() - i,
    {
        i = i + 1;
    }
    proof {
        lemma_trim_start(cs@, i as int);
    }
    let ghost front = cs@.subrange(i as int, cs@.len() as int);
    let mut j: usize = cs.len();
    while j > i && !cs[j - 1].is_alphanumeric()
        invariant
            i <= j <= cs@.len(),
            front == cs@.subrange(i as int, cs@.len() as int),
            forall|k: int| j <= k < cs@.len() ==> !char_is_alphanumeric(#[trigger] cs@[k]),
        decreases j,
    {
        j = j - 1;
    }
    proof {
        assert forall|k: int| j - i <= k < front.len() implies !char_is_alphanumeric(
            #[trigger] front[k],
        ) by {
            assert(front[k] == cs@[k + i]);
        }
        if j > i {
            assert(front[j - i - 1] == cs@[j - 1]);
        }
        lemma_trim_end(front, j - i);
        assert(front.subrange(0, j - i) =~= cs@.subrange(i as int, j as int));
    }
    let mut out: Vec<char> = Vec::new();
    let mut k: usize = i;
    while k < j
        invariant
            i <= k <= j <= cs@.len(),
            out@ == cs@.subrange(i as int, k as int),
        decreases j - k,
    {
        out.push(cs[k]);
        k = k + 1;
        proof {
            assert(out@ =~= cs@.subrange(i as int, k as int));
        }
    }
    out
}

/// Whether two string slices hold the same characters.
pub fn str_eq(a: &str, b: &str) -> (eq: bool)
    ensures
        eq == (a@ == b@),
{
    let x = chars_of(a);
    let y = chars_of(b);
    if x.len() != y.len() {
        return false;
    }
    let mut i: usize = 0;
    while i < x.len()
        invariant
            i <= x@.len(),
            x@.len() == y@.len(),
            x@ == a@,
            y@ == b@,
            x@.take(i as int) == y@.take(i as int),
        decreases x@.len() - i,
    {
        if x[i] != y[i] {
            proof {
                assert(x@[i as int] != y@[i as int]);
            }
            return false;
        }
        proof {
            assert(x@.take(i + 1) =~= x@.take(i as int).push(x@[i as int]));
            assert(y@.take(i + 1) =~= y@.take(i as int).push(y@[i as int]));
        }
        i = i + 1;
    }
    proof {
        assert(x@.take(x@.len() as int) =~= x@);
        assert(y@.take(y@.len() as int) =~= y@);
    }
    true
}

/// Length in bytes of a string slice.
pub fn str_byte_len(s: &str) -> (n: usize)
    ensures
        n == byte_len(s@),
{
    s.as_bytes().len()
}

/// The character of a decimal digit.
pub open spec fn digit_char(d: nat) -> char {
    if d == 0 {
        '0'
    } else if d == 1 {
        '1'
    } else if d == 2 {
        '2'
    } else if d == 3 {
        '3'
    } else if d == 4 {
        '4'
    } else if d == 5 {
        '5'
    } else if d == 6 {
        '6'
    } else if d == 7 {
        '7'
    } else if d == 8 {
        '8'
    } else {
        '9'
    }
}

/// The decimal numeral of `n`, without leading zeros.
pub open spec fn decimal(n: nat) -> Seq<char>
    decreases n,
{
    if n < 10 {
        seq![digit_char(n)]
    } else {
        decimal(n / 10).push(digit_char(n % 10))
    }
}

fn digit(d: u64) -> (c: char)
    requires
        d < 10,
    ensures
        c == digit_char(d as nat),
{
    match d {
        0 => '0',
        1 => '1',
        2 => '2',
        3 => '3',
        4 => '4',
        5 => '5',
        6 => '6',
        7 => '7',
        8 => '8',
        _ => '9',
    }
}

proof fn lemma_decimal_len(n: nat)
    ensures
        decimal(n).len() >= 1,
        n >= 10 ==> decimal(n).len() >= 2,
    decreases n,
{
    if n >= 10 {
        lemma_decimal_len(n / 10);
    }
}

proof fn lemma_digit_char_code(d: nat)
    requires
        d < 10,
    ensures
        digit_char(d) as int == 48 + d,
{
    if d == 0 {
    } else if d == 1 {
    } else if d == 2 {
    } else if d == 3 {
    } else if d == 4 {
    } else if d == 5 {
    } else if d == 6 {
    } else if d == 7 {
    } else if d == 8 {
    } else {
    }
}

/// Distinct numbers have distinct decimal numerals.
pub proof fn decimal_is_injective(n: nat, m: nat)
    requires
        decimal(n) == decimal(m),
    ensures
        n == m,
    decreases n,
{
    lemma_decimal_len(n);
    lemma_decimal_len(m);
    if n < 10 && m < 10 {
        assert(decimal(n)[0] == digit_char(n));
        assert(decimal(m)[0] == digit_char(m));
        lemma_digit_char_code(n);
        lemma_digit_char_code(m);
    } else if n >= 10 && m >= 10 {
        let dn = decimal(n);
        let dm = decimal(m);
        assert(dn.last() == dm.last());
        lemma_digit_char_code(n % 10);
        lemma_digit_char_code(m % 10);
        assert(dn.drop_last() =~= decimal(n / 10));
        assert(dm.drop_last() =~= decimal(m / 10));
        decimal_is_injective(n / 10, m / 10);
    }
}

/// The number a string of decimal digits denotes, most significant first.
pub open spec fn decimal_value(s: Seq<char>) -> int
    decreases s.len(),
{
    if s.len() == 0 {
        0
    } else {
        decimal_value(s.drop_last()) * 10 + (s.last() as int - '0' as int)
    }
}

/// The numeral of `n` reads back as `n`, uses only the digits `0` to `9`,
/// and has no leading zero unless it is `0` itself.
pub proof fn decimal_reads_back(n: nat)
    ensures
        decimal_value(decimal(n)) == n,
        forall|i: int| 0 <= i < decimal(n).len() ==> '0' <= #[trigger] decimal(n)[i] <= '9',
        decimal(n)[0] == '0' ==> n == 0,
    decreases n,
{
    lemma_decimal_len(n);
    if n < 10 {
        lemma_digit_char_code(n);
        assert(decimal(n).drop_last() =~= Seq::<char>::empty());
        assert(decimal(n).last() == digit_char(n));
        assert(decimal_value(Seq::<char>::empty()) == 0);
    } else {
        decimal_reads_back(n / 10);
        lemma_digit_char_code(n % 10);
        lemma_decimal_len(n / 10);
        let d = decimal(n);
        assert(d.drop_last() =~= decimal(n / 10));
        assert forall|i: int| 0 <= i < d.len() implies '0' <= #[trigger] d[i] <= '9' by {
            if i < d.len() - 1 {
                assert(d[i] == decimal(n / 10)[i]);
            }
        }
        assert(d[0] == decimal(n / 10)[0]);
        assert(d.last() == digit_char(n % 10));
        assert(decimal_value(d) == decimal_value(decimal(n / 10)) * 10 + (n % 10));
        assert((n / 10) * 10 + n % 10 == n);
    }
}

/// Appends the decimal numeral of `n` to `out`.
pub fn push_decimal(out: &mut String, n: u64)
    ensures
        final(out)@ == old(out)@ + decimal(n as nat),
    decreases n,
{
    if n >= 10 {
        push_decimal(out, n / 10);
    }
    out.push(digit(n % 10));
    proof {
        assert(final(out)@ =~= old(out)@ + decimal(n as nat));
    }
}

/// `s` without its leading whitespace.
pub open spec fn trim_start_ws(s: Seq<char>) -> Seq<char>
    decreases s.len(),
{
    if s.len() > 0 && char_is_whitespace(s[0]) {
        trim_start_ws(s.drop_first())
    } else {
        s
    }
}

/// `s` without its trailing whitespace.
pub open spec fn trim_end_ws(s: Seq<char>) -> Seq<char>
    decreases s.len(),
{
    if s.len() > 0 && char_is_whitespace(s.last()) {
        trim_end_ws(s.drop_last())
    } else {
        s
    }
}

/// What `str::trim` leaves of `s`.
pub open spec fn trim_ws(s: Seq<char>) -> Seq<char> {
    trim_end_ws(trim_start_ws(s))
}

proof fn lemma_trim_start_ws(s: Seq<char>, i: int)
    requires
        0 <= i <= s.len(),
        forall|k: int| 0 <= k < i ==> char_is_whitespace(#[trigger] s[k]),
        i == s.len() || !char_is_whitespace(s[i]),
    ensures
        trim_start_ws(s) == s.subrange(i, s.len() as int),
    decreases i,
{
    if i > 0 {
        assert(s.drop_first().subrange(i - 1, s.len() - 1) =~= s.subrange(i, s.len() as int));
        lemma_trim_start_ws(s.drop_first(), i - 1);
    } else {
        assert(s.subrange(0, s.len() as int) =~= s);
    }
}

proof fn lemma_trim_end_ws(s: Seq<char>, j: int)
    requires
        0 <= j <= s.len(),
        forall|k: int| j <= k < s.len() ==> char_is_whitespace(#[trigger] s[k]),
        j == 0 || !char_is_whitespace(s[j - 1]),
    ensures
        trim_end_ws(s) == s.subrange(0, j),
    decreases s.len() - j,
{
    if j < s.len() {
        assert(s.drop_last().subrange(0, j) =~= s.subrange(0, j));
        lemma_trim_end_ws(s.drop_last(), j);
    } else {
        assert(s.subrange(0, j) =~= s);
    }
}

/// Strips leading and trailing whitespace.
pub fn trim_whitespace(cs: &[char]) -> (out: Vec<char>)
    ensures
        out@ == trim_ws(cs@),
{
    let mut i: usize = 0;
    while i < cs.len() && is_white_space(cs[i])
        invariant
            i <= cs@.len(),
            forall|k: int| 0 <= k < i ==> char_is_whitespace(#[trigger] cs@[k]),
        decreases cs@.len() - i,
    {
        i = i + 1;
    }
    proof {
        lemma_trim_start_ws(cs@, i as int);
    }
    let ghost front = cs@.subrange(i as int, cs@.len() as int);
    let mut j: usize = cs.len();
    while j > i && is_white_space(cs[j - 1])
        invariant
            i <= j <= cs@.len(),
            front == cs@.subrange(i as int, cs@.len() as int),
            forall|k: int| j <= k < cs@.len() ==> char_is_whitespace(#[trigger] cs@[k]),
        decreases j,
    {
        j = j - 1;
    }
    proof {
        assert forall|k: int| j - i <= k < front.len() implies char_is_whitespace(
            #[trigger] front[k],
        ) by {
            assert(front[k] == cs@[k + i]);
        }
        if j > i {
            assert(front[j - i - 1] == cs@[j - 1]);
        }
        lemma_trim_end_ws(front, j - i);
        assert(front.subrange(0, j - i) =~= cs@.subrange(i as int, j as int));
    }
    let mut out: Vec<char> = Vec::new();
    let mut k: usize = i;
    while k < j
        invariant
            i <= k <= j <= cs@.len(),
            out@ == cs@.subrange(i as int, k as int),
        decreases j - k,
    {
        out.push(cs[k]);
        k = k + 1;
        proof {
            assert(out@ =~= cs@.subrange(i as int, k as int));
        }
    }
    out
}

} // verus!
