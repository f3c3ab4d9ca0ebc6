//! Text helpers over characters: white space, trimming, words, joining, replacing, and the
//! few standard-library text functions the library calls.
use vstd::prelude::*;

verus! {

/// The Unicode `White_Space` property, which is what `char::is_whitespace` tests.
pub open spec fn is_white_space(c: char) -> bool {
    ('\u{9}' <= c && c <= '\u{d}') || c == ' ' || c == '\u{85}' || c == '\u{a0}'
        || c == '\u{1680}' || ('\u{2000}' <= c && c <= '\u{200a}') || c == '\u{2028}'
        || c == '\u{2029}' || c == '\u{202f}' || c == '\u{205f}' || c == '\u{3000}'
}

/// Whether `c` has the Unicode `White_Space` property.
pub fn is_whitespace(c: char) -> (b: bool)
    ensures
        b == is_white_space(c),
{
    ('\u{9}' <= c && c <= '\u{d}') || c == ' ' || c == '\u{85}' || c == '\u{a0}'
        || c == '\u{1680}' || ('\u{2000}' <= c && c <= '\u{200a}') || c == '\u{2028}'
        || c == '\u{2029}' || c == '\u{202f}' || c == '\u{205f}' || c == '\u{3000}'
}

/// `s` without its leading white space.
pub open spec fn trim_start_seq(s: Seq<char>) -> Seq<char>
    decreases s.len(),
{
    if s.len() > 0 && is_white_space(s[0]) {
        trim_start_seq(s.drop_first())
    } else {
        s
    }
}

/// `s` without its trailing white space.
pub open spec fn trim_end_seq(s: Seq<char>) -> Seq<char>
    decreases s.len(),
{
    if s.len() > 0 && is_white_space(s.last()) {
        trim_end_seq(s.drop_last())
    } else {
        s
    }
}

/// `s` without leading and trailing white space.
pub open spec fn trim_seq(s: Seq<char>) -> Seq<char> {
    trim_end_seq(trim_start_seq(s))
}

/// Whether `q` occurs in `s` as a contiguous run.
pub open spec fn contains_seq(s: Seq<char>, q: Seq<char>) -> bool {
    exists|i: int| 0 <= i && i + q.len() <= s.len() && #[trigger] s.subrange(i, i + q.len()) == q
}

/// ASCII lower case of one character; other characters are kept.
pub open spec fn ascii_lower(c: char) -> char {
    if 'A' <= c && c <= 'Z' {
        ((c as u32) + 32) as char
    } else {
        c
    }
}

/// Equality of two strings up to the case of ASCII letters.
pub open spec fn eq_ignore_ascii_case_seq(a: Seq<char>, b: Seq<char>) -> bool {
    a.len() == b.len() && forall|i: int| 0 <= i < a.len() ==> ascii_lower(#[trigger] a[i]) == ascii_lower(b[i])
}

/// What `str::to_lowercase` gives for a string.
pub uninterp spec fn lowercase_of(s: Seq<char>) -> Seq<char>;

/// What `str::to_uppercase` gives for a string.
pub uninterp spec fn uppercase_of(s: Seq<char>) -> Seq<char>;

/// Calls `str::to_lowercase`; its result is named `lowercase_of`, and the lower case of the
/// empty string is empty.
#[verifier::external_body]
pub(crate) fn to_lowercase(s: &str) -> (r: String)
    ensures
        r@ == lowercase_of(s@),
        s@.len() == 0 ==> r@.len() == 0,
{
    s.to_lowercase()
}

/// Calls `str::to_uppercase`; its result is named `uppercase_of`, and the upper case of the
/// empty string is empty.
#[verifier::external_body]
pub(crate) fn to_uppercase(s: &str) -> (r: String)
    ensures
        r@ == uppercase_of(s@),
        s@.len() == 0 ==> r@.len() == 0,
{
    s.to_uppercase()
}

/// Calls `String::push`, which appends one character.
#[verifier::external_body]
pub(crate) fn push_char(s: &mut String, c: char)
    ensures
        final(s)@ == old(s)@.push(c),
{
    s.push(c);
}

/// The characters of `s`, in order.
pub fn chars_of(s: &str) -> (v: Vec<char>)
    ensures
        v@ == s@,
{
    let mut v: Vec<char> = Vec::new();
    for c in it: s.chars()
        invariant
            v@ == it.seq().take(it.index() as int),
    {
        v.push(c);
    }
    v
}

/// The string made of `chars[from..to]`.
pub fn string_from_range(chars: &Vec<char>, from: usize, to: usize) -> (r: String)
    requires
        from <= to <= chars.len(),
    ensures
        r@ == chars@.subrange(from as int, to as int),
{
    let mut r = String::new();
    let mut i = from;
    while i < to
        invariant
            from <= i <= to <= chars.len(),
            r@ == chars@.subrange(from as int, i as int),
        decreases to - i,
    {
        push_char(&mut r, chars[i]);
        i += 1;
    }
    r
}


proof fn lemma_trim_start_skip(s: Seq<char>, i: int)
    requires
        0 <= i <= s.len(),
        forall|j: int| 0 <= j < i ==> is_white_space(#[trigger] s[j]),
    ensures
        trim_start_seq(s) == trim_start_seq(s.subrange(i, s.len() as int)),
    decreases i,
{
    if i == 0 {
        assert(s.subrange(0, s.len() as int) == s);
    } else {
        let t = s.drop_first();
        assert forall|j: int| 0 <= j < i - 1 implies is_white_space(#[trigger] t[j]) by {
            assert(t[j] == s[j + 1]);
        }
        lemma_trim_start_skip(t, i - 1);
        assert(t.subrange(i - 1, t.len() as int) == s.subrange(i, s.len() as int));
    }
}

proof fn lemma_trim_end_skip(s: Seq<char>, i: int)
    requires
        0 <= i <= s.len(),
        forall|j: int| i <= j < s.len() ==> is_white_space(#[trigger] s[j]),
    ensures
        trim_end_seq(s) == trim_end_seq(s.subrange(0, i)),
    decreases s.len() - i,
{
    if i == s.len() {
        assert(s.subrange(0, i) == s);
    } else {
        let t = s.drop_last();
        assert forall|j: int| i <= j < t.len() implies is_white_space(#[trigger] t[j]) by {
            assert(t[j] == s[j]);
        }
        lemma_trim_end_skip(t, i);
        assert(t.subrange(0, i) == s.subrange(0, i));
    }
}

/// The bounds of `chars` without its leading and trailing white space.
pub fn trim_bounds(chars: &Vec<char>) -> (r: (usize, usize))
    ensures
        r.0 <= r.1 <= chars.len(),
        chars@.subrange(r.0 as int, r.1 as int) == trim_seq(chars@),
        trim_start_seq(chars@) == chars@.subrange(r.0 as int, chars.len() as int),
{
    let n = chars.len();
    let mut a: usize = 0;
    while a < n && is_whitespace(chars[a])
        invariant
            a <= n == chars.len(),
            forall|j: int| 0 <= j < a ==> is_white_space(#[trigger] chars@[j]),
        decreases n - a,
    {
        a += 1;
    }
    proof {
        lemma_trim_start_skip(chars@, a as int);
    }
    let ghost t = chars@.subrange(a as int, n as int);
    assert(trim_start_seq(t) == t);
    let mut b: usize = n;
    while b > a && is_whitespace(chars[b - 1])
        invariant
            a <= b <= n == chars.len(),
            forall|j: int| b <= j < n ==> is_white_space(#[trigger] chars@[j]),
        decreases b,
    {
        b -= 1;
    }
    proof {
        lemma_trim_end_skip(t, b - a);
        assert(t.subrange(0, b - a) == chars@.subrange(a as int, b as int));
        let u = chars@.subrange(a as int, b as int);
        if u.len() > 0 {
            assert(u.last() == chars@[b - 1]);
        }
        assert(trim_end_seq(u) == u);
    }
    (a, b)
}

/// The end of `chars` without its trailing white space.
pub fn trim_end_bound(chars: &Vec<char>) -> (b: usize)
    ensures
        b <= chars.len(),
        chars@.subrange(0, b as int) == trim_end_seq(chars@),
{
    let n = chars.len();
    let mut b: usize = n;
    while b > 0 && is_whitespace(chars[b - 1])
        invariant
            b <= n == chars.len(),
            forall|j: int| b <= j < n ==> is_white_space(#[trigger] chars@[j]),
        decreases b,
    {
        b -= 1;
    }
    proof {
        lemma_trim_end_skip(chars@, b as int);
        let u = chars@.subrange(0, b as int);
        if u.len() > 0 {
            assert(u.last() == chars@[b - 1]);
        }
        assert(trim_end_seq(u) == u);
    }
    b
}

/// `s` without leading white space, as `str::trim_start` gives it.
pub fn trim_start(s: &str) -> (r: String)
    ensures
        r@ == trim_start_seq(s@),
{
    let chars = chars_of(s);
    let (a, _b) = trim_bounds(&chars);
    string_from_range(&chars, a, chars.len())
}

/// `s` without trailing white space, as `str::trim_end` gives it.
pub fn trim_end(s: &str) -> (r: String)
    ensures
        r@ == trim_end_seq(s@),
{
    let chars = chars_of(s);
    let b = trim_end_bound(&chars);
    string_from_range(&chars, 0, b)
}

/// `s` without leading and trailing white space, as `str::trim` gives it.
pub fn trim(s: &str) -> (r: String)
    ensures
        r@ == trim_seq(s@),
{
    let chars = chars_of(s);
    let (a, b) = trim_bounds(&chars);
    string_from_range(&chars, a, b)
}

/// Whether `q` occurs in `s`, as `str::contains` with a string pattern tells.
pub fn contains_chars(s: &Vec<char>, q: &Vec<char>) -> (b: bool)
    ensures
        b == contains_seq(s@, q@),
{
    let n = s.len();
    let m = q.len();
    if m > n {
        return false;
    }
    let mut i: usize = 0;
    while i <= n - m
        invariant
            m <= n == s.len(),
            m == q.len(),
            forall|k: int| 0 <= k < i ==> #[trigger] s@.subrange(k, k + m) != q@,
        decreases n - m + 1 - i,
    {
        let mut j: usize = 0;
        while j < m && s[i + j] == q[j]
            invariant
                i + m <= n,
                j <= m,
                m == q.len(),
                n == s.len(),
                forall|l: int| 0 <= l < j ==> s@[i + l] == q@[l],
            decreases m - j,
        {
            j += 1;
        }
        if j == m {
            assert(s@.subrange(i as int, i + m) == q@);
            return true;
        }
        assert(s@.subrange(i as int, i + m)[j as int] != q@[j as int]);
        i += 1;
    }
    false
}

/// Whether `q` occurs in `s`.
pub fn contains(s: &str, q: &str) -> (b: bool)
    ensures
        b == contains_seq(s@, q@),
{
    contains_chars(&chars_of(s), &chars_of(q))
}

/// Whether two strings are equal up to the case of ASCII letters.
pub fn eq_ignore_ascii_case(a: &str, b: &str) -> (r: bool)
    ensures
        r == eq_ignore_ascii_case_seq(a@, b@),
{
    let x = chars_of(a);
    let y = chars_of(b);
    if x.len() != y.len() {
        return false;
    }
    let mut i: usize = 0;
    while i < x.len()
        invariant
            x@ == a@,
            y@ == b@,
            x.len() == y.len(),
            i <= x.len(),
            forall|k: int| 0 <= k < i ==> ascii_lower(#[trigger] x@[k]) == ascii_lower(y@[k]),
        decreases x.len() - i,
    {
        if to_ascii_lower(x[i]) != to_ascii_lower(y[i]) {
            return false;
        }
        i += 1;
    }
    true
}

/// ASCII lower case of one character.
pub fn to_ascii_lower(c: char) -> (r: char)
    ensures
        r == ascii_lower(c),
{
    if 'A' <= c && c <= 'Z' {
        let code: u8 = (c as u8) + 32;
        code as char
    } else {
        c
    }
}


/// Whether `c` is an ASCII decimal digit.
pub open spec fn is_digit(c: char) -> bool {
    '0' <= c && c <= '9'
}

/// The value of a run of decimal digits.
pub open spec fn decimal_value(digits: Seq<char>) -> nat
    decreases digits.len(),
{
    if digits.len() == 0 {
        0
    } else {
        decimal_value(digits.drop_last()) * 10 + ((digits.last() as u32) - ('0' as u32)) as nat
    }
}

/// The digits of an unsigned decimal number with its optional leading `+` removed.
pub open spec fn unsigned_digits(s: Seq<char>) -> Seq<char> {
    if s.len() > 0 && s[0] == '+' {
        s.drop_first()
    } else {
        s
    }
}

/// What `str::parse::<usize>` accepts and gives: an optional `+`, then one or more decimal
/// digits whose value fits in a `usize`.
pub open spec fn parse_usize_spec(s: Seq<char>) -> Option<usize> {
    let digits = unsigned_digits(s);
    if digits.len() > 0 && (forall|i: int| 0 <= i < digits.len() ==> is_digit(#[trigger] digits[i]))
        && decimal_value(digits) <= usize::MAX {
        Some(decimal_value(digits) as usize)
    } else {
        None
    }
}

proof fn lemma_decimal_value_grows(digits: Seq<char>, i: int)
    requires
        0 <= i <= digits.len(),
    ensures
        decimal_value(digits.take(i)) <= decimal_value(digits),
    decreases digits.len() - i,
{
    if i < digits.len() {
        lemma_decimal_value_grows(digits, i + 1);
        assert(digits.take(i + 1).drop_last() =~= digits.take(i));
    } else {
        assert(digits.take(i) =~= digits);
    }
}

/// Parses an unsigned decimal number as `str::parse::<usize>` does.
pub fn parse_usize(s: &str) -> (r: Option<usize>)
    ensures
        r == parse_usize_spec(s@),
{
    let chars = chars_of(s);
    let start: usize = if chars.len() > 0 && chars[0] == '+' { 1 } else { 0 };
    let ghost digits = unsigned_digits(s@);
    assert(digits =~= chars@.subrange(start as int, chars.len() as int));
    if start == chars.len() {
        return None;
    }
    let mut value: usize = 0;
    let mut i: usize = start;
    while i < chars.len()
        invariant
            start <= i <= chars.len(),
            chars@ == s@,
            digits == chars@.subrange(start as int, chars.len() as int),
            digits == unsigned_digits(s@),
            value == decimal_value(digits.take(i - start)),
            forall|k: int| 0 <= k < i - start ==> is_digit(#[trigger] digits[k]),
        decreases chars.len() - i,
    {
        let c = chars[i];
        assert(digits[i - start] == c);
        if !('0' <= c && c <= '9') {
            assert(!is_digit(digits[i - start]));
            return None;
        }
        assert(digits.take(i - start + 1).drop_last() =~= digits.take(i - start));
        assert(digits.take(i - start + 1).last() == c);
        let d: usize = ((c as u32) - ('0' as u32)) as usize;
        match value.checked_mul(10) {
            Some(v) => match v.checked_add(d) {
                Some(w) => {
                    value = w;
                },
                None => {
                    proof {
                        lemma_decimal_value_grows(digits, i - start + 1);
                    }
                    return None;
                },
            },
            None => {
                proof {
                    lemma_decimal_value_grows(digits, i - start + 1);
                    assert(decimal_value(digits.take(i - start + 1)) >= decimal_value(digits.take(i - start)) * 10);
                }
                return None;
            },
        }
        i += 1;
    }
    assert(digits.take(i - start) =~= digits);
    Some(value)
}


/// The views of a sequence of strings.
pub open spec fn strings_view(s: Seq<String>) -> Seq<Seq<char>> {
    s.map_values(|x: String| x@)
}

pub proof fn lemma_strings_view_push(s: Seq<String>, x: String)
    ensures
        strings_view(s.push(x)) == strings_view(s).push(x@),
{
    assert(strings_view(s.push(x)) =~= strings_view(s).push(x@));
}

/// Whether `s` begins with `p`.
pub open spec fn starts_with_seq(s: Seq<char>, p: Seq<char>) -> bool {
    p.len() <= s.len() && s.take(p.len() as int) == p
}

/// Whether `chars[at..]` begins with `pat`.
pub fn matches_at(chars: &Vec<char>, at: usize, pat: &Vec<char>) -> (b: bool)
    requires
        at <= chars.len(),
    ensures
        b == starts_with_seq(chars@.skip(at as int), pat@),
{
    if pat.len() > chars.len() - at {
        return false;
    }
    let mut k: usize = 0;
    while k < pat.len()
        invariant
            at + pat.len() <= chars.len(),
            k <= pat.len(),
            forall|j: int| 0 <= j < k ==> chars@[at + j] == pat@[j],
        decreases pat.len() - k,
    {
        if chars[at + k] != pat[k] {
            assert(chars@.skip(at as int).take(pat.len() as int)[k as int] != pat@[k as int]);
            return false;
        }
        k += 1;
    }
    assert(chars@.skip(at as int).take(pat.len() as int) =~= pat@);
    true
}

/// Whether `s` begins with `p`.
pub fn starts_with(s: &str, p: &str) -> (b: bool)
    ensures
        b == starts_with_seq(s@, p@),
{
    let chars = chars_of(s);
    let pat = chars_of(p);
    assert(chars@.skip(0) =~= chars@);
    matches_at(&chars, 0, &pat)
}

/// The scan of `s` into the words it has finished and the word in progress.
pub open spec fn word_scan(s: Seq<char>) -> (Seq<Seq<char>>, Seq<char>)
    decreases s.len(),
{
    if s.len() == 0 {
        (seq![], seq![])
    } else {
        let (done, cur) = word_scan(s.drop_last());
        if is_white_space(s.last()) {
            if cur.len() > 0 {
                (done.push(cur), seq![])
            } else {
                (done, cur)
            }
        } else {
            (done, cur.push(s.last()))
        }
    }
}

/// The white-space separated words of `s`, in order: what `str::split_whitespace` yields.
pub open spec fn words_of(s: Seq<char>) -> Seq<Seq<char>> {
    let (done, cur) = word_scan(s);
    if cur.len() > 0 {
        done.push(cur)
    } else {
        done
    }
}

/// The white-space separated words of `s`, in order.
pub fn split_words(s: &str) -> (words: Vec<String>)
    ensures
        strings_view(words@) == words_of(s@),
{
    let chars = chars_of(s);
    let mut words: Vec<String> = Vec::new();
    let mut cur = String::new();
    let mut cur_len: usize = 0;
    let mut i: usize = 0;
    while i < chars.len()
        invariant
            i <= chars.len(),
            cur_len == cur@.len(),
            cur_len <= i,
            (strings_view(words@), cur@) == word_scan(chars@.take(i as int)),
        decreases chars.len() - i,
    {
        assert(chars@.take(i + 1).drop_last() =~= chars@.take(i as int));
        let c = chars[i];
        if is_whitespace(c) {
            if cur_len > 0 {
                let mut done = String::new();
                std::mem::swap(&mut done, &mut cur);
                proof {
                    lemma_strings_view_push(words@, done);
                }
                words.push(done);
                cur_len = 0;
            }
        } else {
            push_char(&mut cur, c);
            cur_len += 1;
        }
        i += 1;
    }
    assert(chars@.take(i as int) =~= chars@);
    if cur_len > 0 {
        proof {
            lemma_strings_view_push(words@, cur);
        }
        words.push(cur);
    }
    words
}

/// `words` with `sep` between each two of them.
pub open spec fn join_seq(words: Seq<Seq<char>>, sep: Seq<char>) -> Seq<char>
    decreases words.len(),
{
    if words.len() == 0 {
        seq![]
    } else if words.len() == 1 {
        words[0]
    } else {
        join_seq(words.drop_last(), sep) + sep + words.last()
    }
}

/// Appends the characters of `tail` to `s`.
pub fn push_chars(s: &mut String, tail: &Vec<char>)
    ensures
        final(s)@ == old(s)@ + tail@,
{
    let mut k: usize = 0;
    while k < tail.len()
        invariant
            k <= tail.len(),
            s@ == old(s)@ + tail@.take(k as int),
        decreases tail.len() - k,
    {
        assert(tail@.take(k + 1) =~= tail@.take(k as int).push(tail@[k as int]));
        push_char(s, tail[k]);
        k += 1;
    }
    assert(tail@.take(k as int) =~= tail@);
}

/// `words` with `sep` between each two of them.
pub fn join(words: &Vec<String>, sep: &str) -> (r: String)
    ensures
        r@ == join_seq(strings_view(words@), sep@),
{
    let sep_chars = chars_of(sep);
    let ghost ws = strings_view(words@);
    let mut r = String::new();
    let mut i: usize = 0;
    while i < words.len()
        invariant
            i <= words.len(),
            ws == strings_view(words@),
            sep_chars@ == sep@,
            r@ == join_seq(ws.take(i as int), sep@),
        decreases words.len() - i,
    {
        assert(ws.take(i + 1).drop_last() =~= ws.take(i as int));
        if i > 0 {
            push_chars(&mut r, &sep_chars);
        }
        let w = chars_of(words[i].as_str());
        push_chars(&mut r, &w);
        assert(ws.take(i + 1).last() == words@[i as int]@);
        if i == 0 {
            assert(r@ =~= ws.take(1)[0]);
        }
        i += 1;
    }
    assert(ws.take(i as int) =~= ws);
    r
}

/// `s` with each occurrence of the non-empty `pat`, taken from the left without overlaps,
/// replaced by `rep`: what `str::replace` gives.
pub open spec fn replace_seq(s: Seq<char>, pat: Seq<char>, rep: Seq<char>) -> Seq<char>
    decreases s.len(),
{
    if pat.len() == 0 || s.len() == 0 {
        s
    } else if starts_with_seq(s, pat) {
        rep + replace_seq(s.skip(pat.len() as int), pat, rep)
    } else {
        seq![s[0]] + replace_seq(s.drop_first(), pat, rep)
    }
}

/// `s` with each occurrence of `pat`, taken from the left without overlaps, replaced by `rep`.
pub fn replace(s: &str, pat: &str, rep: &str) -> (r: String)
    requires
        pat@.len() > 0,
    ensures
        r@ == replace_seq(s@, pat@, rep@),
{
    let chars = chars_of(s);
    let pat_chars = chars_of(pat);
    let rep_chars = chars_of(rep);
    let mut r = String::new();
    let mut i: usize = 0;
    assert(chars@.skip(0) =~= chars@);
    while i < chars.len()
        invariant
            i <= chars.len(),
            pat_chars@ == pat@,
            rep_chars@ == rep@,
            pat@.len() > 0,
            r@ + replace_seq(chars@.skip(i as int), pat@, rep@) == replace_seq(chars@, pat@, rep@),
        decreases chars.len() - i,
    {
        let ghost rest = chars@.skip(i as int);
        if matches_at(&chars, i, &pat_chars) {
            assert(rest.skip(pat@.len() as int) =~= chars@.skip(i + pat@.len()));
            let ghost before = r@;
            push_chars(&mut r, &rep_chars);
            assert(before + (rep@ + replace_seq(rest.skip(pat@.len() as int), pat@, rep@))
                =~= r@ + replace_seq(chars@.skip(i + pat@.len()), pat@, rep@));
            i += pat_chars.len();
        } else {
            assert(rest.drop_first() =~= chars@.skip(i + 1));
            let ghost before = r@;
            push_char(&mut r, chars[i]);
            assert(before + (seq![rest[0]] + replace_seq(rest.drop_first(), pat@, rep@))
                =~= r@ + replace_seq(chars@.skip(i + 1), pat@, rep@));
            i += 1;
        }
    }
    assert(chars@.skip(i as int) =~= Seq::<char>::empty());
    assert(r@ + Seq::<char>::empty() =~= r@);
    r
}

/// Whether two strings hold the same characters.
pub fn same_text(a: &str, b: &str) -> (r: bool)
    ensures
        r == (a@ == b@),
{
    let x = a.to_owned();
    let y = b.to_owned();
    x.eq(&y)
}

/// What `char::is_alphanumeric` gives for `c`.
pub uninterp spec fn alphanumeric(c: char) -> bool;

/// The first character of what `char::to_lowercase` gives for `c`, or `c` itself when it
/// gives none.
pub open spec fn lowercase_char_of(c: char) -> char {
    let l = lowercase_chars_of(c);
    if l.len() > 0 {
        l[0]
    } else {
        c
    }
}

/// The characters `char::to_lowercase` gives for `c`.
pub uninterp spec fn lowercase_chars_of(c: char) -> Seq<char>;

/// The characters a `char::ToLowercase` iterator has still to give.
pub uninterp spec fn lowercase_rest(it: core::char::ToLowercase) -> Seq<char>;

/// Calls `char::is_alphanumeric`; its result is named `alphanumeric`.
#[verifier::external_body]
pub(crate) fn is_alphanumeric(c: char) -> (b: bool)
    ensures
        b == alphanumeric(c),
{
    c.is_alphanumeric()
}

#[verifier::external_type_specification]
#[verifier::external_body]
pub struct ExToLowercase(core::char::ToLowercase);

/// Calls `char::to_lowercase`: an iterator over the lower-case mapping of `c`, named
/// `lowercase_chars_of`.
#[verifier::external_body]
fn char_to_lowercase(c: char) -> (r: core::char::ToLowercase)
    ensures
        lowercase_rest(r) == lowercase_chars_of(c),
{
    c.to_lowercase()
}

/// Calls `Iterator::next` on a `ToLowercase`: the next character it has to give, which it
/// then no longer has, or none when it has given them all.
#[verifier::external_body]
fn next_lowercase(it: &mut core::char::ToLowercase) -> (r: Option<char>)
    ensures
        lowercase_rest(*old(it)).len() == 0 ==> r is None,
        lowercase_rest(*old(it)).len() > 0 ==> r == Some(lowercase_rest(*old(it))[0])
            && lowercase_rest(*final(it)) == lowercase_rest(*old(it)).drop_first(),
{
    it.next()
}

/// The first character of the lower case of `c`, or `c` itself when it has none.
pub(crate) fn lowercase_char(c: char) -> (r: char)
    ensures
        r == lowercase_char_of(c),
{
    let mut lower = char_to_lowercase(c);
    match next_lowercase(&mut lower) {
        Some(l) => l,
        None => c,
    }
}

/// Trailing white space of a text is that of its tail, past a first character that is not
/// white space.
pub proof fn lemma_trim_end_prepend(c: char, q: Seq<char>)
    requires
        !is_white_space(c),
    ensures
        trim_end_seq(seq![c] + q) == seq![c] + trim_end_seq(q),
    decreases q.len(),
{
    if q.len() > 0 {
        assert((seq![c] + q).last() == q.last());
        assert((seq![c] + q).drop_last() =~= seq![c] + q.drop_last());
        lemma_trim_end_prepend(c, q.drop_last());
    } else {
        assert(seq![c] + q =~= seq![c]);
    }
}

/// A word: some characters, none of them white space.
pub open spec fn is_word(w: Seq<char>) -> bool {
    w.len() > 0 && forall|i: int| 0 <= i < w.len() ==> !is_white_space(#[trigger] w[i])
}

proof fn lemma_word_scan_shape(s: Seq<char>)
    ensures
        forall|k: int| 0 <= k < word_scan(s).0.len() ==> is_word(#[trigger] word_scan(s).0[k]),
        forall|i: int| 0 <= i < word_scan(s).1.len() ==> !is_white_space(#[trigger] word_scan(s).1[i]),
    decreases s.len(),
{
    if s.len() > 0 {
        lemma_word_scan_shape(s.drop_last());
        let (done, cur) = word_scan(s.drop_last());
        if !is_white_space(s.last()) {
            assert forall|i: int| 0 <= i < cur.push(s.last()).len() implies !is_white_space(#[trigger] cur.push(s.last())[i]) by {
                if i < cur.len() {
                    assert(cur.push(s.last())[i] == cur[i]);
                }
            }
        }
    }
}

/// The words of a text are words: not empty, without white space.
pub proof fn lemma_words_are_words(s: Seq<char>)
    ensures
        forall|k: int| 0 <= k < words_of(s).len() ==> is_word(#[trigger] words_of(s)[k]),
{
    lemma_word_scan_shape(s);
}

proof fn lemma_word_scan_append_word(x: Seq<char>, w: Seq<char>)
    requires
        forall|i: int| 0 <= i < w.len() ==> !is_white_space(#[trigger] w[i]),
    ensures
        word_scan(x + w) == (word_scan(x).0, word_scan(x).1 + w),
    decreases w.len(),
{
    if w.len() == 0 {
        assert(x + w =~= x);
        assert(word_scan(x).1 + w =~= word_scan(x).1);
    } else {
        let wd = w.drop_last();
        assert forall|i: int| 0 <= i < wd.len() implies !is_white_space(#[trigger] wd[i]) by {
            assert(wd[i] == w[i]);
        }
        lemma_word_scan_append_word(x, wd);
        assert((x + w).drop_last() =~= x + wd);
        assert((x + w).last() == w.last());
        assert(!is_white_space(w[w.len() - 1]));
        assert((word_scan(x).1 + wd).push(w.last()) =~= word_scan(x).1 + w);
    }
}

/// The words of a text with a space after it are the words of the text.
proof fn lemma_word_scan_space(x: Seq<char>)
    ensures
        word_scan(x + seq![' ']) == (words_of(x), Seq::<char>::empty()),
{
    assert((x + seq![' ']).drop_last() =~= x);
    assert((x + seq![' ']).last() == ' ');
}

/// Words joined by single spaces split back into the same words.
pub proof fn lemma_words_of_join(ws: Seq<Seq<char>>)
    requires
        forall|k: int| 0 <= k < ws.len() ==> is_word(#[trigger] ws[k]),
    ensures
        words_of(join_seq(ws, seq![' '])) == ws,
    decreases ws.len(),
{
    if ws.len() == 0 {
        assert(words_of(Seq::<char>::empty()) =~= ws);
    } else if ws.len() == 1 {
        let w = ws[0];
        assert(is_word(w));
        lemma_word_scan_append_word(Seq::<char>::empty(), w);
        assert(Seq::<char>::empty() + w =~= w);
        assert(Seq::<char>::empty() + w =~= w);
        assert(words_of(w) =~= seq![w]);
        assert(seq![w] =~= ws);
    } else {
        let head = ws.drop_last();
        assert forall|k: int| 0 <= k < head.len() implies is_word(#[trigger] head[k]) by {
            assert(head[k] == ws[k]);
        }
        lemma_words_of_join(head);
        let j = join_seq(head, seq![' ']);
        let w = ws.last();
        assert(is_word(ws[ws.len() - 1]));
        lemma_word_scan_space(j);
        lemma_word_scan_append_word(j + seq![' '], w);
        assert(join_seq(ws, seq![' ']) == j + seq![' '] + w);
        assert(Seq::<char>::empty() + w =~= w);
        assert(head.push(w) =~= ws);
    }
}

/// Collapsing white space twice gives what collapsing it once gives.
pub proof fn lemma_collapse_spaces_idempotent(s: Seq<char>)
    ensures
        join_seq(words_of(join_seq(words_of(s), seq![' '])), seq![' ']) == join_seq(words_of(s), seq![' ']),
{
    lemma_words_are_words(s);
    lemma_words_of_join(words_of(s));
}

} // verus!