//! Character-level helpers shared by the protocol codecs: conversions between `str`, `String`
//! and character vectors, C-locale white space, words, decimal numerals and Rust's integer
//! syntax.
use vstd::prelude::*;
use vstd::std_specs::iter::IteratorSpec;

verus! {

broadcast use vstd::seq_lib::group_seq_properties;

/// The characters of `s`, in order.
pub fn str_chars(s: &str) -> (v: Vec<char>)
    ensures
        v@ == s@,
{
    broadcast use vstd::string::group_string_axioms;

    let mut it = s.chars();
    let mut v: Vec<char> = Vec::new();
    loop
        invariant
            v@ + it.remaining() == s@,
            it.decrease() is Some,
        ensures
            v@ == s@,
        decreases it.decrease()->0,
    {
        match it.next() {
            Some(c) => {
                v.push(c);
            },
            None => {
                break ;
            },
        }
    }
    v
}

/// `String::from_iter` over the characters of a slice: the contract claims the string holds
/// exactly those characters, in order, as std documents for collecting `char`s.
#[verifier::external_body]
pub(crate) fn string_from_chars(v: &[char]) -> (s: String)
    ensures
        s@ == v@,
{
    String::from_iter(v.iter())
}

/// Appends the characters of `s` to `out`.
pub fn push_str(out: &mut Vec<char>, s: &str)
    ensures
        final(out)@ == old(out)@ + s@,
{
    let v = str_chars(s);
    let mut i: usize = 0;
    while i < v.len()
        invariant
            i <= v.len(),
            out@ == old(out)@ + v@.take(i as int),
        decreases v.len() - i,
    {
        out.push(v[i]);
        i += 1;
        assert(v@.take(i as int) == v@.take((i - 1) as int).push(v@[i - 1]));
    }
    assert(v@.take(v.len() as int) == v@);
}

/// Whether two character sequences are equal.
pub fn chars_eq(a: &[char], b: &[char]) -> (r: bool)
    ensures
        r == (a@ == b@),
{
    if a.len() != b.len() {
        return false;
    }
    let mut i: usize = 0;
    while i < a.len()
        invariant
            a.len() == b.len(),
            i <= a.len(),
            forall|j: int| 0 <= j < i ==> a@[j] == b@[j],
        decreases a.len() - i,
    {
        if a[i] != b[i] {
            return false;
        }
        i += 1;
    }
    assert(a@ =~= b@);
    true
}

/// Whether the string `a` is the string `b`.
pub fn str_is(a: &str, b: &str) -> (r: bool)
    ensures
        r == (a@ == b@),
{
    let va = str_chars(a);
    let vb = str_chars(b);
    chars_eq(va.as_slice(), vb.as_slice())
}

/// C-locale `isspace()`: space, tab, newline, vertical tab, form feed, carriage return.
pub open spec fn c_space(c: char) -> bool {
    c == ' ' || c == '\t' || c == '\n' || c == '\x0B' || c == '\x0C' || c == '\r'
}

/// Executable `c_space`.
pub fn is_c_space(c: char) -> (r: bool)
    ensures
        r == c_space(c),
{
    c == ' ' || c == '\t' || c == '\n' || c == '\x0B' || c == '\x0C' || c == '\r'
}

/// Length of the longest prefix of `s` free of white space.
pub open spec fn word_len(s: Seq<char>) -> nat
    decreases s.len(),
{
    if s.len() == 0 || c_space(s[0]) {
        0
    } else {
        1 + word_len(s.drop_first())
    }
}

/// The maximal runs of non-white-space characters of `s`, in order.
pub open spec fn words(s: Seq<char>) -> Seq<Seq<char>>
    decreases s.len(),
{
    if s.len() == 0 {
        seq![]
    } else if c_space(s[0]) {
        words(s.drop_first())
    } else {
        let k = word_len(s);
        proof {
            lemma_word_len_bound(s);
        }
        seq![s.take(k as int)] + words(s.skip(k as int))
    }
}

pub proof fn lemma_word_len_bound(s: Seq<char>)
    ensures
        word_len(s) <= s.len(),
        s.len() > 0 && !c_space(s[0]) ==> word_len(s) > 0,
    decreases s.len(),
{
    if s.len() > 0 && !c_space(s[0]) {
        lemma_word_len_bound(s.drop_first());
    }
}

/// `word_len` is the first white space, or the end.
pub proof fn lemma_word_len_exact(s: Seq<char>, k: int)
    requires
        0 <= k <= s.len(),
        forall|j: int| 0 <= j < k ==> !c_space(#[trigger] s[j]),
        k == s.len() || c_space(s[k]),
    ensures
        word_len(s) == k,
    decreases k,
{
    if k > 0 {
        assert(!c_space(s[0]));
        let t = s.drop_first();
        assert forall|j: int| 0 <= j < k - 1 implies !c_space(#[trigger] t[j]) by {
            assert(t[j] == s[j + 1]);
        }
        if k < s.len() {
            assert(t[k - 1] == s[k]);
        }
        lemma_word_len_exact(t, k - 1);
    }
}

/// Words of a suffix that starts with white space.
pub proof fn lemma_words_skip_space(s: Seq<char>, i: int)
    requires
        0 <= i < s.len(),
        c_space(s[i]),
    ensures
        words(s.skip(i)) == words(s.skip(i + 1)),
{
    let t = s.skip(i);
    assert(t[0] == s[i]);
    assert(t.drop_first() =~= s.skip(i + 1));
}

/// Words of a suffix that starts with the word `s[start..end]`.
pub proof fn lemma_words_skip_word(s: Seq<char>, start: int, end: int)
    requires
        0 <= start < end <= s.len(),
        forall|j: int| start <= j < end ==> !c_space(#[trigger] s[j]),
        end == s.len() || c_space(s[end]),
    ensures
        words(s.skip(start)) == seq![s.subrange(start, end)] + words(s.skip(end)),
{
    let t = s.skip(start);
    assert forall|j: int| 0 <= j < end - start implies !c_space(#[trigger] t[j]) by {
        assert(t[j] == s[start + j]);
    }
    if end < s.len() {
        assert(t[end - start] == s[end]);
    }
    lemma_word_len_exact(t, end - start);
    assert(t[0] == s[start]);
    assert(t.take(end - start) =~= s.subrange(start, end));
    assert(t.skip(end - start) =~= s.skip(end));
}

/// Whether `s[from..to]` is all digits.
pub fn all_digits_between(s: &[char], from: usize, to: usize) -> (r: bool)
    requires
        from <= to <= s.len(),
    ensures
        r == all_digits(s@.subrange(from as int, to as int)),
{
    let ghost d = s@.subrange(from as int, to as int);
    let mut k: usize = from;
    while k < to
        invariant
            from <= k <= to <= s.len(),
            d == s@.subrange(from as int, to as int),
            forall|j: int| from <= j < k ==> is_digit(#[trigger] s@[j]),
        decreases to - k,
    {
        if !('0' <= s[k] && s[k] <= '9') {
            assert(d[k - from] == s@[k as int]);
            return false;
        }
        k += 1;
    }
    assert forall|j: int| 0 <= j < d.len() implies is_digit(#[trigger] d[j]) by {
        assert(d[j] == s@[from + j]);
    }
    true
}

/// A word free of white space followed by one white-space character.
pub proof fn lemma_words_word_then_space(w: Seq<char>, c: char, rest: Seq<char>)
    requires
        w.len() > 0,
        forall|j: int| 0 <= j < w.len() ==> !c_space(#[trigger] w[j]),
        c_space(c),
    ensures
        words(w + seq![c] + rest) == seq![w] + words(rest),
{
    let s = w + seq![c] + rest;
    assert forall|j: int| 0 <= j < w.len() implies !c_space(#[trigger] s[j]) by {
        assert(s[j] == w[j]);
    }
    assert(s[w.len() as int] == c);
    lemma_word_len_exact(s, w.len() as int);
    assert(s[0] == w[0]);
    assert(s.take(w.len() as int) =~= w);
    let t = s.skip(w.len() as int);
    assert(t =~= seq![c] + rest);
    assert(t.drop_first() =~= rest);
    assert(t[0] == c);
    assert(words(t) == words(rest));
    assert(words(s) == seq![s.take(w.len() as int)] + words(t));
}

/// Words of the words of a sequence joined by single spaces.
pub open spec fn join_words(ws: Seq<Seq<char>>) -> Seq<char>
    decreases ws.len(),
{
    if ws.len() == 0 {
        seq![]
    } else if ws.len() == 1 {
        ws[0]
    } else {
        ws[0] + seq![' '] + join_words(ws.drop_first())
    }
}

/// The characters before `word_len(s)` are no white space.
pub proof fn lemma_word_len_prefix(s: Seq<char>)
    ensures
        forall|j: int| 0 <= j < word_len(s) ==> !c_space(#[trigger] s[j]),
    decreases s.len(),
{
    lemma_word_len_bound(s);
    if s.len() > 0 && !c_space(s[0]) {
        lemma_word_len_prefix(s.drop_first());
        lemma_word_len_bound(s.drop_first());
        assert forall|j: int| 0 <= j < word_len(s) implies !c_space(#[trigger] s[j]) by {
            if j > 0 {
                assert(s[j] == s.drop_first()[j - 1]);
            }
        }
    }
}

/// Every word of a text is a word: non-empty and free of white space.
pub proof fn lemma_words_are_words(s: Seq<char>)
    ensures
        forall|i: int| 0 <= i < words(s).len() ==> is_word(#[trigger] words(s)[i]),
    decreases s.len(),
{
    if s.len() > 0 {
        if c_space(s[0]) {
            lemma_words_are_words(s.drop_first());
            assert(words(s) == words(s.drop_first()));
        } else {
            let k = word_len(s);
            lemma_word_len_bound(s);
            lemma_word_len_prefix(s);
            lemma_words_are_words(s.skip(k as int));
            let w = s.take(k as int);
            assert forall|j: int| 0 <= j < w.len() implies !c_space(#[trigger] w[j]) by {
                assert(w[j] == s[j]);
            }
            assert(is_word(w));
            assert(words(s) == seq![w] + words(s.skip(k as int)));
            assert forall|i: int| 0 <= i < words(s).len() implies is_word(#[trigger] words(s)[i]) by {
                if i > 0 {
                    assert(words(s)[i] == words(s.skip(k as int))[i - 1]);
                }
            }
        }
    }
}

/// Joining one more word adds a space and the word.
pub proof fn lemma_join_words_push(ws: Seq<Seq<char>>, w: Seq<char>)
    requires
        ws.len() > 0,
    ensures
        join_words(ws.push(w)) == join_words(ws) + seq![' '] + w,
    decreases ws.len(),
{
    let sp: Seq<char> = seq![' '];
    if ws.len() == 1 {
        assert(ws.push(w).drop_first() =~= seq![w]);
        assert(join_words(seq![w]) == w);
    } else {
        lemma_join_words_push(ws.drop_first(), w);
        assert(ws.push(w).drop_first() =~= ws.drop_first().push(w));
        assert(ws[0] + sp + (join_words(ws.drop_first()) + sp + w) =~= ws[0] + sp + join_words(
            ws.drop_first(),
        ) + sp + w);
    }
}

/// A word: non-empty and free of white space.
pub open spec fn is_word(w: Seq<char>) -> bool {
    w.len() > 0 && forall|j: int| 0 <= j < w.len() ==> !c_space(#[trigger] w[j])
}

/// Splitting words joined by spaces and ended by a newline gives the words back.
pub proof fn lemma_words_of_joined(ws: Seq<Seq<char>>)
    requires
        forall|i: int| 0 <= i < ws.len() ==> is_word(#[trigger] ws[i]),
    ensures
        words(join_words(ws) + seq!['\n']) == ws,
    decreases ws.len(),
{
    let nl: Seq<char> = seq!['\n'];
    if ws.len() == 0 {
        assert(join_words(ws) + nl =~= nl);
        assert(nl.drop_first() =~= Seq::<char>::empty());
        assert(words(Seq::<char>::empty()) == Seq::<Seq<char>>::empty());
        assert(words(nl) == words(nl.drop_first()));
        assert(ws =~= Seq::<Seq<char>>::empty());
    } else if ws.len() == 1 {
        assert(is_word(ws[0]));
        lemma_words_word_then_space(ws[0], '\n', Seq::<char>::empty());
        assert(words(Seq::<char>::empty()) == Seq::<Seq<char>>::empty());
        assert(seq![ws[0]] + Seq::<Seq<char>>::empty() =~= ws);
        assert(join_words(ws) == ws[0]);
        assert(join_words(ws) + nl =~= ws[0] + seq!['\n'] + Seq::<char>::empty());
    } else {
        let rest = ws.drop_first();
        assert forall|i: int| 0 <= i < rest.len() implies is_word(#[trigger] rest[i]) by {
            assert(rest[i] == ws[i + 1]);
        }
        lemma_words_of_joined(rest);
        assert(is_word(ws[0]));
        lemma_words_word_then_space(ws[0], ' ', join_words(rest) + nl);
        assert(join_words(ws) == ws[0] + seq![' '] + join_words(rest));
        assert(join_words(ws) + nl =~= ws[0] + seq![' '] + (join_words(rest) + nl));
        assert(seq![ws[0]] + rest =~= ws);
    }
}

/// The ASCII decimal digit character of `d` (0..=9).
pub open spec fn digit_char(d: int) -> char {
    (48 + d) as char
}

pub open spec fn is_digit(c: char) -> bool {
    '0' <= c && c <= '9'
}

pub open spec fn digit_value(c: char) -> int {
    c as int - 48
}

/// The shortest decimal numeral of `n`.
pub open spec fn dec_nat(n: nat) -> Seq<char>
    decreases n,
{
    if n < 10 {
        seq![digit_char(n as int)]
    } else {
        dec_nat(n / 10).push(digit_char((n % 10) as int))
    }
}

/// The decimal numeral of `i`, with a leading `-` when negative.
pub open spec fn dec_int(i: int) -> Seq<char> {
    if i < 0 {
        seq!['-'] + dec_nat((-i) as nat)
    } else {
        dec_nat(i as nat)
    }
}

/// Appends the decimal numeral of `n`.
pub fn push_dec(out: &mut Vec<char>, n: u64)
    ensures
        final(out)@ == old(out)@ + dec_nat(n as nat),
    decreases n,
{
    if n >= 10 {
        push_dec(out, n / 10);
    }
    let d: u8 = (n % 10) as u8;
    out.push((48u8 + d) as char);
}

/// Appends the decimal numeral of `i`.
pub fn push_dec_signed(out: &mut Vec<char>, i: i64)
    ensures
        final(out)@ == old(out)@ + dec_int(i as int),
{
    if i < 0 {
        out.push('-');
        let m: u64 = if i == i64::MIN {
            9223372036854775808u64
        } else {
            (-i) as u64
        };
        push_dec(out, m);
    } else {
        push_dec(out, i as u64);
    }
}

/// Whether every character is an ASCII digit.
pub open spec fn all_digits(s: Seq<char>) -> bool {
    forall|j: int| 0 <= j < s.len() ==> is_digit(#[trigger] s[j])
}

/// The value of a string of decimal digits.
pub open spec fn digits_val(s: Seq<char>) -> int
    decreases s.len(),
{
    if s.len() == 0 {
        0
    } else {
        digits_val(s.drop_last()) * 10 + digit_value(s.last())
    }
}

/// Rust's integer syntax (`str::parse` for an integer type): an optional `+` (or `-`, when
/// signed) and at least one digit, nothing else. The value, without the range check.
pub open spec fn rust_int(s: Seq<char>, signed: bool) -> Option<int> {
    if s.len() == 0 {
        None
    } else if (s[0] == '+' || s[0] == '-') && s.len() == 1 {
        None
    } else if s[0] == '+' {
        if all_digits(s.drop_first()) {
            Some(digits_val(s.drop_first()))
        } else {
            None
        }
    } else if s[0] == '-' && signed {
        if all_digits(s.drop_first()) {
            Some(-digits_val(s.drop_first()))
        } else {
            None
        }
    } else if all_digits(s) {
        Some(digits_val(s))
    } else {
        None
    }
}

/// `str::parse` into an integer type whose values are `lo..=hi`.
pub open spec fn rust_int_in(s: Seq<char>, signed: bool, lo: int, hi: int) -> Option<int> {
    match rust_int(s, signed) {
        Some(v) => if lo <= v <= hi {
            Some(v)
        } else {
            None
        },
        None => None,
    }
}

pub proof fn lemma_digits_val_take_step(s: Seq<char>, i: int)
    requires
        0 <= i < s.len(),
    ensures
        digits_val(s.take(i + 1)) == digits_val(s.take(i)) * 10 + digit_value(s[i]),
{
    assert(s.take(i + 1).drop_last() =~= s.take(i));
    assert(s.take(i + 1).last() == s[i]);
}

pub proof fn lemma_digits_val_nonneg(s: Seq<char>)
    requires
        all_digits(s),
    ensures
        digits_val(s) >= 0,
    decreases s.len(),
{
    if s.len() > 0 {
        let t = s.drop_last();
        assert(all_digits(t)) by {
            assert forall|j: int| 0 <= j < t.len() implies is_digit(#[trigger] t[j]) by {
                assert(t[j] == s[j]);
            }
        }
        lemma_digits_val_nonneg(t);
        assert(is_digit(s[s.len() - 1]));
    }
}

/// A longer prefix of digits is worth at least as much.
pub proof fn lemma_digits_val_mono(s: Seq<char>, i: int, j: int)
    requires
        0 <= i <= j <= s.len(),
        all_digits(s),
    ensures
        digits_val(s.take(i)) <= digits_val(s.take(j)),
    decreases j - i,
{
    if i < j {
        lemma_digits_val_mono(s, i, j - 1);
        lemma_digits_val_take_step(s, j - 1);
        assert(is_digit(s[j - 1]));
        assert(all_digits(s.take(j - 1))) by {
            assert forall|k: int| 0 <= k < j - 1 implies is_digit(#[trigger] s.take(j - 1)[k]) by {
                assert(s.take(j - 1)[k] == s[k]);
            }
        }
        lemma_digits_val_nonneg(s.take(j - 1));
    }
}

/// Reads the digits of `s[from..to]`: `Some(value)` when there is at least one and they are
/// all digits and the value is at most `bound`, `None` otherwise.
pub fn digits_between(s: &[char], from: usize, to: usize, bound: u128) -> (r: Option<u128>)
    requires
        from <= to <= s.len(),
        bound <= 0x1_0000_0000_0000_0000,
    ensures
        r matches Some(v) ==> all_digits(s@.subrange(from as int, to as int)) && from < to && v
            == digits_val(s@.subrange(from as int, to as int)) && v <= bound,
        r is None ==> !all_digits(s@.subrange(from as int, to as int)) || from == to || digits_val(
            s@.subrange(from as int, to as int),
        ) > bound,
{
    let ghost t = s@.subrange(from as int, to as int);
    if from == to {
        return None;
    }
    let mut acc: u128 = 0;
    let mut i: usize = from;
    while i < to
        invariant
            from <= i <= to <= s.len(),
            t == s@.subrange(from as int, to as int),
            all_digits(t.take(i - from)),
            acc == digits_val(t.take(i - from)),
            acc <= bound,
            bound <= 0x1_0000_0000_0000_0000,
        decreases to - i,
    {
        let c = s[i];
        if !('0' <= c && c <= '9') {
            assert(t[i - from] == c);
            return None;
        }
        let d = (c as u32 - 48) as u128;
        proof {
            lemma_digits_val_take_step(t, i - from);
            assert(t[i - from] == c);
            assert(all_digits(t.take(i - from + 1))) by {
                assert forall|j: int| 0 <= j < i - from + 1 implies is_digit(
                    #[trigger] t.take(i - from + 1)[j],
                ) by {
                    if j < i - from {
                        assert(t.take(i - from + 1)[j] == t.take(i - from)[j]);
                    }
                }
            }
        }
        if acc > bound / 10 || acc * 10 + d > bound {
            proof {
                assert(all_digits(t) ==> digits_val(t) > bound) by {
                    if all_digits(t) {
                        lemma_digits_val_mono(t, i - from + 1, t.len() as int);
                        assert(t.take(t.len() as int) =~= t);
                    }
                }
            }
            return None;
        }
        acc = acc * 10 + d;
        i += 1;
    }
    assert(t.take(i - from) =~= t);
    Some(acc)
}

/// `str::parse` of `s[from..to]` into an integer type whose values are `lo..=hi` (both
/// within ±2^64).
pub fn parse_int_range(s: &[char], from: usize, to: usize, signed: bool, lo: i128, hi: i128) -> (r:
    Option<i128>)
    requires
        from <= to <= s.len(),
        -0x1_0000_0000_0000_0000 <= lo,
        hi <= 0x1_0000_0000_0000_0000,
    ensures
        r matches Some(v) ==> rust_int_in(s@.subrange(from as int, to as int), signed, lo as int, hi as int)
            == Some(v as int),
        r is None ==> rust_int_in(s@.subrange(from as int, to as int), signed, lo as int, hi as int) is None,
{
    let ghost t = s@.subrange(from as int, to as int);
    if from == to {
        return None;
    }
    let first = s[from];
    assert(t[0] == first);
    if (first == '+' || first == '-') && to - from == 1 {
        return None;
    }
    let bound: u128 = 0x1_0000_0000_0000_0000;
    proof {
        assert(s@.subrange(from + 1, to as int) =~= t.drop_first());
    }
    if first == '-' && signed {
        match digits_between(s, from + 1, to, bound) {
            None => None,
            Some(m) => {
                let v = -(m as i128);
                if lo <= v && v <= hi {
                    Some(v)
                } else {
                    None
                }
            },
        }
    } else {
        let start: usize = if first == '+' {
            from + 1
        } else {
            from
        };
        match digits_between(s, start, to, bound) {
            None => {
                proof {
                    if first == '-' {
                        assert(!is_digit(t[0]));
                    }
                }
                None
            },
            Some(m) => {
                proof {
                    if first == '-' {
                        assert(s@.subrange(start as int, to as int)[0] == first);
                    }
                }
                let v = m as i128;
                if lo <= v && v <= hi {
                    Some(v)
                } else {
                    None
                }
            },
        }
    }
}

/// `str::parse` into an integer type whose values are `lo..=hi` (both within ±2^64).
pub fn parse_int(s: &[char], signed: bool, lo: i128, hi: i128) -> (r: Option<i128>)
    requires
        -0x1_0000_0000_0000_0000 <= lo,
        hi <= 0x1_0000_0000_0000_0000,
    ensures
        r matches Some(v) ==> rust_int_in(s@, signed, lo as int, hi as int) == Some(v as int),
        r is None ==> rust_int_in(s@, signed, lo as int, hi as int) is None,
{
    assert(s@.subrange(0, s@.len() as int) =~= s@);
    parse_int_range(s, 0, s.len(), signed, lo, hi)
}

/// Length of the prefix of `s` before the first `sep` (all of `s` when there is none).
pub open spec fn field_len(s: Seq<char>, sep: char) -> nat
    decreases s.len(),
{
    if s.len() == 0 || s[0] == sep {
        0
    } else {
        1 + field_len(s.drop_first(), sep)
    }
}

pub proof fn lemma_field_len_bound(s: Seq<char>, sep: char)
    ensures
        field_len(s, sep) <= s.len(),
    decreases s.len(),
{
    if s.len() > 0 && s[0] != sep {
        lemma_field_len_bound(s.drop_first(), sep);
    }
}

/// `field_len` is the first separator, or the end.
pub proof fn lemma_field_len_exact(s: Seq<char>, sep: char, k: int)
    requires
        0 <= k <= s.len(),
        forall|j: int| 0 <= j < k ==> #[trigger] s[j] != sep,
        k == s.len() || s[k] == sep,
    ensures
        field_len(s, sep) == k,
    decreases k,
{
    if k > 0 {
        let t = s.drop_first();
        assert forall|j: int| 0 <= j < k - 1 implies #[trigger] t[j] != sep by {
            assert(t[j] == s[j + 1]);
        }
        if k < s.len() {
            assert(t[k - 1] == s[k]);
        }
        lemma_field_len_exact(t, sep, k - 1);
        assert(s[0] != sep);
    }
}

/// `str::split(sep)`: the pieces between separators, empty ones included; never empty.
pub open spec fn split_on(s: Seq<char>, sep: char) -> Seq<Seq<char>>
    decreases s.len(),
{
    let k = field_len(s, sep);
    if k >= s.len() {
        seq![s]
    } else {
        proof {
            lemma_field_len_bound(s, sep);
        }
        seq![s.take(k as int)] + split_on(s.skip(k + 1 as int), sep)
    }
}

/// The first piece of a split, and the pieces after it.
pub proof fn lemma_split_first(t: Seq<char>, sep: char, k: int)
    requires
        0 <= k <= t.len(),
        forall|j: int| 0 <= j < k ==> #[trigger] t[j] != sep,
        k == t.len() || t[k] == sep,
    ensures
        split_on(t, sep).len() > 0,
        split_on(t, sep)[0] == t.take(k),
        k == t.len() ==> split_on(t, sep).drop_first() == Seq::<Seq<char>>::empty(),
        k < t.len() ==> split_on(t, sep).drop_first() == split_on(t.skip(k + 1), sep),
{
    lemma_field_len_exact(t, sep, k);
    if k == t.len() {
        assert(t.take(k) =~= t);
        assert(split_on(t, sep).drop_first() =~= Seq::<Seq<char>>::empty());
    } else {
        assert(split_on(t, sep).drop_first() =~= split_on(t.skip(k + 1), sep));
    }
}

/// Pieces joined by a separator.
pub open spec fn join_with(ws: Seq<Seq<char>>, sep: char) -> Seq<char>
    decreases ws.len(),
{
    if ws.len() == 0 {
        seq![]
    } else if ws.len() == 1 {
        ws[0]
    } else {
        ws[0] + seq![sep] + join_with(ws.drop_first(), sep)
    }
}

/// Whether `sep` does not occur in `s`.
pub open spec fn free_of(s: Seq<char>, sep: char) -> bool {
    forall|j: int| 0 <= j < s.len() ==> #[trigger] s[j] != sep
}

/// A piece without separator, then a separator.
pub proof fn lemma_split_piece_then_sep(w: Seq<char>, sep: char, rest: Seq<char>)
    requires
        free_of(w, sep),
    ensures
        split_on(w + seq![sep] + rest, sep) == seq![w] + split_on(rest, sep),
{
    let s = w + seq![sep] + rest;
    assert forall|j: int| 0 <= j < w.len() implies #[trigger] s[j] != sep by {
        assert(s[j] == w[j]);
    }
    assert(s[w.len() as int] == sep);
    lemma_field_len_exact(s, sep, w.len() as int);
    assert(s.take(w.len() as int) =~= w);
    assert(s.skip(w.len() + 1 as int) =~= rest);
}

/// A piece without separator is split into itself.
pub proof fn lemma_split_single(w: Seq<char>, sep: char)
    requires
        free_of(w, sep),
    ensures
        split_on(w, sep) == seq![w],
{
    lemma_field_len_exact(w, sep, w.len() as int);
}

/// Splitting pieces joined by the separator gives the pieces back.
pub proof fn lemma_split_join(ws: Seq<Seq<char>>, sep: char)
    requires
        ws.len() > 0,
        forall|i: int| 0 <= i < ws.len() ==> free_of(#[trigger] ws[i], sep),
    ensures
        split_on(join_with(ws, sep), sep) == ws,
    decreases ws.len(),
{
    if ws.len() == 1 {
        lemma_split_single(ws[0], sep);
        assert(seq![ws[0]] =~= ws);
    } else {
        let rest = ws.drop_first();
        assert forall|i: int| 0 <= i < rest.len() implies free_of(#[trigger] rest[i], sep) by {
            assert(rest[i] == ws[i + 1]);
        }
        lemma_split_join(rest, sep);
        assert(free_of(ws[0], sep));
        lemma_split_piece_then_sep(ws[0], sep, join_with(rest, sep));
        assert(seq![ws[0]] + rest =~= ws);
    }
}

/// A decimal numeral is a non-empty run of digits worth its number.
pub proof fn lemma_digit_char(d: int)
    requires
        0 <= d < 10,
    ensures
        digit_value(digit_char(d)) == d,
        is_digit(digit_char(d)),
{
}

pub proof fn lemma_dec_nat(n: nat)
    ensures
        dec_nat(n).len() > 0,
        all_digits(dec_nat(n)),
        digits_val(dec_nat(n)) == n,
    decreases n,
{
    if n < 10 {
        lemma_digit_char(n as int);
        let e = dec_nat(n);
        assert(e.drop_last() =~= Seq::<char>::empty());
        assert(e.last() == digit_char(n as int));
        assert(digits_val(e.drop_last()) == 0);
        assert(digits_val(e) == digits_val(e.drop_last()) * 10 + digit_value(e.last()));
    } else {
        lemma_digit_char((n % 10) as int);
        lemma_dec_nat(n / 10);
        let d = dec_nat(n / 10);
        let e = d.push(digit_char((n % 10) as int));
        assert(e.drop_last() =~= d);
        assert(e.last() == digit_char((n % 10) as int));
        assert(digits_val(e) == digits_val(d) * 10 + (n % 10));
        assert(n == (n / 10) * 10 + n % 10);
        assert(dec_nat(n) == e);
        assert forall|j: int| 0 <= j < e.len() implies is_digit(#[trigger] e[j]) by {
            if j < d.len() {
                assert(e[j] == d[j]);
            }
        }
    }
}

/// Rust's integer syntax reads a numeral back as its value.
pub proof fn lemma_rust_int_dec(i: int, signed: bool)
    requires
        signed || i >= 0,
    ensures
        rust_int(dec_int(i), signed) == Some(i),
{
    if i < 0 {
        let m = (-i) as nat;
        lemma_dec_nat(m);
        let s = dec_int(i);
        assert(s.drop_first() =~= dec_nat(m));
        assert(s[0] == '-');
    } else {
        lemma_dec_nat(i as nat);
        let s = dec_nat(i as nat);
        assert(is_digit(s[0]));
    }
}

/// Numerals contain no sign, separator or white space.
pub proof fn lemma_dec_int_chars(i: int)
    ensures
        dec_int(i).len() > 0,
        forall|j: int|
            0 <= j < dec_int(i).len() ==> is_digit(#[trigger] dec_int(i)[j]) || (j == 0 && dec_int(
                i,
            )[j] == '-'),
{
    if i < 0 {
        lemma_dec_nat((-i) as nat);
        let s = dec_int(i);
        assert forall|j: int| 0 < j < s.len() implies is_digit(#[trigger] s[j]) by {
            assert(s[j] == dec_nat((-i) as nat)[j - 1]);
        }
    } else {
        lemma_dec_nat(i as nat);
    }
}

} // verus!
