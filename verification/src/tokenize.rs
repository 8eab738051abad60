//! Line tokenizer: `<token> <name> [<key> <value>]*`, split on C-locale white space.
use vstd::prelude::*;

use crate::error::ParseError;
use crate::text::{c_space, dec_int, dec_nat, lemma_dec_nat, digits_between, is_c_space, is_digit, all_digits, digits_val, str_chars, str_is, words, lemma_words_skip_space, lemma_words_skip_word};
use crate::MAX_ARGUMENTS;

verus! {

broadcast use vstd::seq_lib::group_seq_properties;

/// A tokenized protocol line: `<token> <name> [<key> <value>]*`.
#[derive(Debug, Clone, PartialEq, Eq)]
pub struct Line<'a> {
    pub token: i32,
    pub name: &'a str,
    pub args: Vec<(&'a str, &'a str)>,
}

/// Key/value pairs as character sequences.
pub type ArgsView = Seq<(Seq<char>, Seq<char>)>;

/// The value of the first pair whose key is `key`.
pub open spec fn first_value(args: ArgsView, key: Seq<char>) -> Option<Seq<char>>
    decreases args.len(),
{
    if args.len() == 0 {
        None
    } else if args[0].0 == key {
        Some(args[0].1)
    } else {
        first_value(args.drop_first(), key)
    }
}

/// The value of the last pair whose key is `key`.
pub open spec fn last_value(args: ArgsView, key: Seq<char>) -> Option<Seq<char>>
    decreases args.len(),
{
    if args.len() == 0 {
        None
    } else if args.last().0 == key {
        Some(args.last().1)
    } else {
        last_value(args.drop_last(), key)
    }
}

/// Consecutive elements paired up: `[a, b, c, d]` becomes `[(a, b), (c, d)]`.
pub open spec fn pairs(s: Seq<Seq<char>>) -> ArgsView {
    Seq::new(s.len() / 2, |i: int| (s[2 * i], s[2 * i + 1]))
}

/// Pairs laid out as a flat run of keys and values.
pub open spec fn flatten(ps: ArgsView) -> Seq<Seq<char>>
    decreases ps.len(),
{
    if ps.len() == 0 {
        seq![]
    } else {
        flatten(ps.drop_last()) + seq![ps.last().0, ps.last().1]
    }
}

/// Pairing up a flat run of pairs gives the pairs back.
pub proof fn lemma_pairs_flatten(ps: ArgsView)
    ensures
        flatten(ps).len() == 2 * ps.len(),
        forall|i: int| 0 <= i < ps.len() ==> #[trigger] flatten(ps)[2 * i] == ps[i].0 && flatten(ps)[2 * i + 1] == ps[i].1,
        pairs(flatten(ps)) == ps,
    decreases ps.len(),
{
    if ps.len() > 0 {
        let q = ps.drop_last();
        lemma_pairs_flatten(q);
        let f = flatten(ps);
        assert(f == flatten(q) + seq![ps.last().0, ps.last().1]);
        assert forall|i: int| 0 <= i < ps.len() implies #[trigger] f[2 * i] == ps[i].0 && f[2 * i + 1] == ps[i].1 by {
            if i < q.len() {
                assert(f[2 * i] == flatten(q)[2 * i]);
                assert(f[2 * i + 1] == flatten(q)[2 * i + 1]);
                assert(q[i] == ps[i]);
            }
        }
        assert(pairs(f) =~= ps);
    } else {
        assert(pairs(flatten(ps)) =~= ps);
    }
}

impl<'a> Line<'a> {
    /// The pairs, as character sequences.
    pub open spec fn args_view(&self) -> ArgsView {
        self.args@.map_values(|p: (&'a str, &'a str)| (p.0@, p.1@))
    }

    /// First value for `key` (the lookup `check-support` uses).
    pub fn first(&self, key: &str) -> (r: Option<&'a str>)
        ensures
            r is Some <==> first_value(self.args_view(), key@) is Some,
            r matches Some(v) ==> first_value(self.args_view(), key@) == Some(v@),
    {
        let mut i: usize = 0;
        while i < self.args.len()
            invariant
                i <= self.args.len(),
                first_value(self.args_view(), key@) == first_value(
                    self.args_view().skip(i as int),
                    key@,
                ),
            decreases self.args.len() - i,
        {
            let (k, v) = self.args[i];
            let ghost rest = self.args_view().skip(i as int);
            assert(rest[0] == (k@, v@));
            if str_is(k, key) {
                return Some(v);
            }
            assert(rest.drop_first() =~= self.args_view().skip(i + 1));
            i += 1;
        }
        None
    }

    /// Last value for `key`: arguments are decoded in order, so the last one wins.
    pub fn last(&self, key: &str) -> (r: Option<&'a str>)
        ensures
            r is Some <==> last_value(self.args_view(), key@) is Some,
            r matches Some(v) ==> last_value(self.args_view(), key@) == Some(v@),
    {
        let mut i: usize = self.args.len();
        while i > 0
            invariant
                i <= self.args.len(),
                last_value(self.args_view(), key@) == last_value(
                    self.args_view().take(i as int),
                    key@,
                ),
            decreases i,
        {
            let (k, v) = self.args[i - 1];
            let ghost pre = self.args_view().take(i as int);
            assert(pre.last() == (k@, v@));
            if str_is(k, key) {
                return Some(v);
            }
            assert(pre.drop_last() =~= self.args_view().take(i - 1));
            i -= 1;
        }
        None
    }
}

/// Number of leading ASCII digits.
pub open spec fn leading_digits(s: Seq<char>) -> nat
    decreases s.len(),
{
    if s.len() == 0 || !is_digit(s[0]) {
        0
    } else {
        1 + leading_digits(s.drop_first())
    }
}

/// `strtol(s, NULL, 10)`: optional sign, leading digits, trailing garbage ignored, no digits
/// gives 0; `None` when the value is outside a C long.
pub open spec fn strtol_prefix(s: Seq<char>) -> Option<int> {
    let neg = s.len() > 0 && s[0] == '-';
    let rest = if s.len() > 0 && (s[0] == '-' || s[0] == '+') {
        s.drop_first()
    } else {
        s
    };
    let d = rest.take(leading_digits(rest) as int);
    let v = if neg {
        -digits_val(d)
    } else {
        digits_val(d)
    };
    if i64::MIN <= v <= i64::MAX {
        Some(v)
    } else {
        None
    }
}

/// The token a line starts with: `strtol` narrowed to a C `int` (two's-complement wrap).
pub open spec fn token_value(s: Seq<char>) -> Option<i32> {
    match strtol_prefix(s) {
        Some(v) => Some(v as i32),
        None => None,
    }
}

proof fn lemma_leading_digits_exact(s: Seq<char>, k: int)
    requires
        0 <= k <= s.len(),
        forall|j: int| 0 <= j < k ==> is_digit(#[trigger] s[j]),
        k == s.len() || !is_digit(s[k]),
    ensures
        leading_digits(s) == k,
        all_digits(s.take(k)),
    decreases k,
{
    if k > 0 {
        let t = s.drop_first();
        assert forall|j: int| 0 <= j < k - 1 implies is_digit(#[trigger] t[j]) by {
            assert(t[j] == s[j + 1]);
        }
        if k < s.len() {
            assert(t[k - 1] == s[k]);
        }
        lemma_leading_digits_exact(t, k - 1);
        assert(is_digit(s[0]));
    }
    assert forall|j: int| 0 <= j < k implies is_digit(#[trigger] s.take(k)[j]) by {
        assert(s.take(k)[j] == s[j]);
    }
}

/// A token written in decimal reads back as itself.
pub proof fn lemma_token_dec(t: i32)
    ensures
        token_value(dec_int(t as int)) == Some(t),
{
    let s = dec_int(t as int);
    let m: nat = if t < 0 {
        (-t) as nat
    } else {
        t as nat
    };
    lemma_dec_nat(m);
    let d = dec_nat(m);
    let rest = if t < 0 {
        s.drop_first()
    } else {
        s
    };
    assert(rest =~= d);
    if t >= 0 {
        assert(is_digit(s[0]));
    } else {
        assert(s[0] == '-');
    }
    lemma_leading_digits_exact(rest, rest.len() as int);
    assert(rest.take(rest.len() as int) =~= rest);
}

/// `strtol(s, NULL, 10)` narrowed to `int`: optional sign, leading digits, trailing garbage
/// ignored, no digits gives 0, out of `long` range is an error.
pub fn parse_token(s: &str) -> (r: Result<i32, ParseError>)
    ensures
        r matches Ok(t) ==> token_value(s@) == Some(t),
        r matches Err(e) ==> token_value(s@) is None && e == ParseError::TokenOverflow,
{
    let c = str_chars(s);
    let n = c.len();
    let neg = n > 0 && c[0] == '-';
    let from: usize = if n > 0 && (c[0] == '-' || c[0] == '+') {
        1
    } else {
        0
    };
    let ghost rest = if n > 0 && (c@[0] == '-' || c@[0] == '+') {
        s@.drop_first()
    } else {
        s@
    };
    assert(rest =~= c@.skip(from as int));
    let mut end: usize = from;
    while end < n && '0' <= c[end] && c[end] <= '9'
        invariant
            from <= end <= n,
            n == c.len(),
            forall|j: int| from <= j < end ==> is_digit(#[trigger] c@[j]),
        decreases n - end,
    {
        end += 1;
    }
    proof {
        assert forall|j: int| 0 <= j < end - from implies is_digit(#[trigger] rest[j]) by {
            assert(rest[j] == c@[from + j]);
        }
        if end < n {
            assert(rest[end - from] == c@[end as int]);
        }
        lemma_leading_digits_exact(rest, end - from);
        assert(rest.take(end - from) =~= c@.subrange(from as int, end as int));
    }
    if end == from {
        return Ok(0);
    }
    let bound: u128 = if neg {
        9223372036854775808u128
    } else {
        9223372036854775807u128
    };
    match digits_between(c.as_slice(), from, end, bound) {
        None => Err(ParseError::TokenOverflow),
        Some(m) => {
            let v: i64 = if neg {
                if m == 9223372036854775808u128 {
                    i64::MIN
                } else {
                    -(m as i64)
                }
            } else {
                m as i64
            };
            Ok(v as i32)
        },
    }
}

/// `(start, end)` character positions of the words of `s`.
fn word_spans(s: &[char]) -> (spans: Vec<(usize, usize)>)
    ensures
        spans@.len() == words(s@).len(),
        forall|j: int|
            0 <= j < spans@.len() ==> {
                &&& (#[trigger] spans@[j]).0 <= spans@[j].1 <= s@.len()
                &&& s@.subrange(spans@[j].0 as int, spans@[j].1 as int) == words(s@)[j]
            },
{
    let n = s.len();
    let mut spans: Vec<(usize, usize)> = Vec::new();
    let ghost mut done: Seq<Seq<char>> = seq![];
    let mut i: usize = 0;
    assert(s@.skip(0) =~= s@);
    while i < n
        invariant
            i <= n == s.len(),
            done + words(s@.skip(i as int)) == words(s@),
            spans@.len() == done.len(),
            forall|j: int|
                0 <= j < spans@.len() ==> {
                    &&& (#[trigger] spans@[j]).0 <= spans@[j].1 <= s@.len()
                    &&& s@.subrange(spans@[j].0 as int, spans@[j].1 as int) == done[j]
                },
        decreases n - i,
    {
        if is_c_space(s[i]) {
            proof {
                lemma_words_skip_space(s@, i as int);
            }
            i += 1;
        } else {
            let start = i;
            while i < n && !is_c_space(s[i])
                invariant
                    start <= i <= n == s.len(),
                    forall|j: int| start <= j < i ==> !c_space(#[trigger] s@[j]),
                decreases n - i,
            {
                i += 1;
            }
            proof {
                lemma_words_skip_word(s@, start as int, i as int);
                let w = s@.subrange(start as int, i as int);
                done = done.push(w);
                assert(done + words(s@.skip(i as int)) =~= (done.drop_last() + seq![w]) + words(
                    s@.skip(i as int),
                ));
            }
            spans.push((start, i));
        }
    }
    proof {
        assert(s@.skip(n as int) =~= Seq::<char>::empty());
        assert(words(Seq::<char>::empty()) == Seq::<Seq<char>>::empty());
        assert(done =~= words(s@));
    }
    spans
}

/// What `tokenize` makes of a line: the token, the name and the pairs, or the error.
pub open spec fn tokenize_spec(s: Seq<char>) -> Result<(i32, Seq<char>, ArgsView), ParseError> {
    let ws = words(s);
    if ws.len() < 2 {
        Err(ParseError::TooShort)
    } else if ws.len() > MAX_ARGUMENTS * 2 + 2 {
        Err(ParseError::TooManyArguments)
    } else if (ws.len() - 2) % 2 != 0 {
        Err(ParseError::DanglingKey)
    } else {
        match token_value(ws[0]) {
            None => Err(ParseError::TokenOverflow),
            Some(t) => Ok((t, ws[1], pairs(ws.skip(2)))),
        }
    }
}

/// Split one line into token, command name and key/value pairs.
#[verifier::rlimit(50)]
pub fn tokenize(line: &str) -> (r: Result<Line<'_>, ParseError>)
    ensures
        r matches Ok(l) ==> tokenize_spec(line@) == Ok::<_, ParseError>((l.token, l.name@, l.args_view())),
        r matches Err(e) ==> tokenize_spec(line@) == Err::<(i32, Seq<char>, ArgsView), _>(e),
{
    let c = str_chars(line);
    let spans = word_spans(c.as_slice());
    let ghost ws = words(line@);
    let n = spans.len();
    if n < 2 {
        return Err(ParseError::TooShort);
    }
    if n > MAX_ARGUMENTS * 2 + 2 {
        return Err(ParseError::TooManyArguments);
    }
    if (n - 2) % 2 != 0 {
        return Err(ParseError::DanglingKey);
    }
    let t0 = line.substring_char(spans[0].0, spans[0].1);
    assert(t0@ == ws[0]);
    let token = parse_token(t0)?;
    let name = line.substring_char(spans[1].0, spans[1].1);
    assert(name@ == ws[1]);
    let mut args: Vec<(&str, &str)> = Vec::new();
    let mut k: usize = 2;
    while k + 1 < n
        invariant
            2 <= k <= n,
            n == spans@.len() == ws.len(),
            (n - k) % 2 == 0,
            ws == words(line@),
            args@.len() == (k - 2) / 2,
            (k - 2) % 2 == 0,
            forall|j: int|
                0 <= j < spans@.len() ==> {
                    &&& (#[trigger] spans@[j]).0 <= spans@[j].1 <= line@.len()
                    &&& line@.subrange(spans@[j].0 as int, spans@[j].1 as int) == ws[j]
                },
            forall|j: int|
                0 <= j < args@.len() ==> (#[trigger] args@[j]).0@ == ws[2 + 2 * j] && args@[j].1@
                    == ws[3 + 2 * j],
        decreases n - k,
    {
        let key = line.substring_char(spans[k].0, spans[k].1);
        let value = line.substring_char(spans[k + 1].0, spans[k + 1].1);
        args.push((key, value));
        k += 2;
    }
    let l = Line { token, name, args };
    assert(l.args_view() =~= pairs(ws.skip(2)));
    Ok(l)
}

} // verus!
