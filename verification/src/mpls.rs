//! MPLS label lists as carried in a reply's `mpls` argument: a flat comma list of
//! `label,tc,s,ttl` groups.
use vstd::prelude::*;

use crate::error::ParseError;
use crate::text::{
    c_space, dec_int, dec_nat, free_of, is_digit, is_word, lemma_dec_int_chars, lemma_dec_nat,
    lemma_rust_int_dec, lemma_split_first, lemma_split_piece_then_sep, lemma_split_single,
    parse_int_range, push_dec, rust_int_in, split_on, str_chars, string_from_chars,
};
use crate::MAX_LABELS;

verus! {

broadcast use vstd::seq_lib::group_seq_properties;

/// One MPLS label from an ICMP extension object (RFC 4950).
#[derive(Debug, Clone, Copy, PartialEq, Eq, Hash, Structural)]
pub struct MplsLabel {
    pub label: u32,
    pub tc: u8,
    pub bottom_of_stack: bool,
    pub ttl: u8,
}

/// The label a complete group of four values stands for (the fields are C `unsigned long` and
/// `uint8_t`: wider values keep their low bits).
pub open spec fn label_of(g: Seq<u32>) -> MplsLabel {
    MplsLabel { label: g[0], tc: g[1] as u8, bottom_of_stack: g[2] != 0, ttl: g[3] as u8 }
}

/// Reading the comma-separated fields in order: each must be an `i64`; every fourth completes a
/// label; reading stops once `MAX_LABELS` labels are complete. `None` for a bad field.
pub open spec fn mpls_fold(fields: Seq<Seq<char>>, labels: Seq<MplsLabel>, group: Seq<u32>) -> Option<
    Seq<MplsLabel>,
>
    decreases fields.len(),
{
    if fields.len() == 0 || labels.len() >= MAX_LABELS {
        Some(labels)
    } else {
        match rust_int_in(fields[0], true, i64::MIN as int, i64::MAX as int) {
            None => None,
            Some(v) => {
                let g = group.push(v as u32);
                if g.len() == 4 {
                    mpls_fold(fields.drop_first(), labels.push(label_of(g)), seq![])
                } else {
                    mpls_fold(fields.drop_first(), labels, g)
                }
            },
        }
    }
}

/// One step of `mpls_fold`, over a field that reads as `v`.
proof fn lemma_fold_step(fs: Seq<Seq<char>>, labels: Seq<MplsLabel>, group: Seq<u32>, v: int)
    requires
        fs.len() > 0,
        labels.len() < MAX_LABELS,
        rust_int_in(fs[0], true, i64::MIN as int, i64::MAX as int) == Some(v),
    ensures
        group.push(v as u32).len() == 4 ==> mpls_fold(fs, labels, group) == mpls_fold(
            fs.drop_first(),
            labels.push(label_of(group.push(v as u32))),
            seq![],
        ),
        group.push(v as u32).len() != 4 ==> mpls_fold(fs, labels, group) == mpls_fold(
            fs.drop_first(),
            labels,
            group.push(v as u32),
        ),
{
}

/// What `parse_mpls_list` makes of a string: the labels, or `None` when it is malformed.
pub open spec fn mpls_parse_spec(s: Seq<char>) -> Option<Seq<MplsLabel>> {
    mpls_fold(split_on(s, ','), seq![], seq![])
}

/// Parse the flat comma list `l,tc,s,ttl[,l,tc,s,ttl…]`. Reads fields in order and stops as
/// soon as `MAX_LABELS` complete labels are collected, ignoring anything after the cap. A
/// trailing partial group is dropped. A non-numeric field before the cap is an error.
#[verifier::rlimit(50)]
pub fn parse_mpls_list(s: &str) -> (r: Result<Vec<MplsLabel>, ParseError>)
    ensures
        r matches Ok(v) ==> mpls_parse_spec(s@) == Some(v@),
        r matches Err(e) ==> mpls_parse_spec(s@) is None && e@ == crate::error::ParseErrorView::MalformedMpls(s@),
{
    let c = str_chars(s);
    let n = c.len();
    let mut labels: Vec<MplsLabel> = Vec::new();
    let mut group: Vec<u32> = Vec::new();
    let mut start: usize = 0;
    assert(c@.skip(0) =~= c@);
    loop
        invariant_except_break
            mpls_parse_spec(s@) == mpls_fold(split_on(c@.skip(start as int), ','), labels@, group@),
        invariant
            start <= n == c.len(),
            c@ == s@,
            group@.len() < 4,
        ensures
            mpls_parse_spec(s@) == Some(labels@),
        decreases n - start,
    {
        let ghost t = c@.skip(start as int);
        let ghost fs = split_on(t, ',');
        if labels.len() >= MAX_LABELS {
            break ;
        }
        let mut j: usize = start;
        while j < n && c[j] != ','
            invariant
                start <= j <= n == c.len(),
                forall|k: int| start <= k < j ==> #[trigger] c@[k] != ',',
            decreases n - j,
        {
            j += 1;
        }
        proof {
            assert forall|k: int| 0 <= k < j - start implies #[trigger] t[k] != ',' by {
                assert(t[k] == c@[start + k]);
            }
            if j < n {
                assert(t[j - start] == c@[j as int]);
                assert(t.skip(j - start + 1) =~= c@.skip(j + 1));
            }
            lemma_split_first(t, ',', j - start);
            assert(t.take(j - start) =~= c@.subrange(start as int, j as int));
        }
        let v = match parse_int_range(c.as_slice(), start, j, true, i64::MIN as i128, i64::MAX as i128) {
            Some(v) => v as i64,
            None => {
                assert(mpls_fold(fs, labels@, group@) is None);
                return Err(ParseError::MalformedMpls(s.to_owned()));
            },
        };
        proof {
            lemma_fold_step(fs, labels@, group@, v as int);
        }
        group.push(v as u32);
        if group.len() == 4 {
            let l = MplsLabel {
                label: group[0],
                tc: group[1] as u8,
                bottom_of_stack: group[2] != 0,
                ttl: group[3] as u8,
            };
            assert(l == label_of(group@));
            labels.push(l);
            group = Vec::new();
        }
        if j == n {
            assert(mpls_fold(Seq::<Seq<char>>::empty(), labels@, group@) == Some(labels@));
            break ;
        }
        start = j + 1;
    }
    Ok(labels)
}

/// `l,tc,s,ttl` for one label.
pub open spec fn label_fields(l: MplsLabel) -> Seq<Seq<char>> {
    seq![
        dec_int(l.label as int),
        dec_int(l.tc as int),
        dec_int(if l.bottom_of_stack {
            1int
        } else {
            0int
        }),
        dec_int(l.ttl as int),
    ]
}

/// `l,tc,s,ttl` for one label, as text.
pub open spec fn label_text(l: MplsLabel) -> Seq<char> {
    let f = label_fields(l);
    f[0] + seq![','] + f[1] + seq![','] + f[2] + seq![','] + f[3]
}

/// The labels as `format_mpls_list` writes them: `%u,%u,%u,%u` per label, labels joined by a
/// bare comma.
pub open spec fn mpls_text(ls: Seq<MplsLabel>) -> Seq<char>
    decreases ls.len(),
{
    if ls.len() == 0 {
        seq![]
    } else if ls.len() == 1 {
        label_text(ls[0])
    } else {
        label_text(ls[0]) + seq![','] + mpls_text(ls.drop_first())
    }
}

proof fn lemma_mpls_text_push(ls: Seq<MplsLabel>, l: MplsLabel)
    requires
        ls.len() > 0,
    ensures
        mpls_text(ls.push(l)) == mpls_text(ls) + seq![','] + label_text(l),
    decreases ls.len(),
{
    let p = ls.push(l);
    assert(p[0] == ls[0]);
    if ls.len() == 1 {
        assert(p.drop_first() =~= seq![l]);
        assert(mpls_text(seq![l]) == label_text(l));
        assert(mpls_text(ls) == label_text(ls[0]));
    } else {
        lemma_mpls_text_push(ls.drop_first(), l);
        assert(p.drop_first() =~= ls.drop_first().push(l));
        assert(mpls_text(p) == label_text(ls[0]) + seq![','] + mpls_text(ls.drop_first().push(l)));
        assert(mpls_text(ls) == label_text(ls[0]) + seq![','] + mpls_text(ls.drop_first()));
        assert(mpls_text(p) =~= mpls_text(ls) + seq![','] + label_text(l));
    }
}

fn push_label(out: &mut Vec<char>, l: &MplsLabel)
    ensures
        final(out)@ == old(out)@ + label_text(*l),
{
    push_dec(out, l.label as u64);
    out.push(',');
    push_dec(out, l.tc as u64);
    out.push(',');
    push_dec(out, if l.bottom_of_stack { 1 } else { 0 });
    out.push(',');
    push_dec(out, l.ttl as u64);
    proof {
        let f = label_fields(*l);
        assert(f[0] == dec_nat(l.label as nat));
        assert(f[1] == dec_nat(l.tc as nat));
        assert(f[2] == dec_nat((if l.bottom_of_stack { 1u64 } else { 0u64 }) as nat));
        assert(f[3] == dec_nat(l.ttl as nat));
        assert(final(out)@ =~= old(out)@ + label_text(*l));
    }
}

/// Appends `mpls_text(labels)`.
pub fn push_mpls(out: &mut Vec<char>, labels: &[MplsLabel])
    ensures
        final(out)@ == old(out)@ + mpls_text(labels@),
{
    let mut i: usize = 0;
    while i < labels.len()
        invariant
            i <= labels.len(),
            out@ == old(out)@ + mpls_text(labels@.take(i as int)),
        decreases labels.len() - i,
    {
        if i > 0 {
            out.push(',');
        }
        push_label(out, &labels[i]);
        proof {
            if i == 0 {
                assert(labels@.take(1) =~= seq![labels@[0]]);
            } else {
                assert(labels@.take(i + 1) =~= labels@.take(i as int).push(labels@[i as int]));
                lemma_mpls_text_push(labels@.take(i as int), labels@[i as int]);
            }
        }
        i += 1;
    }
    assert(labels@.take(labels.len() as int) =~= labels@);
}

/// `format_mpls_string()`: `%u,%u,%u,%u` per label, labels joined by a bare comma.
pub fn format_mpls_list(labels: &[MplsLabel], out: &mut String)
    ensures
        final(out)@ == old(out)@ + mpls_text(labels@),
{
    let mut v: Vec<char> = Vec::new();
    push_mpls(&mut v, labels);
    let piece = string_from_chars(v.as_slice());
    out.append(piece.as_str());
}

/// The fields of a label parse back into the label.
proof fn lemma_label_fields_parse(l: MplsLabel, labels: Seq<MplsLabel>, more: Seq<Seq<char>>)
    requires
        labels.len() < MAX_LABELS,
    ensures
        mpls_fold(label_fields(l) + more, labels, seq![]) == mpls_fold(more, labels.push(l), seq![]),
{
    let f = label_fields(l);
    let b: int = if l.bottom_of_stack {
        1
    } else {
        0
    };
    lemma_rust_int_dec(l.label as int, true);
    lemma_rust_int_dec(l.tc as int, true);
    lemma_rust_int_dec(b, true);
    lemma_rust_int_dec(l.ttl as int, true);
    let fs0 = f + more;
    let fs1 = fs0.drop_first();
    let fs2 = fs1.drop_first();
    let fs3 = fs2.drop_first();
    assert(fs0[0] == f[0]);
    assert(fs1[0] == f[1]);
    assert(fs2[0] == f[2]);
    assert(fs3[0] == f[3]);
    assert(fs3.drop_first() =~= more);
    let g0: Seq<u32> = seq![];
    let g1: Seq<u32> = g0.push(l.label as int as u32);
    let g2 = g1.push(l.tc as int as u32);
    let g3 = g2.push(b as u32);
    let g4 = g3.push(l.ttl as int as u32);
    assert(rust_int_in(f[0], true, i64::MIN as int, i64::MAX as int) == Some(l.label as int));
    assert(rust_int_in(f[1], true, i64::MIN as int, i64::MAX as int) == Some(l.tc as int));
    assert(rust_int_in(f[2], true, i64::MIN as int, i64::MAX as int) == Some(b));
    assert(rust_int_in(f[3], true, i64::MIN as int, i64::MAX as int) == Some(l.ttl as int));
    assert(mpls_fold(fs0, labels, g0) == mpls_fold(fs1, labels, g1));
    assert(mpls_fold(fs1, labels, g1) == mpls_fold(fs2, labels, g2));
    assert(mpls_fold(fs2, labels, g2) == mpls_fold(fs3, labels, g3));
    assert(g4.len() == 4);
    assert(label_of(g4) == l);
    assert(mpls_fold(fs3, labels, g3) == mpls_fold(more, labels.push(l), seq![]));
}

/// Labels' fields are numerals, free of commas.
proof fn lemma_label_fields_free(l: MplsLabel)
    ensures
        forall|i: int| 0 <= i < 4 ==> free_of(#[trigger] label_fields(l)[i], ','),
{
    let f = label_fields(l);
    assert forall|i: int| 0 <= i < 4 implies free_of(#[trigger] label_fields(l)[i], ',') by {
        let x: int = if i == 0 {
            l.label as int
        } else if i == 1 {
            l.tc as int
        } else if i == 2 {
            if l.bottom_of_stack {
                1
            } else {
                0
            }
        } else {
            l.ttl as int
        };
        assert(f[i] == dec_int(x));
        lemma_dec_int_chars(x);
    }
}

/// The text of a label followed by `rest` splits into the label's four fields, then the
/// pieces of `rest`.
#[verifier::rlimit(40)]
proof fn lemma_split_label_then(l: MplsLabel, rest: Seq<char>, last: bool)
    ensures
        last ==> split_on(label_text(l), ',') == label_fields(l),
        !last ==> split_on(label_text(l) + seq![','] + rest, ',') == label_fields(l) + split_on(
            rest,
            ',',
        ),
{
    let f = label_fields(l);
    lemma_label_fields_free(l);
    assert(free_of(f[0], ','));
    assert(free_of(f[1], ','));
    assert(free_of(f[2], ','));
    assert(free_of(f[3], ','));
    assert(label_text(l) =~= f[0] + seq![','] + (f[1] + seq![','] + (f[2] + seq![','] + f[3])));
    if last {
        lemma_split_single(f[3], ',');
        lemma_split_piece_then_sep(f[2], ',', f[3]);
        lemma_split_piece_then_sep(f[1], ',', f[2] + seq![','] + f[3]);
        lemma_split_piece_then_sep(f[0], ',', f[1] + seq![','] + (f[2] + seq![','] + f[3]));
        assert(seq![f[0]] + (seq![f[1]] + (seq![f[2]] + seq![f[3]])) =~= f);
    } else {
        let r = split_on(rest, ',');
        lemma_split_piece_then_sep(f[3], ',', rest);
        lemma_split_piece_then_sep(f[2], ',', f[3] + seq![','] + rest);
        lemma_split_piece_then_sep(f[1], ',', f[2] + seq![','] + (f[3] + seq![','] + rest));
        lemma_split_piece_then_sep(
            f[0],
            ',',
            f[1] + seq![','] + (f[2] + seq![','] + (f[3] + seq![','] + rest)),
        );
        assert(label_text(l) + seq![','] + rest =~= f[0] + seq![','] + (f[1] + seq![','] + (f[2]
            + seq![','] + (f[3] + seq![','] + rest))));
        assert(seq![f[0]] + (seq![f[1]] + (seq![f[2]] + (seq![f[3]] + r))) =~= f + r);
    }
}

proof fn lemma_mpls_fold_text(ls: Seq<MplsLabel>, acc: Seq<MplsLabel>)
    requires
        ls.len() > 0,
        acc.len() + ls.len() <= MAX_LABELS,
    ensures
        mpls_fold(split_on(mpls_text(ls), ','), acc, seq![]) == Some(acc + ls),
    decreases ls.len(),
{
    let l = ls[0];
    if ls.len() == 1 {
        lemma_split_label_then(l, seq![], true);
        lemma_label_fields_parse(l, acc, seq![]);
        assert(label_fields(l) + Seq::<Seq<char>>::empty() =~= label_fields(l));
        assert(acc.push(l) =~= acc + ls);
    } else {
        let rest = ls.drop_first();
        lemma_split_label_then(l, mpls_text(rest), false);
        lemma_label_fields_parse(l, acc, split_on(mpls_text(rest), ','));
        lemma_mpls_fold_text(rest, acc.push(l));
        assert(acc.push(l) + rest =~= acc + ls);
    }
}

/// Formatting up to `MAX_LABELS` labels and parsing the text gives the labels back.
pub proof fn lemma_mpls_round_trip(ls: Seq<MplsLabel>)
    requires
        0 < ls.len() <= MAX_LABELS,
    ensures
        mpls_parse_spec(mpls_text(ls)) == Some(ls),
{
    lemma_mpls_fold_text(ls, seq![]);
    assert(Seq::<MplsLabel>::empty() + ls =~= ls);
}


/// A label's text holds digits and commas only.
proof fn lemma_label_text_chars(l: MplsLabel)
    ensures
        label_text(l).len() > 0,
        forall|j: int| 0 <= j < label_text(l).len() ==> is_digit(#[trigger] label_text(l)[j]) || label_text(l)[j] == ',',
{
    let f = label_fields(l);
    let b: nat = if l.bottom_of_stack {
        1
    } else {
        0
    };
    lemma_dec_nat(l.label as nat);
    lemma_dec_nat(l.tc as nat);
    lemma_dec_nat(b);
    lemma_dec_nat(l.ttl as nat);
    assert(f[0] == dec_nat(l.label as nat));
    assert(f[1] == dec_nat(l.tc as nat));
    assert(f[2] == dec_nat(b));
    assert(f[3] == dec_nat(l.ttl as nat));
    let t = label_text(l);
    let p1 = f[0].len() as int;
    let p2 = p1 + 1 + f[1].len();
    let p3 = p2 + 1 + f[2].len();
    assert forall|j: int| 0 <= j < t.len() implies is_digit(#[trigger] t[j]) || t[j] == ',' by {
        if j < p1 {
            assert(t[j] == f[0][j]);
        } else if j == p1 || j == p2 || j == p3 {
        } else if j < p2 {
            assert(t[j] == f[1][j - p1 - 1]);
        } else if j < p3 {
            assert(t[j] == f[2][j - p2 - 1]);
        } else {
            assert(t[j] == f[3][j - p3 - 1]);
        }
    }
}

/// A non-empty label list's text is one word of digits and commas.
pub proof fn lemma_mpls_text_word(ls: Seq<MplsLabel>)
    requires
        ls.len() > 0,
    ensures
        is_word(mpls_text(ls)),
        forall|j: int| 0 <= j < mpls_text(ls).len() ==> is_digit(#[trigger] mpls_text(ls)[j]) || mpls_text(ls)[j] == ',',
    decreases ls.len(),
{
    lemma_label_text_chars(ls[0]);
    let t = mpls_text(ls);
    if ls.len() > 1 {
        lemma_mpls_text_word(ls.drop_first());
        let h = label_text(ls[0]);
        let r = mpls_text(ls.drop_first());
        assert forall|j: int| 0 <= j < t.len() implies is_digit(#[trigger] t[j]) || t[j] == ',' by {
            if j < h.len() {
                assert(t[j] == h[j]);
            } else if j > h.len() {
                assert(t[j] == r[j - h.len() - 1]);
            }
        }
    }
    assert forall|j: int| 0 <= j < t.len() implies !c_space(#[trigger] t[j]) by {
        assert(is_digit(t[j]) || t[j] == ',');
    }
}


/// Reading never collects more than `MAX_LABELS` labels.
proof fn lemma_mpls_fold_len(fields: Seq<Seq<char>>, labels: Seq<MplsLabel>, group: Seq<u32>)
    requires
        labels.len() <= MAX_LABELS,
    ensures
        mpls_fold(fields, labels, group) matches Some(ls) ==> ls.len() <= MAX_LABELS,
    decreases fields.len(),
{
    if fields.len() > 0 && labels.len() < MAX_LABELS {
        match rust_int_in(fields[0], true, i64::MIN as int, i64::MAX as int) {
            None => {},
            Some(v) => {
                let g = group.push(v as u32);
                if g.len() == 4 {
                    lemma_mpls_fold_len(fields.drop_first(), labels.push(label_of(g)), seq![]);
                } else {
                    lemma_mpls_fold_len(fields.drop_first(), labels, g);
                }
            },
        }
    }
}

/// A label list that reads has at most `MAX_LABELS` labels.
pub proof fn lemma_mpls_parse_len(s: Seq<char>)
    ensures
        mpls_parse_spec(s) matches Some(ls) ==> ls.len() <= MAX_LABELS,
{
    lemma_mpls_fold_len(split_on(s, ','), seq![], seq![]);
}

} // verus!
