//! The report columns and the `-o` rules for choosing them.
use vstd::prelude::*;

use crate::text::{push_str, str_chars, string_from_chars};

verus! {

broadcast use vstd::seq_lib::group_seq_properties;

/// How a column's value is printed.
#[derive(Debug, Clone, Copy, PartialEq, Eq, Structural)]
pub enum FieldFormat {
    /// `" %6.2f%%"`: the value is loss percent times 1000.
    Percent,
    /// `" %5.1f"`: microseconds shown as milliseconds.
    Ms5,
    /// `" %4.1f"`: microseconds shown as milliseconds.
    Ms4,
    /// `" %4d"`
    Int4,
    /// `" %5d"`
    Int5,
    /// `" "`: the spacer column.
    Space,
}

impl FieldFormat {
    /// Whether the format is a floating one: the value is divided by 1000 before printing.
    pub fn is_float(self) -> (r: bool)
        ensures
            r == (self is Percent || self is Ms5 || self is Ms4),
    {
        match self {
            FieldFormat::Percent | FieldFormat::Ms5 | FieldFormat::Ms4 => true,
            _ => false,
        }
    }
}

/// One report column: its `-o` key, description, title, format and width.
#[derive(Debug, Clone, Copy, PartialEq, Eq)]
pub struct Field {
    pub key: char,
    pub descr: &'static str,
    pub title: &'static str,
    pub format: FieldFormat,
    pub length: usize,
}

/// Characters `-o` accepts: every key plus a no-op `_`.
pub const AVAILABLE_OPTIONS: &'static str = " LDRSNBAWVGJMXI_";
/// Longest `-o` string.
pub const MAX_FIELDS: usize = 20;

/// The keys of the columns, in table order.
pub open spec fn field_keys() -> Seq<char> {
    seq![' ', 'L', 'D', 'R', 'S', 'N', 'B', 'A', 'W', 'V', 'G', 'J', 'M', 'X', 'I']
}

/// The titles of the columns, in table order.
pub open spec fn field_titles() -> Seq<Seq<char>> {
    seq![
        " "@,
        "Loss%"@,
        "Drop"@,
        "Rcv"@,
        "Snt"@,
        "Last"@,
        "Best"@,
        "Avg"@,
        "Wrst"@,
        "StDev"@,
        "Gmean"@,
        "Jttr"@,
        "Javg"@,
        "Jmax"@,
        "Jint"@,
    ]
}

/// The descriptions of the columns, in table order.
pub open spec fn field_descrs() -> Seq<Seq<char>> {
    seq![
        "<sp>: Space between fields"@,
        "L: Loss Ratio"@,
        "D: Dropped Packets"@,
        "R: Received Packets"@,
        "S: Sent Packets"@,
        "N: Newest RTT(ms)"@,
        "B: Min/Best RTT(ms)"@,
        "A: Average RTT(ms)"@,
        "W: Max/Worst RTT(ms)"@,
        "V: Standard Deviation"@,
        "G: Geometric Mean"@,
        "J: Current Jitter"@,
        "M: Jitter Mean/Avg."@,
        "X: Worst Jitter"@,
        "I: Interarrival Jitter"@,
    ]
}

/// The widths of the columns, in table order.
pub open spec fn field_lengths() -> Seq<usize> {
    seq![1, 8, 5, 6, 6, 6, 6, 6, 6, 6, 6, 5, 5, 5, 5]
}

/// The formats of the columns, in table order.
pub open spec fn field_formats() -> Seq<FieldFormat> {
    seq![
        FieldFormat::Space,
        FieldFormat::Percent,
        FieldFormat::Int4,
        FieldFormat::Int5,
        FieldFormat::Int5,
        FieldFormat::Ms5,
        FieldFormat::Ms5,
        FieldFormat::Ms5,
        FieldFormat::Ms5,
        FieldFormat::Ms5,
        FieldFormat::Ms5,
        FieldFormat::Ms4,
        FieldFormat::Ms4,
        FieldFormat::Ms4,
        FieldFormat::Ms4,
    ]
}

fn field(key: char, descr: &'static str, title: &'static str, format: FieldFormat, length: usize) -> (f: Field)
    ensures
        f == (Field { key, descr, title, format, length }),
{
    Field { key, descr, title, format, length }
}

/// The column table.
pub fn fields() -> (v: Vec<Field>)
    ensures
        v@.len() == 15,
        forall|i: int| 0 <= i < 15 ==> {
            &&& (#[trigger] v@[i]).key == field_keys()[i]
            &&& v@[i].title@ == field_titles()[i]
            &&& v@[i].descr@ == field_descrs()[i]
            &&& v@[i].length == field_lengths()[i]
            &&& v@[i].format == field_formats()[i]
        },
{
    let v = vec![
        field(' ', "<sp>: Space between fields", " ", FieldFormat::Space, 1),
        field('L', "L: Loss Ratio", "Loss%", FieldFormat::Percent, 8),
        field('D', "D: Dropped Packets", "Drop", FieldFormat::Int4, 5),
        field('R', "R: Received Packets", "Rcv", FieldFormat::Int5, 6),
        field('S', "S: Sent Packets", "Snt", FieldFormat::Int5, 6),
        field('N', "N: Newest RTT(ms)", "Last", FieldFormat::Ms5, 6),
        field('B', "B: Min/Best RTT(ms)", "Best", FieldFormat::Ms5, 6),
        field('A', "A: Average RTT(ms)", "Avg", FieldFormat::Ms5, 6),
        field('W', "W: Max/Worst RTT(ms)", "Wrst", FieldFormat::Ms5, 6),
        field('V', "V: Standard Deviation", "StDev", FieldFormat::Ms5, 6),
        field('G', "G: Geometric Mean", "Gmean", FieldFormat::Ms5, 6),
        field('J', "J: Current Jitter", "Jttr", FieldFormat::Ms4, 5),
        field('M', "M: Jitter Mean/Avg.", "Javg", FieldFormat::Ms4, 5),
        field('X', "X: Worst Jitter", "Jmax", FieldFormat::Ms4, 5),
        field('I', "I: Interarrival Jitter", "Jint", FieldFormat::Ms4, 5),
    ];
    assert(v@.len() == 15);
    v
}

/// The column with key `key`.
pub fn field_by_key(key: char) -> (r: Option<Field>)
    ensures
        r matches Some(f) ==> f.key == key && exists|i: int|
            0 <= i < 15 && field_keys()[i] == key && f.title@ == field_titles()[i] && f.descr@ == field_descrs()[i]
                && f.length == field_lengths()[i] && f.format == field_formats()[i],
        r is None <==> !field_keys().contains(key),
{
    let all = fields();
    let mut i: usize = 0;
    while i < all.len()
        invariant
            i <= all@.len() == 15,
            forall|j: int| 0 <= j < 15 ==> {
                &&& (#[trigger] all@[j]).key == field_keys()[j]
                &&& all@[j].title@ == field_titles()[j]
                &&& all@[j].descr@ == field_descrs()[j]
                &&& all@[j].length == field_lengths()[j]
                &&& all@[j].format == field_formats()[j]
            },
            forall|j: int| 0 <= j < i ==> field_keys()[j] != key,
        decreases all@.len() - i,
    {
        if all[i].key == key {
            return Some(all[i]);
        }
        i += 1;
    }
    assert(!field_keys().contains(key));
    None
}

/// The columns an `-o` string picks, in its order; characters that are no key (`_`) are
/// skipped.
pub fn active_fields(spec: &str) -> (v: Vec<Field>)
    ensures
        v@.map_values(|f: Field| f.key) == spec@.filter(|c: char| field_keys().contains(c)),
{
    let c = str_chars(spec);
    let mut v: Vec<Field> = Vec::new();
    let mut i: usize = 0;
    while i < c.len()
        invariant
            i <= c@.len(),
            c@ == spec@,
            v@.map_values(|f: Field| f.key) == c@.take(i as int).filter(|c: char| field_keys().contains(c)),
        decreases c@.len() - i,
    {
        proof {
            assert(c@.take(i + 1) =~= c@.take(i as int).push(c@[i as int]));
            c@.take(i as int).lemma_filter_push(c@[i as int], |c: char| field_keys().contains(c));
        }
        match field_by_key(c[i]) {
            Some(f) => {
                v.push(f);
                assert(v@.map_values(|f: Field| f.key) =~= c@.take(i + 1).filter(|c: char| field_keys().contains(c)));
            },
            None => {},
        }
        i += 1;
    }
    assert(c@.take(i as int) =~= c@);
    v
}

/// The first character from position `i` on that is no option.
pub open spec fn first_non_option(s: Seq<char>, i: int) -> Option<char>
    decreases s.len() - i,
{
    if i < 0 || i >= s.len() {
        None
    } else if !AVAILABLE_OPTIONS@.contains(s[i]) {
        Some(s[i])
    } else {
        first_non_option(s, i + 1)
    }
}

/// The `-o` rules: at most `MAX_FIELDS` characters, each one of `AVAILABLE_OPTIONS`; the
/// message names the whole string, or the first character that is no option.
pub open spec fn validate_spec(s: Seq<char>) -> Result<(), Seq<char>> {
    if s.len() > MAX_FIELDS {
        Err("Too many fields: "@ + s)
    } else {
        match first_non_option(s, 0) {
            Some(c) => Err("Unknown field identifier: "@ + seq![c]),
            None => Ok(()),
        }
    }
}

fn is_option(c: char) -> (r: bool)
    ensures
        r == AVAILABLE_OPTIONS@.contains(c),
{
    let opts = str_chars(AVAILABLE_OPTIONS);
    let mut i: usize = 0;
    while i < opts.len()
        invariant
            i <= opts@.len(),
            opts@ == AVAILABLE_OPTIONS@,
            forall|j: int| 0 <= j < i ==> opts@[j] != c,
        decreases opts@.len() - i,
    {
        if opts[i] == c {
            return true;
        }
        i += 1;
    }
    false
}

/// Checks an `-o` string (see `validate_spec`).
pub fn validate_fields(spec: &str) -> (r: Result<(), String>)
    ensures
        r is Ok <==> validate_spec(spec@) is Ok,
        r matches Err(m) ==> validate_spec(spec@) == Err::<(), Seq<char>>(m@),
{
    let c = str_chars(spec);
    if c.len() > MAX_FIELDS {
        let mut m: Vec<char> = Vec::new();
        push_str(&mut m, "Too many fields: ");
        push_str(&mut m, spec);
        assert(m@ =~= "Too many fields: "@ + spec@);
        return Err(string_from_chars(m.as_slice()));
    }
    let mut i: usize = 0;
    while i < c.len()
        invariant
            i <= c@.len(),
            c@ == spec@,
            c@.len() <= MAX_FIELDS,
            first_non_option(spec@, 0) == first_non_option(spec@, i as int),
        decreases c@.len() - i,
    {
        if !is_option(c[i]) {
            let mut m: Vec<char> = Vec::new();
            push_str(&mut m, "Unknown field identifier: ");
            m.push(c[i]);
            assert(m@ =~= "Unknown field identifier: "@ + seq![c@[i as int]]);
            assert(spec@[i as int] == c@[i as int]);
            assert(first_non_option(spec@, i as int) == Some(c@[i as int]));
            assert(spec@.len() <= MAX_FIELDS);
            return Err(string_from_chars(m.as_slice()));
        }
        i += 1;
    }
    Ok(())
}

} // verus!
