//! How a script's value is written out: numbers in decimal, booleans as
//! `True` and `False`, strings as they are, maps as `Name { a = 1, b = 2 }`
//! (the name only where the map has one) and functions as `<function>`.
use vstd::prelude::*;

use crate::text::{decimal, push_decimal, string_from_chars};
use crate::value::push_str;

verus! {

/// A script value, as far as writing it out goes.
#[derive(Debug, PartialEq)]
pub enum Printed {
    Int(i64),
    Bool(bool),
    Text(String),
    /// A map, with its constructor's name where it has one, and its fields
    /// in order.
    Record(Option<String>, Vec<(String, Printed)>),
    Function,
    /// A value of no kind that the runtime knows.
    Unknown,
}

pub enum SpecPrinted {
    Int(i64),
    Bool(bool),
    Text(Seq<char>),
    Record(Option<Seq<char>>, Seq<(Seq<char>, SpecPrinted)>),
    Function,
    Unknown,
}

pub open spec fn printed_view(v: Printed) -> SpecPrinted
    decreases v,
{
    match v {
        Printed::Int(n) => SpecPrinted::Int(n),
        Printed::Bool(b) => SpecPrinted::Bool(b),
        Printed::Text(s) => SpecPrinted::Text(s@),
        Printed::Record(name, fields) => SpecPrinted::Record(
            match name {
                Some(n) => Some(n@),
                None => None,
            },
            fields_view(fields@),
        ),
        Printed::Function => SpecPrinted::Function,
        Printed::Unknown => SpecPrinted::Unknown,
    }
}

pub open spec fn fields_view(fs: Seq<(String, Printed)>) -> Seq<(Seq<char>, SpecPrinted)>
    decreases fs,
{
    if fs.len() == 0 {
        Seq::empty()
    } else {
        seq![(fs[0].0@, printed_view(fs[0].1))] + fields_view(fs.drop_first())
    }
}

impl View for Printed {
    type V = SpecPrinted;

    open spec fn view(&self) -> SpecPrinted {
        printed_view(*self)
    }
}

/// The text of a value.
pub open spec fn rendering(v: SpecPrinted) -> Seq<char>
    decreases v, 0nat,
{
    match v {
        SpecPrinted::Int(n) => decimal(n),
        SpecPrinted::Bool(b) => if b {
            "True"@
        } else {
            "False"@
        },
        SpecPrinted::Text(s) => s,
        SpecPrinted::Record(name, fields) => {
            let head = match name {
                Some(n) => n + " "@,
                None => Seq::empty(),
            };
            head + "{ "@ + fields_rendering(fields, 0) + " }"@
        },
        SpecPrinted::Function => "<function>"@,
        SpecPrinted::Unknown => "<unknown>"@,
    }
}

/// The fields from the `i`-th on, as `name = value`, separated by `, `.
pub open spec fn fields_rendering(fields: Seq<(Seq<char>, SpecPrinted)>, i: nat) -> Seq<char>
    decreases fields, fields.len() - i,
{
    if i >= fields.len() {
        Seq::empty()
    } else {
        let one = fields[i as int].0 + " = "@ + rendering(fields[i as int].1);
        if i + 1 < fields.len() {
            one + ", "@ + fields_rendering(fields, i + 1)
        } else {
            one
        }
    }
}

proof fn lemma_fields_view(fs: Seq<(String, Printed)>, i: int)
    requires
        0 <= i < fs.len(),
    ensures
        fields_view(fs).len() == fs.len(),
        fields_view(fs)[i] == (fs[i].0@, printed_view(fs[i].1)),
    decreases fs.len(),
{
    if i > 0 {
        lemma_fields_view(fs.drop_first(), i - 1);
    } else {
        lemma_fields_len(fs.drop_first());
    }
}

proof fn lemma_fields_len(fs: Seq<(String, Printed)>)
    ensures
        fields_view(fs).len() == fs.len(),
    decreases fs.len(),
{
    if fs.len() > 0 {
        lemma_fields_len(fs.drop_first());
    }
}

/// Appends the text of `v` to `out`.
fn push_rendering(v: &Printed, out: &mut Vec<char>)
    ensures
        final(out)@ == old(out)@ + rendering(v@),
    decreases v, 1nat,
{
    match v {
        Printed::Int(n) => push_decimal(*n, out),
        Printed::Bool(b) => {
            if *b {
                push_str(out, "True");
            } else {
                push_str(out, "False");
            }
        },
        Printed::Text(s) => push_str(out, s.as_str()),
        Printed::Record(name, fields) => {
            let ghost start = out@;
            let ghost head: Seq<char> = match name {
                Some(n) => n@ + " "@,
                None => Seq::empty(),
            };
            match name {
                Some(n) => {
                    push_str(out, n.as_str());
                    push_str(out, " ");
                },
                None => {},
            }
            assert(out@ =~= start + head);
            push_str(out, "{ ");
            push_fields(fields, 0, out);
            push_str(out, " }");
            assert(out@ =~= start + rendering(v@));
        },
        Printed::Function => push_str(out, "<function>"),
        Printed::Unknown => push_str(out, "<unknown>"),
    }
}

/// Appends the text of the fields from the `i`-th on to `out`.
fn push_fields(fields: &Vec<(String, Printed)>, i: usize, out: &mut Vec<char>)
    requires
        i <= fields@.len(),
    ensures
        final(out)@ == old(out)@ + fields_rendering(fields_view(fields@), i as nat),
    decreases fields, fields@.len() - i,
{
    proof {
        lemma_fields_len(fields@);
    }
    if i >= fields.len() {
        return;
    }
    let ghost start = out@;
    proof {
        lemma_fields_view(fields@, i as int);
    }
    let (name, value) = &fields[i];
    push_str(out, name.as_str());
    push_str(out, " = ");
    push_rendering(value, out);
    if i + 1 < fields.len() {
        push_str(out, ", ");
        push_fields(fields, i + 1, out);
    }
    assert(out@ =~= start + fields_rendering(fields_view(fields@), i as nat));
}

/// The text that the runtime writes for `v`.
pub fn render(v: &Printed) -> (s: String)
    ensures
        s@ == rendering(v@),
{
    let mut out: Vec<char> = Vec::new();
    push_rendering(v, &mut out);
    assert(out@ =~= rendering(v@));
    string_from_chars(out.as_slice())
}

} // verus!
