//! Compact debug text of a struct value in which default-valued fields are
//! left out (named structs) or shown as `_` (tuple structs).
//!
//! The caller renders each field on its own and says whether the field equals
//! its type's default; this module lays the pieces out the way the standard
//! `{:?}` form of a struct does.

use vstd::prelude::*;
use vstd::string::*;

verus! {

/// One field of a struct with named fields.
#[derive(Clone, Debug, PartialEq, Eq)]
pub struct NamedField {
    /// The field's identifier.
    pub name: String,
    /// The field's value in its own `{:?}` form.
    pub text: String,
    /// Whether the value equals the default of the field's type.
    pub is_default: bool,
}

/// One field of a tuple struct.
#[derive(Clone, Debug, PartialEq, Eq)]
pub struct UnnamedField {
    /// The field's value in its own `{:?}` form.
    pub text: String,
    /// Whether the value equals the default of the field's type.
    pub is_default: bool,
}

/// The three shapes a struct can have.
#[derive(Clone, Debug, PartialEq, Eq)]
pub enum Fields {
    /// `struct S { a: A, b: B }`
    Named(Vec<NamedField>),
    /// `struct S(A, B);`
    Unnamed(Vec<UnnamedField>),
    /// `struct S;`
    Unit,
}

/// `entries` written one after the other with `sep` between neighbours.
pub open spec fn join(entries: Seq<Seq<char>>, sep: Seq<char>) -> Seq<char>
    decreases entries.len(),
{
    if entries.len() == 0 {
        Seq::empty()
    } else if entries.len() == 1 {
        entries[0]
    } else {
        join(entries.drop_last(), sep) + sep + entries.last()
    }
}

/// The `name: value` entries of the fields that differ from their default, in
/// declaration order.
pub open spec fn named_entries(fields: Seq<NamedField>) -> Seq<Seq<char>>
    decreases fields.len(),
{
    if fields.len() == 0 {
        Seq::empty()
    } else {
        let before = named_entries(fields.drop_last());
        let f = fields.last();
        if f.is_default {
            before
        } else {
            before.push(f.name@ + ": "@ + f.text@)
        }
    }
}

/// One entry per tuple field: its value, or `_` where it equals the default.
pub open spec fn unnamed_entries(fields: Seq<UnnamedField>) -> Seq<Seq<char>> {
    Seq::new(
        fields.len(),
        |i: int|
            if fields[i].is_default {
                "_"@
            } else {
                fields[i].text@
            },
    )
}

/// The text that [`debug_non_default`] produces.
///
/// * named fields: `Name { a: 1, c: 3 }`, or just `Name` when every field is
///   at its default;
/// * tuple fields: `Name(1, _, 3)`, or just `Name` when there is no field;
/// * unit struct: `Name`.
pub open spec fn rendered(struct_name: Seq<char>, fields: Fields) -> Seq<char> {
    match fields {
        Fields::Named(fs) => {
            let entries = named_entries(fs@);
            if entries.len() == 0 {
                struct_name
            } else {
                struct_name + " { "@ + join(entries, ", "@) + " }"@
            }
        },
        Fields::Unnamed(fs) => {
            if fs@.len() == 0 {
                struct_name
            } else {
                struct_name + "("@ + join(unnamed_entries(fs@), ", "@) + ")"@
            }
        },
        Fields::Unit => struct_name,
    }
}

/// Appending one more entry to a non-empty list puts a separator before it.
proof fn lemma_join_push(entries: Seq<Seq<char>>, sep: Seq<char>, entry: Seq<char>)
    ensures
        join(entries.push(entry), sep) == if entries.len() == 0 {
            entry
        } else {
            join(entries, sep) + sep + entry
        },
{
    let pushed = entries.push(entry);
    assert(pushed.drop_last() == entries);
    assert(pushed.last() == entry);
    assert(pushed[0] == if entries.len() == 0 {
        entry
    } else {
        entries[0]
    });
}

fn render_named(struct_name: &str, fields: &Vec<NamedField>) -> (out: String)
    ensures
        out@ == rendered(struct_name@, Fields::Named(*fields)),
{
    let mut out = String::from_str(struct_name);
    let mut has_fields = false;
    let mut i: usize = 0;
    while i < fields.len()
        invariant
            i <= fields.len(),
            has_fields == (named_entries(fields@.take(i as int)).len() > 0),
            out@ == struct_name@ + (if has_fields {
                " { "@ + join(named_entries(fields@.take(i as int)), ", "@)
            } else {
                Seq::empty()
            }),
        decreases fields.len() - i,
    {
        let f = &fields[i];
        proof {
            let next = fields@.take(i + 1);
            assert(next.drop_last() == fields@.take(i as int));
            assert(next.last() == fields@[i as int]);
            lemma_join_push(
                named_entries(fields@.take(i as int)),
                ", "@,
                f.name@ + ": "@ + f.text@,
            );
        }
        if !f.is_default {
            if has_fields {
                out.append(", ");
            } else {
                out.append(" { ");
            }
            out.append(f.name.as_str());
            out.append(": ");
            out.append(f.text.as_str());
            has_fields = true;
        }
        i += 1;
    }
    assert(fields@.take(i as int) == fields@);
    if has_fields {
        out.append(" }");
    }
    out
}

fn render_unnamed(struct_name: &str, fields: &Vec<UnnamedField>) -> (out: String)
    ensures
        out@ == rendered(struct_name@, Fields::Unnamed(*fields)),
{
    let mut out = String::from_str(struct_name);
    let mut i: usize = 0;
    while i < fields.len()
        invariant
            i <= fields.len(),
            out@ == struct_name@ + (if i > 0 {
                "("@ + join(unnamed_entries(fields@).take(i as int), ", "@)
            } else {
                Seq::empty()
            }),
        decreases fields.len() - i,
    {
        let f = &fields[i];
        proof {
            let entries = unnamed_entries(fields@);
            assert(entries.take(i + 1) == entries.take(i as int).push(entries[i as int]));
            lemma_join_push(entries.take(i as int), ", "@, entries[i as int]);
        }
        if i == 0 {
            out.append("(");
        } else {
            out.append(", ");
        }
        if f.is_default {
            out.append("_");
        } else {
            out.append(f.text.as_str());
        }
        i += 1;
    }
    assert(unnamed_entries(fields@).take(i as int) == unnamed_entries(fields@));
    if i > 0 {
        out.append(")");
    }
    out
}

/// Renders a struct value, given its type's name and its fields.
///
/// Named fields that equal their default are left out; tuple fields that equal
/// their default are shown as `_`, so that the others keep their position.
pub fn debug_non_default(struct_name: &str, fields: &Fields) -> (out: String)
    ensures
        out@ == rendered(struct_name@, *fields),
{
    match fields {
        Fields::Named(fs) => render_named(struct_name, fs),
        Fields::Unnamed(fs) => render_unnamed(struct_name, fs),
        Fields::Unit => String::from_str(struct_name),
    }
}

} // verus!
