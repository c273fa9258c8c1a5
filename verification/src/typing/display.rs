//! Writes types as text.
use super::types::{
    fields_view, lemma_block_view, lemma_record_view, types_view, FieldTy, RecordField, Ty, Type,
};
use crate::text::{push_char, push_text};
use vstd::prelude::*;

verus! {

/// `acc` with the text of the type: see `type_text`.
pub open spec fn type_onto(t: Ty, acc: Seq<char>) -> Seq<char>
    decreases t, 1int,
{
    match t {
        Ty::Any => acc + "any"@,
        Ty::Never => acc + "never"@,
        Ty::Num => acc + "number"@,
        Ty::Str => acc + "string"@,
        Ty::Bool => acc + "boolean"@,
        Ty::Time => acc + "time"@,
        Ty::Money => acc + "money"@,
        Ty::List(e) => type_onto(*e, acc + "[ "@) + "... ]"@,
        Ty::Var(name) => acc + name,
        Ty::Record(partial, fields) => {
            let opened = if partial {
                acc.push('[').push('?')
            } else {
                acc.push('[')
            };
            let listed = fields_onto(fields, 0, fields_onto(fields, 0, opened, false), true).push(
                ' ',
            );
            if partial {
                listed.push('?').push(']')
            } else {
                listed.push(']')
            }
        },
        Ty::Block(inputs, output) => {
            let opened = acc + "{ "@;
            let listed = if inputs.len() > 0 {
                inputs_onto(inputs, 0, opened) + "=> "@
            } else {
                opened
            };
            type_onto(*output, listed) + " }"@
        },
    }
}

/// `acc` with the texts of the fields from position `i` on that are optional or not,
/// as `optional` says: a blank, the name, `?` for an optional field, `=` and the type.
pub open spec fn fields_onto(fields: Seq<FieldTy>, i: int, acc: Seq<char>, optional: bool) -> Seq<
    char,
>
    decreases fields, fields.len() - i,
{
    if i < 0 || i >= fields.len() {
        acc
    } else if fields[i].optional != optional {
        fields_onto(fields, i + 1, acc, optional)
    } else {
        let named = acc.push(' ') + fields[i].name;
        let marked = if optional {
            named.push('?')
        } else {
            named
        };
        fields_onto(fields, i + 1, type_onto(fields[i].ty, marked.push('=')), optional)
    }
}

/// `acc` with the texts of the types from position `i` on, each with a blank behind it.
pub open spec fn inputs_onto(inputs: Seq<Ty>, i: int, acc: Seq<char>) -> Seq<char>
    decreases inputs, inputs.len() - i,
{
    if i < 0 || i >= inputs.len() {
        acc
    } else {
        inputs_onto(inputs, i + 1, type_onto(inputs[i], acc).push(' '))
    }
}

/// The text of a type.
///
/// The primitive types are `number`, `string`, `boolean`, `time` and `money`; the others
/// are `any`, `never`, and a variable's name. A list of `T` is `[ T... ]`. A record is
/// `[ name=T other?=U ]`: the required fields first, then the optional ones with `?`,
/// each group in the order of the names; a partial record has `?` behind `[` and
/// before `]`. A block is `{ A B => C }`, or `{ C }` without inputs.
pub open spec fn type_text(t: Ty) -> Seq<char> {
    type_onto(t, Seq::empty())
}

fn write_fields(fields: &Vec<(String, RecordField)>, out: &mut String, optional: bool)
    ensures
        final(out)@ == fields_onto(fields_view(fields@), 0, old(out)@, optional),
    decreases fields,
{
    let mut i: usize = 0;
    while i < fields.len()
        invariant
            i <= fields.len(),
            fields_onto(fields_view(fields@), i as int, out@, optional) == fields_onto(
                fields_view(fields@),
                0,
                old(out)@,
                optional,
            ),
        decreases fields.len() - i,
    {
        if fields[i].1.optional == optional {
            push_char(out, ' ');
            push_text(out, fields[i].0.as_str());
            if optional {
                push_char(out, '?');
            }
            push_char(out, '=');
            write_type(&fields[i].1.ty, out);
        }
        i += 1;
    }
}

fn write_inputs(inputs: &Vec<Type>, out: &mut String)
    ensures
        final(out)@ == inputs_onto(types_view(inputs@), 0, old(out)@),
    decreases inputs,
{
    let mut i: usize = 0;
    while i < inputs.len()
        invariant
            i <= inputs.len(),
            inputs_onto(types_view(inputs@), i as int, out@) == inputs_onto(
                types_view(inputs@),
                0,
                old(out)@,
            ),
        decreases inputs.len() - i,
    {
        write_type(&inputs[i], out);
        push_char(out, ' ');
        i += 1;
    }
}

/// Adds the text of a type to `out`.
pub fn write_type(t: &Type, out: &mut String)
    ensures
        final(out)@ == type_onto(t@, old(out)@),
    decreases t,
{
    match t {
        Type::Any => push_text(out, "any"),
        Type::Never => push_text(out, "never"),
        Type::Num => push_text(out, "number"),
        Type::Str => push_text(out, "string"),
        Type::Bool => push_text(out, "boolean"),
        Type::Time => push_text(out, "time"),
        Type::Money => push_text(out, "money"),
        Type::List(e) => {
            push_text(out, "[ ");
            write_type(e, out);
            push_text(out, "... ]");
        },
        Type::Var(name) => push_text(out, name.as_str()),
        Type::Record(partial, fields) => {
            proof {
                lemma_record_view(*partial, *fields);
            }
            push_char(out, '[');
            if *partial {
                push_char(out, '?');
            }
            write_fields(fields, out, false);
            write_fields(fields, out, true);
            push_char(out, ' ');
            if *partial {
                push_char(out, '?');
            }
            push_char(out, ']');
        },
        Type::Block(inputs, output) => {
            proof {
                lemma_block_view(*inputs, *output);
            }
            push_text(out, "{ ");
            if inputs.len() > 0 {
                write_inputs(inputs, out);
                push_text(out, "=> ");
            }
            write_type(output, out);
            push_text(out, " }");
        },
    }
}

impl Type {
    /// The text of the type: see `type_text`.
    pub fn to_text(&self) -> (text: String)
        ensures
            text@ == type_text(self@),
    {
        let mut text = String::new();
        write_type(self, &mut text);
        text
    }
}

} // verus!
