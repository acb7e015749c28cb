use vstd::prelude::*;
use vstd::string::*;
use crate::blueprint::{opt_view, Argument, Blueprint, CompiledCode, PlutusVersion, Preamble, Purpose, Validator};
use crate::json::{
    decimal, escape_pointer, json_quoted, plutus_version_json, pointer_escaped, purpose_json,
    push_decimal, quote, write_quoted,
};
use crate::schema::{Definition, Definitions, PrimitiveKind, Schema};

verus! {

broadcast use vstd::std_specs::vec::group_vec_axioms;

/// The indentation of depth `n`: two spaces per level.
pub open spec fn indent(n: nat) -> Seq<char>
    decreases n,
{
    if n == 0 {
        Seq::empty()
    } else {
        indent((n - 1) as nat) + "  "@
    }
}

/// A line break followed by the indentation of depth `l`.
#[verifier::opaque]
pub open spec fn newline(l: usize) -> Seq<char> {
    "\n"@ + indent(l as nat)
}

/// The depth of the members of a value at depth `l`.
pub open spec fn deeper(l: usize) -> usize {
    if l < usize::MAX {
        (l + 1) as usize
    } else {
        l
    }
}

fn next_depth(l: usize) -> (r: usize)
    ensures
        r == deeper(l),
{
    if l < usize::MAX {
        l + 1
    } else {
        l
    }
}

fn push_newline(l: usize, out: &mut String)
    ensures
        final(out)@ == old(out)@ + newline(l),
{
    let ghost start = out@;
    proof {
        reveal(newline);
    }
    out.append("\n");
    let mut i: usize = 0;
    while i < l
        invariant
            0 <= i <= l,
            out@ == start + "\n"@ + indent(i as nat),
        decreases l - i,
    {
        out.append("  ");
        proof {
            assert(out@ =~= start + "\n"@ + indent((i + 1) as nat));
        }
        i = i + 1;
    }
}

/// The pretty name of a primitive kind, as the value of `dataType`.
pub open spec fn primitive_name(k: PrimitiveKind) -> Seq<char> {
    match k {
        PrimitiveKind::Integer => "\"integer\""@,
        PrimitiveKind::Bytes => "\"bytes\""@,
        PrimitiveKind::Text => "\"#string\""@,
        PrimitiveKind::Boolean => "\"#boolean\""@,
        PrimitiveKind::Unit => "\"#unit\""@,
        PrimitiveKind::Data => Seq::empty(),
    }
}

/// The pretty-printed document of a schema whose opening brace stands at
/// depth `l`.
pub open spec fn schema_pretty(s: Schema, l: usize) -> Seq<char>
    decreases s, 0nat,
{
    let n = deeper(l);
    match s {
        Schema::Primitive(k) => if k == PrimitiveKind::Data {
            "{}"@
        } else {
            "{"@ + newline(n) + "\"dataType\": "@ + primitive_name(k) + newline(l) + "}"@
        },
        Schema::List(item) => "{"@ + newline(n) + "\"dataType\": \"list\","@ + newline(n)
            + "\"items\": "@ + schema_pretty(*item, n) + newline(l) + "}"@,
        Schema::Tuple(items) => "{"@ + newline(n) + "\"dataType\": \"list\","@ + newline(n)
            + "\"items\": "@ + schemas_pretty(items@, n) + newline(l) + "}"@,
        Schema::Constructor(index, fields) => "{"@ + newline(n) + "\"dataType\": \"constructor\","@
            + newline(n) + "\"index\": "@ + decimal(index as nat) + ","@ + newline(n)
            + "\"fields\": "@ + schemas_pretty(fields@, n) + newline(l) + "}"@,
        Schema::AnyOf(variants) => "{"@ + newline(n) + "\"anyOf\": "@ + schemas_pretty(
            variants@,
            n,
        ) + newline(l) + "}"@,
        Schema::Reference(id) => "{"@ + newline(n) + "\"$ref\": "@ + json_quoted(
            "#/definitions/"@ + pointer_escaped(id@),
        ) + newline(l) + "}"@,
    }
}

/// A pretty-printed array of schemas whose opening bracket stands at depth
/// `l`: `[]` when empty, else one element per line.
pub open spec fn schemas_pretty(items: Seq<Schema>, l: usize) -> Seq<char>
    decreases items, items.len() + 1,
{
    if items.len() == 0 {
        "[]"@
    } else {
        "["@ + newline(deeper(l)) + schemas_pretty_upto(items, items.len(), l) + newline(l) + "]"@
    }
}

/// The first `n` elements of an array at depth `l`, separated by a comma and
/// a line break.
pub open spec fn schemas_pretty_upto(items: Seq<Schema>, n: nat, l: usize) -> Seq<char>
    decreases items, n,
{
    if n == 0 || n > items.len() {
        Seq::empty()
    } else if n == 1 {
        schema_pretty(items[0], deeper(l))
    } else {
        schemas_pretty_upto(items, (n - 1) as nat, l) + ","@ + newline(deeper(l)) + schema_pretty(
            items[n - 1],
            deeper(l),
        )
    }
}

fn write_schemas_pretty(items: &Vec<Schema>, l: usize, out: &mut String)
    ensures
        final(out)@ == old(out)@ + schemas_pretty(items@, l),
    decreases items,
{
    let ghost start = out@;
    if items.len() == 0 {
        out.append("[]");
        return;
    }
    let n = next_depth(l);
    out.append("[");
    push_newline(n, out);
    let ghost open = out@;
    let mut i: usize = 0;
    while i < items.len()
        invariant
            0 <= i <= items@.len(),
            n == deeper(l),
            out@ == open + schemas_pretty_upto(items@, i as nat, l),
        decreases items@.len() - i,
    {
        if i > 0 {
            out.append(",");
            push_newline(n, out);
        }
        proof {
            assert(decreases_to!(*items => items[i as int]));
        }
        write_schema_pretty(&items[i], n, out);
        proof {
            assert(out@ =~= open + schemas_pretty_upto(items@, (i + 1) as nat, l));
        }
        i = i + 1;
    }
    push_newline(l, out);
    out.append("]");
    proof {
        assert(out@ =~= start + schemas_pretty(items@, l));
    }
}

/// Appends the pretty-printed document of `s`, its opening brace at depth
/// `l`, to `out`.
#[verifier::rlimit(40)]
pub fn write_schema_pretty(s: &Schema, l: usize, out: &mut String)
    ensures
        final(out)@ == old(out)@ + schema_pretty(*s, l),
    decreases s,
{
    let ghost start = out@;
    let n = next_depth(l);
    match s {
        Schema::Primitive(k) => {
            match k {
                PrimitiveKind::Data => {
                    out.append("{}");
                    return;
                },
                _ => {},
            }
            out.append("{");
            push_newline(n, out);
            out.append("\"dataType\": ");
            match k {
                PrimitiveKind::Integer => out.append("\"integer\""),
                PrimitiveKind::Bytes => out.append("\"bytes\""),
                PrimitiveKind::Text => out.append("\"#string\""),
                PrimitiveKind::Boolean => out.append("\"#boolean\""),
                PrimitiveKind::Unit => out.append("\"#unit\""),
                PrimitiveKind::Data => {},
            }
            push_newline(l, out);
            out.append("}");
            proof {
                assert(out@ =~= start + schema_pretty(*s, l));
            }
        },
        Schema::List(item) => {
            out.append("{");
            push_newline(n, out);
            out.append("\"dataType\": \"list\",");
            push_newline(n, out);
            out.append("\"items\": ");
            write_schema_pretty(item, n, out);
            push_newline(l, out);
            out.append("}");
            proof {
                assert(out@ =~= start + schema_pretty(*s, l));
            }
        },
        Schema::Tuple(items) => {
            out.append("{");
            push_newline(n, out);
            out.append("\"dataType\": \"list\",");
            push_newline(n, out);
            out.append("\"items\": ");
            proof {
                assert(decreases_to!(*s => s->Tuple_0));
            }
            write_schemas_pretty(items, n, out);
            push_newline(l, out);
            out.append("}");
            proof {
                assert(out@ =~= start + schema_pretty(*s, l));
            }
        },
        Schema::Constructor(index, fields) => {
            out.append("{");
            push_newline(n, out);
            out.append("\"dataType\": \"constructor\",");
            push_newline(n, out);
            out.append("\"index\": ");
            push_decimal(*index, out);
            out.append(",");
            push_newline(n, out);
            out.append("\"fields\": ");
            proof {
                assert(decreases_to!(*s => s->Constructor_1));
            }
            write_schemas_pretty(fields, n, out);
            push_newline(l, out);
            out.append("}");
            proof {
                assert(out@ =~= start + schema_pretty(*s, l));
            }
        },
        Schema::AnyOf(variants) => {
            out.append("{");
            push_newline(n, out);
            out.append("\"anyOf\": ");
            proof {
                assert(decreases_to!(*s => s->AnyOf_0));
            }
            write_schemas_pretty(variants, n, out);
            push_newline(l, out);
            out.append("}");
            proof {
                assert(out@ =~= start + schema_pretty(*s, l));
            }
        },
        Schema::Reference(id) => {
            let mut target = String::from_str("#/definitions/");
            target.append(escape_pointer(id).as_str());
            out.append("{");
            push_newline(n, out);
            out.append("\"$ref\": ");
            out.append(quote(target.as_str()).as_str());
            push_newline(l, out);
            out.append("}");
            proof {
                assert(out@ =~= start + schema_pretty(*s, l));
            }
        },
    }
}

/// `sep` followed by `key` and the quoted value, or nothing when there is no
/// value.
pub open spec fn optional_member(sep: Seq<char>, key: Seq<char>, value: Option<Seq<char>>) -> Seq<char> {
    match value {
        Some(v) => sep + key + json_quoted(v),
        None => Seq::empty(),
    }
}

/// The pretty-printed preamble, its opening brace at depth `l`.
#[verifier::opaque]
pub open spec fn preamble_pretty(p: Preamble, l: usize) -> Seq<char> {
    let n = deeper(l);
    "{"@ + newline(n) + "\"title\": "@ + json_quoted(p.title@) + optional_member(
        ","@ + newline(n),
        "\"description\": "@,
        opt_view(p.description),
    ) + ","@ + newline(n) + "\"version\": "@ + json_quoted(p.version@) + ","@ + newline(n)
        + "\"plutusVersion\": "@ + plutus_version_json(p.plutus_version) + optional_member(
        ","@ + newline(n),
        "\"license\": "@,
        opt_view(p.license),
    ) + newline(l) + "}"@
}

fn write_optional_member(n: usize, key: &str, value: &Option<String>, out: &mut String)
    ensures
        final(out)@ == old(out)@ + optional_member(","@ + newline(n), key@, opt_view(*value)),
{
    let ghost start = out@;
    match value {
        Some(v) => {
            out.append(",");
            push_newline(n, out);
            out.append(key);
            write_quoted(v, out);
            proof {
                assert(out@ =~= start + optional_member(","@ + newline(n), key@, opt_view(*value)));
            }
        },
        None => {
            proof {
                assert(out@ =~= start + optional_member(","@ + newline(n), key@, opt_view(*value)));
            }
        },
    }
}

/// Appends the pretty-printed preamble, its opening brace at depth `l`.
pub fn write_preamble_pretty(p: &Preamble, l: usize, out: &mut String)
    ensures
        final(out)@ == old(out)@ + preamble_pretty(*p, l),
{
    let ghost start = out@;
    let n = next_depth(l);
    out.append("{");
    push_newline(n, out);
    out.append("\"title\": ");
    write_quoted(&p.title, out);
    write_optional_member(n, "\"description\": ", &p.description, out);
    out.append(",");
    push_newline(n, out);
    out.append("\"version\": ");
    write_quoted(&p.version, out);
    out.append(",");
    push_newline(n, out);
    out.append("\"plutusVersion\": ");
    match p.plutus_version {
        PlutusVersion::V1 => out.append("\"v1\""),
        PlutusVersion::V2 => out.append("\"v2\""),
    }
    write_optional_member(n, "\"license\": ", &p.license, out);
    push_newline(l, out);
    out.append("}");
    proof {
        reveal(preamble_pretty);
        assert(out@ =~= start + preamble_pretty(*p, l));
    }
}

/// The pretty-printed argument, its opening brace at depth `l`.
#[verifier::opaque]
pub open spec fn argument_pretty(a: Argument<Schema>, l: usize) -> Seq<char> {
    let n = deeper(l);
    "{"@ + newline(n) + match a.title {
        Some(t) => "\"title\": "@ + json_quoted(t@) + ","@ + newline(n),
        None => Seq::empty(),
    } + "\"schema\": "@ + schema_pretty(a.schema, n) + newline(l) + "}"@
}

fn write_argument_pretty(a: &Argument<Schema>, l: usize, out: &mut String)
    ensures
        final(out)@ == old(out)@ + argument_pretty(*a, l),
{
    let ghost start = out@;
    let n = next_depth(l);
    out.append("{");
    push_newline(n, out);
    match &a.title {
        Some(t) => {
            out.append("\"title\": ");
            write_quoted(t, out);
            out.append(",");
            push_newline(n, out);
        },
        None => {},
    }
    out.append("\"schema\": ");
    write_schema_pretty(&a.schema, n, out);
    push_newline(l, out);
    out.append("}");
    proof {
        reveal(argument_pretty);
        assert(out@ =~= start + argument_pretty(*a, l));
    }
}

/// The first `n` arguments of an array at depth `l`, one per line.
#[verifier::opaque]
pub open spec fn arguments_pretty_upto(items: Seq<Argument<Schema>>, n: nat, l: usize) -> Seq<char>
    decreases n,
{
    if n == 0 || n > items.len() {
        Seq::empty()
    } else if n == 1 {
        argument_pretty(items[0], deeper(l))
    } else {
        arguments_pretty_upto(items, (n - 1) as nat, l) + ","@ + newline(deeper(l))
            + argument_pretty(items[n - 1], deeper(l))
    }
}

/// A pretty-printed array of arguments at depth `l`; `[]` when empty.
#[verifier::opaque]
pub open spec fn arguments_pretty(items: Seq<Argument<Schema>>, l: usize) -> Seq<char> {
    if items.len() == 0 {
        "[]"@
    } else {
        "["@ + newline(deeper(l)) + arguments_pretty_upto(items, items.len(), l) + newline(l) + "]"@
    }
}

fn write_arguments_pretty(items: &Vec<Argument<Schema>>, l: usize, out: &mut String)
    ensures
        final(out)@ == old(out)@ + arguments_pretty(items@, l),
{
    let ghost start = out@;
    proof {
        reveal(arguments_pretty);
        reveal_with_fuel(arguments_pretty_upto, 1);
    }
    if items.len() == 0 {
        out.append("[]");
        return;
    }
    let n = next_depth(l);
    out.append("[");
    push_newline(n, out);
    let ghost open = out@;
    let mut i: usize = 0;
    while i < items.len()
        invariant
            0 <= i <= items@.len(),
            n == deeper(l),
            out@ == open + arguments_pretty_upto(items@, i as nat, l),
        decreases items@.len() - i,
    {
        if i > 0 {
            out.append(",");
            push_newline(n, out);
        }
        write_argument_pretty(&items[i], n, out);
        proof {
            reveal_with_fuel(arguments_pretty_upto, 1);
            assert(out@ =~= open + arguments_pretty_upto(items@, (i + 1) as nat, l));
        }
        i = i + 1;
    }
    push_newline(l, out);
    out.append("]");
    proof {
        reveal(arguments_pretty);
        assert(out@ =~= start + arguments_pretty(items@, l));
    }
}

/// The first `n` definitions of an object at depth `l`, one member per line.
#[verifier::opaque]
pub open spec fn definitions_pretty_upto(items: Seq<Definition>, n: nat, l: usize) -> Seq<char>
    decreases n,
{
    if n == 0 || n > items.len() {
        Seq::empty()
    } else if n == 1 {
        json_quoted(items[0].id@) + ": "@ + schema_pretty(items[0].schema, deeper(l))
    } else {
        definitions_pretty_upto(items, (n - 1) as nat, l) + ","@ + newline(deeper(l)) + json_quoted(
            items[n - 1].id@,
        ) + ": "@ + schema_pretty(items[n - 1].schema, deeper(l))
    }
}

/// A pretty-printed table of definitions at depth `l`; `{}` when empty.
#[verifier::opaque]
pub open spec fn definitions_pretty(items: Seq<Definition>, l: usize) -> Seq<char> {
    if items.len() == 0 {
        "{}"@
    } else {
        "{"@ + newline(deeper(l)) + definitions_pretty_upto(items, items.len(), l) + newline(l)
            + "}"@
    }
}

fn write_definitions_pretty(defs: &Definitions, l: usize, out: &mut String)
    ensures
        final(out)@ == old(out)@ + definitions_pretty(defs.entries@, l),
{
    let ghost start = out@;
    proof {
        reveal(definitions_pretty);
        reveal_with_fuel(definitions_pretty_upto, 1);
    }
    let items = &defs.entries;
    if items.len() == 0 {
        out.append("{}");
        return;
    }
    let n = next_depth(l);
    out.append("{");
    push_newline(n, out);
    let ghost open = out@;
    let mut i: usize = 0;
    while i < items.len()
        invariant
            0 <= i <= items@.len(),
            n == deeper(l),
            out@ == open + definitions_pretty_upto(items@, i as nat, l),
        decreases items@.len() - i,
    {
        if i > 0 {
            out.append(",");
            push_newline(n, out);
        }
        write_quoted(&items[i].id, out);
        out.append(": ");
        write_schema_pretty(&items[i].schema, n, out);
        proof {
            reveal_with_fuel(definitions_pretty_upto, 1);
            assert(out@ =~= open + definitions_pretty_upto(items@, (i + 1) as nat, l));
        }
        i = i + 1;
    }
    push_newline(l, out);
    out.append("}");
    proof {
        reveal(definitions_pretty);
        assert(out@ =~= start + definitions_pretty(defs.entries@, l));
    }
}

/// The pretty-printed compiled code, its opening brace at depth `l`.
#[verifier::opaque]
pub open spec fn code_pretty(c: CompiledCode, l: usize) -> Seq<char> {
    "{"@ + newline(deeper(l)) + "\"hex\": "@ + json_quoted(c.hex@) + ","@ + newline(deeper(l))
        + "\"hash\": "@ + json_quoted(c.hash@) + newline(l) + "}"@
}

fn write_code_pretty(c: &CompiledCode, l: usize, out: &mut String)
    ensures
        final(out)@ == old(out)@ + code_pretty(*c, l),
{
    let ghost start = out@;
    let n = next_depth(l);
    out.append("{");
    push_newline(n, out);
    out.append("\"hex\": ");
    write_quoted(&c.hex, out);
    out.append(",");
    push_newline(n, out);
    out.append("\"hash\": ");
    write_quoted(&c.hash, out);
    push_newline(l, out);
    out.append("}");
    proof {
        reveal(code_pretty);
        assert(out@ =~= start + code_pretty(*c, l));
    }
}

/// The opening of a pretty-printed validator at depth `l`: its title,
/// purpose and datum.
#[verifier::opaque]
pub open spec fn validator_head_pretty(v: Validator<Schema>, l: usize) -> Seq<char> {
    let n = deeper(l);
    "{"@ + newline(n) + "\"title\": "@ + json_quoted(v.title@) + match v.purpose {
        Some(p) => ","@ + newline(n) + "\"purpose\": "@ + purpose_json(p),
        None => Seq::empty(),
    } + match v.datum {
        Some(d) => ","@ + newline(n) + "\"datum\": "@ + argument_pretty(d, n),
        None => Seq::empty(),
    }
}

/// The rest of a pretty-printed validator at depth `l`.
#[verifier::opaque]
pub open spec fn validator_body_pretty(v: Validator<Schema>, l: usize) -> Seq<char> {
    let n = deeper(l);
    ","@ + newline(n) + "\"redeemer\": "@ + argument_pretty(v.redeemer, n) + ","@ + newline(n)
        + "\"parameters\": "@ + arguments_pretty(v.parameters@, n) + ","@ + newline(n)
        + "\"compiledCode\": "@ + code_pretty(v.compiled_code, n) + ","@ + newline(n)
        + "\"definitions\": "@ + definitions_pretty(v.definitions.entries@, n) + newline(l) + "}"@
}

/// The pretty-printed validator, its opening brace at depth `l`.
#[verifier::opaque]
pub open spec fn validator_pretty(v: Validator<Schema>, l: usize) -> Seq<char> {
    validator_head_pretty(v, l) + validator_body_pretty(v, l)
}

fn write_validator_head_pretty(v: &Validator<Schema>, l: usize, out: &mut String)
    ensures
        final(out)@ == old(out)@ + validator_head_pretty(*v, l),
{
    let ghost start = out@;
    let n = next_depth(l);
    out.append("{");
    push_newline(n, out);
    out.append("\"title\": ");
    write_quoted(&v.title, out);
    match v.purpose {
        Some(p) => {
            out.append(",");
            push_newline(n, out);
            out.append("\"purpose\": ");
            match p {
                Purpose::Spend => out.append("\"spend\""),
                Purpose::Mint => out.append("\"mint\""),
                Purpose::Withdraw => out.append("\"withdraw\""),
                Purpose::Publish => out.append("\"publish\""),
            }
        },
        None => {},
    }
    match &v.datum {
        Some(d) => {
            out.append(",");
            push_newline(n, out);
            out.append("\"datum\": ");
            write_argument_pretty(d, n, out);
        },
        None => {},
    }
    proof {
        reveal(validator_head_pretty);
        assert(out@ =~= start + validator_head_pretty(*v, l));
    }
}

fn write_validator_body_pretty(v: &Validator<Schema>, l: usize, out: &mut String)
    ensures
        final(out)@ == old(out)@ + validator_body_pretty(*v, l),
{
    let ghost start = out@;
    let n = next_depth(l);
    out.append(",");
    push_newline(n, out);
    out.append("\"redeemer\": ");
    write_argument_pretty(&v.redeemer, n, out);
    out.append(",");
    push_newline(n, out);
    out.append("\"parameters\": ");
    write_arguments_pretty(&v.parameters, n, out);
    out.append(",");
    push_newline(n, out);
    out.append("\"compiledCode\": ");
    write_code_pretty(&v.compiled_code, n, out);
    out.append(",");
    push_newline(n, out);
    out.append("\"definitions\": ");
    write_definitions_pretty(&v.definitions, n, out);
    push_newline(l, out);
    out.append("}");
    proof {
        reveal(validator_body_pretty);
        assert(out@ =~= start + validator_body_pretty(*v, l));
    }
}

/// The first `n` validators of an array at depth `l`, one per line.
#[verifier::opaque]
pub open spec fn validators_pretty_upto(items: Seq<Validator<Schema>>, n: nat, l: usize) -> Seq<char>
    decreases n,
{
    if n == 0 || n > items.len() {
        Seq::empty()
    } else if n == 1 {
        validator_pretty(items[0], deeper(l))
    } else {
        validators_pretty_upto(items, (n - 1) as nat, l) + ","@ + newline(deeper(l))
            + validator_pretty(items[n - 1], deeper(l))
    }
}

/// A pretty-printed array of validators at depth `l`; `[]` when empty.
#[verifier::opaque]
pub open spec fn validators_pretty(items: Seq<Validator<Schema>>, l: usize) -> Seq<char> {
    if items.len() == 0 {
        "[]"@
    } else {
        "["@ + newline(deeper(l)) + validators_pretty_upto(items, items.len(), l) + newline(l) + "]"@
    }
}

fn write_validators_pretty(items: &Vec<Validator<Schema>>, l: usize, out: &mut String)
    ensures
        final(out)@ == old(out)@ + validators_pretty(items@, l),
{
    let ghost start = out@;
    proof {
        reveal(validators_pretty);
        reveal_with_fuel(validators_pretty_upto, 1);
    }
    if items.len() == 0 {
        out.append("[]");
        return;
    }
    let n = next_depth(l);
    out.append("[");
    push_newline(n, out);
    let ghost open = out@;
    let mut i: usize = 0;
    while i < items.len()
        invariant
            0 <= i <= items@.len(),
            n == deeper(l),
            out@ == open + validators_pretty_upto(items@, i as nat, l),
        decreases items@.len() - i,
    {
        if i > 0 {
            out.append(",");
            push_newline(n, out);
        }
        let ghost before = out@;
        write_validator_head_pretty(&items[i], n, out);
        write_validator_body_pretty(&items[i], n, out);
        proof {
            reveal(validator_pretty);
            assert(out@ =~= before + validator_pretty(items@[i as int], n));
            reveal_with_fuel(validators_pretty_upto, 1);
            assert(out@ =~= open + validators_pretty_upto(items@, (i + 1) as nat, l));
        }
        i = i + 1;
    }
    push_newline(l, out);
    out.append("]");
    proof {
        reveal(validators_pretty);
        assert(out@ =~= start + validators_pretty(items@, l));
    }
}

/// The pretty-printed document of a blueprint: two spaces per level, one
/// member or element per line, `": "` between a key and its value, and
/// `[]` or `{}` for an empty array or object.
#[verifier::opaque]
pub open spec fn blueprint_pretty(b: Blueprint<Schema>) -> Seq<char> {
    "{"@ + newline(1) + "\"preamble\": "@ + preamble_pretty(b.preamble, 1) + ","@ + newline(1)
        + "\"validators\": "@ + validators_pretty(b.validators@, 1) + newline(0) + "}"@
}

impl Blueprint<Schema> {
    /// The blueprint in its default textual form: pretty-printed JSON, in
    /// document order. Optional fields with no value are left out.
    pub fn to_pretty_json(&self) -> (r: String)
        ensures
            r@ == blueprint_pretty(*self),
    {
        let mut out = String::new();
        out.append("{");
        push_newline(1, &mut out);
        out.append("\"preamble\": ");
        write_preamble_pretty(&self.preamble, 1, &mut out);
        out.append(",");
        push_newline(1, &mut out);
        out.append("\"validators\": ");
        write_validators_pretty(&self.validators, 1, &mut out);
        push_newline(0, &mut out);
        out.append("}");
        proof {
            assert(deeper(0) == 1);
            reveal(blueprint_pretty);
            assert(out@ =~= blueprint_pretty(*self));
        }
        out
    }
}

} // verus!
