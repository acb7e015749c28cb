use vstd::prelude::*;
use vstd::string::*;
use crate::blueprint::{Argument, Blueprint, CompiledCode, PlutusVersion, Preamble, Purpose, Validator};
use crate::schema::{Definition, Definitions, PrimitiveKind, Schema};

verus! {

broadcast use vstd::std_specs::vec::group_vec_axioms;

/// The lower-case hexadecimal digit of `d`.
pub open spec fn hex_digit(d: nat) -> char {
    if d < 10 { digit(d) } else if d == 10 { 'a' } else if d == 11 { 'b' } else if d == 12 { 'c' }
    else if d == 13 { 'd' } else if d == 14 { 'e' } else { 'f' }
}

/// How one character is written inside a JSON string: quote and backslash
/// are escaped, the usual control characters take their short escape, the
/// other control characters a `\u00xx` escape, and the rest stand as they are.
pub open spec fn escaped_char(c: char) -> Seq<char> {
    if c == '"' {
        seq!['\\', '"']
    } else if c == '\\' {
        seq!['\\', '\\']
    } else if c == '\x08' {
        seq!['\\', 'b']
    } else if c == '\t' {
        seq!['\\', 't']
    } else if c == '\n' {
        seq!['\\', 'n']
    } else if c == '\x0c' {
        seq!['\\', 'f']
    } else if c == '\r' {
        seq!['\\', 'r']
    } else if (c as u32) < 32 {
        seq!['\\', 'u', '0', '0', hex_digit((c as u32 / 16) as nat), hex_digit((c as u32 % 16) as nat)]
    } else {
        seq![c]
    }
}

/// The characters of `s`, each escaped for a JSON string.
pub open spec fn escaped(s: Seq<char>) -> Seq<char>
    decreases s.len(),
{
    if s.len() == 0 {
        Seq::empty()
    } else {
        escaped(s.drop_last()) + escaped_char(s.last())
    }
}

/// The JSON string literal that encodes `s`, quotes and escapes included.
#[verifier::opaque]
pub open spec fn json_quoted(s: Seq<char>) -> Seq<char> {
    seq!['"'] + escaped(s) + seq!['"']
}

/// Relies on serde_json's `Display` for `Value::String`: it writes the
/// string between quotes, each character escaped by serde_json's table
/// (`format_escaped_str`), which `escaped_char` states.
#[verifier::external_body]
pub(crate) fn quote(s: &str) -> (r: String)
    ensures
        r@ == json_quoted(s@),
{
    serde_json::Value::String(s.to_string()).to_string()
}

/// The decimal digit of `d`.
pub open spec fn digit(d: nat) -> char {
    if d == 0 { '0' } else if d == 1 { '1' } else if d == 2 { '2' } else if d == 3 { '3' }
    else if d == 4 { '4' } else if d == 5 { '5' } else if d == 6 { '6' } else if d == 7 { '7' }
    else if d == 8 { '8' } else { '9' }
}

/// The decimal notation of `n`, without leading zeros.
pub open spec fn decimal(n: nat) -> Seq<char>
    decreases n,
{
    if n < 10 {
        seq![digit(n)]
    } else {
        decimal(n / 10).push(digit(n % 10))
    }
}

fn digit_str(d: usize) -> (r: &'static str)
    requires
        d < 10,
    ensures
        r@ == seq![digit(d as nat)],
{
    proof {
        reveal_strlit("0");
        reveal_strlit("1");
        reveal_strlit("2");
        reveal_strlit("3");
        reveal_strlit("4");
        reveal_strlit("5");
        reveal_strlit("6");
        reveal_strlit("7");
        reveal_strlit("8");
        reveal_strlit("9");
    }
    if d == 0 { "0" } else if d == 1 { "1" } else if d == 2 { "2" } else if d == 3 { "3" }
    else if d == 4 { "4" } else if d == 5 { "5" } else if d == 6 { "6" } else if d == 7 { "7" }
    else if d == 8 { "8" } else { "9" }
}

pub(crate) fn push_decimal(n: usize, out: &mut String)
    ensures
        final(out)@ == old(out)@ + decimal(n as nat),
    decreases n,
{
    if n < 10 {
        out.append(digit_str(n));
    } else {
        push_decimal(n / 10, out);
        out.append(digit_str(n % 10));
        proof {
            assert(old(out)@ + decimal(n as nat) =~= old(out)@ + decimal((n / 10) as nat) + seq![
                digit((n % 10) as nat),
            ]);
        }
    }
}

/// A definition id escaped for use in a JSON pointer: `~` becomes `~0` and
/// `/` becomes `~1`.
pub open spec fn pointer_escaped(s: Seq<char>) -> Seq<char>
    decreases s.len(),
{
    if s.len() == 0 {
        Seq::empty()
    } else {
        pointer_escaped(s.drop_last()) + if s.last() == '~' {
            seq!['~', '0']
        } else if s.last() == '/' {
            seq!['~', '1']
        } else {
            seq![s.last()]
        }
    }
}

pub(crate) fn escape_pointer(id: &String) -> (r: String)
    ensures
        r@ == pointer_escaped(id@),
{
    let s = id.as_str();
    let n = s.unicode_len();
    let mut r = String::new();
    let mut i: usize = 0;
    while i < n
        invariant
            0 <= i <= n,
            n == s@.len(),
            s@ == id@,
            r@ == pointer_escaped(s@.take(i as int)),
        decreases n - i,
    {
        let c = s.get_char(i);
        if c == '~' {
            r.append("~0");
        } else if c == '/' {
            r.append("~1");
        } else {
            r.append(s.substring_char(i, i + 1));
        }
        proof {
            let t = s@.take(i + 1);
            assert(t.drop_last() =~= s@.take(i as int));
            assert(t.last() == c);
            assert(s@.subrange(i as int, i + 1) =~= seq![c]);
            reveal_strlit("~0");
            reveal_strlit("~1");
            assert("~0"@ =~= seq!['~', '0']);
            assert("~1"@ =~= seq!['~', '1']);
            assert(r@ =~= pointer_escaped(t));
        }
        i = i + 1;
    }
    proof {
        assert(s@.take(n as int) =~= s@);
    }
    r
}

/// The schemas of `items`, first `n` of them, as JSON separated by commas.
pub open spec fn schemas_json(items: Seq<Schema>, n: nat) -> Seq<char>
    decreases items, n,
{
    if n == 0 || n > items.len() {
        Seq::empty()
    } else if n == 1 {
        schema_json(items[0])
    } else {
        schemas_json(items, (n - 1) as nat) + ","@ + schema_json(items[n - 1])
    }
}

/// The JSON name of a primitive kind.
pub open spec fn primitive_json(k: PrimitiveKind) -> Seq<char> {
    match k {
        PrimitiveKind::Integer => "{\"dataType\":\"integer\"}"@,
        PrimitiveKind::Bytes => "{\"dataType\":\"bytes\"}"@,
        PrimitiveKind::Text => "{\"dataType\":\"#string\"}"@,
        PrimitiveKind::Boolean => "{\"dataType\":\"#boolean\"}"@,
        PrimitiveKind::Unit => "{\"dataType\":\"#unit\"}"@,
        PrimitiveKind::Data => "{}"@,
    }
}

/// The JSON document of a schema.
pub open spec fn schema_json(s: Schema) -> Seq<char>
    decreases s, 0nat,
{
    match s {
        Schema::Primitive(k) => primitive_json(k),
        Schema::List(item) => "{\"dataType\":\"list\",\"items\":"@ + schema_json(*item) + "}"@,
        Schema::Tuple(items) => "{\"dataType\":\"list\",\"items\":["@ + schemas_json(
            items@,
            items@.len(),
        ) + "]}"@,
        Schema::Constructor(index, fields) => "{\"dataType\":\"constructor\",\"index\":"@
            + decimal(index as nat) + ",\"fields\":["@ + schemas_json(fields@, fields@.len())
            + "]}"@,
        Schema::AnyOf(variants) => "{\"anyOf\":["@ + schemas_json(variants@, variants@.len())
            + "]}"@,
        Schema::Reference(id) => "{\"$ref\":"@ + json_quoted("#/definitions/"@ + pointer_escaped(id@))
            + "}"@,
    }
}

fn write_schemas(items: &Vec<Schema>, out: &mut String)
    ensures
        final(out)@ == old(out)@ + schemas_json(items@, items@.len()),
    decreases items,
{
    let ghost start = out@;
    let mut i: usize = 0;
    while i < items.len()
        invariant
            0 <= i <= items@.len(),
            out@ == start + schemas_json(items@, i as nat),
        decreases items@.len() - i,
    {
        proof {
            reveal_strlit(",");
        }
        if i > 0 {
            out.append(",");
        }
        proof {
            assert(decreases_to!(*items => items[i as int]));
        }
        write_schema(&items[i], out);
        proof {
            if i == 0 {
                assert(out@ =~= start + schemas_json(items@, 1));
            } else {
                assert(out@ =~= start + schemas_json(items@, (i + 1) as nat));
            }
        }
        i = i + 1;
    }
    proof {
        if items@.len() == 0 {
            assert(out@ =~= start + schemas_json(items@, 0));
        }
    }
}

fn write_primitive(k: PrimitiveKind, out: &mut String)
    ensures
        final(out)@ == old(out)@ + primitive_json(k),
{
    match k {
        PrimitiveKind::Integer => out.append("{\"dataType\":\"integer\"}"),
        PrimitiveKind::Bytes => out.append("{\"dataType\":\"bytes\"}"),
        PrimitiveKind::Text => out.append("{\"dataType\":\"#string\"}"),
        PrimitiveKind::Boolean => out.append("{\"dataType\":\"#boolean\"}"),
        PrimitiveKind::Unit => out.append("{\"dataType\":\"#unit\"}"),
        PrimitiveKind::Data => out.append("{}"),
    }
}

/// Appends the JSON document of `s` to `out`.
pub fn write_schema(s: &Schema, out: &mut String)
    ensures
        final(out)@ == old(out)@ + schema_json(*s),
    decreases s,
{
    let ghost start = out@;
    match s {
        Schema::Primitive(k) => write_primitive(*k, out),
        Schema::List(item) => {
            out.append("{\"dataType\":\"list\",\"items\":");
            write_schema(item, out);
            out.append("}");
            proof {
                assert(out@ =~= start + schema_json(*s));
            }
        },
        Schema::Tuple(items) => {
            out.append("{\"dataType\":\"list\",\"items\":[");
            proof {
                assert(decreases_to!(*s => s->Tuple_0));
            }
            write_schemas(items, out);
            out.append("]}");
            proof {
                assert(out@ =~= start + schema_json(*s));
            }
        },
        Schema::Constructor(index, fields) => {
            out.append("{\"dataType\":\"constructor\",\"index\":");
            push_decimal(*index, out);
            out.append(",\"fields\":[");
            proof {
                assert(decreases_to!(*s => s->Constructor_1));
            }
            write_schemas(fields, out);
            out.append("]}");
            proof {
                assert(out@ =~= start + schema_json(*s));
            }
        },
        Schema::AnyOf(variants) => {
            out.append("{\"anyOf\":[");
            proof {
                assert(decreases_to!(*s => s->AnyOf_0));
            }
            write_schemas(variants, out);
            out.append("]}");
            proof {
                assert(out@ =~= start + schema_json(*s));
            }
        },
        Schema::Reference(id) => {
            let mut target = String::from_str("#/definitions/");
            target.append(escape_pointer(id).as_str());
            out.append("{\"$ref\":");
            out.append(quote(target.as_str()).as_str());
            out.append("}");
            proof {
                assert(out@ =~= start + schema_json(*s));
            }
        },
    }
}

/// `key` followed by the quoted value, or nothing when there is no value.
pub open spec fn optional_field(key: Seq<char>, value: Option<Seq<char>>) -> Seq<char> {
    match value {
        Some(v) => key + json_quoted(v),
        None => Seq::empty(),
    }
}

/// The JSON name of a Plutus version.
pub open spec fn plutus_version_json(v: PlutusVersion) -> Seq<char> {
    match v {
        PlutusVersion::V1 => "\"v1\""@,
        PlutusVersion::V2 => "\"v2\""@,
    }
}

/// The JSON document of a preamble; absent optional fields have no key.
pub open spec fn preamble_json(p: Preamble) -> Seq<char> {
    "{\"title\":"@ + json_quoted(p.title@) + optional_field(
        ",\"description\":"@,
        crate::blueprint::opt_view(p.description),
    ) + ",\"version\":"@ + json_quoted(p.version@) + ",\"plutusVersion\":"@ + plutus_version_json(
        p.plutus_version,
    ) + optional_field(",\"license\":"@, crate::blueprint::opt_view(p.license)) + "}"@
}

/// The JSON name of a purpose.
pub open spec fn purpose_json(p: Purpose) -> Seq<char> {
    match p {
        Purpose::Spend => "\"spend\""@,
        Purpose::Mint => "\"mint\""@,
        Purpose::Withdraw => "\"withdraw\""@,
        Purpose::Publish => "\"publish\""@,
    }
}

/// The JSON document of an argument.
pub open spec fn argument_json(a: Argument<Schema>) -> Seq<char> {
    "{"@ + match a.title {
        Some(t) => "\"title\":"@ + json_quoted(t@) + ","@,
        None => Seq::empty(),
    } + "\"schema\":"@ + schema_json(a.schema) + "}"@
}

/// The first `n` arguments, as JSON separated by commas.
pub open spec fn arguments_json(items: Seq<Argument<Schema>>, n: nat) -> Seq<char>
    decreases n,
{
    if n == 0 || n > items.len() {
        Seq::empty()
    } else if n == 1 {
        argument_json(items[0])
    } else {
        arguments_json(items, (n - 1) as nat) + ","@ + argument_json(items[n - 1])
    }
}

/// One definition as a JSON member: its quoted id and its schema.
pub open spec fn definition_json(d: Definition) -> Seq<char> {
    json_quoted(d.id@) + ":"@ + schema_json(d.schema)
}

/// The first `n` definitions, as JSON members separated by commas.
pub open spec fn definitions_json(items: Seq<Definition>, n: nat) -> Seq<char>
    decreases n,
{
    if n == 0 || n > items.len() {
        Seq::empty()
    } else if n == 1 {
        definition_json(items[0])
    } else {
        definitions_json(items, (n - 1) as nat) + ","@ + definition_json(items[n - 1])
    }
}

/// The JSON document of a validator.
pub open spec fn validator_json(v: Validator<Schema>) -> Seq<char> {
    validator_head_json(v) + validator_body_json(v)
}

/// The opening of a validator's document: its title, purpose and datum.
pub open spec fn validator_head_json(v: Validator<Schema>) -> Seq<char> {
    "{\"title\":"@ + json_quoted(v.title@) + match v.purpose {
        Some(p) => ",\"purpose\":"@ + purpose_json(p),
        None => Seq::empty(),
    } + match v.datum {
        Some(d) => ",\"datum\":"@ + argument_json(d),
        None => Seq::empty(),
    }
}

/// The rest of a validator's document: redeemer, parameters, code and
/// definitions.
pub open spec fn validator_body_json(v: Validator<Schema>) -> Seq<char> {
    ",\"redeemer\":"@ + argument_json(v.redeemer) + ",\"parameters\":["@ + arguments_json(
        v.parameters@,
        v.parameters@.len(),
    ) + "],\"compiledCode\":{\"hex\":"@ + json_quoted(v.compiled_code.hex@) + ",\"hash\":"@
        + json_quoted(v.compiled_code.hash@) + "},\"definitions\":{"@ + definitions_json(
        v.definitions.entries@,
        v.definitions.entries@.len(),
    ) + "}}"@
}

/// The first `n` validators, as JSON separated by commas.
pub open spec fn validators_json(items: Seq<Validator<Schema>>, n: nat) -> Seq<char>
    decreases n,
{
    if n == 0 || n > items.len() {
        Seq::empty()
    } else if n == 1 {
        validator_json(items[0])
    } else {
        validators_json(items, (n - 1) as nat) + ","@ + validator_json(items[n - 1])
    }
}

/// The JSON document of a blueprint.
pub open spec fn blueprint_json(b: Blueprint<Schema>) -> Seq<char> {
    "{\"preamble\":"@ + preamble_json(b.preamble) + ",\"validators\":["@ + validators_json(
        b.validators@,
        b.validators@.len(),
    ) + "]}"@
}

pub(crate) fn write_quoted(s: &String, out: &mut String)
    ensures
        final(out)@ == old(out)@ + json_quoted(s@),
{
    out.append(quote(s.as_str()).as_str());
}

fn write_optional_field(key: &str, value: &Option<String>, out: &mut String)
    ensures
        final(out)@ == old(out)@ + optional_field(key@, crate::blueprint::opt_view(*value)),
{
    match value {
        Some(v) => {
            out.append(key);
            write_quoted(v, out);
        },
        None => {
            proof {
                assert(out@ =~= out@ + Seq::<char>::empty());
            }
        },
    }
}

/// Appends the JSON document of a preamble to `out`.
pub fn write_preamble(p: &Preamble, out: &mut String)
    ensures
        final(out)@ == old(out)@ + preamble_json(*p),
{
    let ghost start = out@;
    out.append("{\"title\":");
    write_quoted(&p.title, out);
    write_optional_field(",\"description\":", &p.description, out);
    out.append(",\"version\":");
    write_quoted(&p.version, out);
    out.append(",\"plutusVersion\":");
    match p.plutus_version {
        PlutusVersion::V1 => out.append("\"v1\""),
        PlutusVersion::V2 => out.append("\"v2\""),
    }
    write_optional_field(",\"license\":", &p.license, out);
    out.append("}");
    proof {
        assert(out@ =~= start + preamble_json(*p));
    }
}

fn write_argument(a: &Argument<Schema>, out: &mut String)
    ensures
        final(out)@ == old(out)@ + argument_json(*a),
{
    let ghost start = out@;
    out.append("{");
    match &a.title {
        Some(t) => {
            out.append("\"title\":");
            write_quoted(t, out);
            out.append(",");
        },
        None => {},
    }
    out.append("\"schema\":");
    write_schema(&a.schema, out);
    out.append("}");
    proof {
        assert(out@ =~= start + argument_json(*a));
    }
}

fn write_arguments(items: &Vec<Argument<Schema>>, out: &mut String)
    ensures
        final(out)@ == old(out)@ + arguments_json(items@, items@.len()),
{
    let ghost start = out@;
    let mut i: usize = 0;
    while i < items.len()
        invariant
            0 <= i <= items@.len(),
            out@ == start + arguments_json(items@, i as nat),
        decreases items@.len() - i,
    {
        if i > 0 {
            out.append(",");
        }
        write_argument(&items[i], out);
        proof {
            assert(out@ =~= start + arguments_json(items@, (i + 1) as nat));
        }
        i = i + 1;
    }
    proof {
        assert(out@ =~= start + arguments_json(items@, items@.len()));
    }
}

fn write_definitions(defs: &Definitions, out: &mut String)
    ensures
        final(out)@ == old(out)@ + definitions_json(defs.entries@, defs.entries@.len()),
{
    let ghost start = out@;
    let items = &defs.entries;
    let mut i: usize = 0;
    while i < items.len()
        invariant
            0 <= i <= items@.len(),
            *items == defs.entries,
            out@ == start + definitions_json(items@, i as nat),
        decreases items@.len() - i,
    {
        if i > 0 {
            out.append(",");
        }
        write_quoted(&items[i].id, out);
        out.append(":");
        write_schema(&items[i].schema, out);
        proof {
            assert(out@ =~= start + definitions_json(items@, (i + 1) as nat));
        }
        i = i + 1;
    }
    proof {
        assert(out@ =~= start + definitions_json(items@, items@.len()));
    }
}

fn write_validator_head(v: &Validator<Schema>, out: &mut String)
    ensures
        final(out)@ == old(out)@ + validator_head_json(*v),
{
    let ghost start = out@;
    out.append("{\"title\":");
    write_quoted(&v.title, out);
    match v.purpose {
        Some(p) => {
            out.append(",\"purpose\":");
            match p {
                Purpose::Spend => out.append("\"spend\""),
                Purpose::Mint => out.append("\"mint\""),
                Purpose::Withdraw => out.append("\"withdraw\""),
                Purpose::Publish => out.append("\"publish\""),
            }
        },
        None => {},
    }
    match &v.datum {
        Some(d) => {
            out.append(",\"datum\":");
            write_argument(d, out);
        },
        None => {},
    }
    proof {
        assert(out@ =~= start + validator_head_json(*v));
    }
}

fn write_validator(v: &Validator<Schema>, out: &mut String)
    ensures
        final(out)@ == old(out)@ + validator_json(*v),
{
    let ghost start = out@;
    write_validator_head(v, out);
    let ghost mid = out@;
    out.append(",\"redeemer\":");
    write_argument(&v.redeemer, out);
    out.append(",\"parameters\":[");
    write_arguments(&v.parameters, out);
    out.append("],\"compiledCode\":{\"hex\":");
    write_quoted(&v.compiled_code.hex, out);
    out.append(",\"hash\":");
    write_quoted(&v.compiled_code.hash, out);
    out.append("},\"definitions\":{");
    write_definitions(&v.definitions, out);
    out.append("}}");
    proof {
        assert(out@ =~= mid + validator_body_json(*v));
        assert(out@ =~= start + validator_json(*v));
    }
}

impl Blueprint<Schema> {
    /// The blueprint as one compact JSON document. Optional fields with no
    /// value are left out, key and all.
    pub fn to_json(&self) -> (r: String)
        ensures
            r@ == blueprint_json(*self),
    {
        let mut out = String::new();
        out.append("{\"preamble\":");
        write_preamble(&self.preamble, &mut out);
        out.append(",\"validators\":[");
        let ghost start = out@;
        let items = &self.validators;
        let mut i: usize = 0;
        while i < items.len()
            invariant
                0 <= i <= items@.len(),
                out@ == start + validators_json(items@, i as nat),
            decreases items@.len() - i,
        {
            if i > 0 {
                out.append(",");
            }
            write_validator(&items[i], &mut out);
            proof {
                assert(out@ =~= start + validators_json(items@, (i + 1) as nat));
            }
            i = i + 1;
        }
        out.append("]}");
        proof {
            assert(start + validators_json(items@, i as nat) =~= start + validators_json(
                items@,
                items@.len(),
            ));
            assert(out@ =~= blueprint_json(*self));
        }
        out
    }
}

} // verus!
