use vstd::prelude::*;
use vstd::set_lib::lemma_len_subset;

verus! {

broadcast use vstd::seq_lib::seq_to_set_is_finite, vstd::std_specs::vec::group_vec_axioms;

/// The leaf types that have a fixed encoding.
#[derive(Debug, Clone, Copy, PartialEq, Eq, Structural)]
pub enum PrimitiveKind {
    Integer,
    Bytes,
    Text,
    Boolean,
    Unit,
    Data,
}

/// A resolved type, as handed over by the type checker.
#[derive(Debug)]
pub enum Type {
    Primitive(PrimitiveKind),
    List(Box<Type>),
    Tuple(Vec<Type>),
    /// A user-defined type, by its definition id: its qualified name with its
    /// type arguments spelled in, so that each instantiation has its own id.
    Named(String),
    /// A type parameter that was never instantiated.
    Var(String),
    /// A function type.
    Fn(Vec<Type>, Box<Type>),
}

/// A user-defined sum type: its constructors, each with its fields in
/// declaration order.
#[derive(Debug)]
pub struct DataType {
    pub id: String,
    pub constructors: Vec<Vec<Type>>,
}

/// The encoding of a type.
#[derive(Debug)]
pub enum Schema {
    Primitive(PrimitiveKind),
    List(Box<Schema>),
    Tuple(Vec<Schema>),
    Constructor(usize, Vec<Schema>),
    AnyOf(Vec<Schema>),
    Reference(String),
}

/// One shared definition: an id and the schema it expands to.
#[derive(Debug)]
pub struct Definition {
    pub id: String,
    pub schema: Schema,
}

/// The table of shared definitions, in order of first occurrence.
#[derive(Debug)]
pub struct Definitions {
    pub entries: Vec<Definition>,
}

/// Why a type could not be encoded.
#[derive(Debug, Clone, PartialEq, Eq)]
pub enum SchemaError {
    /// A type parameter, or a type name that no definition gives, reached the
    /// encoder.
    UnresolvedType(String),
    /// A type with no on-chain representation, such as a function.
    UnsupportedType,
}

/// The ids of a table, in order.
pub open spec fn ids_of(entries: Seq<Definition>) -> Seq<Seq<char>> {
    entries.map_values(|d: Definition| d.id@)
}

/// The ids that the data types of `env` define, in order.
pub open spec fn env_id_seq(env: Seq<DataType>) -> Seq<Seq<char>> {
    env.map_values(|d: DataType| d.id@)
}

/// The ids that the data types of `env` define, as a set.
pub open spec fn env_ids(env: Seq<DataType>) -> Set<Seq<char>> {
    env_id_seq(env).to_set()
}

/// How many ids of `env` are not yet in the table.
pub open spec fn pending(env: Seq<DataType>, entries: Seq<Definition>) -> nat {
    env_ids(env).difference(ids_of(entries).to_set()).len()
}

impl Definitions {
    pub open spec fn view_ids(&self) -> Seq<Seq<char>> {
        ids_of(self.entries@)
    }

    /// No id occurs twice in the table, and every reference in it names one
    /// of its ids.
    pub open spec fn wf(&self) -> bool {
        &&& self.view_ids().no_duplicates()
        &&& refs_closed(self.entries@)
    }

    /// An empty table.
    pub fn new() -> (r: Definitions)
        ensures
            r.entries@.len() == 0,
            r.wf(),
    {
        let r = Definitions { entries: Vec::new() };
        proof {
            assert(r.view_ids() =~= Seq::<Seq<char>>::empty());
        }
        r
    }

    /// The position of `id` in the table, if it is there.
    pub fn position(&self, id: &String) -> (r: Option<usize>)
        ensures
            match r {
                Some(k) => k < self.entries@.len() && self.view_ids()[k as int] == id@,
                None => !self.view_ids().contains(id@),
            },
    {
        let mut i: usize = 0;
        while i < self.entries.len()
            invariant
                0 <= i <= self.entries@.len(),
                forall|k: int| 0 <= k < i ==> self.view_ids()[k] != id@,
            decreases self.entries@.len() - i,
        {
            if self.entries[i].id == *id {
                return Some(i);
            }
            i = i + 1;
        }
        None
    }
}

/// A table that extends another keeps a subset of its pending ids.
proof fn lemma_pending_shrinks(env: Seq<DataType>, a: Seq<Definition>, b: Seq<Definition>)
    requires
        forall|i: int| 0 <= i < a.len() ==> b[i] == a[i],
        a.len() <= b.len(),
    ensures
        pending(env, b) <= pending(env, a),
{
    let sa = ids_of(a).to_set();
    let sb = ids_of(b).to_set();
    assert forall|x: Seq<char>| sa.contains(x) implies sb.contains(x) by {
        let k = choose|k: int| 0 <= k < ids_of(a).len() && #[trigger] ids_of(a)[k] == x;
        assert(ids_of(b)[k] == b[k].id@);
        assert(b[k] == a[k]);
    }
    let ea = env_ids(env).difference(sa);
    let eb = env_ids(env).difference(sb);
    assert(eb.subset_of(ea));
    lemma_len_subset(eb, ea);
}

/// Finds the data type that `id` names.
fn find_data_type(env: &Vec<DataType>, id: &String) -> (r: Option<usize>)
    ensures
        match r {
            Some(k) => first_match(env@, k as int, id@),
            None => !env_ids(env@).contains(id@),
        },
{
    let mut i: usize = 0;
    while i < env.len()
        invariant
            0 <= i <= env@.len(),
            forall|k: int| 0 <= k < i ==> env@[k].id@ != id@,
        decreases env@.len() - i,
    {
        if env[i].id == *id {
            return Some(i);
        }
        i = i + 1;
    }
    proof {
        assert forall|x: Seq<char>| env_ids(env@).contains(x) implies x != id@ by {
            let k = choose|k: int| 0 <= k < env@.len() && #[trigger] env_id_seq(env@)[k] == x;
            assert(env@[k].id@ == x);
        }
    }
    None
}

/// `s` is the encoding of `t`: leaves stay leaves, containers wrap the
/// encodings of their elements in order, and a user-defined type is a
/// reference to its definition id.
pub open spec fn encodes_as(s: Schema, t: Type) -> bool
    decreases t, 0nat,
{
    match t {
        Type::Primitive(k) => s == Schema::Primitive(k),
        Type::List(item) => s is List && encodes_as(*s->List_0, *item),
        Type::Tuple(items) => s is Tuple && s->Tuple_0@.len() == items@.len() && encodes_as_upto(
            s->Tuple_0@,
            items@,
            items@.len(),
        ),
        Type::Named(id) => s is Reference && s->Reference_0@ == id@,
        Type::Var(_) => false,
        Type::Fn(_, _) => false,
    }
}

/// The first `n` of `ss` are the encodings of the first `n` of `ts`.
pub open spec fn encodes_as_upto(ss: Seq<Schema>, ts: Seq<Type>, n: nat) -> bool
    decreases ts, n,
{
    if n == 0 {
        true
    } else if n > ts.len() || n > ss.len() {
        false
    } else {
        encodes_as_upto(ss, ts, (n - 1) as nat) && encodes_as(ss[n - 1], ts[n - 1])
    }
}

proof fn lemma_encodes_as_upto(ss: Seq<Schema>, ts: Seq<Type>, n: nat)
    requires
        n <= ts.len(),
        n <= ss.len(),
    ensures
        encodes_as_upto(ss, ts, n) == (forall|i: int| 0 <= i < n ==> #[trigger] encodes_as(ss[i], ts[i])),
    decreases n,
{
    if n > 0 {
        lemma_encodes_as_upto(ss, ts, (n - 1) as nat);
        if encodes_as_upto(ss, ts, n) {
            assert forall|i: int| 0 <= i < n implies #[trigger] encodes_as(ss[i], ts[i]) by {
                if i < n - 1 {
                    assert(encodes_as(ss[i], ts[i]));
                }
            }
        }
        if forall|i: int| 0 <= i < n ==> #[trigger] encodes_as(ss[i], ts[i]) {
            assert(encodes_as(ss[n - 1], ts[n - 1]));
            assert(encodes_as_upto(ss, ts, (n - 1) as nat));
        }
    }
}

/// Every reference in `s` names an id of `ids`.
pub open spec fn refs_in(s: Schema, ids: Set<Seq<char>>) -> bool
    decreases s, 0nat,
{
    match s {
        Schema::Primitive(_) => true,
        Schema::List(item) => refs_in(*item, ids),
        Schema::Tuple(items) => refs_in_upto(items@, items@.len(), ids),
        Schema::Constructor(_, fields) => refs_in_upto(fields@, fields@.len(), ids),
        Schema::AnyOf(variants) => refs_in_upto(variants@, variants@.len(), ids),
        Schema::Reference(id) => ids.contains(id@),
    }
}

/// Every reference in the first `n` of `items` names an id of `ids`.
pub open spec fn refs_in_upto(items: Seq<Schema>, n: nat, ids: Set<Seq<char>>) -> bool
    decreases items, n,
{
    if n == 0 {
        true
    } else if n > items.len() {
        false
    } else {
        refs_in_upto(items, (n - 1) as nat, ids) && refs_in(items[n - 1], ids)
    }
}

proof fn lemma_refs_in_upto(items: Seq<Schema>, n: nat, ids: Set<Seq<char>>)
    requires
        n <= items.len(),
    ensures
        refs_in_upto(items, n, ids) == (forall|i: int| 0 <= i < n ==> #[trigger] refs_in(items[i], ids)),
    decreases n,
{
    if n > 0 {
        lemma_refs_in_upto(items, (n - 1) as nat, ids);
        if refs_in_upto(items, n, ids) {
            assert forall|i: int| 0 <= i < n implies #[trigger] refs_in(items[i], ids) by {
                if i < n - 1 {
                    assert(refs_in(items[i], ids));
                }
            }
        }
        if forall|i: int| 0 <= i < n ==> #[trigger] refs_in(items[i], ids) {
            assert(refs_in(items[n - 1], ids));
            assert(refs_in_upto(items, (n - 1) as nat, ids));
        }
    }
}

/// References into a set of ids stay valid in any larger set.
pub proof fn lemma_refs_grow(s: Schema, a: Set<Seq<char>>, b: Set<Seq<char>>)
    requires
        refs_in(s, a),
        a.subset_of(b),
    ensures
        refs_in(s, b),
    decreases s,
{
    match s {
        Schema::List(item) => lemma_refs_grow(*item, a, b),
        Schema::Tuple(items) => {
            lemma_refs_in_upto(items@, items@.len(), a);
            lemma_refs_in_upto(items@, items@.len(), b);
            assert forall|i: int| 0 <= i < items@.len() implies #[trigger] refs_in(items@[i], b) by {
                lemma_refs_grow(items@[i], a, b);
            }
        },
        Schema::Constructor(_, items) => {
            lemma_refs_in_upto(items@, items@.len(), a);
            lemma_refs_in_upto(items@, items@.len(), b);
            assert forall|i: int| 0 <= i < items@.len() implies #[trigger] refs_in(items@[i], b) by {
                lemma_refs_grow(items@[i], a, b);
            }
        },
        Schema::AnyOf(items) => {
            lemma_refs_in_upto(items@, items@.len(), a);
            lemma_refs_in_upto(items@, items@.len(), b);
            assert forall|i: int| 0 <= i < items@.len() implies #[trigger] refs_in(items@[i], b) by {
                lemma_refs_grow(items@[i], a, b);
            }
        },
        _ => {},
    }
}

/// Every schema of the table refers only to ids of the table.
pub open spec fn refs_closed(entries: Seq<Definition>) -> bool {
    forall|i: int| 0 <= i < entries.len() ==> #[trigger] refs_in(entries[i].schema, id_set(entries))
}

/// The ids of a table, as a set.
pub open spec fn id_set(entries: Seq<Definition>) -> Set<Seq<char>> {
    ids_of(entries).to_set()
}

/// `t` holds no type parameter and no function, and every user-defined type
/// it names is in `s`.
pub open spec fn typed(t: Type, s: Set<Seq<char>>) -> bool
    decreases t, 0nat,
{
    match t {
        Type::Primitive(_) => true,
        Type::List(item) => typed(*item, s),
        Type::Tuple(items) => typed_upto(items@, items@.len(), s),
        Type::Named(id) => s.contains(id@),
        Type::Var(_) => false,
        Type::Fn(_, _) => false,
    }
}

/// The first `n` of `items` are typed over `s`.
pub open spec fn typed_upto(items: Seq<Type>, n: nat, s: Set<Seq<char>>) -> bool
    decreases items, n,
{
    if n == 0 {
        true
    } else if n > items.len() {
        false
    } else {
        typed_upto(items, (n - 1) as nat, s) && typed(items[n - 1], s)
    }
}

proof fn lemma_typed_upto(items: Seq<Type>, n: nat, s: Set<Seq<char>>)
    requires
        n <= items.len(),
    ensures
        typed_upto(items, n, s) == (forall|i: int| 0 <= i < n ==> #[trigger] typed(items[i], s)),
    decreases n,
{
    if n > 0 {
        lemma_typed_upto(items, (n - 1) as nat, s);
        if typed_upto(items, n, s) {
            assert forall|i: int| 0 <= i < n implies #[trigger] typed(items[i], s) by {
                if i < n - 1 {
                    assert(typed(items[i], s));
                }
            }
        }
        if forall|i: int| 0 <= i < n ==> #[trigger] typed(items[i], s) {
            assert(typed(items[n - 1], s));
            assert(typed_upto(items, (n - 1) as nat, s));
        }
    }
}

/// `t` is typed over `s` except that type parameters may occur when
/// `var_ok`, and function types when `fn_ok`.
pub open spec fn admits(t: Type, s: Set<Seq<char>>, var_ok: bool, fn_ok: bool) -> bool
    decreases t, 0nat,
{
    match t {
        Type::Primitive(_) => true,
        Type::List(item) => admits(*item, s, var_ok, fn_ok),
        Type::Tuple(items) => admits_upto(items@, items@.len(), s, var_ok, fn_ok),
        Type::Named(id) => s.contains(id@),
        Type::Var(_) => var_ok,
        Type::Fn(_, _) => fn_ok,
    }
}

/// The first `n` of `items` are admitted over `s`.
pub open spec fn admits_upto(items: Seq<Type>, n: nat, s: Set<Seq<char>>, var_ok: bool, fn_ok: bool) -> bool
    decreases items, n,
{
    if n == 0 {
        true
    } else if n > items.len() {
        false
    } else {
        admits_upto(items, (n - 1) as nat, s, var_ok, fn_ok) && admits(items[n - 1], s, var_ok, fn_ok)
    }
}

proof fn lemma_admits_upto(items: Seq<Type>, n: nat, s: Set<Seq<char>>, var_ok: bool, fn_ok: bool)
    requires
        n <= items.len(),
    ensures
        admits_upto(items, n, s, var_ok, fn_ok) == (forall|i: int|
            0 <= i < n ==> #[trigger] admits(items[i], s, var_ok, fn_ok)),
    decreases n,
{
    if n > 0 {
        lemma_admits_upto(items, (n - 1) as nat, s, var_ok, fn_ok);
        if admits_upto(items, n, s, var_ok, fn_ok) {
            assert forall|i: int| 0 <= i < n implies #[trigger] admits(items[i], s, var_ok, fn_ok) by {
                if i < n - 1 {
                    assert(admits(items[i], s, var_ok, fn_ok));
                }
            }
        }
        if forall|i: int| 0 <= i < n ==> #[trigger] admits(items[i], s, var_ok, fn_ok) {
            assert(admits(items[n - 1], s, var_ok, fn_ok));
            assert(admits_upto(items, (n - 1) as nat, s, var_ok, fn_ok));
        }
    }
}

/// Every id of `s` is either defined in `env`, by a type whose fields are
/// admitted over `s`, or (when `var_ok`) left unknown.
pub open spec fn closed_admits(s: Set<Seq<char>>, env: Seq<DataType>, var_ok: bool, fn_ok: bool) -> bool {
    forall|id: Seq<char>|
        #[trigger] s.contains(id) ==> {
            &&& (var_ok || env_ids(env).contains(id))
            &&& forall|k: int, c: int, f: int|
                first_match(env, k, id) && 0 <= c < env[k].constructors@.len() && 0 <= f
                    < env[k].constructors@[c]@.len() ==> #[trigger] admits(
                    env[k].constructors@[c]@[f],
                    s,
                    var_ok,
                    fn_ok,
                )
        }
}

/// `t` has no defect that can be reached but type parameters and unknown
/// names.
pub open spec fn only_unresolved(t: Type, env: Seq<DataType>) -> bool {
    exists|s: Set<Seq<char>>| closed_admits(s, env, true, false) && #[trigger] admits(t, s, true, false)
}

/// `t` has no defect that can be reached but function types.
pub open spec fn only_unsupported(t: Type, env: Seq<DataType>) -> bool {
    exists|s: Set<Seq<char>>| closed_admits(s, env, false, true) && #[trigger] admits(t, s, false, true)
}

/// `k` is the first data type of `env` with the id `id`.
pub open spec fn first_match(env: Seq<DataType>, k: int, id: Seq<char>) -> bool {
    &&& 0 <= k < env.len()
    &&& env[k].id@ == id
    &&& forall|j: int| 0 <= j < k ==> env[j].id@ != id
}

/// Every field of every constructor of `dt` is typed over `s`.
pub open spec fn fields_typed(dt: DataType, s: Set<Seq<char>>) -> bool {
    forall|c: int, f: int|
        0 <= c < dt.constructors@.len() && 0 <= f < dt.constructors@[c]@.len() ==> #[trigger] typed(
            dt.constructors@[c]@[f],
            s,
        )
}

/// `env` defines `id`, and the fields of its definition are typed over `s`.
pub open spec fn sound(id: Seq<char>, s: Set<Seq<char>>, env: Seq<DataType>) -> bool {
    &&& env_ids(env).contains(id)
    &&& forall|k: int| #[trigger] first_match(env, k, id) ==> fields_typed(env[k], s)
}

/// Every id of `s` is defined in `env` by a type whose fields only name ids
/// of `s`: encoding from `s` never meets an unknown name.
pub open spec fn closed(s: Set<Seq<char>>, env: Seq<DataType>) -> bool {
    forall|id: Seq<char>| #[trigger] s.contains(id) ==> sound(id, s, env)
}

/// `t` can be encoded over `env`: some closed set of ids covers it.
pub open spec fn encodes(t: Type, env: Seq<DataType>) -> bool {
    exists|s: Set<Seq<char>>| closed(s, env) && #[trigger] typed(t, s)
}

/// Typing over a set of ids carries over to any larger set.
pub proof fn lemma_typed_grows(t: Type, a: Set<Seq<char>>, b: Set<Seq<char>>)
    requires
        typed(t, a),
        a.subset_of(b),
    ensures
        typed(t, b),
    decreases t,
{
    match t {
        Type::List(item) => {
            lemma_typed_grows(*item, a, b);
        },
        Type::Tuple(items) => {
            lemma_typed_upto(items@, items@.len(), a);
            lemma_typed_upto(items@, items@.len(), b);
            assert forall|i: int| 0 <= i < items@.len() implies #[trigger] typed(items@[i], b) by {
                lemma_typed_grows(items@[i], a, b);
            }
        },
        _ => {},
    }
}

/// Soundness of an id over a set of ids carries over to any larger set.
proof fn lemma_sound_grows(id: Seq<char>, a: Set<Seq<char>>, b: Set<Seq<char>>, env: Seq<DataType>)
    requires
        sound(id, a, env),
        a.subset_of(b),
    ensures
        sound(id, b, env),
{
    assert forall|k: int| #[trigger] first_match(env, k, id) implies fields_typed(env[k], b) by {
        assert forall|c: int, f: int|
            0 <= c < env[k].constructors@.len() && 0 <= f < env[k].constructors@[c]@.len()
            implies #[trigger] typed(env[k].constructors@[c]@[f], b) by {
            lemma_typed_grows(env[k].constructors@[c]@[f], a, b);
        }
    }
}

/// The ids that `after` has and `before` lacks are sound over the ids of
/// `after`.
pub open spec fn new_ids_sound(before: Seq<Definition>, after: Seq<Definition>, env: Seq<DataType>) -> bool {
    forall|x: Seq<char>|
        #[trigger] id_set(after).contains(x) && !id_set(before).contains(x) ==> sound(
            x,
            id_set(after),
            env,
        )
}

/// A table that extends another holds all of its ids.
pub proof fn lemma_ids_grow(a: Seq<Definition>, b: Seq<Definition>)
    requires
        forall|i: int| 0 <= i < a.len() ==> b[i] == a[i],
        a.len() <= b.len(),
    ensures
        id_set(a).subset_of(id_set(b)),
{
    assert forall|x: Seq<char>| id_set(a).contains(x) implies id_set(b).contains(x) by {
        let k = choose|k: int| 0 <= k < ids_of(a).len() && #[trigger] ids_of(a)[k] == x;
        assert(ids_of(b)[k] == b[k].id@);
        assert(b[k] == a[k]);
    }
}

/// Ids made sound in two steps are sound over the final table.
pub proof fn lemma_new_ids_sound_chain(a: Seq<Definition>, b: Seq<Definition>, c: Seq<Definition>, env: Seq<DataType>)
    requires
        new_ids_sound(a, b, env),
        new_ids_sound(b, c, env),
        id_set(a).subset_of(id_set(b)),
        id_set(b).subset_of(id_set(c)),
    ensures
        new_ids_sound(a, c, env),
{
    assert forall|x: Seq<char>|
        #[trigger] id_set(c).contains(x) && !id_set(a).contains(x) implies sound(x, id_set(c), env) by {
        if id_set(b).contains(x) {
            lemma_sound_grows(x, id_set(b), id_set(c), env);
        }
    }
}

/// `s` is the expansion of `dt`: one constructor per data constructor, in
/// declaration order, each with the encodings of its fields in declared order.
pub open spec fn expands(s: Schema, dt: DataType) -> bool {
    &&& s is AnyOf
    &&& s->AnyOf_0@.len() == dt.constructors@.len()
    &&& forall|j: int|
        0 <= j < dt.constructors@.len() ==> {
            &&& (#[trigger] s->AnyOf_0@[j]) is Constructor
            &&& s->AnyOf_0@[j]->Constructor_0 == j
            &&& s->AnyOf_0@[j]->Constructor_1@.len() == dt.constructors@[j]@.len()
            &&& forall|f: int|
                0 <= f < dt.constructors@[j]@.len() ==> #[trigger] encodes_as(
                    s->AnyOf_0@[j]->Constructor_1@[f],
                    dt.constructors@[j]@[f],
                )
        }
}

/// `d` is the expansion of the first data type of `env` with its id.
pub open spec fn entry_expanded(d: Definition, env: Seq<DataType>) -> bool {
    exists|k: int| #[trigger] first_match(env, k, d.id@) && expands(d.schema, env[k])
}

/// The entries of `entries` from position `from` on are expansions of
/// their data types.
pub open spec fn expanded_from(entries: Seq<Definition>, from: int, env: Seq<DataType>) -> bool {
    forall|p: int| from <= p < entries.len() ==> #[trigger] entry_expanded(entries[p], env)
}

/// The table after an encoding extends the one before it.
pub open spec fn extends(before: Definitions, after: Definitions) -> bool {
    &&& before.entries@.len() <= after.entries@.len()
    &&& forall|i: int| 0 <= i < before.entries@.len() ==> after.entries@[i] == before.entries@[i]
    &&& after.wf()
}

/// Encodes `t`, writing the definitions it needs into `defs`. The first
/// occurrence of a user-defined type expands it into the table; every
/// occurrence, that one included, encodes as a reference to it.
pub fn encode(t: &Type, env: &Vec<DataType>, defs: &mut Definitions) -> (r: Result<Schema, SchemaError>)
    requires
        old(defs).wf(),
    ensures
        extends(*old(defs), *final(defs)),
        pending(env@, final(defs).entries@) <= pending(env@, old(defs).entries@),
        match t {
            Type::Primitive(k) => r == Ok::<Schema, SchemaError>(Schema::Primitive(*k))
                && final(defs).entries@ == old(defs).entries@,
            Type::List(_) => r is Ok ==> r->Ok_0 is List,
            Type::Tuple(items) => r is Ok ==> (r->Ok_0 is Tuple && r->Ok_0->Tuple_0@.len()
                == items@.len()),
            Type::Named(id) => {
                &&& r is Ok ==> r->Ok_0 == Schema::Reference(*id)
                    && final(defs).view_ids().contains(id@)
                &&& old(defs).view_ids().contains(id@) ==> (r == Ok::<Schema, SchemaError>(
                    Schema::Reference(*id),
                ) && final(defs).entries@ == old(defs).entries@)
                &&& !old(defs).view_ids().contains(id@) && !env_ids(env@).contains(id@) ==> r
                    == Err::<Schema, SchemaError>(SchemaError::UnresolvedType(*id))
                &&& r is Ok && !old(defs).view_ids().contains(id@) ==> exists|k: int, pos: int|
                    0 <= k < env@.len() && old(defs).entries@.len() <= pos < final(defs).entries@.len()
                        && env@[k].id@ == id@ && final(defs).view_ids()[pos] == id@ && expands(
                        final(defs).entries@[pos].schema,
                        env@[k],
                    )
            },
            Type::Var(name) => r == Err::<Schema, SchemaError>(
                SchemaError::UnresolvedType(*name),
            ),
            Type::Fn(_, _) => r == Err::<Schema, SchemaError>(SchemaError::UnsupportedType),
        },
        forall|s: Set<Seq<char>>| closed(s, env@) && #[trigger] typed(*t, s) ==> r is Ok,
        r is Ok ==> typed(*t, id_set(final(defs).entries@)),
        r is Ok ==> refs_in(r->Ok_0, id_set(final(defs).entries@)),
        r is Ok ==> encodes_as(r->Ok_0, *t),
        r is Ok ==> expanded_from(final(defs).entries@, old(defs).entries@.len() as int, env@),
        r is Ok ==> new_ids_sound(old(defs).entries@, final(defs).entries@, env@),
        forall|s: Set<Seq<char>>|
            closed_admits(s, env@, true, false) && #[trigger] admits(*t, s, true, false) ==> (r is Ok
                || r->Err_0 is UnresolvedType),
        forall|s: Set<Seq<char>>|
            closed_admits(s, env@, false, true) && #[trigger] admits(*t, s, false, true) ==> (r is Ok
                || r->Err_0 == SchemaError::UnsupportedType),
    decreases pending(env@, old(defs).entries@), t,
{
    match t {
        Type::Primitive(k) => {
            proof {
                assert(defs.entries@ == old(defs).entries@);
            }
            Ok(Schema::Primitive(*k))
        },
        Type::List(item) => {
            let res = encode(item, env, defs);
            match res {
                Ok(s) => Ok(Schema::List(Box::new(s))),
                Err(e) => {
                    proof {
                        assert forall|s: Set<Seq<char>>| closed(s, env@) && typed(*t, s) implies false by {
                            assert(typed(**item, s));
                        }
                        assert forall|s: Set<Seq<char>>|
                            closed_admits(s, env@, true, false) && admits(*t, s, true, false) implies e is UnresolvedType by {
                            assert(admits(**item, s, true, false));
                        }
                        assert forall|s: Set<Seq<char>>|
                            closed_admits(s, env@, false, true) && admits(*t, s, false, true) implies e == SchemaError::UnsupportedType by {
                            assert(admits(**item, s, false, true));
                        }
                    }
                    Err(e)
                },
            }
        },
        Type::Tuple(items) => {
            let ghost start = *defs;
            let mut out: Vec<Schema> = Vec::new();
            let mut i: usize = 0;
            while i < items.len()
                invariant
                    0 <= i <= items@.len(),
                    out@.len() == i,
                    extends(start, *defs),
                    start == *old(defs),
                    *t == Type::Tuple(*items),
                    pending(env@, defs.entries@) <= pending(env@, start.entries@),
                    new_ids_sound(start.entries@, defs.entries@, env@),
                    forall|j: int| 0 <= j < i ==> #[trigger] typed(items@[j], id_set(defs.entries@)),
                    forall|j: int| 0 <= j < i ==> #[trigger] refs_in(out@[j], id_set(defs.entries@)),
                    forall|j: int| 0 <= j < i ==> #[trigger] encodes_as(out@[j], items@[j]),
                    expanded_from(defs.entries@, start.entries@.len() as int, env@),
                decreases items@.len() - i,
            {
                proof {
                    assert(decreases_to!(*items => items[i as int]));
                    assert(decreases_to!(*t => t->Tuple_0));
                }
                let ghost before = *defs;
                let s = match encode(&items[i], env, defs) {
                    Ok(s) => s,
                    Err(e) => {
                        proof {
                            assert forall|s: Set<Seq<char>>| closed(s, env@) && typed(*t, s) implies false by {
                                lemma_typed_upto(items@, items@.len(), s);
                                assert(typed(items@[i as int], s));
                            }
                            assert forall|s: Set<Seq<char>>|
                                closed_admits(s, env@, true, false) && admits(*t, s, true, false) implies e is UnresolvedType by {
                                lemma_admits_upto(items@, items@.len(), s, true, false);
                                assert(admits(items@[i as int], s, true, false));
                            }
                            assert forall|s: Set<Seq<char>>|
                                closed_admits(s, env@, false, true) && admits(*t, s, false, true) implies e == SchemaError::UnsupportedType by {
                                lemma_admits_upto(items@, items@.len(), s, false, true);
                                assert(admits(items@[i as int], s, false, true));
                            }
                        }
                        return Err(e);
                    },
                };
                proof {
                    lemma_ids_grow(before.entries@, defs.entries@);
                    lemma_ids_grow(start.entries@, before.entries@);
                    lemma_new_ids_sound_chain(start.entries@, before.entries@, defs.entries@, env@);
                    assert forall|j: int| 0 <= j < i + 1 implies #[trigger] typed(items@[j], id_set(defs.entries@)) by {
                        if j < i {
                            lemma_typed_grows(items@[j], id_set(before.entries@), id_set(defs.entries@));
                        }
                    }
                    assert forall|j: int| 0 <= j < i implies #[trigger] refs_in(out@[j], id_set(defs.entries@)) by {
                        lemma_refs_grow(out@[j], id_set(before.entries@), id_set(defs.entries@));
                    }
                }
                proof {
                    assert forall|p: int| start.entries@.len() <= p < defs.entries@.len() implies #[trigger] entry_expanded(
                        defs.entries@[p],
                        env@,
                    ) by {
                        if p < before.entries@.len() {
                            assert(defs.entries@[p] == before.entries@[p]);
                        }
                    }
                }
                let ghost prevo = out@;
                out.push(s);
                proof {
                    assert forall|j: int| 0 <= j < i + 1 implies #[trigger] encodes_as(out@[j], items@[j]) by {
                        if j < i {
                            assert(out@[j] == prevo[j]);
                        }
                    }
                }
                i = i + 1;
            }
            proof {
                lemma_typed_upto(items@, items@.len(), id_set(defs.entries@));
                lemma_refs_in_upto(out@, out@.len(), id_set(defs.entries@));
                lemma_encodes_as_upto(out@, items@, items@.len());
            }
            Ok(Schema::Tuple(out))
        },
        Type::Named(id) => {
            if defs.position(id).is_some() {
                return Ok(Schema::Reference(id.clone()));
            }
            let k = match find_data_type(env, id) {
                Some(k) => k,
                None => {
                    return Err(SchemaError::UnresolvedType(id.clone()));
                },
            };
            let ghost start = *defs;
            let pos = defs.entries.len();
            let placeholder: Vec<Schema> = Vec::new();
            proof {
                lemma_refs_in_upto(placeholder@, 0, Set::empty());
            }
            defs.entries.push(Definition { id: id.clone(), schema: Schema::AnyOf(placeholder) });
            proof {
                assert(defs.view_ids() =~= start.view_ids().push(id@));
                start.view_ids().lemma_push_to_set_commute(id@);
                assert(ids_of(defs.entries@).to_set() =~= ids_of(start.entries@).to_set().insert(
                    id@,
                ));
                assert(env_ids(env@).contains(id@)) by {
                    assert(env_id_seq(env@)[k as int] == id@);
                }
                lemma_refs_in_upto(Seq::<Schema>::empty(), 0, id_set(defs.entries@));
                assert forall|j: int| 0 <= j < defs.entries@.len() implies #[trigger] refs_in(
                    defs.entries@[j].schema,
                    id_set(defs.entries@),
                ) by {
                    if j < start.entries@.len() {
                        assert(defs.entries@[j] == start.entries@[j]);
                        assert(refs_in(start.entries@[j].schema, id_set(start.entries@)));
                        lemma_refs_grow(start.entries@[j].schema, id_set(start.entries@), id_set(defs.entries@));
                    } else {
                        assert(defs.entries@[j].schema is AnyOf);
                        assert(defs.entries@[j].schema->AnyOf_0@.len() == 0);
                    }
                }
                assert(env_ids(env@).difference(ids_of(defs.entries@).to_set()) =~= env_ids(
                    env@,
                ).difference(ids_of(start.entries@).to_set()).remove(id@));
            }
            let ghost pushed = *defs;
            let constructors = &env[k].constructors;
            let mut variants: Vec<Schema> = Vec::new();
            let mut c: usize = 0;
            while c < constructors.len()
                invariant
                    0 <= c <= constructors@.len(),
                    extends(pushed, *defs),
                    pending(env@, defs.entries@) <= pending(env@, pushed.entries@),
                    pending(env@, pushed.entries@) < pending(env@, start.entries@),
                    pos < pushed.entries@.len(),
                    extends(start, pushed),
                    pushed.view_ids()[pos as int] == id@,
                    start.entries@.len() == pos,
                    start == *old(defs),
                    *t == Type::Named(*id),
                    !start.view_ids().contains(id@),
                    env_ids(env@).contains(id@),
                    *constructors == env@[k as int].constructors,
                    first_match(env@, k as int, id@),
                    new_ids_sound(pushed.entries@, defs.entries@, env@),
                    forall|cc: int, ff: int|
                        0 <= cc < c && 0 <= ff < constructors@[cc]@.len() ==> #[trigger] typed(
                            constructors@[cc]@[ff],
                            id_set(defs.entries@),
                        ),
                    forall|j: int| 0 <= j < c ==> #[trigger] refs_in(variants@[j], id_set(defs.entries@)),
                    expanded_from(defs.entries@, pushed.entries@.len() as int, env@),
                    variants@.len() == c,
                    forall|j: int|
                        0 <= j < c ==> {
                            &&& (#[trigger] variants@[j]) is Constructor
                            &&& variants@[j]->Constructor_0 == j
                            &&& variants@[j]->Constructor_1@.len() == constructors@[j]@.len()
                            &&& forall|f: int|
                                0 <= f < constructors@[j]@.len() ==> #[trigger] encodes_as(
                                    variants@[j]->Constructor_1@[f],
                                    constructors@[j]@[f],
                                )
                        },
                decreases constructors@.len() - c,
            {
                let fields = &constructors[c];
                let mut encoded: Vec<Schema> = Vec::new();
                let mut f: usize = 0;
                while f < fields.len()
                    invariant
                        0 <= f <= fields@.len(),
                        encoded@.len() == f,
                        c < constructors@.len(),
                        fields@ == constructors@[c as int]@,
                        extends(pushed, *defs),
                        extends(start, pushed),
                        pending(env@, defs.entries@) <= pending(env@, pushed.entries@),
                        pending(env@, pushed.entries@) < pending(env@, start.entries@),
                        start == *old(defs),
                        *t == Type::Named(*id),
                        !start.view_ids().contains(id@),
                        env_ids(env@).contains(id@),
                        first_match(env@, k as int, id@),
                        *constructors == env@[k as int].constructors,
                        new_ids_sound(pushed.entries@, defs.entries@, env@),
                        forall|cc: int, ff: int|
                            0 <= cc < c && 0 <= ff < constructors@[cc]@.len() ==> #[trigger] typed(
                                constructors@[cc]@[ff],
                                id_set(defs.entries@),
                            ),
                        forall|ff: int| 0 <= ff < f ==> #[trigger] typed(fields@[ff], id_set(defs.entries@)),
                        forall|ff: int| 0 <= ff < f ==> #[trigger] refs_in(encoded@[ff], id_set(defs.entries@)),
                        forall|ff: int| 0 <= ff < f ==> #[trigger] encodes_as(encoded@[ff], fields@[ff]),
                        forall|j: int| 0 <= j < c ==> #[trigger] refs_in(variants@[j], id_set(defs.entries@)),
                        expanded_from(defs.entries@, pushed.entries@.len() as int, env@),
                        pos < pushed.entries@.len(),
                        pushed.view_ids()[pos as int] == id@,
                    decreases fields@.len() - f,
                {
                    let ghost before = *defs;
                    let s = match encode(&fields[f], env, defs) {
                        Ok(s) => s,
                        Err(e) => {
                            proof {
                                assert forall|s: Set<Seq<char>>| closed(s, env@) && typed(*t, s) implies false by {
                                    assert(s.contains(id@));
                                    assert(sound(id@, s, env@));
                                    assert(fields_typed(env@[k as int], s));
                                    assert(typed(env@[k as int].constructors@[c as int]@[f as int], s));
                                }
                                assert forall|s: Set<Seq<char>>|
                                    closed_admits(s, env@, true, false) && admits(*t, s, true, false) implies e is UnresolvedType by {
                                    assert(s.contains(id@));
                                    assert(first_match(env@, k as int, id@));
                                    assert(admits(env@[k as int].constructors@[c as int]@[f as int], s, true, false));
                                }
                                assert forall|s: Set<Seq<char>>|
                                    closed_admits(s, env@, false, true) && admits(*t, s, false, true) implies e == SchemaError::UnsupportedType by {
                                    assert(s.contains(id@));
                                    assert(first_match(env@, k as int, id@));
                                    assert(admits(env@[k as int].constructors@[c as int]@[f as int], s, false, true));
                                }
                            }
                            return Err(e);
                        },
                    };
                    proof {
                        let bi = id_set(before.entries@);
                        let di = id_set(defs.entries@);
                        lemma_ids_grow(before.entries@, defs.entries@);
                        lemma_ids_grow(pushed.entries@, before.entries@);
                        lemma_new_ids_sound_chain(pushed.entries@, before.entries@, defs.entries@, env@);
                        assert forall|p: int| pushed.entries@.len() <= p < defs.entries@.len() implies #[trigger] entry_expanded(
                            defs.entries@[p],
                            env@,
                        ) by {
                            if p < before.entries@.len() {
                                assert(defs.entries@[p] == before.entries@[p]);
                            }
                        }
                        assert forall|ff: int| 0 <= ff < f + 1 implies #[trigger] typed(fields@[ff], di) by {
                            if ff < f {
                                lemma_typed_grows(fields@[ff], bi, di);
                            }
                        }
                        assert forall|cc: int, ff: int|
                            0 <= cc < c && 0 <= ff < constructors@[cc]@.len() implies #[trigger] typed(
                                constructors@[cc]@[ff],
                                di,
                            ) by {
                            lemma_typed_grows(constructors@[cc]@[ff], bi, di);
                        }
                        assert forall|ff: int| 0 <= ff < f implies #[trigger] refs_in(encoded@[ff], di) by {
                            lemma_refs_grow(encoded@[ff], bi, di);
                        }
                        assert forall|j: int| 0 <= j < c implies #[trigger] refs_in(variants@[j], di) by {
                            lemma_refs_grow(variants@[j], bi, di);
                        }
                    }
                    let ghost preve = encoded@;
                    encoded.push(s);
                    proof {
                        assert forall|ff: int| 0 <= ff < f + 1 implies #[trigger] encodes_as(encoded@[ff], fields@[ff]) by {
                            if ff < f {
                                assert(encoded@[ff] == preve[ff]);
                            }
                        }
                        assert forall|ff: int| 0 <= ff < f + 1 implies #[trigger] refs_in(encoded@[ff], id_set(defs.entries@)) by {
                            if ff < f {
                                assert(encoded@[ff] == preve[ff]);
                            }
                        }
                    }
                    f = f + 1;
                }
                proof {
                    assert forall|cc: int, ff: int|
                        0 <= cc < c + 1 && 0 <= ff < constructors@[cc]@.len() implies #[trigger] typed(
                            constructors@[cc]@[ff],
                            id_set(defs.entries@),
                        ) by {
                        if cc == c {
                            assert(typed(fields@[ff], id_set(defs.entries@)));
                        }
                    }
                }
                proof {
                    lemma_refs_in_upto(encoded@, encoded@.len(), id_set(defs.entries@));
                }
                let ghost prev = variants@;
                let ghost n = encoded@.len();
                assert(n == constructors@[c as int]@.len());
                variants.push(Schema::Constructor(c, encoded));
                proof {
                    assert(variants@[c as int]->Constructor_1@.len() == n);
                    assert(variants@ == prev.push(variants@[c as int]));
                    assert forall|j: int| 0 <= j < c implies variants@[j] == prev[j] by {}
                }
                c = c + 1;
            }
            let ghost filled = *defs;
            let ghost vs = variants@;
            proof {
                lemma_refs_in_upto(vs, vs.len(), id_set(filled.entries@));
                assert(refs_in_upto(vs, vs.len(), id_set(filled.entries@)));
            }
            defs.entries.set(pos, Definition { id: id.clone(), schema: Schema::AnyOf(variants) });
            proof {
                assert(defs.view_ids() =~= filled.view_ids());
                assert(filled.entries@[pos as int] == pushed.entries@[pos as int]);
                assert(ids_of(defs.entries@).to_set() =~= ids_of(filled.entries@).to_set());
                assert(defs.view_ids()[pos as int] == id@);
                assert(expands(defs.entries@[pos as int].schema, env@[k as int]));
                assert(first_match(env@, k as int, defs.entries@[pos as int].id@));
                assert forall|p: int| start.entries@.len() <= p < defs.entries@.len() implies #[trigger] entry_expanded(
                    defs.entries@[p],
                    env@,
                ) by {
                    if p != pos {
                        assert(defs.entries@[p] == filled.entries@[p]);
                    }
                }
                lemma_pending_shrinks(env@, start.entries@, pushed.entries@);
                let fi = id_set(defs.entries@);
                lemma_refs_in_upto(variants@, variants@.len(), fi);
                assert forall|j: int| 0 <= j < defs.entries@.len() implies #[trigger] refs_in(
                    defs.entries@[j].schema,
                    fi,
                ) by {
                    if j != pos {
                        assert(defs.entries@[j] == filled.entries@[j]);
                        assert(refs_in(filled.entries@[j].schema, id_set(filled.entries@)));
                    } else {
                        assert(defs.entries@[j].schema->AnyOf_0@ == vs);
                    }
                }
                assert(fi == id_set(filled.entries@));
                assert(fields_typed(env@[k as int], fi));
                assert forall|k2: int| #[trigger] first_match(env@, k2, id@) implies fields_typed(env@[k2], fi) by {
                    if k2 < k {
                        assert(env@[k2].id@ != id@);
                    } else if k < k2 {
                        assert(env@[k as int].id@ != id@);
                    }
                }
                assert(sound(id@, fi, env@));
                assert(id_set(pushed.entries@) =~= id_set(start.entries@).insert(id@));
                assert forall|x: Seq<char>|
                    #[trigger] fi.contains(x) && !id_set(start.entries@).contains(x) implies sound(x, fi, env@) by {
                    if x != id@ {
                        assert(!id_set(pushed.entries@).contains(x));
                        assert(id_set(filled.entries@).contains(x));
                    }
                }
            }
            Ok(Schema::Reference(id.clone()))
        },
        Type::Var(name) => Err(SchemaError::UnresolvedType(name.clone())),
        Type::Fn(_, _) => Err(SchemaError::UnsupportedType),
    }
}

} // verus!
