use vstd::prelude::*;
use crate::schema::{
    closed, encode, extends, id_set, lemma_ids_grow, lemma_new_ids_sound_chain, lemma_typed_grows,
    admits, closed_admits, encodes_as, expanded_from, entry_expanded, new_ids_sound, refs_in, lemma_refs_grow, typed, DataType, Definitions, Schema, SchemaError, Type,
};

verus! {

/// Project metadata, as read from the project's manifest.
pub struct Config {
    pub name: String,
    pub version: String,
    pub description: String,
    pub license: Option<String>,
}

/// The execution-layer version a blueprint targets.
#[derive(Debug, Clone, Copy, PartialEq, Eq, Structural)]
pub enum PlutusVersion {
    V1,
    V2,
}

/// The header of a blueprint document.
#[derive(Debug, Clone, PartialEq)]
pub struct Preamble {
    pub title: String,
    pub description: Option<String>,
    pub version: String,
    pub plutus_version: PlutusVersion,
    pub license: Option<String>,
}

/// The on-chain role of a validator.
#[derive(Debug, Clone, Copy, PartialEq, Eq, Structural)]
pub enum Purpose {
    Spend,
    Mint,
    Withdraw,
    Publish,
}

/// A named slot (datum, redeemer or parameter) with its type representation.
#[derive(Debug)]
pub struct Argument<T> {
    pub title: Option<String>,
    pub schema: T,
}

/// The compiled program of a validator: its hex encoding and its hash.
#[derive(Debug, Clone)]
pub struct CompiledCode {
    pub hex: String,
    pub hash: String,
}

/// One on-chain validator and its interface.
#[derive(Debug)]
pub struct Validator<T> {
    pub title: String,
    pub purpose: Option<Purpose>,
    pub datum: Option<Argument<T>>,
    pub redeemer: Argument<T>,
    pub parameters: Vec<Argument<T>>,
    pub definitions: Definitions,
    pub compiled_code: CompiledCode,
}

/// A validator as declared in a checked module, before its types are
/// encoded.
#[derive(Debug)]
pub struct ValidatorDecl {
    pub title: String,
    pub purpose: Option<Purpose>,
    pub datum: Option<Argument<Type>>,
    pub redeemer: Argument<Type>,
    pub parameters: Vec<Argument<Type>>,
}

/// The whole document: a preamble and the validators in declaration order.
#[derive(Debug)]
pub struct Blueprint<T> {
    pub preamble: Preamble,
    pub validators: Vec<Validator<T>>,
}

/// What a title lookup found: exactly one validator, or several.
#[derive(Debug, Clone, PartialEq)]
pub enum LookupResult<'a, T> {
    One(&'a T),
    Many,
}

/// The title filter as a sequence of characters, if any.
pub open spec fn filter_view(title: Option<&String>) -> Option<Seq<char>> {
    match title {
        Some(t) => Some(t@),
        None => None,
    }
}

/// A validator title matches an absent filter, or a filter equal to it.
pub open spec fn title_matches(title: Seq<char>, filter: Option<Seq<char>>) -> bool {
    match filter {
        None => true,
        Some(t) => t == title,
    }
}

/// How many of `titles` match `filter`.
pub open spec fn match_count(titles: Seq<Seq<char>>, filter: Option<Seq<char>>) -> nat
    decreases titles.len(),
{
    if titles.len() == 0 {
        0
    } else {
        match_count(titles.drop_last(), filter) + if title_matches(titles.last(), filter) {
            1nat
        } else {
            0nat
        }
    }
}

/// The description of a preamble: absent when the manifest's is empty.
pub open spec fn description_of(d: Seq<char>) -> Option<Seq<char>> {
    if d.len() == 0 {
        None
    } else {
        Some(d)
    }
}

/// An optional string as an optional sequence of characters.
pub open spec fn opt_view(o: Option<String>) -> Option<Seq<char>> {
    match o {
        Some(s) => Some(s@),
        None => None,
    }
}

impl Preamble {
    /// The preamble derived from a project manifest.
    pub open spec fn derived_from(self, config: Config) -> bool {
        &&& self.title@ == config.name@
        &&& opt_view(self.description) == description_of(config.description@)
        &&& self.version@ == config.version@
        &&& self.plutus_version == PlutusVersion::V2
        &&& opt_view(self.license) == opt_view(config.license)
    }

    pub fn from_config(config: &Config) -> (r: Preamble)
        ensures
            r.derived_from(*config),
    {
        let description = if config.description.as_str().is_empty() {
            None
        } else {
            Some(config.description.clone())
        };
        let license = match &config.license {
            Some(l) => Some(l.clone()),
            None => None,
        };
        Preamble {
            title: config.name.clone(),
            description,
            version: config.version.clone(),
            plutus_version: PlutusVersion::V2,
            license,
        }
    }
}

/// `v` is `d` resolved with `code`: same title and purpose, each argument
/// schema the encoding of the declared type, a
/// table of definitions without duplicates, and every reference in its
/// schemas, and in its table, naming an id of that table; each entry of the
/// table is the expansion of the data type of `env` with its id.
pub open spec fn resolved_from(
    v: Validator<Schema>,
    d: ValidatorDecl,
    code: CompiledCode,
    env: Seq<DataType>,
) -> bool {
    let ids = id_set(v.definitions.entries@);
    &&& v.title@ == d.title@
    &&& v.purpose == d.purpose
    &&& (v.datum is Some <==> d.datum is Some)
    &&& (v.datum is Some ==> refs_in(v.datum->Some_0.schema, ids))
    &&& (v.datum is Some ==> encodes_as(v.datum->Some_0.schema, d.datum->Some_0.schema))
    &&& encodes_as(v.redeemer.schema, d.redeemer.schema)
    &&& forall|i: int|
        0 <= i < v.parameters@.len() ==> #[trigger] encodes_as(
            v.parameters@[i].schema,
            d.parameters@[i].schema,
        )
    &&& refs_in(v.redeemer.schema, ids)
    &&& v.parameters@.len() == d.parameters@.len()
    &&& forall|i: int| 0 <= i < v.parameters@.len() ==> #[trigger] refs_in(v.parameters@[i].schema, ids)
    &&& v.definitions.wf()
    &&& expanded_from(v.definitions.entries@, 0, env)
    &&& v.compiled_code == code
}

/// Every type that `d` declares is typed over `s`.
pub open spec fn decl_typed(d: ValidatorDecl, s: Set<Seq<char>>) -> bool {
    &&& (d.datum is Some ==> typed(d.datum->Some_0.schema, s))
    &&& typed(d.redeemer.schema, s)
    &&& forall|i: int| 0 <= i < d.parameters@.len() ==> #[trigger] typed(d.parameters@[i].schema, s)
}

/// The datum, redeemer and parameter types of `d` can all be encoded over
/// `env`: no type parameter, no function and no unknown name can be reached
/// from them, through the constructors of the types they name included.
pub open spec fn decl_encodes(d: ValidatorDecl, env: Seq<DataType>) -> bool {
    exists|s: Set<Seq<char>>| closed(s, env) && #[trigger] decl_typed(d, s)
}

/// Every type that `d` declares is admitted over `s` in the given mode.
pub open spec fn decl_admits(d: ValidatorDecl, s: Set<Seq<char>>, var_ok: bool, fn_ok: bool) -> bool {
    &&& (d.datum is Some ==> admits(d.datum->Some_0.schema, s, var_ok, fn_ok))
    &&& admits(d.redeemer.schema, s, var_ok, fn_ok)
    &&& forall|i: int|
        0 <= i < d.parameters@.len() ==> #[trigger] admits(d.parameters@[i].schema, s, var_ok, fn_ok)
}

/// The only defects that can be reached from the types of `d` are type
/// parameters and unknown names.
pub open spec fn decl_only_unresolved(d: ValidatorDecl, env: Seq<DataType>) -> bool {
    exists|s: Set<Seq<char>>| closed_admits(s, env, true, false) && #[trigger] decl_admits(d, s, true, false)
}

/// The only defects that can be reached from the types of `d` are function
/// types.
pub open spec fn decl_only_unsupported(d: ValidatorDecl, env: Seq<DataType>) -> bool {
    exists|s: Set<Seq<char>>| closed_admits(s, env, false, true) && #[trigger] decl_admits(d, s, false, true)
}

/// Encodes the type of one argument, keeping its title.
fn encode_argument(arg: &Argument<Type>, env: &Vec<DataType>, defs: &mut Definitions) -> (r: Result<
    Argument<Schema>,
    SchemaError,
>)
    requires
        old(defs).wf(),
    ensures
        extends(*old(defs), *final(defs)),
        r is Ok ==> opt_view(r->Ok_0.title) == opt_view(arg.title),
        forall|s: Set<Seq<char>>| closed(s, env@) && #[trigger] typed(arg.schema, s) ==> r is Ok,
        r is Ok ==> typed(arg.schema, id_set(final(defs).entries@)),
        r is Ok ==> refs_in(r->Ok_0.schema, id_set(final(defs).entries@)),
        r is Ok ==> encodes_as(r->Ok_0.schema, arg.schema),
        r is Ok ==> expanded_from(final(defs).entries@, old(defs).entries@.len() as int, env@),
        r is Ok ==> new_ids_sound(old(defs).entries@, final(defs).entries@, env@),
        forall|s: Set<Seq<char>>|
            closed_admits(s, env@, true, false) && #[trigger] admits(arg.schema, s, true, false) ==> (r is Ok
                || r->Err_0 is UnresolvedType),
        forall|s: Set<Seq<char>>|
            closed_admits(s, env@, false, true) && #[trigger] admits(arg.schema, s, false, true) ==> (r is Ok
                || r->Err_0 == SchemaError::UnsupportedType),
{
    let schema = encode(&arg.schema, env, defs)?;
    let title = match &arg.title {
        Some(t) => Some(t.clone()),
        None => None,
    };
    Ok(Argument { title, schema })
}

impl ValidatorDecl {
    /// Encodes the datum, redeemer and parameters of this validator, in that
    /// order, into one table of definitions, and pairs them with the code
    /// compiled for it. The first error aborts.
    pub fn resolve(&self, env: &Vec<DataType>, compiled_code: CompiledCode) -> (r: Result<
        Validator<Schema>,
        SchemaError,
    >)
        ensures
            r is Ok <==> decl_encodes(*self, env@),
            r is Err && decl_only_unresolved(*self, env@) ==> r->Err_0 is UnresolvedType,
            r is Err && decl_only_unsupported(*self, env@) ==> r->Err_0 == SchemaError::UnsupportedType,
            r is Ok ==> resolved_from(r->Ok_0, *self, compiled_code, env@),
    {
        let ghost s0 = choose|s: Set<Seq<char>>| closed(s, env@) && decl_typed(*self, s);
        let ghost su = choose|s: Set<Seq<char>>| closed_admits(s, env@, true, false) && decl_admits(*self, s, true, false);
        let ghost sf = choose|s: Set<Seq<char>>| closed_admits(s, env@, false, true) && decl_admits(*self, s, false, true);
        let mut defs = Definitions::new();
        let ghost e0 = defs.entries@;
        proof {
            assert(id_set(e0) =~= Set::<Seq<char>>::empty());
        }
        let datum = match &self.datum {
            Some(d) => match encode_argument(d, env, &mut defs) {
                Ok(a) => {
                    proof {
                        lemma_ids_grow(e0, defs.entries@);
                    }
                    Some(a)
                },
                Err(e) => {
                    proof {
                        if decl_encodes(*self, env@) {
                            assert(typed(d.schema, s0));
                        }
                        if decl_only_unresolved(*self, env@) {
                            assert(closed_admits(su, env@, true, false));
                            assert(admits(d.schema, su, true, false));
                            assert(e is UnresolvedType);
                        }
                        if decl_only_unsupported(*self, env@) {
                            assert(closed_admits(sf, env@, false, true));
                            assert(admits(d.schema, sf, false, true));
                            assert(e == SchemaError::UnsupportedType);
                        }
                    }
                    return Err(e);
                },
            },
            None => None,
        };
        let ghost d1 = defs.entries@;
        proof {
            assert(expanded_from(d1, 0, env@));
            assert(new_ids_sound(e0, d1, env@)) by {
                if self.datum is None {
                    assert(d1 == e0);
                }
            }
        }
        let redeemer = match encode_argument(&self.redeemer, env, &mut defs) {
            Ok(a) => {
                proof {
                    lemma_ids_grow(d1, defs.entries@);
                    assert forall|p: int| 0 <= p < defs.entries@.len() implies #[trigger] entry_expanded(
                        defs.entries@[p],
                        env@,
                    ) by {
                        if p < d1.len() {
                            assert(defs.entries@[p] == d1[p]);
                        }
                    }
                    lemma_ids_grow(e0, d1);
                    lemma_new_ids_sound_chain(e0, d1, defs.entries@, env@);
                    if self.datum is Some {
                        lemma_typed_grows(self.datum->Some_0.schema, id_set(d1), id_set(defs.entries@));
                    }
                    if datum is Some {
                        lemma_refs_grow(datum->Some_0.schema, id_set(d1), id_set(defs.entries@));
                    }
                }
                a
            },
            Err(e) => {
                proof {
                    if decl_encodes(*self, env@) {
                        assert(typed(self.redeemer.schema, s0));
                    }
                    if decl_only_unresolved(*self, env@) {
                        assert(admits(self.redeemer.schema, su, true, false));
                    }
                    if decl_only_unsupported(*self, env@) {
                        assert(admits(self.redeemer.schema, sf, false, true));
                    }
                }
                return Err(e);
            },
        };
        let mut parameters: Vec<Argument<Schema>> = Vec::new();
        let mut i: usize = 0;
        while i < self.parameters.len()
            invariant
                0 <= i <= self.parameters@.len(),
                parameters@.len() == i,
                defs.wf(),
                decl_encodes(*self, env@) ==> closed(s0, env@) && decl_typed(*self, s0),
                decl_only_unresolved(*self, env@) ==> closed_admits(su, env@, true, false) && decl_admits(*self, su, true, false),
                decl_only_unsupported(*self, env@) ==> closed_admits(sf, env@, false, true) && decl_admits(*self, sf, false, true),
                e0.len() == 0,
                expanded_from(defs.entries@, 0, env@),
                id_set(e0).subset_of(id_set(defs.entries@)),
                new_ids_sound(e0, defs.entries@, env@),
                self.datum is Some ==> typed(self.datum->Some_0.schema, id_set(defs.entries@)),
                typed(self.redeemer.schema, id_set(defs.entries@)),
                forall|j: int| 0 <= j < i ==> #[trigger] typed(self.parameters@[j].schema, id_set(defs.entries@)),
                datum is Some <==> self.datum is Some,
                datum is Some ==> refs_in(datum->Some_0.schema, id_set(defs.entries@)),
                refs_in(redeemer.schema, id_set(defs.entries@)),
                forall|j: int| 0 <= j < i ==> #[trigger] refs_in(parameters@[j].schema, id_set(defs.entries@)),
                forall|j: int| 0 <= j < i ==> #[trigger] encodes_as(parameters@[j].schema, self.parameters@[j].schema),
                datum is Some ==> encodes_as(datum->Some_0.schema, self.datum->Some_0.schema),
                encodes_as(redeemer.schema, self.redeemer.schema),
            decreases self.parameters@.len() - i,
        {
            let ghost before = defs.entries@;
            let p = match encode_argument(&self.parameters[i], env, &mut defs) {
                Ok(a) => a,
                Err(e) => {
                    proof {
                        if decl_encodes(*self, env@) {
                            assert(typed(self.parameters@[i as int].schema, s0));
                        }
                        if decl_only_unresolved(*self, env@) {
                            assert(closed_admits(su, env@, true, false));
                            assert(admits(self.parameters@[i as int].schema, su, true, false));
                            assert(e is UnresolvedType);
                        }
                        if decl_only_unsupported(*self, env@) {
                            assert(closed_admits(sf, env@, false, true));
                            assert(admits(self.parameters@[i as int].schema, sf, false, true));
                            assert(e == SchemaError::UnsupportedType);
                        }
                    }
                    return Err(e);
                },
            };
            proof {
                let bi = id_set(before);
                let di = id_set(defs.entries@);
                lemma_ids_grow(before, defs.entries@);
                lemma_new_ids_sound_chain(e0, before, defs.entries@, env@);
                assert forall|p: int| 0 <= p < defs.entries@.len() implies #[trigger] entry_expanded(
                    defs.entries@[p],
                    env@,
                ) by {
                    if p < before.len() {
                        assert(defs.entries@[p] == before[p]);
                    }
                }
                if self.datum is Some {
                    lemma_typed_grows(self.datum->Some_0.schema, bi, di);
                }
                lemma_typed_grows(self.redeemer.schema, bi, di);
                if datum is Some {
                    lemma_refs_grow(datum->Some_0.schema, bi, di);
                }
                lemma_refs_grow(redeemer.schema, bi, di);
                assert forall|j: int| 0 <= j < i implies #[trigger] refs_in(parameters@[j].schema, di) by {
                    lemma_refs_grow(parameters@[j].schema, bi, di);
                }
                assert forall|j: int| 0 <= j < i + 1 implies #[trigger] typed(self.parameters@[j].schema, di) by {
                    if j < i {
                        lemma_typed_grows(self.parameters@[j].schema, bi, di);
                    }
                }
            }
            let ghost prevp = parameters@;
            parameters.push(p);
            proof {
                assert forall|j: int| 0 <= j < i + 1 implies #[trigger] refs_in(
                    parameters@[j].schema,
                    id_set(defs.entries@),
                ) by {
                    if j < i {
                        assert(parameters@[j] == prevp[j]);
                    }
                }
                assert forall|j: int| 0 <= j < i + 1 implies #[trigger] encodes_as(
                    parameters@[j].schema,
                    self.parameters@[j].schema,
                ) by {
                    if j < i {
                        assert(parameters@[j] == prevp[j]);
                    }
                }
            }
            i = i + 1;
        }
        proof {
            let fi = id_set(defs.entries@);
            assert forall|x: Seq<char>| #[trigger] fi.contains(x) implies crate::schema::sound(x, fi, env@) by {
                assert(!id_set(e0).contains(x));
            }
            assert(closed(fi, env@));
            assert(decl_typed(*self, fi));
        }
        Ok(Validator {
            title: self.title.clone(),
            purpose: self.purpose,
            datum,
            redeemer,
            parameters,
            definitions: defs,
            compiled_code,
        })
    }
}

impl Blueprint<Schema> {
    /// Assembles the blueprint of a project: the preamble from its manifest,
    /// then each declared validator in order, with the code compiled for it.
    /// The first schema error aborts the whole assembly.
    pub fn new(config: &Config, decls: &Vec<ValidatorDecl>, env: &Vec<DataType>, compiled: Vec<
        CompiledCode,
    >) -> (r: Result<Blueprint<Schema>, SchemaError>)
        requires
            compiled@.len() == decls@.len(),
        ensures
            r is Ok <==> (forall|i: int|
                0 <= i < decls@.len() ==> decl_encodes(#[trigger] decls@[i], env@)),
            r is Err ==> exists|i: int|
                0 <= i < decls@.len() && !decl_encodes(#[trigger] decls@[i], env@) && (forall|j: int|
                    0 <= j < i ==> decl_encodes(#[trigger] decls@[j], env@)) && (decl_only_unresolved(
                    decls@[i],
                    env@,
                ) ==> r->Err_0 is UnresolvedType) && (decl_only_unsupported(decls@[i], env@)
                    ==> r->Err_0 == SchemaError::UnsupportedType),
            r is Ok ==> {
                let b = r->Ok_0;
                &&& b.preamble.derived_from(*config)
                &&& b.validators@.len() == decls@.len()
                &&& forall|i: int|
                    0 <= i < decls@.len() ==> resolved_from(
                        #[trigger] b.validators@[i],
                        decls@[i],
                        compiled@[i],
                        env@,
                    )
            },
    {
        let preamble = Preamble::from_config(config);
        let mut validators: Vec<Validator<Schema>> = Vec::new();
        let mut codes = compiled;
        let mut i: usize = 0;
        while i < decls.len()
            invariant
                0 <= i <= decls@.len(),
                validators@.len() == i,
                codes@.len() == decls@.len() - i,
                compiled@.len() == decls@.len(),
                codes@ == compiled@.subrange(i as int, decls@.len() as int),
                forall|j: int| 0 <= j < i ==> decl_encodes(#[trigger] decls@[j], env@),
                forall|j: int|
                    0 <= j < i ==> resolved_from(#[trigger] validators@[j], decls@[j], compiled@[j], env@),
            decreases decls@.len() - i,
        {
            let code = codes.remove(0);
            proof {
                assert(code == compiled@[i as int]);
                assert(codes@ =~= compiled@.subrange(i + 1, decls@.len() as int));
            }
            let v = match decls[i].resolve(env, code) {
                Ok(v) => v,
                Err(e) => {
                    proof {
                        assert(!decl_encodes(decls@[i as int], env@));
                    }
                    return Err(e);
                },
            };
            let ghost prev = validators@;
            validators.push(v);
            proof {
                assert forall|j: int| 0 <= j < i + 1 implies resolved_from(
                    #[trigger] validators@[j],
                    decls@[j],
                    compiled@[j],
                    env@,
                ) by {
                    if j < i {
                        assert(validators@[j] == prev[j]);
                    }
                }
            }
            i = i + 1;
        }
        Ok(Blueprint { preamble, validators })
    }
}

impl<T> Blueprint<T> {
    /// The titles of all validators, in document order.
    pub open spec fn titles(&self) -> Seq<Seq<char>> {
        self.validators@.map_values(|v: Validator<T>| v.title@)
    }

    /// Finds the validator that `title` names; an absent title names every
    /// validator. `None` when nothing matches, `Many` when more than one does.
    pub fn lookup(&self, title: Option<&String>) -> (r: Option<LookupResult<'_, Validator<T>>>)
        ensures
            match r {
                None => match_count(self.titles(), filter_view(title)) == 0,
                Some(LookupResult::Many) => match_count(self.titles(), filter_view(title)) >= 2,
                Some(LookupResult::One(v)) => {
                    &&& match_count(self.titles(), filter_view(title)) == 1
                    &&& exists|k: int|
                        0 <= k < self.validators@.len() && title_matches(
                            self.titles()[k],
                            filter_view(title),
                        ) && *v == self.validators@[k]
                },
            },
    {
        let mut found: Option<LookupResult<'_, Validator<T>>> = None;
        let mut i: usize = 0;
        while i < self.validators.len()
            invariant
                0 <= i <= self.validators@.len(),
                match found {
                    None => match_count(self.titles().take(i as int), filter_view(title)) == 0,
                    Some(LookupResult::Many) => match_count(
                        self.titles().take(i as int),
                        filter_view(title),
                    ) >= 2,
                    Some(LookupResult::One(v)) => {
                        &&& match_count(self.titles().take(i as int), filter_view(title)) == 1
                        &&& exists|k: int|
                            0 <= k < i && title_matches(self.titles()[k], filter_view(title))
                                && *v == self.validators@[k]
                    },
                },
            decreases self.validators@.len() - i,
        {
            let v = &self.validators[i];
            let is_match = match title {
                None => true,
                Some(t) => v.title == *t,
            };
            proof {
                let ts = self.titles();
                assert(ts.take(i + 1).drop_last() =~= ts.take(i as int));
                assert(ts.take(i + 1).last() == ts[i as int]);
            }
            if is_match {
                found = Some(
                    match found {
                        None => LookupResult::One(v),
                        Some(_) => LookupResult::Many,
                    },
                );
            }
            i = i + 1;
        }
        proof {
            assert(self.titles().take(self.validators@.len() as int) =~= self.titles());
        }
        found
    }

    /// Runs `action` on the one validator that `title` names. When several
    /// match, or none, the matching constructor receives every title of the
    /// document in order and `action` is not run.
    pub fn with_validator<F, M, N, A, E>(
        &self,
        title: Option<&String>,
        when_too_many: M,
        when_missing: N,
        action: F,
    ) -> (r: Result<A, E>) where
        F: Fn(&Validator<T>) -> Result<A, E>,
        M: Fn(Vec<String>) -> E,
        N: Fn(Vec<String>) -> E,

        requires
            forall|ts: Vec<String>| #[trigger] when_too_many.requires((ts,)),
            forall|ts: Vec<String>| #[trigger] when_missing.requires((ts,)),
            forall|k: int| 0 <= k < self.validators@.len() ==> action.requires((&self.validators@[k],)),
        ensures
            match_count(self.titles(), filter_view(title)) == 1 ==> exists|k: int|
                0 <= k < self.validators@.len() && title_matches(self.titles()[k], filter_view(title))
                    && action.ensures((&self.validators@[k],), r),
            match_count(self.titles(), filter_view(title)) >= 2 ==> exists|ts: Vec<String>, e: E|
                strings_view(ts@) == self.titles() && r == Err::<A, E>(e) && when_too_many.ensures((ts,), e),
            match_count(self.titles(), filter_view(title)) == 0 ==> exists|ts: Vec<String>, e: E|
                strings_view(ts@) == self.titles() && r == Err::<A, E>(e) && when_missing.ensures((ts,), e),
    {
        match self.lookup(title) {
            Some(LookupResult::One(validator)) => action(validator),
            Some(LookupResult::Many) => {
                let ts = self.all_titles();
                let e = when_too_many(ts);
                Err(e)
            },
            None => {
                let ts = self.all_titles();
                let e = when_missing(ts);
                Err(e)
            },
        }
    }

    /// Every validator title, in document order.
    pub fn all_titles(&self) -> (r: Vec<String>)
        ensures
            strings_view(r@) == self.titles(),
    {
        let mut r: Vec<String> = Vec::new();
        let mut i: usize = 0;
        while i < self.validators.len()
            invariant
                0 <= i <= self.validators@.len(),
                r@.len() == i,
                strings_view(r@) == self.titles().take(i as int),
            decreases self.validators@.len() - i,
        {
            let ghost prev = r@;
            r.push(self.validators[i].title.clone());
            proof {
                assert(r@ == prev.push(self.validators@[i as int].title));
                assert(strings_view(prev) =~= self.titles().take(i as int));
                assert(self.titles()[i as int] == self.validators@[i as int].title@);
                assert forall|j: int| 0 <= j < i + 1 implies strings_view(r@)[j] == self.titles().take(i + 1)[j] by {
                    if j < i {
                        assert(strings_view(r@)[j] == strings_view(prev)[j]);
                    }
                }
                assert(strings_view(r@) =~= self.titles().take(i + 1));
            }
            i = i + 1;
        }
        proof {
            assert(self.titles().take(i as int) =~= self.titles());
        }
        r
    }
}

/// The character sequences of a sequence of strings.
pub open spec fn strings_view(ts: Seq<String>) -> Seq<Seq<char>> {
    ts.map_values(|t: String| t@)
}

/// A title that matches contributes to the count of matches.
proof fn lemma_match_counted(titles: Seq<Seq<char>>, filter: Option<Seq<char>>, i: int)
    requires
        0 <= i < titles.len(),
        title_matches(titles[i], filter),
    ensures
        match_count(titles, filter) >= 1,
        match_count(titles.take(i), filter) + 1 <= match_count(titles, filter),
    decreases titles.len(),
{
    if i < titles.len() - 1 {
        assert(titles.drop_last()[i] == titles[i]);
        assert(titles.drop_last().take(i) =~= titles.take(i));
        lemma_match_counted(titles.drop_last(), filter, i);
    } else {
        assert(titles.drop_last() =~= titles.take(i));
    }
}

/// With no title filter, a blueprint of exactly one validator has exactly one
/// match: lookup yields that validator.
pub proof fn lemma_lookup_sole_validator<T>(b: Blueprint<T>)
    requires
        b.validators@.len() == 1,
    ensures
        match_count(b.titles(), None) == 1,
        title_matches(b.titles()[0], None),
{
    assert(b.titles().len() == 1);
    assert(b.titles().drop_last().len() == 0);
    assert(match_count(b.titles().drop_last(), None) == 0);
}

/// When two distinct validators carry the title `t`, looking `t` up finds
/// at least two matches: lookup reports `Many`.
pub proof fn lemma_lookup_shared_title<T>(b: Blueprint<T>, t: Seq<char>, i: int, j: int)
    requires
        0 <= i < j < b.validators@.len(),
        b.validators@[i].title@ == t,
        b.validators@[j].title@ == t,
    ensures
        match_count(b.titles(), Some(t)) >= 2,
{
    let ts = b.titles();
    assert(ts[i] == t);
    assert(ts[j] == t);
    assert(ts.take(j)[i] == t);
    lemma_match_counted(ts.take(j), Some(t), i);
    assert(ts.take(j).take(i) =~= ts.take(i));
    lemma_match_counted(ts, Some(t), j);
}

/// No title matches a filter that none of them equals.
proof fn lemma_no_match(titles: Seq<Seq<char>>, t: Seq<char>)
    requires
        forall|k: int| 0 <= k < titles.len() ==> titles[k] != t,
    ensures
        match_count(titles, Some(t)) == 0,
    decreases titles.len(),
{
    if titles.len() > 0 {
        lemma_no_match(titles.drop_last(), t);
    }
}

/// When no validator is titled `t`, looking `t` up finds nothing: lookup
/// returns `None`.
pub proof fn lemma_lookup_absent_title<T>(b: Blueprint<T>, t: Seq<char>)
    requires
        forall|k: int| 0 <= k < b.validators@.len() ==> b.validators@[k].title@ != t,
    ensures
        match_count(b.titles(), Some(t)) == 0,
{
    let ts = b.titles();
    assert forall|k: int| 0 <= k < ts.len() implies ts[k] != t by {
        assert(ts[k] == b.validators@[k].title@);
    }
    lemma_no_match(ts, t);
}

} // verus!
