//! What the declaration macros decide, over plain models of the Rust syntax
//! they read: which generics a type declares, whether a type mentions a
//! generic, how an access is scoped into partitions, which accesses a
//! parameter declares, and which checks an assertion over several
//! parameters emits.
use vstd::prelude::*;
use vstd::string::StringSliceAdditionalSpecFns;
use crate::hash::{fnv1a, hash_name};
use crate::model::{
    AccessEntry, conflict_free, cross_free, each_and_pairwise_free, flatten, lemma_free_append,
    lemma_free_flatten,
};

verus! {

/// A token of a type as written: an identifier, a delimited group of tokens,
/// or any other token (punctuation, literal).
#[derive(Debug)]
pub enum Token {
    Ident(String),
    Group(Vec<Token>),
    Other,
}

/// The token `t` is, or contains at any depth, the identifier `ident`.
pub open spec fn token_mentions(t: Token, ident: Seq<char>) -> bool
    decreases t,
{
    match t {
        Token::Ident(name) => name@ == ident,
        Token::Group(inner) => tokens_mention(inner@, ident),
        Token::Other => false,
    }
}

/// Some token of `ts` mentions the identifier `ident`.
pub open spec fn tokens_mention(ts: Seq<Token>, ident: Seq<char>) -> bool
    decreases ts,
{
    if ts.len() == 0 {
        false
    } else {
        token_mentions(ts[0], ident) || tokens_mention(ts.drop_first(), ident)
    }
}

/// The text of every identifier in the token `t`, at any depth, in order.
pub open spec fn token_idents(t: Token) -> Seq<Seq<char>>
    decreases t,
{
    match t {
        Token::Ident(name) => seq![name@],
        Token::Group(inner) => tokens_idents(inner@),
        Token::Other => Seq::empty(),
    }
}

/// The text of every identifier in the tokens `ts`, at any depth, in order.
pub open spec fn tokens_idents(ts: Seq<Token>) -> Seq<Seq<char>>
    decreases ts,
{
    if ts.len() == 0 {
        Seq::empty()
    } else {
        token_idents(ts[0]) + tokens_idents(ts.drop_first())
    }
}

proof fn lemma_contains_concat(a: Seq<Seq<char>>, b: Seq<Seq<char>>, x: Seq<char>)
    ensures
        (a + b).contains(x) <==> (a.contains(x) || b.contains(x)),
{
    if (a + b).contains(x) {
        let k = choose|k: int| 0 <= k < (a + b).len() && (a + b)[k] == x;
        if k < a.len() {
            assert(a[k] == x);
        } else {
            assert(b[k - a.len()] == x);
        }
    }
    if a.contains(x) {
        let k = choose|k: int| 0 <= k < a.len() && a[k] == x;
        assert((a + b)[k] == x);
    }
    if b.contains(x) {
        let k = choose|k: int| 0 <= k < b.len() && b[k] == x;
        assert((a + b)[a.len() + k] == x);
    }
}

/// A token mentions `ident` iff `ident` is the exact text of one of the
/// identifiers it holds, at any depth; an identifier mentions `ident` iff its
/// text is exactly `ident`.
pub proof fn lemma_token_mentions_exact_ident(t: Token, ident: Seq<char>)
    ensures
        token_mentions(t, ident) <==> token_idents(t).contains(ident),
        t is Ident ==> (token_mentions(t, ident) <==> t->Ident_0@ == ident),
    decreases t,
{
    match t {
        Token::Ident(name) => {
            assert(seq![name@][0] == name@);
        },
        Token::Group(inner) => {
            lemma_tokens_mention_exact_ident(inner@, ident);
        },
        Token::Other => {},
    }
}

/// Some token of `ts` mentions `ident` iff `ident` is the exact text of one
/// of the identifiers that the tokens hold, at any depth.
pub proof fn lemma_tokens_mention_exact_ident(ts: Seq<Token>, ident: Seq<char>)
    ensures
        tokens_mention(ts, ident) <==> tokens_idents(ts).contains(ident),
    decreases ts,
{
    if ts.len() > 0 {
        lemma_token_mentions_exact_ident(ts[0], ident);
        lemma_tokens_mention_exact_ident(ts.drop_first(), ident);
        lemma_contains_concat(token_idents(ts[0]), tokens_idents(ts.drop_first()), ident);
    }
}

/// Does the type written as `tokens` mention the identifier `ident` anywhere?
pub fn type_mentions(tokens: &Vec<Token>, ident: &String) -> (r: bool)
    ensures
        r == tokens_mention(tokens@, ident@),
        r == tokens_idents(tokens@).contains(ident@),
    decreases tokens,
{
    proof {
        lemma_tokens_mention_exact_ident(tokens@, ident@);
    }
    let mut i: usize = 0;
    assert(tokens@.skip(0) =~= tokens@);
    while i < tokens.len()
        invariant
            i <= tokens@.len(),
            tokens_mention(tokens@, ident@) == tokens_mention(tokens@.skip(i as int), ident@),
            tokens_mention(tokens@, ident@) == tokens_idents(tokens@).contains(ident@),
        decreases tokens@.len() - i,
    {
        assert(tokens@.skip(i as int).drop_first() =~= tokens@.skip(i + 1));
        assert(tokens@.skip(i as int)[0] == tokens@[i as int]);
        assert(tokens_mention(tokens@.skip(i as int), ident@) == (token_mentions(
            tokens@[i as int],
            ident@,
        ) || tokens_mention(tokens@.skip(i + 1), ident@)));
        match &tokens[i] {
            Token::Ident(name) => {
                if name.eq(ident) {
                    return true;
                }
            },
            Token::Group(inner) => {
                proof {
                    assert(decreases_to!(tokens => tokens@));
                    assert(decreases_to!(tokens@ => tokens@[i as int]));
                }
                if type_mentions(inner, ident) {
                    return true;
                }
            },
            Token::Other => {},
        }
        i = i + 1;
    }
    assert(tokens@.skip(i as int).len() == 0);
    false
}

/// The text of each identifier of a list.
pub open spec fn names(v: Seq<String>) -> Seq<Seq<char>> {
    v.map_values(|s: String| s@)
}

proof fn lemma_names_push(v: Seq<String>, s: String)
    ensures
        names(v.push(s)) == names(v).push(s@),
{
    assert(names(v.push(s)) =~= names(v).push(s@));
}

proof fn lemma_names_take(v: Seq<String>, i: int)
    requires
        0 <= i <= v.len(),
    ensures
        names(v.take(i)) == names(v).take(i),
{
    assert(names(v.take(i)) =~= names(v).take(i));
}

/// A generic parameter of a type's declaration.
pub enum GenericParam {
    Type(String),
    Lifetime(String),
    Const(String),
}

/// The names of the generic *type* parameters, lifetimes and consts skipped,
/// in declaration order.
pub open spec fn type_param_names(ps: Seq<GenericParam>) -> Seq<Seq<char>>
    decreases ps.len(),
{
    if ps.len() == 0 {
        Seq::empty()
    } else {
        let init = type_param_names(ps.drop_last());
        match ps.last() {
            GenericParam::Type(name) => init.push(name@),
            _ => init,
        }
    }
}

/// The name of a generic parameter if it is a type parameter.
pub open spec fn type_param_name() -> spec_fn(GenericParam) -> Option<Seq<char>> {
    |g: GenericParam|
        match g {
            GenericParam::Type(name) => Some(name@),
            _ => None,
        }
}

/// The type parameters' names are the generics filtered down to the type
/// parameters, every one of them kept, in declaration order.
pub proof fn lemma_type_param_names_keep_every_type_param(ps: Seq<GenericParam>)
    ensures
        type_param_names(ps) == ps.filter_map(type_param_name()),
    decreases ps.len(),
{
    if ps.len() > 0 {
        lemma_type_param_names_keep_every_type_param(ps.drop_last());
        match ps.last() {
            GenericParam::Type(name) => {
                assert(type_param_name()(ps.last()) == Some(name@));
                assert(type_param_names(ps.drop_last()).push(name@) =~= ps.drop_last().filter_map(
                    type_param_name(),
                ) + seq![name@]);
            },
            GenericParam::Lifetime(_) => {
                assert(type_param_name()(ps.last()) is None);
            },
            GenericParam::Const(_) => {
                assert(type_param_name()(ps.last()) is None);
            },
        }
    }
}

/// The identifiers of a type's generic type parameters (lifetimes and consts
/// skipped), in declaration order.
pub fn type_param_idents(generics: &Vec<GenericParam>) -> (idents: Vec<String>)
    ensures
        names(idents@) == type_param_names(generics@),
        names(idents@) == generics@.filter_map(type_param_name()),
{
    proof {
        lemma_type_param_names_keep_every_type_param(generics@);
    }
    let mut idents: Vec<String> = Vec::new();
    let mut i: usize = 0;
    while i < generics.len()
        invariant
            i <= generics@.len(),
            names(idents@) == type_param_names(generics@.take(i as int)),
        decreases generics@.len() - i,
    {
        assert(generics@.take(i + 1).drop_last() =~= generics@.take(i as int));
        assert(generics@.take(i + 1).last() == generics@[i as int]);
        match &generics[i] {
            GenericParam::Type(name) => {
                let ident = name.clone();
                proof {
                    lemma_names_push(idents@, ident);
                }
                idents.push(ident);
            },
            _ => {},
        }
        i = i + 1;
    }
    assert(generics@.take(i as int) =~= generics@);
    idents
}

/// The generics by which an access of the resource `ty` is scoped into
/// partitions: those of `generics`, in order, that `ty` does not mention.
pub open spec fn scoping_generics(ty: Seq<Token>, generics: Seq<Seq<char>>) -> Seq<Seq<char>>
    decreases generics.len(),
{
    if generics.len() == 0 {
        Seq::empty()
    } else {
        let init = scoping_generics(ty, generics.drop_last());
        if tokens_mention(ty, generics.last()) {
            init
        } else {
            init.push(generics.last())
        }
    }
}

/// A generic scopes an access of `ty` iff it is one of the generics and `ty`
/// does not already mention it.
pub proof fn lemma_scoping_generics_members(ty: Seq<Token>, generics: Seq<Seq<char>>)
    ensures
        forall|g: Seq<char>|
            #[trigger] scoping_generics(ty, generics).contains(g) <==> (generics.contains(g)
                && !tokens_mention(ty, g)),
    decreases generics.len(),
{
    if generics.len() > 0 {
        let init = generics.drop_last();
        let last = generics.last();
        lemma_scoping_generics_members(ty, init);
        let prev = scoping_generics(ty, init);
        assert forall|g: Seq<char>|
            #[trigger] scoping_generics(ty, generics).contains(g) <==> (generics.contains(g)
                && !tokens_mention(ty, g)) by {
            assert(generics =~= init.push(last));
            if generics.contains(g) && g != last {
                let k = choose|k: int| 0 <= k < generics.len() && generics[k] == g;
                assert(init[k] == g);
            }
            if init.contains(g) {
                let k = choose|k: int| 0 <= k < init.len() && init[k] == g;
                assert(generics[k] == g);
            }
            assert(generics[generics.len() - 1] == last);
            if !tokens_mention(ty, last) {
                let now = prev.push(last);
                assert(now[prev.len() as int] == last);
                if now.contains(g) && g != last {
                    let k = choose|k: int| 0 <= k < now.len() && now[k] == g;
                    assert(prev[k] == g);
                }
                if prev.contains(g) {
                    let k = choose|k: int| 0 <= k < prev.len() && prev[k] == g;
                    assert(now[k] == g);
                }
            }
        }
    }
}

/// A generic, kept iff no identifier of the resource `ty` is exactly it.
pub open spec fn unmentioned_by(ty: Seq<Token>) -> spec_fn(Seq<char>) -> Option<Seq<char>> {
    |g: Seq<char>|
        if tokens_idents(ty).contains(g) {
            None
        } else {
            Some(g)
        }
}

/// The scoping generics are the generics, in order, with every one that is
/// exactly the text of an identifier of the resource left out, and none other.
pub proof fn lemma_scoping_keeps_every_unmentioned_generic(ty: Seq<Token>, generics: Seq<Seq<char>>)
    ensures
        scoping_generics(ty, generics) == generics.filter_map(unmentioned_by(ty)),
    decreases generics.len(),
{
    if generics.len() > 0 {
        lemma_scoping_keeps_every_unmentioned_generic(ty, generics.drop_last());
        lemma_tokens_mention_exact_ident(ty, generics.last());
        if !tokens_mention(ty, generics.last()) {
            assert(unmentioned_by(ty)(generics.last()) == Some(generics.last()));
            assert(scoping_generics(ty, generics.drop_last()).push(generics.last())
                =~= generics.drop_last().filter_map(unmentioned_by(ty)) + seq![generics.last()]);
        } else {
            assert(unmentioned_by(ty)(generics.last()) is None);
        }
    }
}

/// Auto-scoping of a resource into a parameter's own generics: the
/// generics `G`, in order, that the resource `ty` does not already mention,
/// so that the access becomes one of `Part<..Part<ty, G1>.., Gk>`.
pub fn scope(ty: &Vec<Token>, generics: &Vec<String>) -> (scoped_by: Vec<String>)
    ensures
        names(scoped_by@) == scoping_generics(ty@, names(generics@)),
        names(scoped_by@) == names(generics@).filter_map(unmentioned_by(ty@)),
{
    proof {
        lemma_scoping_keeps_every_unmentioned_generic(ty@, names(generics@));
    }
    let mut scoped_by: Vec<String> = Vec::new();
    let mut i: usize = 0;
    while i < generics.len()
        invariant
            i <= generics@.len(),
            names(scoped_by@) == scoping_generics(ty@, names(generics@.take(i as int))),
        decreases generics@.len() - i,
    {
        proof {
            lemma_names_take(generics@, i + 1);
            lemma_names_take(generics@, i as int);
            assert(names(generics@).take(i + 1).drop_last() =~= names(generics@).take(i as int));
            assert(names(generics@).take(i + 1).last() == generics@[i as int]@);
        }
        if !type_mentions(ty, &generics[i]) {
            let g = generics[i].clone();
            proof {
                lemma_names_push(scoped_by@, g);
            }
            scoped_by.push(g);
        }
        i = i + 1;
    }
    assert(generics@.take(i as int) =~= generics@);
    scoped_by
}

/// What the identity of a type is made of: the hash of its name and its
/// generic type parameters, each of which must itself have an identity.
pub struct IdentityPlan {
    pub name_hash: u64,
    pub key_args: Vec<String>,
}

/// The identity of the type `name` with the given generics: its key pairs
/// the hash of the name with the keys of the generic type parameters, in
/// order, and its path is that key alone.
pub fn identity_impls(name: &str, generics: &Vec<GenericParam>) -> (plan: IdentityPlan)
    ensures
        plan.name_hash == fnv1a(name.spec_bytes()),
        names(plan.key_args@) == type_param_names(generics@),
        names(plan.key_args@) == generics@.filter_map(type_param_name()),
{
    IdentityPlan { name_hash: hash_name(name), key_args: type_param_idents(generics) }
}

/// One entry of an access declaration as written: `&R`, `&mut R`, `read(R)`,
/// `write(R)` (each with the tokens of `R`), or another parameter whose
/// footprint is spliced in.
pub enum Declared {
    Reference { mutable: bool, resource: Vec<Token> },
    /// `read(R)` (`write == false`) or `write(R)` (`write == true`).
    Named { write: bool, resource: Vec<Token> },
    Param,
}

/// What one declared entry becomes in the access list: a read or a write of
/// the resource scoped by the listed generics, or the spliced footprint of
/// the named parameter.
#[derive(Debug)]
pub enum Planned {
    Read(Vec<String>),
    Write(Vec<String>),
    Splice,
}

/// `p` is what the declared entry `d` becomes for a type with the generic
/// type parameters `generics`.
pub open spec fn plans_entry(d: Declared, p: Planned, generics: Seq<Seq<char>>) -> bool {
    match d {
        Declared::Reference { mutable, resource } => match p {
            Planned::Read(by) => !mutable && names(by@) == scoping_generics(resource@, generics),
            Planned::Write(by) => mutable && names(by@) == scoping_generics(resource@, generics),
            Planned::Splice => false,
        },
        Declared::Named { write, resource } => match p {
            Planned::Read(by) => !write && names(by@) == scoping_generics(resource@, generics),
            Planned::Write(by) => write && names(by@) == scoping_generics(resource@, generics),
            Planned::Splice => false,
        },
        Declared::Param => p is Splice,
    }
}

/// The entry declares a read: `&R` or `read(R)`.
pub open spec fn declares_read(d: Declared) -> bool {
    match d {
        Declared::Reference { mutable, .. } => !mutable,
        Declared::Named { write, .. } => !write,
        Declared::Param => false,
    }
}

/// The entry declares a write: `&mut R` or `write(R)`.
pub open spec fn declares_write(d: Declared) -> bool {
    match d {
        Declared::Reference { mutable, .. } => mutable,
        Declared::Named { write, .. } => write,
        Declared::Param => false,
    }
}

/// What an entry is planned as keeps its kind, whatever the scoping: a read
/// is planned as a read, a write as a write, and only a parameter is spliced.
pub proof fn lemma_plan_keeps_the_declared_kind(d: Declared, p: Planned, generics: Seq<Seq<char>>)
    requires
        plans_entry(d, p, generics),
    ensures
        p is Read <==> declares_read(d),
        p is Write <==> declares_write(d),
        p is Splice <==> d is Param,
{
}

/// The access list of a parameter, from its declared entries in order: a
/// `&R` or `read(R)` / `&mut R` or `write(R)` entry is a read / write of `R`
/// auto-scoped into the type's own generics; any other entry is a parameter
/// whose own footprint is spliced in as-is.
pub fn accesses(entries: &Vec<Declared>, generics: &Vec<String>) -> (planned: Vec<Planned>)
    ensures
        planned@.len() == entries@.len(),
        forall|i: int|
            0 <= i < entries@.len() ==> plans_entry(
                #[trigger] entries@[i],
                planned@[i],
                names(generics@),
            ),
        forall|i: int|
            0 <= i < entries@.len() ==> {
                &&& (#[trigger] planned@[i] is Read <==> declares_read(entries@[i]))
                &&& (planned@[i] is Write <==> declares_write(entries@[i]))
                &&& (planned@[i] is Splice <==> entries@[i] is Param)
            },
{
    let mut planned: Vec<Planned> = Vec::new();
    let mut i: usize = 0;
    while i < entries.len()
        invariant
            i <= entries@.len(),
            planned@.len() == i,
            forall|k: int|
                0 <= k < i ==> plans_entry(#[trigger] entries@[k], planned@[k], names(generics@)),
        decreases entries@.len() - i,
    {
        let p = match &entries[i] {
            Declared::Reference { mutable, resource } => {
                let by = scope(resource, generics);
                if *mutable {
                    Planned::Write(by)
                } else {
                    Planned::Read(by)
                }
            },
            Declared::Named { write, resource } => {
                let by = scope(resource, generics);
                if *write {
                    Planned::Write(by)
                } else {
                    Planned::Read(by)
                }
            },
            Declared::Param => Planned::Splice,
        };
        planned.push(p);
        i = i + 1;
    }
    assert forall|k: int| 0 <= k < entries@.len() implies {
        &&& (#[trigger] planned@[k] is Read <==> declares_read(entries@[k]))
        &&& (planned@[k] is Write <==> declares_write(entries@[k]))
        &&& (planned@[k] is Splice <==> entries@[k] is Param)
    } by {
        lemma_plan_keeps_the_declared_kind(entries@[k], planned@[k], names(generics@));
    }
    planned
}

/// The resource a planned access names, as the emitted type spells it: the
/// declared resource of an entry, wrapped in `Part<_, G>` once per scoping
/// generic `G`, innermost first.
#[derive(Debug)]
pub enum ResourceTerm {
    /// The resource written in the declared entry at this index.
    Declared(usize),
    Part(Box<ResourceTerm>, String),
}

/// The index of the declared entry whose resource `r` is built on.
pub open spec fn part_base(r: ResourceTerm) -> int
    decreases r,
{
    match r {
        ResourceTerm::Declared(i) => i as int,
        ResourceTerm::Part(inner, _) => part_base(*inner),
    }
}

/// The generics by which `r` wraps its resource in `Part`, innermost first.
pub open spec fn part_keys(r: ResourceTerm) -> Seq<Seq<char>>
    decreases r,
{
    match r {
        ResourceTerm::Declared(_) => Seq::empty(),
        ResourceTerm::Part(inner, g) => part_keys(*inner).push(g@),
    }
}

/// The resource of the entry at `index`, scoped into the generics `by`:
/// `Part<..Part<R, G1>.., Gk>`.
pub fn scoped_resource(index: usize, by: &Vec<String>) -> (r: ResourceTerm)
    ensures
        part_base(r) == index,
        part_keys(r) == names(by@),
{
    let mut r = ResourceTerm::Declared(index);
    let mut k: usize = 0;
    while k < by.len()
        invariant
            k <= by@.len(),
            part_base(r) == index,
            part_keys(r) == names(by@.take(k as int)),
        decreases by@.len() - k,
    {
        let g = by[k].clone();
        proof {
            lemma_names_take(by@, k + 1);
            lemma_names_take(by@, k as int);
            assert(names(by@).take(k + 1) =~= names(by@).take(k as int).push(g@));
        }
        r = ResourceTerm::Part(Box::new(r), g);
        k = k + 1;
    }
    assert(by@.take(k as int) =~= by@);
    r
}

/// A parameter's emitted access list: `Nil`, `Cons<Read<R>, _>`,
/// `Cons<Write<R>, _>`, or the footprint of the declared parameter at an
/// index concatenated with the rest.
#[derive(Debug)]
pub enum ListTerm {
    Nil,
    Read(Box<ResourceTerm>, Box<ListTerm>),
    Write(Box<ResourceTerm>, Box<ListTerm>),
    Splice(usize, Box<ListTerm>),
}

/// One access of an emitted list, or the splice of a declared parameter.
pub enum EmittedAccess {
    Read(ResourceTerm),
    Write(ResourceTerm),
    Splice(usize),
}

/// The accesses and splices of an emitted list, in order.
pub open spec fn list_accesses(t: ListTerm) -> Seq<EmittedAccess>
    decreases t,
{
    match t {
        ListTerm::Nil => Seq::empty(),
        ListTerm::Read(r, rest) => seq![EmittedAccess::Read(*r)] + list_accesses(*rest),
        ListTerm::Write(r, rest) => seq![EmittedAccess::Write(*r)] + list_accesses(*rest),
        ListTerm::Splice(i, rest) => seq![EmittedAccess::Splice(i)] + list_accesses(*rest),
    }
}

/// An emitted list holds its head's access first, then the accesses of the
/// rest: a `Read` term reads its resource, a `Write` term writes it, a
/// `Splice` term splices its entry, and `Nil` holds nothing.
pub proof fn lemma_list_accesses_follow_the_terms(t: ListTerm)
    ensures
        t is Nil ==> list_accesses(t).len() == 0,
        t matches ListTerm::Read(r, rest) ==> list_accesses(t) == seq![EmittedAccess::Read(*r)]
            + list_accesses(*rest),
        t matches ListTerm::Write(r, rest) ==> list_accesses(t) == seq![EmittedAccess::Write(*r)]
            + list_accesses(*rest),
        t matches ListTerm::Splice(i, rest) ==> list_accesses(t) == seq![EmittedAccess::Splice(i)]
            + list_accesses(*rest),
{
}

/// The emitted `e`, at position `i` of a list, is what the plan `p` of the
/// declared entry `i` asks for.
pub open spec fn emits_planned(e: EmittedAccess, i: int, p: Planned) -> bool {
    match p {
        Planned::Read(by) => e matches EmittedAccess::Read(r) && part_base(r) == i && part_keys(r)
            == names(by@),
        Planned::Write(by) => e matches EmittedAccess::Write(r) && part_base(r) == i && part_keys(r)
            == names(by@),
        Planned::Splice => e == EmittedAccess::Splice(i as usize),
    }
}

/// What a plan emits keeps its kind, whatever the scoping: a planned read is
/// emitted as a read, a planned write as a write, a splice as the splice of
/// that entry.
pub proof fn lemma_emitted_keeps_the_planned_kind(e: EmittedAccess, i: int, p: Planned)
    requires
        emits_planned(e, i, p),
    ensures
        p is Read ==> e is Read,
        p is Write ==> e is Write,
        p is Splice ==> e == EmittedAccess::Splice(i as usize),
{
}

/// The access list that a parameter's planned entries emit: each entry's
/// access, in declaration order, a read or write of its resource scoped into
/// `Part`s, or its parameter's footprint spliced in before the rest.
pub fn access_list(planned: &Vec<Planned>) -> (t: ListTerm)
    ensures
        list_accesses(t).len() == planned@.len(),
        forall|i: int|
            0 <= i < planned@.len() ==> emits_planned(
                #[trigger] list_accesses(t)[i],
                i,
                planned@[i],
            ),
        forall|i: int|
            0 <= i < planned@.len() ==> {
                &&& (planned@[i] is Read ==> #[trigger] list_accesses(t)[i] is Read)
                &&& (planned@[i] is Write ==> list_accesses(t)[i] is Write)
                &&& (planned@[i] is Splice ==> list_accesses(t)[i] == EmittedAccess::Splice(
                    i as usize,
                ))
            },
{
    let n: usize = planned.len();
    let mut t = ListTerm::Nil;
    let mut i: usize = n;
    while i > 0
        invariant
            i <= n,
            n == planned@.len(),
            list_accesses(t).len() == n - i,
            forall|k: int|
                i <= k < n ==> emits_planned(#[trigger] list_accesses(t)[k - i], k, planned@[k]),
        decreases i,
    {
        i = i - 1;
        let ghost rest = list_accesses(t);
        t = match &planned[i] {
            Planned::Read(by) => ListTerm::Read(Box::new(scoped_resource(i, by)), Box::new(t)),
            Planned::Write(by) => ListTerm::Write(Box::new(scoped_resource(i, by)), Box::new(t)),
            Planned::Splice => ListTerm::Splice(i, Box::new(t)),
        };
        assert forall|k: int| i <= k < n implies emits_planned(
            #[trigger] list_accesses(t)[k - i],
            k,
            planned@[k],
        ) by {
            if k > i {
                assert(list_accesses(t)[k - i] == rest[k - (i + 1)]);
            }
        }
    }
    assert forall|k: int| 0 <= k < n implies emits_planned(
        #[trigger] list_accesses(t)[k],
        k,
        planned@[k],
    ) by {
        assert(list_accesses(t)[k - i] == list_accesses(t)[k]);
    }
    assert forall|k: int| 0 <= k < n implies {
        &&& (planned@[k] is Read ==> #[trigger] list_accesses(t)[k] is Read)
        &&& (planned@[k] is Write ==> list_accesses(t)[k] is Write)
        &&& (planned@[k] is Splice ==> list_accesses(t)[k] == EmittedAccess::Splice(k as usize))
    } by {
        lemma_emitted_keeps_the_planned_kind(list_accesses(t)[k], k, planned@[k]);
    }
    t
}

/// The argument list of a key as the emitted type spells it:
/// `ACons<<G1 as HasKey>::Key, ACons<.., ANil>>`.
#[derive(Debug)]
pub enum KeyArgsTerm {
    ANil,
    ACons(String, Box<KeyArgsTerm>),
}

/// The generics whose keys an argument list holds, in order.
pub open spec fn key_arg_names(t: KeyArgsTerm) -> Seq<Seq<char>>
    decreases t,
{
    match t {
        KeyArgsTerm::ANil => Seq::empty(),
        KeyArgsTerm::ACons(g, rest) => seq![g@] + key_arg_names(*rest),
    }
}

/// The argument list of a key over the generics `args`, in order.
pub fn key_args(args: &Vec<String>) -> (t: KeyArgsTerm)
    ensures
        key_arg_names(t) == names(args@),
{
    let mut t = KeyArgsTerm::ANil;
    let mut i: usize = args.len();
    while i > 0
        invariant
            i <= args@.len(),
            key_arg_names(t) == names(args@).skip(i as int),
        decreases i,
    {
        i = i - 1;
        let g = args[i].clone();
        assert(names(args@).skip(i as int) =~= seq![g@] + names(args@).skip(i + 1));
        t = KeyArgsTerm::ACons(g, Box::new(t));
    }
    assert(names(args@).skip(0) =~= names(args@));
    t
}

/// One compile-time check that an assertion over several parameters emits:
/// that the parameter at an index is conflict-free on its own, or that two
/// parameters do not conflict with each other.
#[derive(Clone, Copy, Debug, PartialEq, Eq)]
pub enum Check {
    Alone(usize),
    Between(usize, usize),
}

/// The pair checks of the parameter at index `i` with every later one of `n`.
pub open spec fn pair_row(i: nat, n: nat) -> Seq<Check> {
    Seq::new((n - i - 1) as nat, |k: int| Check::Between(i as usize, (i + 1 + k) as usize))
}

/// The pair checks of the first `m` parameters with every later one of `n`.
pub open spec fn pair_rows(m: nat, n: nat) -> Seq<Check>
    decreases m,
{
    if m == 0 {
        Seq::empty()
    } else {
        pair_rows((m - 1) as nat, n) + pair_row((m - 1) as nat, n)
    }
}

/// The checks for `n` parameters: each parameter on its own, in order, then
/// every pair `(i, j)` with `i < j`, in lexicographic order.
pub open spec fn planned_checks(n: nat) -> Seq<Check> {
    Seq::new(n, |i: int| Check::Alone(i as usize)) + pair_rows(n, n)
}

/// The checks that an assertion over `count` parameters emits: every
/// parameter must be internally consistent, and every pair is checked, the
/// pair being reported only when the conflict is between the two.
pub fn assert_no_conflicts(count: usize) -> (checks: Vec<Check>)
    ensures
        checks@ == planned_checks(count as nat),
{
    let n: usize = count;
    let mut checks: Vec<Check> = Vec::new();
    let mut i: usize = 0;
    while i < n
        invariant
            i <= n,
            checks@ == Seq::new(i as nat, |k: int| Check::Alone(k as usize)),
        decreases n - i,
    {
        checks.push(Check::Alone(i));
        assert(checks@ =~= Seq::new((i + 1) as nat, |k: int| Check::Alone(k as usize)));
        i = i + 1;
    }
    let ghost alone = checks@;
    let mut i: usize = 0;
    while i < n
        invariant
            i <= n,
            alone == Seq::new(n as nat, |k: int| Check::Alone(k as usize)),
            checks@ == alone + pair_rows(i as nat, n as nat),
        decreases n - i,
    {
        let mut j: usize = i + 1;
        while j < n
            invariant
                i < n,
                i + 1 <= j <= n,
                alone == Seq::new(n as nat, |k: int| Check::Alone(k as usize)),
                checks@ == alone + pair_rows(i as nat, n as nat) + pair_row(i as nat, n as nat).take(
                    j - i - 1,
                ),
            decreases n - j,
        {
            let ghost before = checks@;
            checks.push(Check::Between(i, j));
            assert(pair_row(i as nat, n as nat).take(j - i) =~= pair_row(i as nat, n as nat).take(
                j - i - 1,
            ).push(Check::Between(i, j)));
            assert(checks@ =~= alone + pair_rows(i as nat, n as nat) + pair_row(
                i as nat,
                n as nat,
            ).take(j - i));
            j = j + 1;
        }
        assert(pair_row(i as nat, n as nat).take(n - i - 1) =~= pair_row(i as nat, n as nat));
        assert(pair_rows((i + 1) as nat, n as nat) == pair_rows(i as nat, n as nat) + pair_row(
            i as nat,
            n as nat,
        ));
        assert(checks@ =~= alone + pair_rows((i + 1) as nat, n as nat));
        i = i + 1;
    }
    checks
}

/// The check `c` passes for parameters whose footprints are `lists`: an
/// `Alone` check when that parameter is conflict-free, a `Between` check
/// unless the pair conflicts while each of the two is conflict-free alone.
pub open spec fn check_passes(c: Check, lists: Seq<Seq<AccessEntry>>) -> bool {
    match c {
        Check::Alone(i) => conflict_free(lists[i as int]),
        Check::Between(i, j) => !(!conflict_free(lists[i as int] + lists[j as int]) && conflict_free(
            lists[i as int],
        ) && conflict_free(lists[j as int])),
    }
}

/// Every pair check of the first `m` rows names a pair `i < j` of `n`, `i < m`.
proof fn lemma_pair_rows_members(m: nat, n: nat)
    requires
        m <= n,
        n <= usize::MAX,
    ensures
        forall|k: int|
            0 <= k < pair_rows(m, n).len() ==> {
                &&& #[trigger] pair_rows(m, n)[k] is Between
                &&& pair_rows(m, n)[k]->Between_0 < m
                &&& pair_rows(m, n)[k]->Between_0 < pair_rows(m, n)[k]->Between_1 < n
            },
    decreases m,
{
    if m > 0 {
        lemma_pair_rows_members((m - 1) as nat, n);
        let a = pair_rows((m - 1) as nat, n);
        let b = pair_row((m - 1) as nat, n);
        assert forall|k: int| 0 <= k < pair_rows(m, n).len() implies {
            &&& #[trigger] pair_rows(m, n)[k] is Between
            &&& pair_rows(m, n)[k]->Between_0 < m
            &&& pair_rows(m, n)[k]->Between_0 < pair_rows(m, n)[k]->Between_1 < n
        } by {
            if k < a.len() {
                assert(pair_rows(m, n)[k] == a[k]);
            } else {
                assert(pair_rows(m, n)[k] == b[k - a.len()]);
            }
        }
    }
}

/// Every pair `i < j` of `n` with `i < m` has its check among the first `m` rows.
proof fn lemma_pair_rows_complete(m: nat, n: nat, i: nat, j: nat)
    requires
        m <= n,
        n <= usize::MAX,
        i < m,
        i < j < n,
    ensures
        exists|k: int|
            0 <= k < pair_rows(m, n).len() && #[trigger] pair_rows(m, n)[k] == Check::Between(
                i as usize,
                j as usize,
            ),
    decreases m,
{
    let a = pair_rows((m - 1) as nat, n);
    let b = pair_row((m - 1) as nat, n);
    if i < m - 1 {
        lemma_pair_rows_complete((m - 1) as nat, n, i, j);
        let k = choose|k: int|
            0 <= k < a.len() && #[trigger] a[k] == Check::Between(i as usize, j as usize);
        assert(pair_rows(m, n)[k] == a[k]);
    } else {
        let k = a.len() + (j - i - 1);
        assert(pair_rows(m, n)[k] == b[j - i - 1]);
    }
}

/// The checks that an assertion over several parameters emits all pass iff
/// the parameters, spliced together, have no conflict: a conflict among them
/// is always reported, as the self-conflict of one parameter or as the clash
/// of one pair, and nothing is reported when there is none.
pub proof fn lemma_checks_decide_conflicts(lists: Seq<Seq<AccessEntry>>)
    requires
        lists.len() <= usize::MAX,
    ensures
        (forall|k: int|
            0 <= k < planned_checks(lists.len()).len() ==> check_passes(
                #[trigger] planned_checks(lists.len())[k],
                lists,
            )) <==> conflict_free(flatten(lists)),
{
    let n = lists.len();
    let checks = planned_checks(n);
    let alone = Seq::new(n, |i: int| Check::Alone(i as usize));
    let pairs = pair_rows(n, n);
    lemma_free_flatten(lists);
    lemma_pair_rows_members(n, n);
    if forall|k: int| 0 <= k < checks.len() ==> check_passes(#[trigger] checks[k], lists) {
        assert forall|i: int| 0 <= i < n implies conflict_free(#[trigger] lists[i]) by {
            assert(checks[i] == alone[i]);
            assert(check_passes(checks[i], lists));
        }
        assert forall|i: int, j: int| 0 <= i < j < n implies cross_free(
            #[trigger] lists[i],
            #[trigger] lists[j],
        ) by {
            lemma_pair_rows_complete(n, n, i as nat, j as nat);
            let k = choose|k: int|
                0 <= k < pairs.len() && #[trigger] pairs[k] == Check::Between(i as usize, j as usize);
            assert(checks[n + k] == pairs[k]);
            assert(check_passes(checks[n + k], lists));
            assert(conflict_free(lists[i]));
            assert(conflict_free(lists[j]));
            lemma_free_append(lists[i], lists[j]);
        }
        assert(each_and_pairwise_free(lists));
    }
    if conflict_free(flatten(lists)) {
        assert forall|k: int| 0 <= k < checks.len() implies check_passes(#[trigger] checks[k], lists) by {
            if k < n {
                assert(checks[k] == alone[k]);
            } else {
                assert(checks[k] == pairs[k - n]);
                let c = pairs[k - n];
                let i = c->Between_0 as int;
                let j = c->Between_1 as int;
                lemma_free_append(lists[i], lists[j]);
            }
        }
    }
}

} // verus!
