//! Helpers shared by the language features.
use vstd::prelude::*;
use crate::ast::{
    find_alias, first_alias_index, is_first_alias, lemma_first_alias_index, lemma_first_alias_unique,
    model_aliases, spec_is_alias, AliasDeclaration, SpecAliasDeclaration,
};
use crate::schema::{lookup, spec_lookup, SpecValueKind, ValueKind};
use crate::text::{join, join_strs};

verus! {

/// Follows alias declarations from `name`, at most `fuel` steps, until a
/// built-in type name or a name that is not an alias is reached.
pub open spec fn resolve_alias(name: Seq<char>, aliases: Seq<SpecAliasDeclaration>, fuel: nat) -> Seq<
    char,
>
    decreases fuel,
{
    if fuel == 0 {
        name
    } else if spec_lookup(name) is Some {
        name
    } else {
        match first_alias_index(aliases, name) {
            Some(i) => resolve_alias(aliases[i].target.name, aliases, (fuel - 1) as nat),
            None => name,
        }
    }
}

/// The number of alias steps followed before giving up (a guard against
/// circular aliases).
pub open spec fn alias_hops() -> nat {
    16
}

/// The built-in type a name stands for, following aliases.
pub open spec fn real_alias_name(name: Seq<char>, aliases: Seq<SpecAliasDeclaration>) -> Seq<char> {
    resolve_alias(name, aliases, alias_hops())
}

/// Follows aliases from `name` to the built-in type it stands for; stops
/// after 16 steps, or at a name that is neither built in nor an alias.
pub fn resolve_real_alias_name<'a>(name: &'a str, aliases: &'a [AliasDeclaration]) -> (r: &'a str)
    ensures
        r@ == real_alias_name(name@, model_aliases(aliases@)),
{
    let ghost m = model_aliases(aliases@);
    let mut current: &'a str = name;
    let mut hops: usize = 0;
    while hops < 16
        invariant
            hops <= 16,
            m == model_aliases(aliases@),
            resolve_alias(name@, m, 16) == resolve_alias(current@, m, (16 - hops) as nat),
        decreases 16 - hops,
    {
        if lookup(current).is_some() {
            return current;
        }
        match find_alias(aliases, current) {
            Some(alias) => {
                proof {
                    let i = first_alias_index(m, current@)->0;
                    assert(m[i].target.name == alias.target.name@);
                }
                current = alias.target.name.as_str();
            },
            None => {
                return current;
            },
        }
        hops = hops + 1;
    }
    current
}

/// A built-in type name resolves to itself, whatever the aliases say.
pub proof fn law_resolve_builtin(name: Seq<char>, aliases: Seq<SpecAliasDeclaration>)
    requires
        spec_lookup(name) is Some,
    ensures
        real_alias_name(name, aliases) == name,
{
}

/// A name that is neither built in nor declared as an alias resolves to itself.
pub proof fn law_resolve_undeclared(name: Seq<char>, aliases: Seq<SpecAliasDeclaration>)
    requires
        spec_lookup(name) is None,
        !spec_is_alias(aliases, name),
    ensures
        real_alias_name(name, aliases) == name,
{
    lemma_first_alias_index(aliases, name);
    if let Some(i) = first_alias_index(aliases, name) {
        assert(aliases[i].name == name);
    }
}

/// An alias of a built-in type resolves to that type.
pub proof fn law_resolve_alias_of_builtin(name: Seq<char>, aliases: Seq<SpecAliasDeclaration>, i: int)
    requires
        spec_lookup(name) is None,
        is_first_alias(aliases, name, i),
        spec_lookup(aliases[i].target.name) is Some,
    ensures
        real_alias_name(name, aliases) == aliases[i].target.name,
{
    lemma_first_alias_unique(aliases, name, i);
    assert(resolve_alias(aliases[i].target.name, aliases, 15) == aliases[i].target.name);
}

/// A short description of the values a property takes.
pub open spec fn spec_value_kind_hint(kind: SpecValueKind) -> Seq<char> {
    match kind {
        SpecValueKind::Enum(variants) => "`"@ + join(variants, "` | `"@) + "`"@,
        SpecValueKind::Type(name) => "`"@ + name + "(...)`"@,
        SpecValueKind::UInt => "unsigned integer"@,
        SpecValueKind::Literal => "literal string"@,
    }
}

/// A short description of the values a property takes.
pub fn value_kind_hint(kind: &ValueKind) -> (r: String)
    ensures
        r@ == spec_value_kind_hint(kind@),
{
    match kind {
        ValueKind::Enum(variants) => {
            let mut s = String::from_str("`");
            let joined = join_strs(variants, "` | `");
            s.append(joined.as_str());
            s.append("`");
            s
        },
        ValueKind::Type(name) => {
            let mut s = String::from_str("`");
            s.append(name);
            s.append("(...)`");
            s
        },
        ValueKind::UInt => String::from_str("unsigned integer"),
        ValueKind::Literal => String::from_str("literal string"),
    }
}

} // verus!
