//! What holds of every directive string and of every set of filters.

use crate::directive::{
    bare_level_of_token, directive_minimum, directive_rules, minimum_of, rule_of_token, rules_of,
    rules_view, split, DIRECTIVE_SEPARATOR,
};
use crate::level::{level_filter_of_name, Level, LevelFilter};
use crate::lookup::{
    first_wins, last_wins, lemma_distinct_rules_agree, lemma_empty_table_gives_minimum, resolve,
};
use crate::{directive_table, Filters, FiltersKind};
use vstd::prelude::*;

verus! {

/// A directive string that states no rule and proposes no global threshold
/// gives no module a threshold.
pub proof fn lemma_nothing_stated_resolves_nothing(input: Seq<char>, module: Seq<char>)
    requires
        directive_rules(input).len() == 0,
        directive_minimum(input).is_none(),
    ensures
        resolve(directive_table(input), directive_minimum(input), module).is_none(),
{
    assert(first_wins(directive_rules(input)) =~= Map::<Seq<char>, LevelFilter>::empty());
    lemma_empty_table_gives_minimum(directive_minimum(input), module);
}

/// A directive string that states no rule but proposes a global threshold
/// gives every module, known or not, the most verbose threshold proposed.
pub proof fn lemma_blanket_covers_every_module(input: Seq<char>, module: Seq<char>)
    requires
        directive_rules(input).len() == 0,
        directive_minimum(input).is_some(),
    ensures
        resolve(directive_table(input), directive_minimum(input), module) == directive_minimum(
            input,
        ),
        is_most_verbose_proposal(
            split(input, DIRECTIVE_SEPARATOR),
            directive_minimum(input).unwrap(),
        ),
{
    assert(first_wins(directive_rules(input)) =~= Map::<Seq<char>, LevelFilter>::empty());
    lemma_empty_table_gives_minimum(directive_minimum(input), module);
    lemma_minimum_is_most_verbose(split(input, DIRECTIVE_SEPARATOR));
}

/// The token at position `i` proposes `level` as the global threshold.
pub open spec fn proposes(tokens: Seq<Seq<char>>, i: int, level: LevelFilter) -> bool {
    0 <= i < tokens.len() && bare_level_of_token(tokens[i]) == Some(level)
}

/// Some token proposes `level`, and no token proposes a more verbose one.
pub open spec fn is_most_verbose_proposal(tokens: Seq<Seq<char>>, level: LevelFilter) -> bool {
    &&& exists|i: int| proposes(tokens, i, level)
    &&& forall|i: int, other: LevelFilter| #[trigger]
        proposes(tokens, i, other) ==> other.rank() <= level.rank()
}

/// The global minimum is the most verbose threshold that any token proposes,
/// and is absent exactly when no token proposes one.
pub proof fn lemma_minimum_is_most_verbose(tokens: Seq<Seq<char>>)
    ensures
        match minimum_of(tokens) {
            Some(level) => is_most_verbose_proposal(tokens, level),
            None => forall|i: int, other: LevelFilter| !#[trigger] proposes(tokens, i, other),
        },
    decreases tokens.len(),
{
    if tokens.len() > 0 {
        let earlier = tokens.drop_last();
        let last = tokens.len() - 1;
        lemma_minimum_is_most_verbose(earlier);
        assert forall|i: int, other: LevelFilter| #[trigger]
            proposes(tokens, i, other) implies i == last || proposes(earlier, i, other) by {}
        match (minimum_of(earlier), bare_level_of_token(tokens.last())) {
            (Some(before), Some(added)) => {
                let i = choose|i: int| proposes(earlier, i, before);
                assert(proposes(tokens, i, before));
                assert(proposes(tokens, last, added));
            },
            (Some(before), None) => {
                let i = choose|i: int| proposes(earlier, i, before);
                assert(proposes(tokens, i, before));
            },
            (None, Some(added)) => {
                assert(proposes(tokens, last, added));
            },
            (None, None) => {},
        }
    }
}

/// `Off` is never the global minimum: a bare `off` proposes nothing.
pub proof fn lemma_minimum_never_off(tokens: Seq<Seq<char>>)
    ensures
        minimum_of(tokens) != Some(LevelFilter::Off),
    decreases tokens.len(),
{
    if tokens.len() > 0 {
        lemma_minimum_never_off(tokens.drop_last());
    }
}

/// The empty directive string states no rule and proposes no global
/// threshold.
pub proof fn lemma_empty_directive()
    ensures
        directive_rules(Seq::<char>::empty()).len() == 0,
        directive_minimum(Seq::<char>::empty()).is_none(),
{
    let input = Seq::<char>::empty();
    let tokens = split(input, DIRECTIVE_SEPARATOR);
    assert(tokens =~= seq![Seq::<char>::empty()]);
    assert(tokens.drop_last() =~= Seq::<Seq<char>>::empty());
    assert(tokens.last() =~= Seq::<char>::empty());
    assert(level_filter_of_name(tokens.last()).is_none());
    assert(rule_of_token(tokens.last()).is_none());
    assert(bare_level_of_token(tokens.last()).is_none());
    assert(rules_of(tokens.drop_last()).len() == 0);
    assert(minimum_of(tokens.drop_last()).is_none());
}

/// How the rules are stored makes no difference: two sets of filters with
/// the same table of rules and the same global minimum give every module
/// the same threshold, and admit the same requests.
pub proof fn lemma_storage_is_transparent(a: Filters, b: Filters, module: Seq<char>, level: Level)
    requires
        a.wf(),
        b.wf(),
        a.table() == b.table(),
        a.minimum == b.minimum,
    ensures
        a.threshold(module) == b.threshold(module),
        a.enabled(module, level) == b.enabled(module, level),
{
    lemma_threshold_is_resolve(a, module);
    lemma_threshold_is_resolve(b, module);
}

/// A list and a mapping made of the same rules, none of which repeats a
/// module path, give every module the same threshold.
pub proof fn lemma_list_and_mapping_agree(list: Filters, mapping: Filters, module: Seq<char>)
    requires
        list.wf(),
        mapping.wf(),
        list.kind is List,
        mapping.kind is Mapping,
        mapping.table() == last_wins(rules_view(list.kind->List_0@)),
        forall|i: int, j: int|
            0 <= i < j < list.kind->List_0@.len() ==> list.kind->List_0@[i].0@
                != list.kind->List_0@[j].0@,
        list.minimum == mapping.minimum,
    ensures
        list.threshold(module) == mapping.threshold(module),
{
    lemma_distinct_rules_agree(rules_view(list.kind->List_0@));
}

/// Whatever the kind, the threshold of a module is what the table of rules
/// and the global minimum resolve to.
pub proof fn lemma_threshold_is_resolve(filters: Filters, module: Seq<char>)
    requires
        filters.wf(),
    ensures
        filters.threshold(module) == resolve(filters.table(), filters.minimum, module),
{
    match filters.kind {
        FiltersKind::Default => {
            lemma_empty_table_gives_minimum(filters.minimum, module);
        },
        FiltersKind::Blanket => {
            lemma_empty_table_gives_minimum(filters.minimum, module);
        },
        _ => {},
    }
}

/// A request is admitted exactly when a threshold applies to the module and
/// the request is no more verbose than it; so a module whose threshold is
/// `Off` admits nothing, and one whose threshold is `Trace` admits all.
pub proof fn lemma_enabled_by_rank(filters: Filters, module: Seq<char>, level: Level)
    ensures
        filters.enabled(module, level) <==> (filters.threshold(module).is_some()
            && level.rank() <= filters.threshold(module).unwrap().rank()),
        filters.threshold(module) == Some(LevelFilter::Off) ==> !filters.enabled(module, level),
        filters.threshold(module) == Some(LevelFilter::Trace) ==> filters.enabled(module, level),
{
}

} // verus!
