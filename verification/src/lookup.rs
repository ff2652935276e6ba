//! The matching rules: which threshold a table of rules gives a module path.

use crate::level::LevelFilter;
use vstd::prelude::*;

verus! {

/// The character that, doubled, separates the segments of a module path.
pub const PATH_COLON: char = ':';

/// The two characters between a parent path and the rest of a module path.
pub open spec fn path_separator() -> Seq<char> {
    seq![PATH_COLON, PATH_COLON]
}

/// The threshold of the first rule in `rules` whose module path is `module`.
pub open spec fn first_match(rules: Seq<(Seq<char>, LevelFilter)>, module: Seq<char>) -> Option<
    LevelFilter,
>
    decreases rules.len(),
{
    if rules.len() == 0 {
        None
    } else if rules[0].0 == module {
        Some(rules[0].1)
    } else {
        first_match(rules.drop_first(), module)
    }
}

/// The table that a list of rules amounts to when, among rules for one
/// module path, the first counts.
pub open spec fn first_wins(rules: Seq<(Seq<char>, LevelFilter)>) -> Map<Seq<char>, LevelFilter> {
    Map::new(
        |k: Seq<char>| first_match(rules, k).is_some(),
        |k: Seq<char>| first_match(rules, k).unwrap(),
    )
}

/// The table that a list of rules amounts to when, among rules for one
/// module path, the last counts.
pub open spec fn last_wins(rules: Seq<(Seq<char>, LevelFilter)>) -> Map<Seq<char>, LevelFilter>
    decreases rules.len(),
{
    if rules.len() == 0 {
        Map::empty()
    } else {
        last_wins(rules.drop_last()).insert(rules.last().0, rules.last().1)
    }
}

/// The threshold of the longest proper prefix of `module` that ends just
/// before a `::` lying within the first `end` characters and that the table
/// knows. Colons are paired from the right, so pairs never overlap.
pub open spec fn prefix_lookup(table: Map<Seq<char>, LevelFilter>, module: Seq<char>, end: int)
    -> Option<LevelFilter>
    decreases end,
{
    if end < 2 || end > module.len() {
        None
    } else if module[end - 1] == PATH_COLON && module[end - 2] == PATH_COLON {
        let prefix = module.subrange(0, end - 2);
        if table.contains_key(prefix) {
            Some(table[prefix])
        } else {
            prefix_lookup(table, module, end - 2)
        }
    } else {
        prefix_lookup(table, module, end - 1)
    }
}

/// The threshold that applies to `module`: that of the module's own rule, or
/// else of its nearest enclosing path that has one, or else the global
/// minimum.
pub open spec fn resolve(
    table: Map<Seq<char>, LevelFilter>,
    minimum: Option<LevelFilter>,
    module: Seq<char>,
) -> Option<LevelFilter> {
    if table.contains_key(module) {
        Some(table[module])
    } else {
        match prefix_lookup(table, module, module.len() as int) {
            Some(level) => Some(level),
            None => minimum,
        }
    }
}

/// A rule for the module itself decides, whatever rules its enclosing paths
/// have.
pub proof fn lemma_exact_match_wins(
    table: Map<Seq<char>, LevelFilter>,
    minimum: Option<LevelFilter>,
    module: Seq<char>,
)
    requires
        table.contains_key(module),
    ensures
        resolve(table, minimum, module) == Some(table[module]),
{
}

/// The search through the prefixes of a path reads only the characters in
/// front of where it starts.
pub proof fn lemma_prefix_lookup_local(
    table: Map<Seq<char>, LevelFilter>,
    a: Seq<char>,
    b: Seq<char>,
    end: int,
)
    requires
        0 <= end <= a.len(),
        end <= b.len(),
        a.subrange(0, end) == b.subrange(0, end),
    ensures
        prefix_lookup(table, a, end) == prefix_lookup(table, b, end),
    decreases end,
{
    if end >= 2 {
        assert(a[end - 1] == a.subrange(0, end)[end - 1]);
        assert(b[end - 1] == b.subrange(0, end)[end - 1]);
        assert(a[end - 2] == a.subrange(0, end)[end - 2]);
        assert(b[end - 2] == b.subrange(0, end)[end - 2]);
        assert(a.subrange(0, end - 2) =~= a.subrange(0, end).subrange(0, end - 2));
        assert(b.subrange(0, end - 2) =~= b.subrange(0, end).subrange(0, end - 2));
        assert(a.subrange(0, end - 1) =~= a.subrange(0, end).subrange(0, end - 1));
        assert(b.subrange(0, end - 1) =~= b.subrange(0, end).subrange(0, end - 1));
        if a[end - 1] == PATH_COLON && a[end - 2] == PATH_COLON {
            lemma_prefix_lookup_local(table, a, b, end - 2);
        } else {
            lemma_prefix_lookup_local(table, a, b, end - 1);
        }
    }
}

/// A module without a rule of its own is treated as its parent is: where
/// `rest` holds no colon and `parent::rest` has no rule, it resolves to what
/// `parent` resolves to. Hence the longest enclosing path with a rule wins.
pub proof fn lemma_unmatched_resolves_as_parent(
    table: Map<Seq<char>, LevelFilter>,
    minimum: Option<LevelFilter>,
    parent: Seq<char>,
    rest: Seq<char>,
)
    requires
        !rest.contains(PATH_COLON),
        !table.contains_key(parent + path_separator() + rest),
    ensures
        resolve(table, minimum, parent + path_separator() + rest) == resolve(
            table,
            minimum,
            parent,
        ),
{
    let module = parent + path_separator() + rest;
    let cut = parent.len() as int;
    lemma_skip_last_segment(table, module, cut, module.len() as int);
    assert(module[cut] == PATH_COLON);
    assert(module[cut + 1] == PATH_COLON);
    assert(module.subrange(0, cut) =~= parent);
    if !table.contains_key(parent) {
        assert(parent.subrange(0, cut) =~= parent);
        lemma_prefix_lookup_local(table, module, parent, cut);
    }
}

/// Characters after the last `::` that are no colons do not change the
/// search through the prefixes.
proof fn lemma_skip_last_segment(
    table: Map<Seq<char>, LevelFilter>,
    module: Seq<char>,
    cut: int,
    end: int,
)
    requires
        0 <= cut,
        cut + 2 <= end <= module.len(),
        forall|j: int| cut + 2 <= j < module.len() ==> module[j] != PATH_COLON,
    ensures
        prefix_lookup(table, module, end) == prefix_lookup(table, module, cut + 2),
    decreases end,
{
    if end > cut + 2 {
        lemma_skip_last_segment(table, module, cut, end - 1);
    }
}

/// `module` has a `::` at position `cut`.
pub open spec fn separator_at(module: Seq<char>, cut: int) -> bool {
    &&& 0 <= cut
    &&& cut + 2 <= module.len()
    &&& module[cut] == PATH_COLON
    &&& module[cut + 1] == PATH_COLON
}

/// `module` has three colons in a row from position `i` on.
pub open spec fn colon_run_at(module: Seq<char>, i: int) -> bool {
    &&& separator_at(module, i)
    &&& separator_at(module, i + 1)
}

/// Among the `::` within the first `end` characters of `module`, the one at
/// `cut` is the last whose prefix has a rule.
pub open spec fn is_longest_known_prefix(
    table: Map<Seq<char>, LevelFilter>,
    module: Seq<char>,
    end: int,
    cut: int,
) -> bool {
    &&& separator_at(module, cut)
    &&& cut + 2 <= end
    &&& table.contains_key(module.subrange(0, cut))
    &&& forall|other: int|
        cut < other && other + 2 <= end && #[trigger] separator_at(module, other)
            ==> !table.contains_key(module.subrange(0, other))
}

/// Among the enclosing paths of a module, the longest with a rule wins: in a
/// path without three colons in a row, the search through the prefixes gives
/// the threshold of the longest prefix that ends before a `::` and has a
/// rule, and finds nothing exactly when no such prefix has one.
pub proof fn lemma_longest_prefix_wins(
    table: Map<Seq<char>, LevelFilter>,
    module: Seq<char>,
    end: int,
)
    requires
        0 <= end <= module.len(),
        forall|i: int| !#[trigger] colon_run_at(module, i),
    ensures
        match prefix_lookup(table, module, end) {
            Some(level) => exists|cut: int| #[trigger]
                is_longest_known_prefix(table, module, end, cut) && table[module.subrange(0, cut)]
                    == level,
            None => forall|cut: int|
                cut + 2 <= end && #[trigger] separator_at(module, cut) ==> !table.contains_key(
                    module.subrange(0, cut),
                ),
        },
    decreases end,
{
    if end >= 2 {
        let paired = module[end - 1] == PATH_COLON && module[end - 2] == PATH_COLON;
        if paired && table.contains_key(module.subrange(0, end - 2)) {
            assert(is_longest_known_prefix(table, module, end, end - 2));
        } else {
            let next = if paired {
                end - 2
            } else {
                end - 1
            };
            lemma_longest_prefix_wins(table, module, next);
            assert(!colon_run_at(module, end - 3));
            assert(!paired ==> !separator_at(module, end - 2));
            match prefix_lookup(table, module, next) {
                Some(level) => {
                    let cut = choose|cut: int| #[trigger]
                        is_longest_known_prefix(table, module, next, cut) && table[module.subrange(
                            0,
                            cut,
                        )] == level;
                    assert(is_longest_known_prefix(table, module, end, cut));
                },
                None => {},
            }
        }
    }
}

/// Where the table knows no prefix of the module, the search through the
/// prefixes finds nothing.
pub proof fn lemma_no_prefix_known(
    table: Map<Seq<char>, LevelFilter>,
    module: Seq<char>,
    end: int,
)
    requires
        forall|k: int|
            0 <= k <= module.len() ==> !table.contains_key(#[trigger] module.subrange(0, k)),
    ensures
        prefix_lookup(table, module, end).is_none(),
    decreases end,
{
    if 2 <= end <= module.len() {
        lemma_no_prefix_known(table, module, end - 1);
        lemma_no_prefix_known(table, module, end - 2);
    }
}

/// A table without rules gives every module the global minimum.
pub proof fn lemma_empty_table_gives_minimum(minimum: Option<LevelFilter>, module: Seq<char>)
    ensures
        resolve(Map::<Seq<char>, LevelFilter>::empty(), minimum, module) == minimum,
{
    lemma_no_prefix_known(Map::<Seq<char>, LevelFilter>::empty(), module, module.len() as int);
}

/// A module that neither has a rule nor lies under a path with one falls
/// back to the global minimum, and resolves to nothing where there is none.
pub proof fn lemma_unmatched_falls_back(
    table: Map<Seq<char>, LevelFilter>,
    minimum: Option<LevelFilter>,
    module: Seq<char>,
)
    requires
        forall|k: int|
            0 <= k <= module.len() ==> !table.contains_key(#[trigger] module.subrange(0, k)),
    ensures
        resolve(table, minimum, module) == minimum,
{
    lemma_no_prefix_known(table, module, module.len() as int);
    assert(module.subrange(0, module.len() as int) =~= module);
}

/// Where no module path occurs twice in a list of rules, it makes no
/// difference whether the first or the last rule for a path counts.
pub proof fn lemma_distinct_rules_agree(rules: Seq<(Seq<char>, LevelFilter)>)
    requires
        forall|i: int, j: int| 0 <= i < j < rules.len() ==> rules[i].0 != rules[j].0,
    ensures
        first_wins(rules) == last_wins(rules),
    decreases rules.len(),
{
    if rules.len() > 0 {
        let earlier = rules.drop_last();
        lemma_distinct_rules_agree(earlier);
        assert forall|k: Seq<char>| #[trigger] first_match(rules, k) == last_wins(rules).get(k) by {
            lemma_first_match_push(earlier, rules.last(), k);
            assert(earlier.push(rules.last()) =~= rules);
            if rules.last().0 == k {
                lemma_first_match_none(earlier, k);
            } else {
                assert(first_match(earlier, k) == first_wins(earlier).get(k));
            }
        }
        assert(first_wins(rules) =~= last_wins(rules));
    } else {
        assert(first_wins(rules) =~= last_wins(rules));
    }
}

/// A rule added at the end counts only for a module path that had none.
pub proof fn lemma_first_match_push(
    rules: Seq<(Seq<char>, LevelFilter)>,
    rule: (Seq<char>, LevelFilter),
    module: Seq<char>,
)
    ensures
        first_match(rules.push(rule), module) == match first_match(rules, module) {
            Some(level) => Some(level),
            None => if rule.0 == module {
                Some(rule.1)
            } else {
                None
            },
        },
    decreases rules.len(),
{
    if rules.len() == 0 {
        assert(rules.push(rule).drop_first() =~= rules);
    } else {
        assert(rules.push(rule).drop_first() =~= rules.drop_first().push(rule));
        lemma_first_match_push(rules.drop_first(), rule, module);
    }
}

/// A list in which no rule names the module has no match for it.
pub proof fn lemma_first_match_none(rules: Seq<(Seq<char>, LevelFilter)>, module: Seq<char>)
    requires
        forall|i: int| 0 <= i < rules.len() ==> (#[trigger] rules[i]).0 != module,
    ensures
        first_match(rules, module).is_none(),
    decreases rules.len(),
{
    if rules.len() > 0 {
        assert forall|i: int| 0 <= i < rules.drop_first().len() implies (
        #[trigger] rules.drop_first()[i]).0 != module by {
            assert(rules.drop_first()[i] == rules[i + 1]);
        }
        lemma_first_match_none(rules.drop_first(), module);
    }
}

} // verus!
