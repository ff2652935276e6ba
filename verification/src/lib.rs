//! Per-module log filtering: a directive string such as
//! `"debug,foo::bar=off,foo=info"` is parsed once into [`Filters`], which then
//! answers, for a module path and a severity, whether a record is shown.

pub mod directive;
pub mod level;
pub mod lookup;
pub mod text;
pub mod theorems;

use crate::directive::{
    directive_minimum, directive_rules, parse_directives, rules_view, split, DIRECTIVE_SEPARATOR,
};
pub use crate::level::{Level, LevelFilter};
use crate::lookup::{
    first_match, first_wins, last_wins, lemma_empty_table_gives_minimum, prefix_lookup, resolve,
    PATH_COLON,
};
use crate::text::chars_of;
use crate::theorems::lemma_minimum_never_off;
use vstd::hash_map::StringHashMap;
use vstd::prelude::*;
use vstd::string::*;

verus! {

/// The number of rules from which they are kept in a hash map rather than in
/// a list: scanning a short list is faster than hashing.
pub const MAP_THRESHOLD: usize = 15;

/// How a set of filters stores its rules.
pub enum FiltersKind {
    /// No rules and no global minimum: nothing is logged.
    Default,
    /// No rules, only a global minimum that covers every module.
    Blanket,
    /// A short list of rules, scanned in order; the first rule for a module
    /// path counts.
    List(Vec<(String, LevelFilter)>),
    /// A mapping from module paths to thresholds, for many rules.
    Mapping(StringHashMap<LevelFilter>),
}

impl FiltersKind {
    /// The rules as a table from module path to threshold.
    pub open spec fn table(&self) -> Map<Seq<char>, LevelFilter> {
        match self {
            FiltersKind::Default => Map::empty(),
            FiltersKind::Blanket => Map::empty(),
            FiltersKind::List(rules) => first_wins(rules_view(rules@)),
            FiltersKind::Mapping(rules) => rules@,
        }
    }
}

/// The table that a directive string's rules amount to: below
/// `MAP_THRESHOLD` rules the first rule for a module path counts, from there
/// on the last.
pub open spec fn directive_table(input: Seq<char>) -> Map<Seq<char>, LevelFilter> {
    let rules = directive_rules(input);
    if rules.len() < MAP_THRESHOLD {
        first_wins(rules)
    } else {
        last_wins(rules)
    }
}

/// Parsed level filters.
pub struct Filters {
    /// How the rules are stored.
    pub kind: FiltersKind,
    /// The global minimum: the threshold of modules that no rule covers.
    pub minimum: Option<LevelFilter>,
}

/// Compares two string slices with `str::eq`.
///
/// Trusted: two slices are equal exactly when they hold the same characters.
#[verifier::external_body]
fn same_text(a: &str, b: &str) -> (r: bool)
    ensures
        r == (a@ == b@),
{
    a == b
}

/// Releases the spare capacity of a list of rules with `Vec::shrink_to_fit`.
///
/// Trusted: the call changes only how much the vector has allocated; its
/// elements and their order stay as they are.
#[verifier::external_body]
fn shrink_rules(rules: &mut Vec<(String, LevelFilter)>)
    ensures
        final(rules)@ == old(rules)@,
{
    rules.shrink_to_fit();
}

impl Filters {
    /// The kind says truthfully whether there are rules and a minimum:
    /// `Default` has neither, `Blanket` has a minimum only, and `List` and
    /// `Mapping` hold at least one rule.
    pub open spec fn wf(&self) -> bool {
        match self.kind {
            FiltersKind::Default => self.minimum.is_none(),
            FiltersKind::Blanket => self.minimum.is_some(),
            FiltersKind::List(rules) => rules@.len() > 0,
            FiltersKind::Mapping(rules) => exists|k: Seq<char>| rules@.contains_key(k),
        }
    }

    /// The rules as a table from module path to threshold.
    pub open spec fn table(&self) -> Map<Seq<char>, LevelFilter> {
        self.kind.table()
    }

    /// What a lookup of exactly `module`, with no fallback to enclosing
    /// paths, gives.
    pub open spec fn exact(&self, module: Seq<char>) -> Option<LevelFilter> {
        match self.kind {
            FiltersKind::Default => None,
            FiltersKind::Blanket => self.minimum,
            _ => self.table().get(module),
        }
    }

    /// The threshold that applies to `module`.
    pub open spec fn threshold(&self, module: Seq<char>) -> Option<LevelFilter> {
        match self.kind {
            FiltersKind::Default => None,
            FiltersKind::Blanket => self.minimum,
            _ => resolve(self.table(), self.minimum, module),
        }
    }

    /// Whether a request of severity `level` from `module` is shown.
    pub open spec fn enabled(&self, module: Seq<char>, level: Level) -> bool {
        match self.threshold(module) {
            Some(threshold) => threshold.admits(level),
            None => false,
        }
    }

    /// Parses the level filters from a directive string. Tokens that are
    /// neither a threshold name nor a `module=threshold` pair are passed
    /// over.
    pub fn from_str(input: &str) -> (r: Self)
        ensures
            r.wf(),
            r.minimum == directive_minimum(input@),
            r.minimum != Some(LevelFilter::Off),
            r.table() == directive_table(input@),
            r.kind is Default <==> directive_rules(input@).len() == 0 && r.minimum.is_none(),
            r.kind is Blanket <==> directive_rules(input@).len() == 0 && r.minimum.is_some(),
            r.kind is List <==> 0 < directive_rules(input@).len() < MAP_THRESHOLD,
            r.kind is Mapping <==> directive_rules(input@).len() >= MAP_THRESHOLD,
            r.kind is List ==> rules_view(r.kind->List_0@) == directive_rules(input@),
            forall|module: Seq<char>| #[trigger]
                r.threshold(module) == resolve(
                    directive_table(input@),
                    directive_minimum(input@),
                    module,
                ),
    {
        let (mut rules, minimum) = parse_directives(input);
        let count: usize = rules.len();
        proof {
            lemma_minimum_never_off(split(input@, DIRECTIVE_SEPARATOR));
            assert forall|module: Seq<char>|
                resolve(Map::<Seq<char>, LevelFilter>::empty(), minimum, module)
                    == minimum by {
                lemma_empty_table_gives_minimum(minimum, module);
            }
            if count == 0 {
                assert(first_wins(rules_view(rules@)) =~= Map::<Seq<char>, LevelFilter>::empty());
            }
        }
        let kind = if count == 0 {
            match minimum {
                None => FiltersKind::Default,
                Some(_) => FiltersKind::Blanket,
            }
        } else if count < MAP_THRESHOLD {
            shrink_rules(&mut rules);
            FiltersKind::List(rules)
        } else {
            // Rules are moved out from the back, so a module path that is
            // already in the map has a later rule and keeps it.
            let mut map: StringHashMap<LevelFilter> = StringHashMap::new();
            let ghost all = rules_view(rules@);
            assert(last_wins(all).union_prefer_right(map@) =~= last_wins(all));
            while rules.len() > 0
                invariant
                    last_wins(all) == last_wins(rules_view(rules@)).union_prefer_right(map@),
                    rules@.len() < all.len() ==> exists|k: Seq<char>| map@.contains_key(k),
                    rules@.len() <= all.len(),
                decreases rules@.len(),
            {
                let ghost left = rules_view(rules@);
                let ghost held = map@;
                if let Some((module, level)) = rules.pop() {
                    assert(left.last() == (module@, level));
                    assert(rules_view(rules@) =~= left.drop_last());
                    if !map.contains_key(module.as_str()) {
                        map.insert(module, level);
                    }
                    assert(map@.contains_key(module@));
                    assert(last_wins(left).union_prefer_right(held) =~= last_wins(
                        left.drop_last(),
                    ).union_prefer_right(map@));
                }
            }
            assert(last_wins(rules_view(rules@)).union_prefer_right(map@) =~= map@);
            FiltersKind::Mapping(map)
        };
        Self { kind, minimum }
    }

    /// Checks whether a request of severity `level` from `module` is shown:
    /// it is when a threshold applies to the module and the severity is no
    /// more verbose than that threshold.
    pub fn is_enabled(&self, module: &str, level: Level) -> (r: bool)
        ensures
            r == self.enabled(module@, level),
    {
        match self.find_module(module) {
            Some(threshold) => threshold.allows(level),
            None => false,
        }
    }

    /// Finds the threshold that applies to `module`: that of its own rule,
    /// else that of the longest enclosing path with a rule, else the global
    /// minimum. With kind `Default` there is never one.
    pub fn find_module(&self, module: &str) -> (r: Option<LevelFilter>)
        ensures
            r == self.threshold(module@),
    {
        match self.kind {
            FiltersKind::Default => {
                return None;
            },
            FiltersKind::Blanket => {
                return self.minimum;
            },
            _ => {},
        }
        if let Some(level) = self.find_exact(module) {
            return Some(level);
        }
        let chars = chars_of(module);
        let len: usize = chars.len();
        let mut end: usize = len;
        while end >= 2
            invariant
                end <= len,
                len == module@.len(),
                chars@ == module@,
                !(self.kind is Default),
                !(self.kind is Blanket),
                !self.table().contains_key(module@),
                prefix_lookup(self.table(), module@, len as int) == prefix_lookup(
                    self.table(),
                    module@,
                    end as int,
                ),
            decreases end,
        {
            if chars[end - 1] == PATH_COLON && chars[end - 2] == PATH_COLON {
                if let Some(level) = self.find_exact(module.substring_char(0, end - 2)) {
                    return Some(level);
                }
                end -= 2;
            } else {
                end -= 1;
            }
        }
        self.minimum
    }

    /// Looks up exactly `module`, with no fallback to enclosing paths. With
    /// kind `Blanket` every module has the global minimum.
    pub fn find_exact(&self, module: &str) -> (r: Option<LevelFilter>)
        ensures
            r == self.exact(module@),
    {
        match &self.kind {
            FiltersKind::Default => None,
            FiltersKind::Blanket => self.minimum,
            FiltersKind::List(levels) => {
                let mut i: usize = 0;
                assert(rules_view(levels@).skip(0) =~= rules_view(levels@));
                while i < levels.len()
                    invariant
                        i <= levels@.len(),
                        self.kind is List,
                        self.table() == first_wins(rules_view(levels@)),
                        first_match(rules_view(levels@), module@) == first_match(
                            rules_view(levels@).skip(i as int),
                            module@,
                        ),
                    decreases levels@.len() - i,
                {
                    proof {
                        let rest = rules_view(levels@).skip(i as int);
                        assert(rest[0] == (levels@[i as int].0@, levels@[i as int].1));
                        assert(rest.drop_first() =~= rules_view(levels@).skip(i + 1));
                        assert(first_match(rest, module@) == if rest[0].0 == module@ {
                            Some(rest[0].1)
                        } else {
                            first_match(rest.drop_first(), module@)
                        });
                    }
                    if same_text(levels[i].0.as_str(), module) {
                        return Some(levels[i].1);
                    }
                    i += 1;
                }
                None
            },
            FiltersKind::Mapping(levels) => match levels.get(module) {
                Some(level) => Some(*level),
                None => None,
            },
        }
    }
}

impl Default for Filters {
    /// Filters under which nothing is logged.
    fn default() -> (r: Self)
        ensures
            r.kind is Default,
            r.minimum.is_none(),
            r.wf(),
    {
        Self { kind: FiltersKind::Default, minimum: None }
    }
}

} // verus!
