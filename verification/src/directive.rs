//! The directive grammar: a comma-separated list in which each token is
//! either a bare threshold name or a `module=threshold` pair.

use crate::level::{
    level_filter_of_name, more_verbose, parse_level_filter, pick_more_verbose, LevelFilter,
};
use crate::text::chars_of;
use vstd::prelude::*;
use vstd::string::*;

verus! {

/// The character between two directives.
pub const DIRECTIVE_SEPARATOR: char = ',';

/// The character between a module path and its threshold.
pub const RULE_SEPARATOR: char = '=';

/// `i` is the position of the first `c` in `s`.
pub open spec fn first_at(s: Seq<char>, c: char, i: int) -> bool {
    &&& 0 <= i < s.len()
    &&& s[i] == c
    &&& forall|j: int| 0 <= j < i ==> s[j] != c
}

/// The pieces of `s` between occurrences of `sep`, in order. There is always
/// at least one piece, and a piece may be empty: every character other than
/// `sep` extends the last piece, and every `sep` opens a new, empty one.
pub open spec fn split(s: Seq<char>, sep: char) -> Seq<Seq<char>>
    decreases s.len(),
{
    if s.len() == 0 {
        seq![Seq::<char>::empty()]
    } else {
        let before = split(s.drop_last(), sep);
        if s.last() == sep {
            before.push(Seq::<char>::empty())
        } else {
            before.drop_last().push(before.last().push(s.last()))
        }
    }
}

/// The rule that a single token states: the text before its first `=` is the
/// module path, which must not be empty, and all the text after that `=`
/// must name a threshold. Any other token states no rule.
pub open spec fn rule_of_token(t: Seq<char>) -> Option<(Seq<char>, LevelFilter)> {
    if exists|i: int| first_at(t, RULE_SEPARATOR, i) {
        let i = choose|i: int| first_at(t, RULE_SEPARATOR, i);
        match level_filter_of_name(t.subrange(i + 1, t.len() as int)) {
            Some(level) => if i > 0 {
                Some((t.subrange(0, i), level))
            } else {
                None
            },
            None => None,
        }
    } else {
        None
    }
}

/// The global threshold that a single token proposes: a token without `=`
/// that names a threshold other than `Off`.
pub open spec fn bare_level_of_token(t: Seq<char>) -> Option<LevelFilter> {
    if t.contains(RULE_SEPARATOR) {
        None
    } else {
        match level_filter_of_name(t) {
            Some(LevelFilter::Off) => None,
            other => other,
        }
    }
}

/// The rules that a sequence of tokens states, in the order of the tokens,
/// with repeated module paths kept.
pub open spec fn rules_of(tokens: Seq<Seq<char>>) -> Seq<(Seq<char>, LevelFilter)>
    decreases tokens.len(),
{
    if tokens.len() == 0 {
        Seq::empty()
    } else {
        let earlier = rules_of(tokens.drop_last());
        match rule_of_token(tokens.last()) {
            Some(rule) => earlier.push(rule),
            None => earlier,
        }
    }
}

/// The most verbose global threshold that any of the tokens proposes.
pub open spec fn minimum_of(tokens: Seq<Seq<char>>) -> Option<LevelFilter>
    decreases tokens.len(),
{
    if tokens.len() == 0 {
        None
    } else {
        more_verbose(minimum_of(tokens.drop_last()), bare_level_of_token(tokens.last()))
    }
}

/// The rules of a whole directive string.
pub open spec fn directive_rules(input: Seq<char>) -> Seq<(Seq<char>, LevelFilter)> {
    rules_of(split(input, DIRECTIVE_SEPARATOR))
}

/// The global threshold of a whole directive string.
pub open spec fn directive_minimum(input: Seq<char>) -> Option<LevelFilter> {
    minimum_of(split(input, DIRECTIVE_SEPARATOR))
}

/// What a stored list of rules stands for: module paths as character
/// sequences, each with its threshold.
pub open spec fn rules_view(v: Seq<(String, LevelFilter)>) -> Seq<(Seq<char>, LevelFilter)> {
    Seq::new(v.len(), |i: int| (v[i].0@, v[i].1))
}

/// Finds the first occurrence of `c` in `s`.
pub fn find_char(s: &str, c: char) -> (r: Option<usize>)
    ensures
        match r {
            Some(i) => first_at(s@, c, i as int),
            None => !s@.contains(c),
        },
{
    let chars = chars_of(s);
    let mut i: usize = 0;
    while i < chars.len()
        invariant
            chars@ == s@,
            i <= chars@.len(),
            forall|j: int| 0 <= j < i ==> s@[j] != c,
        decreases chars@.len() - i,
    {
        if chars[i] == c {
            return Some(i);
        }
        i += 1;
    }
    None
}

/// Reads one token as a `module=threshold` pair.
pub fn parse(input: &str) -> (r: Option<(String, LevelFilter)>)
    ensures
        match r {
            Some(rule) => rule_of_token(input@) == Some((rule.0@, rule.1)),
            None => rule_of_token(input@).is_none(),
        },
{
    match find_char(input, RULE_SEPARATOR) {
        None => None,
        Some(i) => {
            proof {
                let j = choose|j: int| first_at(input@, RULE_SEPARATOR, j);
                assert(j == i);
            }
            if i == 0 {
                return None;
            }
            let len: usize = input.unicode_len();
            match parse_level_filter(input.substring_char(i + 1, len)) {
                None => None,
                Some(level) => Some((input.substring_char(0, i).to_owned(), level)),
            }
        },
    }
}

/// Reads one token as a bare global threshold.
pub fn bare_level(input: &str) -> (r: Option<LevelFilter>)
    ensures
        r == bare_level_of_token(input@),
{
    match find_char(input, RULE_SEPARATOR) {
        Some(_) => None,
        None => match parse_level_filter(input) {
            Some(LevelFilter::Off) => None,
            other => other,
        },
    }
}

/// Takes one token into account: its rule, if it states one, is added
/// behind the rules so far, and its global threshold, if it proposes one, is
/// weighed against the minimum so far.
fn record_token(
    token: &str,
    rules: &mut Vec<(String, LevelFilter)>,
    minimum: &mut Option<LevelFilter>,
)
    ensures
        rules_view(final(rules)@) == match rule_of_token(token@) {
            Some(rule) => rules_view(old(rules)@).push(rule),
            None => rules_view(old(rules)@),
        },
        *final(minimum) == more_verbose(*old(minimum), bare_level_of_token(token@)),
{
    match parse(token) {
        Some(rule) => {
            rules.push(rule);
            assert(rules_view(rules@) =~= rules_view(old(rules)@).push((rule.0@, rule.1)));
        },
        None => {},
    }
    *minimum = pick_more_verbose(*minimum, bare_level(token));
}

/// Reads a whole directive string: its rules in order, and its global
/// threshold. Tokens that state neither are passed over.
pub fn parse_directives(input: &str) -> (r: (Vec<(String, LevelFilter)>, Option<LevelFilter>))
    ensures
        rules_view(r.0@) == directive_rules(input@),
        r.1 == directive_minimum(input@),
{
    let chars = chars_of(input);
    let len: usize = chars.len();
    let mut rules: Vec<(String, LevelFilter)> = Vec::new();
    let mut minimum: Option<LevelFilter> = None;
    let mut start: usize = 0;
    let mut i: usize = 0;
    let ghost mut done: Seq<Seq<char>> = Seq::empty();
    proof {
        assert(rules_view(rules@) =~= rules_of(done));
        assert(input@.take(0) =~= Seq::<char>::empty());
        assert(input@.subrange(0, 0) =~= Seq::<char>::empty());
        assert(seq![Seq::<char>::empty()] =~= done.push(Seq::<char>::empty()));
    }
    while i < len
        invariant
            chars@ == input@,
            len == input@.len(),
            start <= i <= len,
            split(input@.take(i as int), DIRECTIVE_SEPARATOR) == done.push(
                input@.subrange(start as int, i as int),
            ),
            rules_view(rules@) == rules_of(done),
            minimum == minimum_of(done),
        decreases len - i,
    {
        let c: char = chars[i];
        proof {
            let next = input@.take(i + 1);
            let open = done.push(input@.subrange(start as int, i as int));
            assert(next.drop_last() =~= input@.take(i as int));
            assert(open.drop_last() =~= done);
            assert(open.last().push(c) =~= input@.subrange(start as int, i + 1));
        }
        if c == DIRECTIVE_SEPARATOR {
            let token = input.substring_char(start, i);
            record_token(token, &mut rules, &mut minimum);
            proof {
                assert(done.push(token@).drop_last() =~= done);
                assert(input@.subrange(i + 1, i + 1) =~= Seq::<char>::empty());
                done = done.push(token@);
            }
            start = i + 1;
        }
        i += 1;
    }
    let token = input.substring_char(start, len);
    record_token(token, &mut rules, &mut minimum);
    proof {
        assert(input@.take(len as int) =~= input@);
        assert(done.push(token@).drop_last() =~= done);
    }
    (rules, minimum)
}

} // verus!
