use log_filter_parse::directive::{bare_level, find_char, parse, parse_directives};
use log_filter_parse::level::pick_more_verbose;
use log_filter_parse::text::chars_of;
use log_filter_parse::{Filters, FiltersKind, Level, LevelFilter};

const ALL_LEVELS: [Level; 5] = [Level::Error, Level::Warn, Level::Info, Level::Debug, Level::Trace];

fn numbered_rules(count: usize, level: &str) -> String {
    let mut parts: Vec<String> = Vec::new();
    for i in 0..count {
        parts.push(format!("m{}={}", i, level));
    }
    parts.join(",")
}

#[test]
fn filters() {
    let input = "debug,foo::bar=off,foo::baz=trace,foo=info,baz=off,quux=error";
    let filters = Filters::from_str(input);

    let modules = &[
        ("foo::bar", LevelFilter::Off),
        ("foo::baz", LevelFilter::Trace),
        ("foo", LevelFilter::Info),
        ("baz", LevelFilter::Off),
        ("quux", LevelFilter::Error),
        ("something", LevelFilter::Debug),
        ("another::thing", LevelFilter::Debug),
    ];

    for (module, expected) in modules {
        assert_eq!(filters.find_module(module).unwrap(), *expected);
    }
}

#[test]
fn minimum() {
    let filters =
        Filters::from_str("debug,foo::bar=off,foo::baz=trace,foo=info,baz=off,quux=error");

    let modules = &[
        ("foo::bar", LevelFilter::Off),
        ("foo::baz", LevelFilter::Trace),
        ("foo", LevelFilter::Info),
        ("baz", LevelFilter::Off),
        ("quux", LevelFilter::Error),
        ("something", LevelFilter::Debug),
        ("another::thing", LevelFilter::Debug),
        ("this::is::unknown", LevelFilter::Debug),
    ];

    for (module, expected) in modules {
        assert_eq!(filters.find_module(module).unwrap(), *expected);
    }
}

#[test]
fn end_to_end_kind_and_minimum() {
    let filters =
        Filters::from_str("debug,foo::bar=off,foo::baz=trace,foo=info,baz=off,quux=error");
    assert_eq!(filters.minimum, Some(LevelFilter::Debug));
    match &filters.kind {
        FiltersKind::List(rules) => {
            let expected = vec![
                ("foo::bar".to_string(), LevelFilter::Off),
                ("foo::baz".to_string(), LevelFilter::Trace),
                ("foo".to_string(), LevelFilter::Info),
                ("baz".to_string(), LevelFilter::Off),
                ("quux".to_string(), LevelFilter::Error),
            ];
            assert_eq!(rules, &expected);
        }
        _ => panic!("five rules are kept as a list"),
    }
}

#[test]
fn empty_input_is_default() {
    let filters = Filters::from_str("");
    assert!(matches!(filters.kind, FiltersKind::Default));
    assert_eq!(filters.minimum, None);
    for module in ["", "foo", "foo::bar", "::"] {
        assert_eq!(filters.find_module(module), None);
        for level in ALL_LEVELS {
            assert!(!filters.is_enabled(module, level));
        }
    }
}

#[test]
fn default_value_logs_nothing() {
    let filters = Filters::default();
    assert!(matches!(filters.kind, FiltersKind::Default));
    assert_eq!(filters.minimum, None);
    assert_eq!(filters.find_module("anything"), None);
    assert!(!filters.is_enabled("anything", Level::Error));
}

#[test]
fn nothing_valid_is_default() {
    for input in ["nonsense", "a,b,c", "off", "=", "key=", "=value", "foo=loud", ",,,", " debug"] {
        let filters = Filters::from_str(input);
        assert!(matches!(filters.kind, FiltersKind::Default), "{:?}", input);
        assert_eq!(filters.minimum, None);
        assert_eq!(filters.find_module("foo"), None);
        assert_eq!(filters.find_module("key"), None);
        assert!(!filters.is_enabled("foo", Level::Error));
    }
}

#[test]
fn bare_levels_make_a_blanket() {
    let filters = Filters::from_str("info,debug,warn");
    assert!(matches!(filters.kind, FiltersKind::Blanket));
    assert_eq!(filters.minimum, Some(LevelFilter::Debug));
    for module in ["foo", "foo::bar", "entirely::unknown", ""] {
        assert_eq!(filters.find_module(module), Some(LevelFilter::Debug));
        assert_eq!(filters.find_exact(module), Some(LevelFilter::Debug));
    }
    assert!(filters.is_enabled("foo", Level::Debug));
    assert!(!filters.is_enabled("foo", Level::Trace));
}

#[test]
fn off_is_left_out_of_the_minimum() {
    let filters = Filters::from_str("debug,off");
    assert_eq!(filters.minimum, Some(LevelFilter::Debug));
    assert!(matches!(filters.kind, FiltersKind::Blanket));
    let filters = Filters::from_str("off,error,off");
    assert_eq!(filters.minimum, Some(LevelFilter::Error));
    let filters = Filters::from_str("off,off");
    assert_eq!(filters.minimum, None);
    assert!(matches!(filters.kind, FiltersKind::Default));
}

#[test]
fn minimum_is_the_most_verbose_bare_level() {
    assert_eq!(Filters::from_str("error").minimum, Some(LevelFilter::Error));
    assert_eq!(Filters::from_str("error,warn").minimum, Some(LevelFilter::Warn));
    assert_eq!(Filters::from_str("trace,warn,info").minimum, Some(LevelFilter::Trace));
    assert_eq!(Filters::from_str("a=trace,warn").minimum, Some(LevelFilter::Warn));
    assert_eq!(Filters::from_str("a=trace").minimum, None);
    assert_eq!(Filters::from_str("WARN,Info").minimum, Some(LevelFilter::Info));
}

#[test]
fn longest_prefix_wins() {
    let filters = Filters::from_str("a::b=warn,a::b::c=trace");
    assert_eq!(filters.find_module("a::b::c::d"), Some(LevelFilter::Trace));
    assert_eq!(filters.find_module("a::b::x::d"), Some(LevelFilter::Warn));
    assert_eq!(filters.find_module("a::b::c::d::e::f"), Some(LevelFilter::Trace));
    assert_eq!(filters.find_module("a::x"), None);
}

#[test]
fn exact_match_beats_prefix() {
    let filters = Filters::from_str("a=error,a::b=debug");
    assert_eq!(filters.find_module("a::b"), Some(LevelFilter::Debug));
    assert_eq!(filters.find_module("a"), Some(LevelFilter::Error));
    assert_eq!(filters.find_module("a::c"), Some(LevelFilter::Error));
}

#[test]
fn unmatched_falls_back_to_minimum() {
    let with_minimum = Filters::from_str("info,a=error");
    assert_eq!(with_minimum.find_module("b"), Some(LevelFilter::Info));
    assert_eq!(with_minimum.find_module("b::a"), Some(LevelFilter::Info));
    assert_eq!(with_minimum.find_module("ab"), Some(LevelFilter::Info));
    let without = Filters::from_str("a=error");
    assert_eq!(without.find_module("b"), None);
    assert_eq!(without.find_module("b::a"), None);
    assert_eq!(without.find_module("a:b"), None);
    assert!(!without.is_enabled("b", Level::Error));
}

#[test]
fn find_exact_does_not_fall_back() {
    let filters = Filters::from_str("info,a=error");
    assert_eq!(filters.find_exact("a"), Some(LevelFilter::Error));
    assert_eq!(filters.find_exact("a::b"), None);
    assert_eq!(filters.find_exact("b"), None);
    assert_eq!(Filters::from_str("").find_exact("a"), None);
}

#[test]
fn colons_are_paired_from_the_right() {
    let filters = Filters::from_str("a=error,a:=warn");
    assert_eq!(filters.find_module("a:::b"), Some(LevelFilter::Warn));
    assert_eq!(filters.find_module("a::b"), Some(LevelFilter::Error));
    assert_eq!(filters.find_module("a:b"), None);
    assert_eq!(filters.find_module("a::"), Some(LevelFilter::Error));
    assert_eq!(filters.find_module("::"), None);
}

#[test]
fn is_enabled_compares_with_the_threshold() {
    let filters = Filters::from_str("o=off,e=error,w=warn,i=info,d=debug,t=trace");
    let modules = ["o", "e", "w", "i", "d", "t"];
    for (threshold, module) in modules.iter().enumerate() {
        for (position, level) in ALL_LEVELS.iter().enumerate() {
            assert_eq!(filters.is_enabled(module, *level), position + 1 <= threshold);
        }
    }
    for level in ALL_LEVELS {
        assert!(!filters.is_enabled("o", level));
        assert!(filters.is_enabled("t", level));
        assert!(!filters.is_enabled("unknown", level));
    }
}

#[test]
fn allows_and_ordinals() {
    assert_eq!(LevelFilter::Off.ordinal(), 0);
    assert_eq!(LevelFilter::Error.ordinal(), 1);
    assert_eq!(LevelFilter::Warn.ordinal(), 2);
    assert_eq!(LevelFilter::Info.ordinal(), 3);
    assert_eq!(LevelFilter::Debug.ordinal(), 4);
    assert_eq!(LevelFilter::Trace.ordinal(), 5);
    assert_eq!(Level::Error.ordinal(), 1);
    assert_eq!(Level::Trace.ordinal(), 5);
    assert!(LevelFilter::Info.allows(Level::Warn));
    assert!(LevelFilter::Info.allows(Level::Info));
    assert!(!LevelFilter::Info.allows(Level::Debug));
}

#[test]
fn representation_does_not_change_answers() {
    let ten = numbered_rules(10, "warn");
    let twenty = format!("{},{}", ten, ten);
    let small = Filters::from_str(&ten);
    let large = Filters::from_str(&twenty);
    assert!(matches!(small.kind, FiltersKind::List(_)));
    assert!(matches!(large.kind, FiltersKind::Mapping(_)));
    let queries = ["m0", "m9", "m10", "m3::inner", "m3::inner::most", "other", "", "m", "m1:x"];
    for query in queries {
        assert_eq!(small.find_module(query), large.find_module(query), "{:?}", query);
        for level in ALL_LEVELS {
            assert_eq!(small.is_enabled(query, level), large.is_enabled(query, level));
        }
    }
    assert_eq!(large.find_module("m3::inner"), Some(LevelFilter::Warn));
    assert_eq!(large.find_module("m10"), None);
}

#[test]
fn kind_follows_the_number_of_rules() {
    assert!(matches!(Filters::from_str(&numbered_rules(1, "info")).kind, FiltersKind::List(_)));
    match Filters::from_str(&numbered_rules(14, "info")).kind {
        FiltersKind::List(rules) => assert_eq!(rules.len(), 14),
        _ => panic!("fourteen rules are kept as a list"),
    }
    match Filters::from_str(&numbered_rules(15, "info")).kind {
        FiltersKind::Mapping(rules) => assert_eq!(rules.len(), 15),
        _ => panic!("fifteen rules are kept as a mapping"),
    }
    let many = Filters::from_str(&format!("error,{}", numbered_rules(40, "trace")));
    assert!(matches!(many.kind, FiltersKind::Mapping(_)));
    assert_eq!(many.find_module("m39::x::y"), Some(LevelFilter::Trace));
    assert_eq!(many.find_module("m40"), Some(LevelFilter::Error));
}

#[test]
fn repeated_module_first_wins_in_a_list() {
    let filters = Filters::from_str("a=error,a=trace");
    match &filters.kind {
        FiltersKind::List(rules) => assert_eq!(rules.len(), 2),
        _ => panic!("two rules are kept as a list"),
    }
    assert_eq!(filters.find_module("a"), Some(LevelFilter::Error));
    assert_eq!(filters.find_module("a::b"), Some(LevelFilter::Error));
}

#[test]
fn repeated_module_last_wins_in_a_mapping() {
    let input = format!("a=error,{},a=trace", numbered_rules(14, "info"));
    let filters = Filters::from_str(&input);
    match &filters.kind {
        FiltersKind::Mapping(rules) => assert_eq!(rules.len(), 15),
        _ => panic!("sixteen rules are kept as a mapping"),
    }
    assert_eq!(filters.find_module("a"), Some(LevelFilter::Trace));
    assert_eq!(filters.find_module("a::b"), Some(LevelFilter::Trace));
}

#[test]
fn parse_reads_a_pair() {
    assert_eq!(parse("foo=info"), Some(("foo".to_string(), LevelFilter::Info)));
    assert_eq!(parse("foo::bar=off"), Some(("foo::bar".to_string(), LevelFilter::Off)));
    assert_eq!(parse("x=error"), Some(("x".to_string(), LevelFilter::Error)));
    assert_eq!(parse("x=warn"), Some(("x".to_string(), LevelFilter::Warn)));
    assert_eq!(parse("x=debug"), Some(("x".to_string(), LevelFilter::Debug)));
    assert_eq!(parse("x=trace"), Some(("x".to_string(), LevelFilter::Trace)));
    assert_eq!(parse("x=TRACE"), Some(("x".to_string(), LevelFilter::Trace)));
    assert_eq!(parse("x=WaRn"), Some(("x".to_string(), LevelFilter::Warn)));
    assert_eq!(parse(" x =info"), Some((" x ".to_string(), LevelFilter::Info)));
    assert_eq!(parse("caf\u{e9}::\u{4e2d}=debug"), Some(("caf\u{e9}::\u{4e2d}".to_string(), LevelFilter::Debug)));
}

#[test]
fn parse_passes_over_malformed_tokens() {
    assert_eq!(parse(""), None);
    assert_eq!(parse("info"), None);
    assert_eq!(parse("="), None);
    assert_eq!(parse("key="), None);
    assert_eq!(parse("=value"), None);
    assert_eq!(parse("=info"), None);
    assert_eq!(parse("foo=loud"), None);
    assert_eq!(parse("foo= info"), None);
    assert_eq!(parse("foo=info "), None);
    assert_eq!(parse("foo=info=x"), None);
    assert_eq!(parse("foo==info"), None);
    assert_eq!(parse("foo=inf\u{f6}"), None);
}

#[test]
fn bare_level_reads_a_name() {
    assert_eq!(bare_level("error"), Some(LevelFilter::Error));
    assert_eq!(bare_level("warn"), Some(LevelFilter::Warn));
    assert_eq!(bare_level("info"), Some(LevelFilter::Info));
    assert_eq!(bare_level("debug"), Some(LevelFilter::Debug));
    assert_eq!(bare_level("trace"), Some(LevelFilter::Trace));
    assert_eq!(bare_level("Trace"), Some(LevelFilter::Trace));
    assert_eq!(bare_level("off"), None);
    assert_eq!(bare_level("OFF"), None);
    assert_eq!(bare_level(""), None);
    assert_eq!(bare_level("a=info"), None);
    assert_eq!(bare_level("info "), None);
    assert_eq!(bare_level("verbose"), None);
}

#[test]
fn find_char_gives_the_first_position() {
    assert_eq!(find_char("a=b=c", '='), Some(1));
    assert_eq!(find_char("=", '='), Some(0));
    assert_eq!(find_char("abc", '='), None);
    assert_eq!(find_char("", '='), None);
    assert_eq!(find_char("\u{e9}\u{e9}=x", '='), Some(2));
}

#[test]
fn parse_directives_keeps_order_and_repeats() {
    let (rules, minimum) = parse_directives("b=info,warn,junk,a=off,b=trace,,=error,debug,c=");
    let expected = vec![
        ("b".to_string(), LevelFilter::Info),
        ("a".to_string(), LevelFilter::Off),
        ("b".to_string(), LevelFilter::Trace),
    ];
    assert_eq!(rules, expected);
    assert_eq!(minimum, Some(LevelFilter::Debug));
    let (rules, minimum) = parse_directives("");
    assert!(rules.is_empty());
    assert_eq!(minimum, None);
    let (rules, minimum) = parse_directives("a=info,");
    assert_eq!(rules, vec![("a".to_string(), LevelFilter::Info)]);
    assert_eq!(minimum, None);
}

#[test]
fn spaces_are_part_of_the_text() {
    let filters = Filters::from_str("debug, foo=info");
    assert_eq!(filters.find_module(" foo"), Some(LevelFilter::Info));
    assert_eq!(filters.find_module("foo"), Some(LevelFilter::Debug));
    let filters = Filters::from_str(" debug,foo=info");
    assert_eq!(filters.minimum, None);
    assert_eq!(filters.find_module("bar"), None);
}

#[test]
fn chars_of_lists_characters() {
    assert_eq!(chars_of(""), Vec::<char>::new());
    assert_eq!(chars_of("a::b"), vec!['a', ':', ':', 'b']);
    assert_eq!(chars_of("\u{e9}=\u{4e2d}"), vec!['\u{e9}', '=', '\u{4e2d}']);
}

#[test]
fn pick_more_verbose_prefers_the_higher_rank() {
    assert_eq!(pick_more_verbose(None, None), None);
    assert_eq!(pick_more_verbose(Some(LevelFilter::Warn), None), Some(LevelFilter::Warn));
    assert_eq!(pick_more_verbose(None, Some(LevelFilter::Warn)), Some(LevelFilter::Warn));
    assert_eq!(
        pick_more_verbose(Some(LevelFilter::Warn), Some(LevelFilter::Debug)),
        Some(LevelFilter::Debug)
    );
    assert_eq!(
        pick_more_verbose(Some(LevelFilter::Trace), Some(LevelFilter::Error)),
        Some(LevelFilter::Trace)
    );
}

#[test]
fn non_ascii_module_paths() {
    let filters = Filters::from_str("warn,caf\u{e9}=trace,\u{4e2d}::\u{6587}=error");
    assert_eq!(filters.find_module("caf\u{e9}::inner"), Some(LevelFilter::Trace));
    assert_eq!(filters.find_module("\u{4e2d}::\u{6587}::x"), Some(LevelFilter::Error));
    assert_eq!(filters.find_module("\u{4e2d}::x"), Some(LevelFilter::Warn));
    assert_eq!(filters.find_module("cafe"), Some(LevelFilter::Warn));
}

#[test]
fn mapping_resolves_through_prefixes() {
    let input = format!("top=error,top::mid=warn,{},top::mid::low=debug", numbered_rules(14, "info"));
    let filters = Filters::from_str(&input);
    assert!(matches!(filters.kind, FiltersKind::Mapping(_)));
    assert_eq!(filters.minimum, None);
    assert_eq!(filters.find_module("top::mid::low::x"), Some(LevelFilter::Debug));
    assert_eq!(filters.find_module("top::mid::other"), Some(LevelFilter::Warn));
    assert_eq!(filters.find_module("top::other::low"), Some(LevelFilter::Error));
    assert_eq!(filters.find_module("other::top"), None);
    assert_eq!(filters.find_exact("top::mid::low::x"), None);
    assert_eq!(filters.find_exact("top::mid"), Some(LevelFilter::Warn));
}
