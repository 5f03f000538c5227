use mc_world::rules::{fits, pick_first, resolve, Rule};

fn rule(pattern: &str, target: u16) -> Rule {
    Rule::new(pattern.to_string(), target)
}

fn target(rules: &[Rule], name: &str) -> Option<u16> {
    resolve(&rules.to_vec(), &name.to_string())
}

#[test]
fn rule_holds_what_it_was_made_of() {
    let r = rule("minecraft:*", 4);
    assert_eq!(r.pattern, "minecraft:*");
    assert_eq!(r.target, 4);
}

#[test]
fn exact_pattern_matches_the_whole_name() {
    let rules = [rule("minecraft:stone", 5)];
    assert_eq!(target(&rules, "minecraft:stone"), Some(5));
    assert_eq!(target(&rules, "minecraft:stone_bricks"), None);
    assert_eq!(target(&rules, "stone"), None);
    assert_eq!(target(&rules, "minecraft:Stone"), None);
}

#[test]
fn star_and_question_mark_are_wildcards() {
    let rules = [rule("minecraft:*_log", 1), rule("minecraft:dir?", 2)];
    assert_eq!(target(&rules, "minecraft:oak_log"), Some(1));
    assert_eq!(target(&rules, "minecraft:stripped_birch_log"), Some(1));
    assert_eq!(target(&rules, "minecraft:oak_logs"), None);
    assert_eq!(target(&rules, "minecraft:dirt"), Some(2));
    assert_eq!(target(&rules, "minecraft:dir"), None);
    assert_eq!(target(&rules, "minecraft:dirty"), None);
}

#[test]
fn rules_are_tried_in_order() {
    let rules = [rule("minecraft:*", 1), rule("minecraft:stone", 2)];
    assert_eq!(target(&rules, "minecraft:stone"), Some(1));
    let rules = [rule("minecraft:stone", 2), rule("minecraft:*", 1)];
    assert_eq!(target(&rules, "minecraft:stone"), Some(2));
    assert_eq!(target(&rules, "minecraft:dirt"), Some(1));
}

#[test]
fn no_rules_match_nothing() {
    assert_eq!(target(&[], "minecraft:stone"), None);
}

#[test]
fn air_has_no_target() {
    let rules = [rule("minecraft:air", 1), rule("*", 2)];
    assert_eq!(target(&rules, "minecraft:air"), None);
    assert_eq!(target(&rules, "minecraft:cave_air"), Some(2));
    assert_eq!(target(&rules, "minecraft:AIR"), Some(2));
}

#[test]
fn names_with_a_backslash_are_put_to_the_matcher() {
    // A question mark stands for any character but a separator, and whether a
    // backslash is one depends on the platform.
    let rules = [rule("minecraft:st?one", 1)];
    let expected = if std::path::is_separator('\\') {
        None
    } else {
        Some(1)
    };
    assert_eq!(target(&rules, "minecraft:st\\one"), expected);
    assert_eq!(target(&rules, "minecraft:st_one"), Some(1));
    // An escaped backslash in the pattern stands for the character itself.
    let rules = [rule("a\\\\b", 2), rule("a*", 3)];
    assert!(target(&rules, "a\\b").is_some());
}

#[test]
fn every_name_of_usual_length_fits_the_matcher() {
    assert!(fits("minecraft:stone"));
    assert!(fits(""));
    assert!(fits("minecraft:st\\one"));
}

#[test]
fn first_yes_picks_the_target() {
    let rules = vec![rule("a", 1), rule("b", 2), rule("c", 3)];
    assert_eq!(pick_first(&rules, &vec![false, true, true]), Some(2));
    assert_eq!(pick_first(&rules, &vec![true, true, true]), Some(1));
    assert_eq!(pick_first(&rules, &vec![false, false, true]), Some(3));
    assert_eq!(pick_first(&rules, &vec![false, false, false]), None);
    assert_eq!(pick_first(&rules, &Vec::new()), None);
    assert_eq!(pick_first(&rules, &vec![false]), None);
    assert_eq!(pick_first(&rules, &vec![false, false, false, true]), None);
    assert_eq!(pick_first(&Vec::new(), &vec![true]), None);
}
