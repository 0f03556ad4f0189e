use lsystem::pattern::Search;
use lsystem::system::{derive_base_symbols, read_rule, BaseSymbols, RuleError, System, SystemExpression};

fn symbols(text: &str) -> Vec<BaseSymbols> {
    derive_base_symbols(text.to_string()).0
}

#[test]
fn known_characters_map_to_their_symbols() {
    assert_eq!(
        symbols("Ff+-"),
        vec![
            BaseSymbols::Forward,
            BaseSymbols::ForwardNoLine,
            BaseSymbols::AngleIncrement,
            BaseSymbols::AngleDecrement,
        ]
    );
}

#[test]
fn unknown_characters_draw_a_segment() {
    assert_eq!(symbols("AbZ? "), vec![BaseSymbols::Forward; 5]);
}

#[test]
fn empty_text_has_no_symbols() {
    assert_eq!(symbols(""), vec![]);
}

#[test]
fn symbols_are_written_as_their_characters() {
    assert_eq!(BaseSymbols::Forward.to_char(), 'F');
    assert_eq!(BaseSymbols::ForwardNoLine.to_char(), 'f');
    assert_eq!(BaseSymbols::AngleIncrement.to_char(), '+');
    assert_eq!(BaseSymbols::AngleDecrement.to_char(), '-');
    assert_eq!(BaseSymbols::ForwardNoLine.to_string(), "f");
    assert_eq!(BaseSymbols::from_char('x'), BaseSymbols::Forward);
}

#[test]
fn expression_text_is_canonical() {
    let expression = derive_base_symbols("A+Bf-F".to_string());
    assert_eq!(expression.to_string(), "F+Ff-F");
    assert_eq!(SystemExpression(vec![]).to_string(), "");
}

#[test]
fn text_of_an_expression_reads_back_as_the_expression() {
    let expression = derive_base_symbols("+BF-AFA-FB+f".to_string());
    let again = derive_base_symbols(expression.to_string());
    assert_eq!(again.0, expression.0);
}

#[test]
fn total_edges_counts_both_kinds_of_step() {
    assert_eq!(derive_base_symbols("F+f-A+".to_string()).total_edges(), 3);
    assert_eq!(derive_base_symbols("+-+-".to_string()).total_edges(), 0);
    assert_eq!(SystemExpression(vec![]).total_edges(), 0);
}

#[test]
fn generation_zero_is_the_axiom() {
    let mut system = System::from_axiom("A+B");
    system.add_rule("A=>AA").unwrap();
    assert_eq!(system.do_n_iterations(0).to_string(), "F+F");
    assert_eq!(system.do_n_iterations(0).0.len(), 3);
}

#[test]
fn negative_generation_count_is_generation_zero() {
    let mut system = System::from_axiom("Af");
    system.add_rule("A=>AA").unwrap();
    assert_eq!(system.do_n_iterations(-3).to_string(), "Ff");
}

#[test]
fn doubling_rule_gives_four_after_two_generations() {
    let mut system = System::from_axiom("A");
    system.add_rule("A => AA").unwrap();
    assert_eq!(system.expand_expression("A".to_string()), "AA");
    assert_eq!(system.expand_expression("AA".to_string()), "AAAA");
    let expression = system.do_n_iterations(2);
    assert_eq!(expression.0, vec![BaseSymbols::Forward; 4]);
    assert_eq!(expression.total_edges(), 4);
}

#[test]
fn expansion_is_the_same_every_time() {
    let mut system = System::from_axiom("A");
    system.add_rule("A=>+BF-AFA-FB+").unwrap();
    system.add_rule("B=>-AF+BFB+FA-").unwrap();
    let first = system.do_n_iterations(3);
    let second = system.do_n_iterations(3);
    assert_eq!(first.0, second.0);
    let mut other = System::from_axiom("A");
    other.add_rule("B=>-AF+BFB+FA-").unwrap();
    other.add_rule("A=>+BF-AFA-FB+").unwrap();
    assert_eq!(other.do_n_iterations(3).0, first.0);
}

#[test]
fn rewriting_replaces_all_characters_at_once() {
    let mut system = System::from_axiom("AB");
    system.add_rule("A=>AB").unwrap();
    system.add_rule("B=>A").unwrap();
    assert_eq!(system.expand_expression("AB".to_string()), "ABA");
    assert_eq!(system.expand_expression("ABA".to_string()), "ABAAB");
    assert_eq!(system.expand_expression("A+B-x".to_string()), "AB+A-x");
}

#[test]
fn expanded_length_is_the_sum_of_the_replacement_lengths() {
    let mut system = System::from_axiom("A");
    system.add_rule("A=>+BF-AFA-FB+").unwrap();
    system.add_rule("B=>-A").unwrap();
    let expanded = system.expand_expression("ABxA".to_string());
    assert_eq!(expanded, "+BF-AFA-FB+-Ax+BF-AFA-FB+");
    assert_eq!(expanded.chars().count(), 11 + 2 + 1 + 11);
}

#[test]
fn text_without_rules_stays_as_it_is() {
    let system = System::from_axiom("F+F");
    assert_eq!(system.expand_expression("F+F-f".to_string()), "F+F-f");
    assert_eq!(system.expand_expression(String::new()), "");
    assert_eq!(system.do_n_iterations(5).to_string(), "F+F");
}

#[test]
fn hilbert_curve_first_generation() {
    let mut system = System::from_axiom("A");
    system.add_rule("A=>+BF-AFA-FB+").unwrap();
    system.add_rule("B=>-AF+BFB+FA-").unwrap();
    assert_eq!(system.do_n_iterations(1).to_string(), "+FF-FFF-FF+");
    assert_eq!(system.do_n_iterations(4).0.len(), 256 + 595);
}

#[test]
fn later_rule_for_a_letter_replaces_the_earlier() {
    let mut system = System::from_axiom("A");
    system.add_rule("A=>ff").unwrap();
    system.add_rule("A=>+-+").unwrap();
    assert_eq!(system.expand_expression("A".to_string()), "+-+");
}

#[test]
fn blanks_around_the_arrow_are_ignored() {
    let mut system = System::from_axiom("X");
    assert_eq!(system.add_rule("X  =>\tF-X"), Ok(()));
    assert_eq!(system.expand_expression("X".to_string()), "F-X");
}

#[test]
fn every_kind_of_blank_may_stand_around_the_arrow() {
    let mut system = System::from_axiom("X");
    assert_eq!(system.add_rule("X \t\n\u{b}\u{c}\r=>\u{85}\u{a0}\u{1680}F"), Ok(()));
    assert_eq!(system.expand_expression("X".to_string()), "F");
    assert_eq!(system.add_rule("X\u{2000}\u{2005}\u{200a}=>\u{2028}\u{2029}\u{202f}\u{205f}\u{3000}f"), Ok(()));
    assert_eq!(system.expand_expression("X".to_string()), "f");
    assert_eq!(system.add_rule("X\u{200b}=>F"), Err(RuleError::NoMatch));
}

#[test]
fn rule_inside_a_longer_text_is_refused() {
    let mut system = System::from_axiom("B");
    assert_eq!(system.add_rule("AB => CD!"), Err(RuleError::Shape));
    assert_eq!(system.add_rule("AB => F"), Err(RuleError::Shape));
    assert_eq!(system.add_rule("B=>F!"), Err(RuleError::Shape));
    assert_eq!(system.add_rule(" B=>F"), Err(RuleError::Shape));
    assert_eq!(system.add_rule("B=>F "), Err(RuleError::Shape));
    assert_eq!(system.add_rule("B=>F=>B"), Err(RuleError::Shape));
    assert_eq!(system.add_rule("B=>F B=>f"), Err(RuleError::Shape));
    assert_eq!(system.add_rule("1B=>F"), Err(RuleError::Shape));
    assert_eq!(system.expand_expression("AB".to_string()), "AB");
}

#[test]
fn arrow_must_be_in_one_piece() {
    let mut system = System::from_axiom("A");
    assert_eq!(system.add_rule("A = > F"), Err(RuleError::NoMatch));
    assert_eq!(system.add_rule("A=F"), Err(RuleError::NoMatch));
    assert_eq!(system.add_rule("A>F"), Err(RuleError::NoMatch));
    let found = Search::Found(vec![Some("A = > F".to_string()), Some("A".to_string()), Some("F".to_string())]);
    assert_eq!(system.add_rule_found(found, "A = > F"), Err(RuleError::Shape));
    assert_eq!(system.expand_expression("A".to_string()), "A");
}

#[test]
fn found_parts_must_make_up_the_whole_text() {
    let parts = || Search::Found(vec![Some("B => F".to_string()), Some("B".to_string()), Some("F".to_string())]);
    assert_eq!(read_rule(parts(), "B => F"), Ok(('B', "F".to_string())));
    assert_eq!(read_rule(parts(), "AB => F"), Err(RuleError::Shape));
    assert_eq!(read_rule(parts(), "B => FF"), Err(RuleError::Shape));
    assert_eq!(read_rule(parts(), "B =>"), Err(RuleError::Shape));
    assert_eq!(read_rule(parts(), "F"), Err(RuleError::Shape));
    assert_eq!(read_rule(parts(), ""), Err(RuleError::Shape));
    assert_eq!(read_rule(parts(), "B F"), Err(RuleError::Shape));
    assert_eq!(read_rule(parts(), "B => => F"), Err(RuleError::Shape));
    assert_eq!(read_rule(parts(), "B x=> F"), Err(RuleError::Shape));
    let whole_differs = Search::Found(vec![Some("nothing".to_string()), Some("B".to_string()), Some("F".to_string())]);
    assert_eq!(read_rule(whole_differs, "B\t=>\tF"), Ok(('B', "F".to_string())));
}

#[test]
fn text_without_a_rule_is_refused() {
    let mut system = System::from_axiom("A");
    system.add_rule("A=>AA").unwrap();
    assert_eq!(system.add_rule("A->B"), Err(RuleError::NoMatch));
    assert_eq!(system.add_rule(""), Err(RuleError::NoMatch));
    assert_eq!(system.add_rule("A=>"), Err(RuleError::NoMatch));
    assert_eq!(system.add_rule("1=>A"), Err(RuleError::NoMatch));
    assert_eq!(system.add_rule("A=>*"), Err(RuleError::NoMatch));
    assert_eq!(system.expand_expression("A".to_string()), "AA");
}

#[test]
fn match_without_a_single_letter_is_refused() {
    let found = Search::Found(vec![Some("AB=>C".to_string()), Some("AB".to_string()), Some("C".to_string())]);
    assert_eq!(read_rule(found, "AB=>C"), Err(RuleError::Symbol));
    let found = Search::Found(vec![Some("=>C".to_string()), None, Some("C".to_string())]);
    assert_eq!(read_rule(found, "=>C"), Err(RuleError::Symbol));
    let found = Search::Found(vec![Some("1=>C".to_string()), Some("1".to_string()), Some("C".to_string())]);
    assert_eq!(read_rule(found, "1=>C"), Err(RuleError::Symbol));
    assert_eq!(read_rule(Search::Found(vec![Some("A".to_string())]), "A"), Err(RuleError::Symbol));
}

#[test]
fn match_without_a_replacement_is_refused() {
    let found = Search::Found(vec![Some("A=>".to_string()), Some("A".to_string()), Some(String::new())]);
    assert_eq!(read_rule(found, "A=>"), Err(RuleError::Replacement));
    let found = Search::Found(vec![Some("A=>B C".to_string()), Some("A".to_string()), Some("B C".to_string())]);
    assert_eq!(read_rule(found, "A=>B C"), Err(RuleError::Replacement));
    let found = Search::Found(vec![Some("A=>".to_string()), Some("A".to_string()), None]);
    assert_eq!(read_rule(found, "A=>"), Err(RuleError::Replacement));
    let found = Search::Found(vec![Some("A".to_string()), Some("A".to_string())]);
    assert_eq!(read_rule(found, "A"), Err(RuleError::Replacement));
}

#[test]
fn rejected_pattern_is_reported() {
    assert_eq!(read_rule(Search::BadPattern, "A=>B"), Err(RuleError::Pattern));
    let mut system = System::from_axiom("A");
    assert_eq!(system.add_rule_found(Search::BadPattern, "A=>B"), Err(RuleError::Pattern));
    assert_eq!(system.add_rule_found(Search::NoMatch, "A=>B"), Err(RuleError::NoMatch));
    assert_eq!(system.expand_expression("A".to_string()), "A");
}

#[test]
fn found_rule_is_read_and_registered() {
    let found = Search::Found(vec![Some("a => b+".to_string()), Some("a".to_string()), Some("b+".to_string())]);
    assert_eq!(read_rule(found, "a => b+"), Ok(('a', "b+".to_string())));
    let mut system = System::from_axiom("a");
    let found = Search::Found(vec![Some("a=>b-".to_string()), Some("a".to_string()), Some("b-".to_string())]);
    assert_eq!(system.add_rule_found(found, "a=>b-"), Ok(()));
    assert_eq!(system.expand_expression("aa".to_string()), "b-b-");
}
