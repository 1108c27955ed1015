use organizer::rules::{
    eval_number, eval_string, get_matching_rule, get_matching_rule_lowered, rule_applies, Action,
    Condition, MatchLogic, NumberOp, Rule, StringOp,
};

fn rule(id: &str, active: bool, match_type: MatchLogic, conditions: Vec<Condition>) -> Rule {
    Rule {
        id: id.to_string(),
        name: format!("rule {}", id),
        active,
        match_type,
        conditions,
        actions: vec![Action::Move { target_folder: "/tmp/sorted".to_string() }],
    }
}

fn ext(op: StringOp, text: &str) -> Condition {
    Condition::Extension { operator: op, text: text.to_string() }
}

fn name(op: StringOp, text: &str) -> Condition {
    Condition::Name { operator: op, text: text.to_string() }
}

fn size(op: NumberOp, bytes: u64) -> Condition {
    Condition::Size { operator: op, bytes }
}

#[test]
fn string_tests_use_comma_separated_tokens() {
    assert!(eval_string("pdf", &StringOp::Is, "png, pdf"));
    assert!(!eval_string("pd", &StringOp::Is, "png, pdf"));
    assert!(eval_string("doc", &StringOp::IsNot, "png, pdf"));
    assert!(!eval_string("pdf", &StringOp::IsNot, "png, pdf"));
    assert!(eval_string("my_invoice", &StringOp::Contains, "receipt, invoice"));
    assert!(eval_string("img_0001", &StringOp::StartsWith, "dsc,img_"));
    assert!(eval_string("scan_final", &StringOp::EndsWith, " final "));
    assert!(!eval_string("final_scan", &StringOp::EndsWith, "final"));
}

#[test]
fn text_without_tokens_passes_no_test() {
    for op in [StringOp::Is, StringOp::IsNot, StringOp::Contains, StringOp::StartsWith, StringOp::EndsWith] {
        assert!(!eval_string("anything", &op, ""));
        assert!(!eval_string("anything", &op, " ,  , "));
    }
}

#[test]
fn is_not_is_the_negation_of_is_when_there_are_tokens() {
    for actual in ["pdf", "png", "doc", ""] {
        let is = eval_string(actual, &StringOp::Is, "pdf,png");
        let is_not = eval_string(actual, &StringOp::IsNot, "pdf,png");
        assert_eq!(is, !is_not);
    }
}

#[test]
fn number_tests() {
    assert!(eval_number(10, &NumberOp::GreaterThan, 5));
    assert!(!eval_number(5, &NumberOp::GreaterThan, 5));
    assert!(eval_number(4, &NumberOp::LessThan, 5));
    assert!(!eval_number(5, &NumberOp::LessThan, 5));
    assert!(eval_number(5, &NumberOp::Equals, 5));
}

#[test]
fn matching_is_case_insensitive() {
    let rules = vec![rule("pdfs", true, MatchLogic::All, vec![ext(StringOp::Is, "PDF")])];
    let found = get_matching_rule(&rules, "Report.pdf", 0).unwrap();
    assert_eq!(found.id, "pdfs");
    assert!(get_matching_rule(&rules, "REPORT.PDF", 0).is_some());
    assert!(get_matching_rule(&rules, "report.png", 0).is_none());
}

#[test]
fn all_any_and_none_combine_conditions() {
    let conds = vec![ext(StringOp::Is, "jpg,png"), size(NumberOp::GreaterThan, 1000)];
    let all = vec![rule("all", true, MatchLogic::All, conds.clone())];
    let any = vec![rule("any", true, MatchLogic::Any, conds.clone())];
    let none = vec![rule("none", true, MatchLogic::NoneOf, conds)];

    assert!(get_matching_rule(&all, "a.png", 2000).is_some());
    assert!(get_matching_rule(&all, "a.png", 10).is_none());
    assert!(get_matching_rule(&any, "a.png", 10).is_some());
    assert!(get_matching_rule(&any, "a.txt", 2000).is_some());
    assert!(get_matching_rule(&any, "a.txt", 10).is_none());
    assert!(get_matching_rule(&none, "a.txt", 10).is_some());
    assert!(get_matching_rule(&none, "a.png", 10).is_none());
}

#[test]
fn rules_without_conditions_never_match() {
    for logic in [MatchLogic::All, MatchLogic::Any, MatchLogic::NoneOf] {
        let rules = vec![rule("empty", true, logic, vec![])];
        assert!(get_matching_rule(&rules, "a.png", 10).is_none());
    }
}

#[test]
fn inactive_rules_are_skipped_and_the_first_match_wins() {
    let rules = vec![
        rule("off", false, MatchLogic::Any, vec![ext(StringOp::Is, "pdf")]),
        rule("first", true, MatchLogic::Any, vec![name(StringOp::StartsWith, "inv")]),
        rule("second", true, MatchLogic::Any, vec![ext(StringOp::Is, "pdf")]),
    ];
    let found = get_matching_rule(&rules, "invoice.pdf", 0).unwrap();
    assert_eq!(found, rules[1]);
    let found = get_matching_rule(&rules, "scan.pdf", 0).unwrap();
    assert_eq!(found, rules[2]);
    assert!(get_matching_rule(&rules, "scan.doc", 0).is_none());
}

#[test]
fn files_without_extension_have_an_empty_one() {
    let rules = vec![rule("noext", true, MatchLogic::All, vec![ext(StringOp::IsNot, "pdf")])];
    assert!(get_matching_rule(&rules, "Makefile", 0).is_some());
    let rules = vec![rule("dot", true, MatchLogic::All, vec![name(StringOp::Is, ".bashrc")])];
    assert!(get_matching_rule(&rules, ".bashrc", 0).is_some());
}

#[test]
fn duplicates_are_equal() {
    let r = rule("x", true, MatchLogic::Any, vec![ext(StringOp::Is, "a"), size(NumberOp::Equals, 3)]);
    assert_eq!(r.duplicate(), r);
}

#[test]
fn matching_on_lowercase_parts() {
    let rules = vec![
        rule("big", true, MatchLogic::All, vec![size(NumberOp::GreaterThan, 100)]),
        rule("pdf", true, MatchLogic::All, vec![ext(StringOp::Is, "PDF")]),
    ];
    assert_eq!(get_matching_rule_lowered(&rules, "pdf", "report", 5).unwrap().id, "pdf");
    assert_eq!(get_matching_rule_lowered(&rules, "pdf", "report", 500).unwrap().id, "big");
    assert!(get_matching_rule_lowered(&rules, "PDF", "report", 5).is_none());
    assert!(rule_applies(&rules[1], "pdf", "x", 0));
    assert!(!rule_applies(&rules[1], "png", "x", 0));
}

#[test]
fn first_match_over_two_lists() {
    let a = vec![rule("a1", true, MatchLogic::Any, vec![ext(StringOp::Is, "png")])];
    let b = vec![
        rule("b1", true, MatchLogic::Any, vec![ext(StringOp::Is, "pdf")]),
        rule("b2", true, MatchLogic::Any, vec![ext(StringOp::Is, "png")]),
    ];
    let ab: Vec<Rule> = a.iter().chain(b.iter()).cloned().collect();
    for name in ["x.png", "x.pdf", "x.doc"] {
        let whole = get_matching_rule(&ab, name, 0);
        let parts = get_matching_rule(&a, name, 0).or_else(|| get_matching_rule(&b, name, 0));
        assert_eq!(whole, parts);
    }
}

#[test]
fn case_of_file_and_condition_text_does_not_matter() {
    let lower = vec![rule("r", true, MatchLogic::All, vec![name(StringOp::Contains, "invoice")])];
    let upper = vec![rule("r", true, MatchLogic::All, vec![name(StringOp::Contains, "INVOICE")])];
    for file in ["My_Invoice.pdf", "my_invoice.PDF", "scan.pdf"] {
        assert_eq!(
            get_matching_rule(&lower, file, 0).is_some(),
            get_matching_rule(&upper, file, 0).is_some()
        );
    }
    assert_eq!(
        get_matching_rule(&lower, "MY_INVOICE.pdf", 3).is_some(),
        get_matching_rule(&lower, "my_invoice.PDF", 3).is_some()
    );
}

#[test]
fn alternatives_order_and_more_alternatives() {
    for op in [StringOp::Is, StringOp::IsNot, StringOp::Contains, StringOp::StartsWith, StringOp::EndsWith] {
        for actual in ["pdf", "png", "report", ""] {
            assert_eq!(eval_string(actual, &op, "pdf, rep"), eval_string(actual, &op, "rep,pdf "));
        }
    }
    for op in [StringOp::Is, StringOp::Contains, StringOp::StartsWith, StringOp::EndsWith] {
        if eval_string("report", &op, "rep,ort") {
            assert!(eval_string("report", &op, "rep,ort,zzz"));
        }
    }
    assert!(eval_string("doc", &StringOp::IsNot, "pdf"));
    assert!(!eval_string("doc", &StringOp::IsNot, "pdf,doc"));
}
