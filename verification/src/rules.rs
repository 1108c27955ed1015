//! The rule engine: conditions on a file's name, extension and size,
//! combined by `All`, `Any` or `None`, and the first active rule that a
//! file satisfies.
use vstd::prelude::*;
use crate::text::{
    chars_of, contains_chars, contains_seq, occurs_at, ends_with_chars, ends_with_seq, lowercase_of,
    lemma_split_on_join, same_chars, split_chars, split_on, starts_with_chars, starts_with_seq, string_of, to_lowercase,
    trim,
    trim_chars,
};
use crate::file_name::{extension_or_empty, stem_and_extension, stem_of};

verus! {

broadcast use vstd::string::group_string_axioms;

/// How the conditions of a rule combine.
#[derive(Clone, Copy, Debug, PartialEq, Eq)]
pub enum MatchLogic {
    All,
    Any,
    NoneOf,
}

/// A test on text.
#[derive(Clone, Copy, Debug, PartialEq, Eq)]
pub enum StringOp {
    Is,
    IsNot,
    Contains,
    StartsWith,
    EndsWith,
}

/// A test on a number.
#[derive(Clone, Copy, Debug, PartialEq, Eq)]
pub enum NumberOp {
    GreaterThan,
    LessThan,
    Equals,
}

/// One condition of a rule.
#[derive(Clone, Debug, PartialEq, Eq)]
pub enum Condition {
    Extension { operator: StringOp, text: String },
    Name { operator: StringOp, text: String },
    Size { operator: NumberOp, bytes: u64 },
}

/// What a rule does to a file that it matches.
#[derive(Clone, Debug, PartialEq, Eq)]
pub enum Action {
    Move { target_folder: String },
    Rename { pattern: String },
    Delete { delay_days: u32 },
}

/// A rule: conditions, how they combine, and actions.
#[derive(Clone, Debug, PartialEq, Eq)]
pub struct Rule {
    pub id: String,
    pub name: String,
    pub active: bool,
    pub match_type: MatchLogic,
    pub conditions: Vec<Condition>,
    pub actions: Vec<Action>,
}

/// A rule as a value: its text fields and lists as sequences.
pub struct RuleView {
    pub id: Seq<char>,
    pub name: Seq<char>,
    pub active: bool,
    pub match_type: MatchLogic,
    pub conditions: Seq<Condition>,
    pub actions: Seq<Action>,
}

impl View for Rule {
    type V = RuleView;

    open spec fn view(&self) -> RuleView {
        RuleView {
            id: self.id@,
            name: self.name@,
            active: self.active,
            match_type: self.match_type,
            conditions: self.conditions@,
            actions: self.actions@,
        }
    }
}

// ---------------------------------------------------------------------------
// Specifications
// ---------------------------------------------------------------------------

/// The comma-separated pieces of `expected`, each trimmed.
pub open spec fn trimmed_pieces(expected: Seq<char>) -> Seq<Seq<char>> {
    split_on(expected, ',').map_values(|p: Seq<char>| trim(p))
}

/// The test that keeps a token.
pub open spec fn is_token() -> spec_fn(Seq<char>) -> bool {
    |t: Seq<char>| t.len() > 0
}

/// The tokens of a condition's text: its comma-separated pieces, trimmed,
/// with the empty ones left out.
pub open spec fn tokens(expected: Seq<char>) -> Seq<Seq<char>> {
    trimmed_pieces(expected).filter(is_token())
}

/// Whether `actual` meets the text test `op` for the single token `t`; for
/// `IsNot` this is the token that `actual` must differ from, so it says
/// whether they are equal.
pub open spec fn token_hit(actual: Seq<char>, op: StringOp, t: Seq<char>) -> bool {
    match op {
        StringOp::Is => actual == t,
        StringOp::IsNot => actual == t,
        StringOp::Contains => contains_seq(actual, t),
        StringOp::StartsWith => starts_with_seq(actual, t),
        StringOp::EndsWith => ends_with_seq(actual, t),
    }
}

/// Whether `actual` passes the text test `op` against the tokens of
/// `expected`: `IsNot` passes when `actual` equals none of them, the other
/// tests when some token meets them; text without tokens passes no test.
pub open spec fn string_test(actual: Seq<char>, op: StringOp, expected: Seq<char>) -> bool {
    let toks = tokens(expected);
    toks.len() > 0 && if op == StringOp::IsNot {
        forall|k: int| 0 <= k < toks.len() ==> !token_hit(actual, op, #[trigger] toks[k])
    } else {
        exists|k: int| 0 <= k < toks.len() && token_hit(actual, op, #[trigger] toks[k])
    }
}

/// Whether `actual` passes the number test `op` against `expected`.
pub open spec fn number_test(actual: u64, op: NumberOp, expected: u64) -> bool {
    match op {
        NumberOp::GreaterThan => actual > expected,
        NumberOp::LessThan => actual < expected,
        NumberOp::Equals => actual == expected,
    }
}

/// Whether a file satisfies the condition, given the lowercase form of its
/// extension and of its stem, and its size; condition text is compared in
/// lowercase.
pub open spec fn condition_holds_lowered(
    c: Condition,
    ext_lower: Seq<char>,
    stem_lower: Seq<char>,
    size: u64,
) -> bool {
    match c {
        Condition::Extension { operator, text } => string_test(
            ext_lower,
            operator,
            lowercase_of(text@),
        ),
        Condition::Name { operator, text } => string_test(stem_lower, operator, lowercase_of(text@)),
        Condition::Size { operator, bytes } => number_test(size, operator, bytes),
    }
}

/// Whether a file with this name and size satisfies the condition.
pub open spec fn condition_holds(c: Condition, file_name: Seq<char>, size: u64) -> bool {
    condition_holds_lowered(
        c,
        lowercase_of(extension_or_empty(file_name)),
        lowercase_of(stem_of(file_name)),
        size,
    )
}

/// How many of the conditions the file satisfies.
pub open spec fn passed_count(
    conds: Seq<Condition>,
    ext_lower: Seq<char>,
    stem_lower: Seq<char>,
    size: u64,
) -> nat
    decreases conds.len(),
{
    if conds.len() == 0 {
        0
    } else {
        passed_count(conds.drop_last(), ext_lower, stem_lower, size) + if condition_holds_lowered(
            conds.last(),
            ext_lower,
            stem_lower,
            size,
        ) {
            1nat
        } else {
            0nat
        }
    }
}

/// Whether the rule applies to a file, given its lowercase extension and
/// stem and its size: the rule is active and its conditions combine as its
/// match type says.
pub open spec fn rule_applies_lowered(
    rule: RuleView,
    ext_lower: Seq<char>,
    stem_lower: Seq<char>,
    size: u64,
) -> bool {
    let passed = passed_count(rule.conditions, ext_lower, stem_lower, size);
    let total = rule.conditions.len();
    rule.active && match rule.match_type {
        MatchLogic::All => passed == total && total > 0,
        MatchLogic::Any => passed > 0,
        MatchLogic::NoneOf => passed == 0 && total > 0,
    }
}

/// Whether the rule applies to the file with this name and size.
pub open spec fn rule_matches(rule: RuleView, file_name: Seq<char>, size: u64) -> bool {
    rule_applies_lowered(
        rule,
        lowercase_of(extension_or_empty(file_name)),
        lowercase_of(stem_of(file_name)),
        size,
    )
}

/// The position of the first rule that applies, given the file's lowercase
/// extension and stem and its size.
pub open spec fn first_match_lowered(
    rules: Seq<Rule>,
    ext_lower: Seq<char>,
    stem_lower: Seq<char>,
    size: u64,
) -> Option<int>
    decreases rules.len(),
{
    if rules.len() == 0 {
        None
    } else {
        match first_match_lowered(rules.drop_last(), ext_lower, stem_lower, size) {
            Some(k) => Some(k),
            None => if rule_applies_lowered(rules.last()@, ext_lower, stem_lower, size) {
                Some(rules.len() - 1)
            } else {
                None
            },
        }
    }
}

/// The position of the first rule that applies to the file with this name
/// and size.
pub open spec fn first_match(rules: Seq<Rule>, file_name: Seq<char>, size: u64) -> Option<int> {
    first_match_lowered(
        rules,
        lowercase_of(extension_or_empty(file_name)),
        lowercase_of(stem_of(file_name)),
        size,
    )
}

// ---------------------------------------------------------------------------
// Evaluation
// ---------------------------------------------------------------------------

/// The tokens of `expected`.
fn tokens_of(expected: &[char]) -> (toks: Vec<Vec<char>>)
    ensures
        toks@.len() == tokens(expected@).len(),
        forall|k: int| 0 <= k < toks@.len() ==> #[trigger] toks@[k]@ == tokens(expected@)[k],
{
    let pieces = split_chars(expected, ',');
    let ghost trimmed = trimmed_pieces(expected@);
    let mut toks: Vec<Vec<char>> = Vec::new();
    let mut i: usize = 0;
    assert(trimmed.take(0) =~= Seq::<Seq<char>>::empty());
    proof {
        reveal(Seq::filter);
    }
    while i < pieces.len()
        invariant
            i <= pieces@.len(),
            pieces@.len() == trimmed.len(),
            trimmed == trimmed_pieces(expected@),
            forall|k: int| 0 <= k < pieces@.len() ==> #[trigger] pieces@[k]@ == split_on(
                expected@,
                ',',
            )[k],
            toks@.len() == trimmed.take(i as int).filter(is_token()).len(),
            forall|k: int|
                0 <= k < toks@.len() ==> #[trigger] toks@[k]@ == trimmed.take(i as int).filter(
                    is_token(),
                )[k],
        decreases pieces.len() - i,
    {
        let t = trim_chars(&pieces[i]);
        assert(t@ == trimmed[i as int]);
        let ghost before = toks@;
        assert(trimmed.take(i + 1).drop_last() =~= trimmed.take(i as int));
        assert(trimmed.take(i + 1).last() == trimmed[i as int]);
        proof {
            reveal(Seq::filter);
        }
        if t.len() > 0 {
            toks.push(t);
            assert forall|k: int| 0 <= k < toks@.len() implies #[trigger] toks@[k]@
                == trimmed.take(i + 1).filter(is_token())[k] by {
                if k < before.len() {
                    assert(toks@[k] == before[k]);
                }
            }
        }
        i = i + 1;
    }
    assert(trimmed.take(pieces.len() as int) =~= trimmed);
    toks
}

/// Whether `actual` passes the text test `op` against the tokens of
/// `expected` (both already in the case they are compared in).
pub fn eval_string(actual: &str, op: &StringOp, expected: &str) -> (passed: bool)
    ensures
        passed == string_test(actual@, *op, expected@),
{
    let a = chars_of(actual);
    let e = chars_of(expected);
    let toks = tokens_of(&e);
    let ghost ts = tokens(expected@);
    if toks.len() == 0 {
        return false;
    }
    let all = match op {
        StringOp::IsNot => true,
        _ => false,
    };
    let mut i: usize = 0;
    while i < toks.len()
        invariant
            i <= toks@.len(),
            toks@.len() == ts.len(),
            ts == tokens(expected@),
            a@ == actual@,
            forall|k: int| 0 <= k < toks@.len() ==> #[trigger] toks@[k]@ == ts[k],
            all == (*op == StringOp::IsNot),
            forall|k: int| 0 <= k < i ==> !token_hit(actual@, *op, #[trigger] ts[k]),
        decreases toks.len() - i,
    {
        if test_token(&a, op, &toks[i]) {
            assert(token_hit(actual@, *op, ts[i as int]));
            return !all;
        }
        i = i + 1;
    }
    all
}

/// Whether `a` meets the text test `op` for the token `t`.
fn test_token(a: &[char], op: &StringOp, t: &[char]) -> (hit: bool)
    ensures
        hit == token_hit(a@, *op, t@),
{
    match op {
        StringOp::Is => same_chars(a, t),
        StringOp::IsNot => same_chars(a, t),
        StringOp::Contains => contains_chars(a, t),
        StringOp::StartsWith => starts_with_chars(a, t),
        StringOp::EndsWith => ends_with_chars(a, t),
    }
}

/// Whether `actual` passes the number test `op` against `expected`.
pub fn eval_number(actual: u64, op: &NumberOp, expected: u64) -> (passed: bool)
    ensures
        passed == number_test(actual, *op, expected),
{
    match op {
        NumberOp::GreaterThan => actual > expected,
        NumberOp::LessThan => actual < expected,
        NumberOp::Equals => actual == expected,
    }
}


/// Whether a file satisfies the condition, given its lowercase extension
/// and stem and its size.
fn condition_passes(c: &Condition, ext_lower: &str, stem_lower: &str, size: u64) -> (passed: bool)
    ensures
        passed == condition_holds_lowered(*c, ext_lower@, stem_lower@, size),
{
    match c {
        Condition::Extension { operator, text } => {
            let expected = to_lowercase(text.as_str());
            eval_string(ext_lower, operator, expected.as_str())
        },
        Condition::Name { operator, text } => {
            let expected = to_lowercase(text.as_str());
            eval_string(stem_lower, operator, expected.as_str())
        },
        Condition::Size { operator, bytes } => eval_number(size, operator, *bytes),
    }
}

// ---------------------------------------------------------------------------
// Copies
// ---------------------------------------------------------------------------

impl Condition {
    /// An equal condition.
    pub fn duplicate(&self) -> (c: Condition)
        ensures
            c == *self,
    {
        match self {
            Condition::Extension { operator, text } => Condition::Extension {
                operator: *operator,
                text: text.clone(),
            },
            Condition::Name { operator, text } => Condition::Name {
                operator: *operator,
                text: text.clone(),
            },
            Condition::Size { operator, bytes } => Condition::Size {
                operator: *operator,
                bytes: *bytes,
            },
        }
    }
}

impl Action {
    /// An equal action.
    pub fn duplicate(&self) -> (a: Action)
        ensures
            a == *self,
    {
        match self {
            Action::Move { target_folder } => Action::Move { target_folder: target_folder.clone() },
            Action::Rename { pattern } => Action::Rename { pattern: pattern.clone() },
            Action::Delete { delay_days } => Action::Delete { delay_days: *delay_days },
        }
    }
}

impl Rule {
    /// A rule with the same fields.
    pub fn duplicate(&self) -> (r: Rule)
        ensures
            r@ == self@,
    {
        let mut conditions: Vec<Condition> = Vec::new();
        let mut i: usize = 0;
        while i < self.conditions.len()
            invariant
                i <= self.conditions@.len(),
                conditions@ == self.conditions@.take(i as int),
            decreases self.conditions.len() - i,
        {
            conditions.push(self.conditions[i].duplicate());
            assert(self.conditions@.take(i + 1) =~= self.conditions@.take(i as int).push(
                self.conditions@[i as int],
            ));
            i = i + 1;
        }
        let mut actions: Vec<Action> = Vec::new();
        let mut j: usize = 0;
        while j < self.actions.len()
            invariant
                j <= self.actions@.len(),
                actions@ == self.actions@.take(j as int),
            decreases self.actions.len() - j,
        {
            actions.push(self.actions[j].duplicate());
            assert(self.actions@.take(j + 1) =~= self.actions@.take(j as int).push(
                self.actions@[j as int],
            ));
            j = j + 1;
        }
        assert(conditions@ =~= self.conditions@);
        assert(actions@ =~= self.actions@);
        Rule {
            id: self.id.clone(),
            name: self.name.clone(),
            active: self.active,
            match_type: self.match_type,
            conditions,
            actions,
        }
    }
}

// ---------------------------------------------------------------------------
// Matching
// ---------------------------------------------------------------------------

/// Whether `rule` applies to a file, given its lowercase extension and
/// stem and its size.
pub fn rule_applies(rule: &Rule, ext_lower: &str, stem_lower: &str, size: u64) -> (applies: bool)
    ensures
        applies == rule_applies_lowered(rule@, ext_lower@, stem_lower@, size),
{
    if !rule.active {
        return false;
    }
    let total = rule.conditions.len();
    let mut passed: usize = 0;
    let mut j: usize = 0;
    assert(rule.conditions@.take(0) =~= Seq::<Condition>::empty());
    while j < total
        invariant
            total == rule.conditions@.len(),
            j <= total,
            passed <= j,
            passed == passed_count(rule.conditions@.take(j as int), ext_lower@, stem_lower@, size),
        decreases total - j,
    {
        let ok = condition_passes(&rule.conditions[j], ext_lower, stem_lower, size);
        assert(rule.conditions@.take(j + 1).drop_last() =~= rule.conditions@.take(j as int));
        if ok {
            passed = passed + 1;
        }
        j = j + 1;
    }
    assert(rule.conditions@.take(total as int) =~= rule.conditions@);
    match rule.match_type {
        MatchLogic::All => passed == total && total > 0,
        MatchLogic::Any => passed > 0,
        MatchLogic::NoneOf => passed == 0 && total > 0,
    }
}

/// The first rule that applies to a file, given the lowercase form of its
/// extension and of its stem, and its size.
pub fn get_matching_rule_lowered(
    rules: &[Rule],
    ext_lower: &str,
    stem_lower: &str,
    size: u64,
) -> (found: Option<Rule>)
    ensures
        match found {
            Some(r) => first_match_lowered(rules@, ext_lower@, stem_lower@, size) matches Some(i)
                && r@ == rules@[i]@,
            None => first_match_lowered(rules@, ext_lower@, stem_lower@, size) is None,
        },
{
    let mut i: usize = 0;
    assert(rules@.take(0) =~= Seq::<Rule>::empty());
    while i < rules.len()
        invariant
            i <= rules@.len(),
            first_match_lowered(rules@.take(i as int), ext_lower@, stem_lower@, size) is None,
        decreases rules.len() - i,
    {
        let applies = rule_applies(&rules[i], ext_lower, stem_lower, size);
        assert(rules@.take(i + 1).drop_last() =~= rules@.take(i as int));
        if applies {
            proof {
                lemma_first_match_prefix(rules@, (i + 1) as int, ext_lower@, stem_lower@, size);
            }
            return Some(rules[i].duplicate());
        }
        i = i + 1;
    }
    assert(rules@.take(i as int) =~= rules@);
    None
}

/// The first active rule that applies to the file named `file_name` (the
/// last component of its path; empty when it has none) whose size is
/// `file_size`. Extension, stem and condition text are compared in
/// lowercase.
pub fn get_matching_rule(rules: &[Rule], file_name: &str, file_size: u64) -> (found: Option<Rule>)
    ensures
        match found {
            Some(r) => first_match(rules@, file_name@, file_size) matches Some(i) && r@ == rules@[i]@,
            None => first_match(rules@, file_name@, file_size) is None,
        },
{
    let chars = chars_of(file_name);
    let (stem, ext) = stem_and_extension(&chars);
    let ext_chars = match ext {
        Some(e) => e,
        None => Vec::new(),
    };
    assert(ext_chars@ == extension_or_empty(file_name@));
    let ext_lower = to_lowercase(string_of(&ext_chars).as_str());
    let stem_lower = to_lowercase(string_of(&stem).as_str());
    get_matching_rule_lowered(rules, ext_lower.as_str(), stem_lower.as_str(), file_size)
}

// ---------------------------------------------------------------------------
// Laws
// ---------------------------------------------------------------------------

proof fn lemma_passed_count_bounds(
    conds: Seq<Condition>,
    e: Seq<char>,
    t: Seq<char>,
    size: u64,
)
    ensures
        passed_count(conds, e, t, size) <= conds.len(),
        passed_count(conds, e, t, size) == conds.len() <==> forall|k: int|
            0 <= k < conds.len() ==> condition_holds_lowered(#[trigger] conds[k], e, t, size),
        passed_count(conds, e, t, size) == 0 <==> forall|k: int|
            0 <= k < conds.len() ==> !condition_holds_lowered(#[trigger] conds[k], e, t, size),
    decreases conds.len(),
{
    if conds.len() > 0 {
        let init = conds.drop_last();
        lemma_passed_count_bounds(init, e, t, size);
        assert forall|k: int| 0 <= k < init.len() implies #[trigger] init[k] == conds[k] by {}
        if passed_count(conds, e, t, size) == conds.len() {
            assert forall|k: int| 0 <= k < conds.len() implies condition_holds_lowered(
                #[trigger] conds[k],
                e,
                t,
                size,
            ) by {
                if k < init.len() {
                    assert(init[k] == conds[k]);
                }
            }
        }
        if forall|k: int| 0 <= k < conds.len() ==> condition_holds_lowered(#[trigger] conds[k], e, t, size) {
            assert forall|k: int| 0 <= k < init.len() implies condition_holds_lowered(
                #[trigger] init[k],
                e,
                t,
                size,
            ) by {
                assert(init[k] == conds[k]);
            }
            assert(condition_holds_lowered(conds[conds.len() - 1], e, t, size));
        }
        if passed_count(conds, e, t, size) == 0 {
            assert forall|k: int| 0 <= k < conds.len() implies !condition_holds_lowered(
                #[trigger] conds[k],
                e,
                t,
                size,
            ) by {
                if k < init.len() {
                    assert(init[k] == conds[k]);
                }
            }
        }
        if forall|k: int| 0 <= k < conds.len() ==> !condition_holds_lowered(#[trigger] conds[k], e, t, size) {
            assert forall|k: int| 0 <= k < init.len() implies !condition_holds_lowered(
                #[trigger] init[k],
                e,
                t,
                size,
            ) by {
                assert(init[k] == conds[k]);
            }
            assert(!condition_holds_lowered(conds[conds.len() - 1], e, t, size));
        }
    }
}

/// How the match types combine conditions: an active `All` rule applies
/// when it has conditions and the file satisfies every one, an active `Any`
/// rule when the file satisfies at least one, an active `NoneOf` rule when
/// it has conditions and the file satisfies none; an inactive rule never
/// applies.
pub proof fn lemma_match_logic(rule: RuleView, file_name: Seq<char>, size: u64)
    ensures
        rule_matches(rule, file_name, size) <==> rule.active && match rule.match_type {
            MatchLogic::All => rule.conditions.len() > 0 && forall|k: int|
                0 <= k < rule.conditions.len() ==> condition_holds(
                    #[trigger] rule.conditions[k],
                    file_name,
                    size,
                ),
            MatchLogic::Any => exists|k: int|
                0 <= k < rule.conditions.len() && condition_holds(
                    #[trigger] rule.conditions[k],
                    file_name,
                    size,
                ),
            MatchLogic::NoneOf => rule.conditions.len() > 0 && forall|k: int|
                0 <= k < rule.conditions.len() ==> !condition_holds(
                    #[trigger] rule.conditions[k],
                    file_name,
                    size,
                ),
        },
{
    lemma_passed_count_bounds(
        rule.conditions,
        lowercase_of(extension_or_empty(file_name)),
        lowercase_of(stem_of(file_name)),
        size,
    );
}

/// A rule without conditions applies to no file, whatever its match type.
pub proof fn lemma_rule_without_conditions_never_applies(
    rule: RuleView,
    file_name: Seq<char>,
    size: u64,
)
    requires
        rule.conditions.len() == 0,
    ensures
        !rule_matches(rule, file_name, size),
{
}

/// The first match is the first rule that applies: every rule before it
/// does not; there is none exactly when no rule applies.
pub proof fn lemma_first_match_is_first(rules: Seq<Rule>, e: Seq<char>, t: Seq<char>, size: u64)
    ensures
        match first_match_lowered(rules, e, t, size) {
            Some(i) => 0 <= i < rules.len() && rule_applies_lowered(rules[i]@, e, t, size) && forall|
                j: int,
            |
                0 <= j < i ==> !rule_applies_lowered(#[trigger] rules[j]@, e, t, size),
            None => forall|j: int|
                0 <= j < rules.len() ==> !rule_applies_lowered(#[trigger] rules[j]@, e, t, size),
        },
    decreases rules.len(),
{
    if rules.len() > 0 {
        let init = rules.drop_last();
        lemma_first_match_is_first(init, e, t, size);
        assert forall|j: int| 0 <= j < init.len() implies #[trigger] init[j] == rules[j] by {}
        match first_match_lowered(init, e, t, size) {
            Some(i) => {
                assert forall|j: int| 0 <= j < i implies !rule_applies_lowered(
                    #[trigger] rules[j]@,
                    e,
                    t,
                    size,
                ) by {
                    assert(init[j] == rules[j]);
                }
                assert(init[i] == rules[i]);
            },
            None => {
                assert forall|j: int| 0 <= j < rules.len() - 1 implies !rule_applies_lowered(
                    #[trigger] rules[j]@,
                    e,
                    t,
                    size,
                ) by {
                    assert(init[j] == rules[j]);
                }
            },
        }
    }
}

/// Over two lists of rules one after the other, the first match is the
/// first list's, or else the second's, counted after the first list.
pub proof fn lemma_first_match_concat(
    a: Seq<Rule>,
    b: Seq<Rule>,
    e: Seq<char>,
    t: Seq<char>,
    size: u64,
)
    ensures
        first_match_lowered(a + b, e, t, size) == match first_match_lowered(a, e, t, size) {
            Some(i) => Some(i),
            None => match first_match_lowered(b, e, t, size) {
                Some(j) => Some(a.len() + j),
                None => None,
            },
        },
    decreases b.len(),
{
    if b.len() == 0 {
        assert(a + b =~= a);
    } else {
        lemma_first_match_concat(a, b.drop_last(), e, t, size);
        assert((a + b).drop_last() =~= a + b.drop_last());
        assert((a + b).last() == b.last());
    }
}

/// The same law for files given by name.
pub proof fn lemma_matching_rule_concat(a: Seq<Rule>, b: Seq<Rule>, file_name: Seq<char>, size: u64)
    ensures
        first_match(a + b, file_name, size) == match first_match(a, file_name, size) {
            Some(i) => Some(i),
            None => match first_match(b, file_name, size) {
                Some(j) => Some(a.len() + j),
                None => None,
            },
        },
{
    lemma_first_match_concat(
        a,
        b,
        lowercase_of(extension_or_empty(file_name)),
        lowercase_of(stem_of(file_name)),
        size,
    );
}

proof fn lemma_first_match_prefix(rules: Seq<Rule>, k: int, e: Seq<char>, t: Seq<char>, size: u64)
    requires
        0 <= k <= rules.len(),
        first_match_lowered(rules.take(k), e, t, size) is Some,
    ensures
        first_match_lowered(rules, e, t, size) == first_match_lowered(rules.take(k), e, t, size),
{
    lemma_first_match_concat(rules.take(k), rules.skip(k), e, t, size);
    assert(rules.take(k) + rules.skip(k) =~= rules);
}

/// Matching sees a file only through the lowercase form of its extension
/// and of its stem, and its size: files that agree on these get the same
/// rule.
pub proof fn lemma_matching_sees_lowercase_extension_stem_size(
    rules: Seq<Rule>,
    name1: Seq<char>,
    name2: Seq<char>,
    size: u64,
)
    requires
        lowercase_of(extension_or_empty(name1)) == lowercase_of(extension_or_empty(name2)),
        lowercase_of(stem_of(name1)) == lowercase_of(stem_of(name2)),
    ensures
        first_match(rules, name1, size) == first_match(rules, name2, size),
{
}

/// Two conditions that differ at most in the case of their text.
pub open spec fn same_but_case(c1: Condition, c2: Condition) -> bool {
    match (c1, c2) {
        (
            Condition::Extension { operator: o1, text: t1 },
            Condition::Extension { operator: o2, text: t2 },
        ) => o1 == o2 && lowercase_of(t1@) == lowercase_of(t2@),
        (
            Condition::Name { operator: o1, text: t1 },
            Condition::Name { operator: o2, text: t2 },
        ) => o1 == o2 && lowercase_of(t1@) == lowercase_of(t2@),
        (
            Condition::Size { operator: o1, bytes: b1 },
            Condition::Size { operator: o2, bytes: b2 },
        ) => o1 == o2 && b1 == b2,
        _ => false,
    }
}

/// Two rules that differ at most in the case of their conditions' text (and
/// in their id, name and actions).
pub open spec fn rules_same_but_case(r1: RuleView, r2: RuleView) -> bool {
    &&& r1.active == r2.active
    &&& r1.match_type == r2.match_type
    &&& r1.conditions.len() == r2.conditions.len()
    &&& forall|k: int|
        0 <= k < r1.conditions.len() ==> same_but_case(
            #[trigger] r1.conditions[k],
            r2.conditions[k],
        )
}

proof fn lemma_passed_count_same_but_case(
    c1: Seq<Condition>,
    c2: Seq<Condition>,
    e: Seq<char>,
    t: Seq<char>,
    size: u64,
)
    requires
        c1.len() == c2.len(),
        forall|k: int| 0 <= k < c1.len() ==> same_but_case(#[trigger] c1[k], c2[k]),
    ensures
        passed_count(c1, e, t, size) == passed_count(c2, e, t, size),
    decreases c1.len(),
{
    if c1.len() > 0 {
        let i1 = c1.drop_last();
        let i2 = c2.drop_last();
        assert forall|k: int| 0 <= k < i1.len() implies same_but_case(#[trigger] i1[k], i2[k]) by {
            assert(i1[k] == c1[k] && i2[k] == c2[k]);
        }
        lemma_passed_count_same_but_case(i1, i2, e, t, size);
        assert(same_but_case(c1[c1.len() - 1], c2[c2.len() - 1]));
    }
}

/// Matching sees condition text only in lowercase: rule lists that differ
/// at most in the case of their conditions' text pick the rule at the same
/// position.
pub proof fn lemma_matching_ignores_case_of_text(
    rules1: Seq<Rule>,
    rules2: Seq<Rule>,
    file_name: Seq<char>,
    size: u64,
)
    requires
        rules1.len() == rules2.len(),
        forall|k: int| 0 <= k < rules1.len() ==> rules_same_but_case(#[trigger] rules1[k]@, rules2[k]@),
    ensures
        first_match(rules1, file_name, size) == first_match(rules2, file_name, size),
    decreases rules1.len(),
{
    let e = lowercase_of(extension_or_empty(file_name));
    let t = lowercase_of(stem_of(file_name));
    if rules1.len() > 0 {
        let i1 = rules1.drop_last();
        let i2 = rules2.drop_last();
        assert forall|k: int| 0 <= k < i1.len() implies rules_same_but_case(#[trigger] i1[k]@, i2[k]@) by {
            assert(i1[k] == rules1[k] && i2[k] == rules2[k]);
        }
        lemma_matching_ignores_case_of_text(i1, i2, file_name, size);
        let l1 = rules1.last()@;
        let l2 = rules2.last()@;
        assert(rules_same_but_case(rules1[rules1.len() - 1]@, rules2[rules2.len() - 1]@));
        lemma_passed_count_same_but_case(l1.conditions, l2.conditions, e, t, size);
    }
}

/// For text that has tokens, `IsNot` passes exactly when `Is` fails; for
/// text without tokens both fail.
pub proof fn lemma_is_not_negates_is(actual: Seq<char>, expected: Seq<char>)
    ensures
        tokens(expected).len() > 0 ==> (string_test(actual, StringOp::IsNot, expected) <==> !string_test(
            actual,
            StringOp::Is,
            expected,
        )),
        tokens(expected).len() == 0 ==> !string_test(actual, StringOp::IsNot, expected)
            && !string_test(actual, StringOp::Is, expected),
{
}

/// Every token is trimmed and non-empty.
pub proof fn lemma_tokens_trimmed_nonempty(expected: Seq<char>, k: int)
    requires
        0 <= k < tokens(expected).len(),
    ensures
        tokens(expected)[k].len() > 0,
        exists|p: int|
            0 <= p < split_on(expected, ',').len() && tokens(expected)[k] == trim(
                #[trigger] split_on(expected, ',')[p],
            ),
{
    let ps = trimmed_pieces(expected);
    broadcast use vstd::seq_lib::group_filter_ensures;
    assert(is_token()(ps.filter(is_token())[k]));
    assert(ps.filter(is_token()).contains(tokens(expected)[k]));
    ps.lemma_filter_contains_rev(is_token(), tokens(expected)[k]);
    assert(ps.contains(tokens(expected)[k]));
    let p = choose|p: int| 0 <= p < ps.len() && ps[p] == tokens(expected)[k];
    assert(tokens(expected)[k] == trim(split_on(expected, ',')[p]));
}


/// The tokens of two texts joined by a comma are the tokens of the first
/// followed by those of the second.
pub proof fn lemma_tokens_join(x: Seq<char>, y: Seq<char>)
    ensures
        tokens(x + seq![','] + y) == tokens(x) + tokens(y),
{
    lemma_split_on_join(x, y, ',');
    let sx = split_on(x, ',');
    let sy = split_on(y, ',');
    let f = |p: Seq<char>| trim(p);
    assert((sx + sy).map_values(f) =~= sx.map_values(f) + sy.map_values(f));
    assert(trimmed_pieces(x + seq![','] + y) == trimmed_pieces(x) + trimmed_pieces(y));
    Seq::filter_distributes_over_add(trimmed_pieces(x), trimmed_pieces(y), is_token());
}

proof fn lemma_string_test_same_tokens(actual: Seq<char>, op: StringOp, e1: Seq<char>, e2: Seq<char>)
    requires
        forall|k: int| 0 <= k < tokens(e1).len() ==> tokens(e2).contains(#[trigger] tokens(e1)[k]),
        forall|m: int| 0 <= m < tokens(e2).len() ==> tokens(e1).contains(#[trigger] tokens(e2)[m]),
    ensures
        string_test(actual, op, e1) == string_test(actual, op, e2),
{
    let t1 = tokens(e1);
    let t2 = tokens(e2);
    if t1.len() > 0 {
        let m = choose|m: int| 0 <= m < t2.len() && t1[0] == t2[m];
    }
    if t2.len() > 0 {
        let k = choose|k: int| 0 <= k < t1.len() && t1[k] == t2[0];
    }
    if string_test(actual, op, e1) && op != StringOp::IsNot {
        let k = choose|k: int| 0 <= k < t1.len() && token_hit(actual, op, #[trigger] t1[k]);
        let m = choose|m: int| 0 <= m < t2.len() && t1[k] == t2[m];
        assert(token_hit(actual, op, t2[m]));
    }
    if string_test(actual, op, e2) && op != StringOp::IsNot {
        let m = choose|m: int| 0 <= m < t2.len() && token_hit(actual, op, #[trigger] t2[m]);
        let k = choose|k: int| 0 <= k < t1.len() && t1[k] == t2[m];
        assert(token_hit(actual, op, t1[k]));
    }
    if op == StringOp::IsNot && t1.len() > 0 && t2.len() > 0 {
        if string_test(actual, op, e1) {
            assert forall|m: int| 0 <= m < t2.len() implies !token_hit(actual, op, #[trigger] t2[m]) by {
                let k = choose|k: int| 0 <= k < t1.len() && t1[k] == t2[m];
                assert(!token_hit(actual, op, t1[k]));
            }
        }
        if string_test(actual, op, e2) {
            assert forall|k: int| 0 <= k < t1.len() implies !token_hit(actual, op, #[trigger] t1[k]) by {
                let m = choose|m: int| 0 <= m < t2.len() && t1[k] == t2[m];
                assert(!token_hit(actual, op, t2[m]));
            }
        }
    }
}

/// The order of comma-separated alternatives does not matter.
pub proof fn lemma_alternatives_order(actual: Seq<char>, op: StringOp, x: Seq<char>, y: Seq<char>)
    ensures
        string_test(actual, op, x + seq![','] + y) == string_test(actual, op, y + seq![','] + x),
{
    lemma_tokens_join(x, y);
    lemma_tokens_join(y, x);
    let tx = tokens(x);
    let ty = tokens(y);
    let e1 = x + seq![','] + y;
    let e2 = y + seq![','] + x;
    assert forall|k: int| 0 <= k < tokens(e1).len() implies tokens(e2).contains(
        #[trigger] tokens(e1)[k],
    ) by {
        if k < tx.len() {
            assert(tokens(e1)[k] == tokens(e2)[ty.len() + k]);
        } else {
            assert(tokens(e1)[k] == tokens(e2)[k - tx.len()]);
        }
    }
    assert forall|m: int| 0 <= m < tokens(e2).len() implies tokens(e1).contains(
        #[trigger] tokens(e2)[m],
    ) by {
        if m < ty.len() {
            assert(tokens(e1)[tx.len() + m] == tokens(e2)[m]);
        } else {
            assert(tokens(e1)[m - ty.len()] == tokens(e2)[m]);
        }
    }
    lemma_string_test_same_tokens(actual, op, e1, e2);
}

/// Adding alternatives never turns a passing `Is`, `Contains`,
/// `StartsWith` or `EndsWith` test into a failing one.
pub proof fn lemma_more_alternatives_keep_hit(actual: Seq<char>, op: StringOp, e: Seq<char>, f: Seq<char>)
    requires
        op != StringOp::IsNot,
        string_test(actual, op, e),
    ensures
        string_test(actual, op, e + seq![','] + f),
{
    lemma_tokens_join(e, f);
    let k = choose|k: int| 0 <= k < tokens(e).len() && token_hit(actual, op, #[trigger] tokens(e)[k]);
    assert(tokens(e + seq![','] + f)[k] == tokens(e)[k]);
}


/// What each text test means, over the tokens of the condition text: `Is`
/// passes when the text equals a token; `IsNot` when there are tokens and
/// the text equals none; `Contains` when a token occurs somewhere in the
/// text (a text equal to a token contains it); `StartsWith` and `EndsWith`
/// when a token is the text's first or last characters.
pub proof fn lemma_text_tests(actual: Seq<char>, expected: Seq<char>)
    ensures
        string_test(actual, StringOp::Is, expected) <==> exists|k: int|
            0 <= k < tokens(expected).len() && actual == #[trigger] tokens(expected)[k],
        string_test(actual, StringOp::IsNot, expected) <==> tokens(expected).len() > 0 && forall|
            k: int,
        |
            0 <= k < tokens(expected).len() ==> actual != #[trigger] tokens(expected)[k],
        string_test(actual, StringOp::Contains, expected) <==> exists|k: int, i: int|
            0 <= k < tokens(expected).len() && 0 <= i && i + tokens(expected)[k].len()
                <= actual.len() && #[trigger] actual.subrange(i, i + tokens(expected)[k].len())
                == #[trigger] tokens(expected)[k],
        string_test(actual, StringOp::StartsWith, expected) <==> exists|k: int|
            0 <= k < tokens(expected).len() && tokens(expected)[k].len() <= actual.len()
                && actual.take(tokens(expected)[k].len() as int) == #[trigger] tokens(expected)[k],
        string_test(actual, StringOp::EndsWith, expected) <==> exists|k: int|
            0 <= k < tokens(expected).len() && tokens(expected)[k].len() <= actual.len()
                && actual.skip(actual.len() - tokens(expected)[k].len()) == #[trigger] tokens(
                expected,
            )[k],
{
    let ts = tokens(expected);
    if string_test(actual, StringOp::Contains, expected) {
        let k = choose|k: int| 0 <= k < ts.len() && token_hit(actual, StringOp::Contains, #[trigger] ts[k]);
        let i = choose|i: int| occurs_at(actual, ts[k], i);
        assert(actual.subrange(i, i + ts[k].len()) == ts[k]);
    }
    if exists|k: int, i: int|
        0 <= k < ts.len() && 0 <= i && i + ts[k].len() <= actual.len() && #[trigger] actual.subrange(
            i,
            i + ts[k].len(),
        ) == #[trigger] ts[k] {
        let (k, i) = choose|k: int, i: int|
            0 <= k < ts.len() && 0 <= i && i + ts[k].len() <= actual.len() && #[trigger] actual.subrange(
                i,
                i + ts[k].len(),
            ) == #[trigger] ts[k];
        assert(occurs_at(actual, ts[k], i));
        assert(token_hit(actual, StringOp::Contains, ts[k]));
    }
    if string_test(actual, StringOp::StartsWith, expected) {
        let k = choose|k: int| 0 <= k < ts.len() && token_hit(actual, StringOp::StartsWith, #[trigger] ts[k]);
        assert(actual.take(ts[k].len() as int) =~= actual.subrange(0, ts[k].len() as int));
    }
    if exists|k: int|
        0 <= k < ts.len() && ts[k].len() <= actual.len() && actual.take(ts[k].len() as int)
            == #[trigger] ts[k] {
        let k = choose|k: int|
            0 <= k < ts.len() && ts[k].len() <= actual.len() && actual.take(ts[k].len() as int)
                == #[trigger] ts[k];
        assert(actual.take(ts[k].len() as int) =~= actual.subrange(0, ts[k].len() as int));
        assert(token_hit(actual, StringOp::StartsWith, ts[k]));
    }
    if string_test(actual, StringOp::EndsWith, expected) {
        let k = choose|k: int| 0 <= k < ts.len() && token_hit(actual, StringOp::EndsWith, #[trigger] ts[k]);
        assert(actual.skip(actual.len() - ts[k].len()) =~= actual.subrange(
            actual.len() - ts[k].len(),
            actual.len() as int,
        ));
    }
    if exists|k: int|
        0 <= k < ts.len() && ts[k].len() <= actual.len() && actual.skip(actual.len() - ts[k].len())
            == #[trigger] ts[k] {
        let k = choose|k: int|
            0 <= k < ts.len() && ts[k].len() <= actual.len() && actual.skip(
                actual.len() - ts[k].len(),
            ) == #[trigger] ts[k];
        assert(actual.skip(actual.len() - ts[k].len()) =~= actual.subrange(
            actual.len() - ts[k].len(),
            actual.len() as int,
        ));
        assert(token_hit(actual, StringOp::EndsWith, ts[k]));
    }
}

/// A text that equals one of the tokens passes `Is`, `Contains`,
/// `StartsWith` and `EndsWith`, and fails `IsNot`.
pub proof fn lemma_token_itself_passes(expected: Seq<char>, k: int)
    requires
        0 <= k < tokens(expected).len(),
    ensures
        string_test(tokens(expected)[k], StringOp::Is, expected),
        !string_test(tokens(expected)[k], StringOp::IsNot, expected),
        string_test(tokens(expected)[k], StringOp::Contains, expected),
        string_test(tokens(expected)[k], StringOp::StartsWith, expected),
        string_test(tokens(expected)[k], StringOp::EndsWith, expected),
{
    let t = tokens(expected)[k];
    lemma_text_tests(t, expected);
    assert(t.subrange(0, t.len() as int) =~= t);
    assert(t.take(t.len() as int) =~= t);
    assert(t.skip(0) =~= t);
}

/// What each size test means: `GreaterThan` passes for a larger size,
/// `LessThan` for a smaller one, `Equals` for exactly the given bytes.
pub proof fn lemma_size_tests(actual: u64, expected: u64)
    ensures
        number_test(actual, NumberOp::GreaterThan, expected) <==> actual > expected,
        number_test(actual, NumberOp::LessThan, expected) <==> actual < expected,
        number_test(actual, NumberOp::Equals, expected) <==> actual == expected,
        !(number_test(actual, NumberOp::GreaterThan, expected) && number_test(
            actual,
            NumberOp::LessThan,
            expected,
        )),
{
}

/// What each condition looks at: an extension condition at the file's
/// lowercase extension alone, a name condition at its lowercase stem alone
/// (not the whole name), a size condition at its size alone; condition text
/// in lowercase.
pub proof fn lemma_condition_parts(operator: StringOp, text: String, n: NumberOp, bytes: u64, file_name: Seq<char>, size: u64)
    ensures
        condition_holds(Condition::Extension { operator, text }, file_name, size) == string_test(
            lowercase_of(extension_or_empty(file_name)),
            operator,
            lowercase_of(text@),
        ),
        condition_holds(Condition::Name { operator, text }, file_name, size) == string_test(
            lowercase_of(stem_of(file_name)),
            operator,
            lowercase_of(text@),
        ),
        condition_holds(Condition::Size { operator: n, bytes }, file_name, size) == number_test(
            size,
            n,
            bytes,
        ),
{
}

/// Two files with the same stem satisfy the same name conditions, whatever
/// their extensions and sizes.
pub proof fn lemma_name_condition_sees_stem(
    operator: StringOp,
    text: String,
    name1: Seq<char>,
    name2: Seq<char>,
    size1: u64,
    size2: u64,
)
    requires
        stem_of(name1) == stem_of(name2),
    ensures
        condition_holds(Condition::Name { operator, text }, name1, size1) == condition_holds(
            Condition::Name { operator, text },
            name2,
            size2,
        ),
{
}


/// Every comma-separated piece that is not blank after trimming is a token:
/// no alternative of the condition text is lost.
pub proof fn lemma_every_alternative_is_a_token(expected: Seq<char>, p: int)
    requires
        0 <= p < split_on(expected, ',').len(),
        trim(split_on(expected, ',')[p]).len() > 0,
    ensures
        tokens(expected).contains(trim(split_on(expected, ',')[p])),
{
    broadcast use vstd::seq_lib::group_filter_ensures;
    let ps = trimmed_pieces(expected);
    assert(ps[p] == trim(split_on(expected, ',')[p]));
    assert(is_token()(ps[p]));
}

} // verus!
