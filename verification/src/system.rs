//! The alphabet of drawing symbols and the rewriting engine.

use vstd::prelude::*;
use std::collections::HashMap;
use crate::pattern::{groups_view, regex_search, search, Search, SearchView};
use crate::text::push_char;

verus! {

/// A drawing instruction.
#[derive(Clone, Copy, Debug, PartialEq, Eq, Structural)]
pub enum BaseSymbols {
    /// Advance one step and draw the segment.
    Forward,
    /// Advance one step without drawing: the current polyline ends and a new
    /// one starts at the new position.
    ForwardNoLine,
    /// Turn left by the fixed angle.
    AngleIncrement,
    /// Turn right by the fixed angle.
    AngleDecrement,
}

/// The symbol that a character of an expanded text stands for. Every
/// character other than `f`, `+` and `-` draws a segment.
pub open spec fn symbol_of(c: char) -> BaseSymbols {
    if c == 'f' {
        BaseSymbols::ForwardNoLine
    } else if c == '+' {
        BaseSymbols::AngleIncrement
    } else if c == '-' {
        BaseSymbols::AngleDecrement
    } else {
        BaseSymbols::Forward
    }
}

/// The character that a symbol is written as.
pub open spec fn char_of(symbol: BaseSymbols) -> char {
    match symbol {
        BaseSymbols::Forward => 'F',
        BaseSymbols::ForwardNoLine => 'f',
        BaseSymbols::AngleIncrement => '+',
        BaseSymbols::AngleDecrement => '-',
    }
}

/// The symbols of a text, character by character.
pub open spec fn symbols_of(text: Seq<char>) -> Seq<BaseSymbols> {
    Seq::new(text.len(), |i: int| symbol_of(text[i]))
}

/// The text of a symbol sequence, symbol by symbol.
pub open spec fn text_of(symbols: Seq<BaseSymbols>) -> Seq<char> {
    Seq::new(symbols.len(), |i: int| char_of(symbols[i]))
}

/// How many symbols of `symbols` are `wanted`.
pub open spec fn count_of(symbols: Seq<BaseSymbols>, wanted: BaseSymbols) -> nat
    decreases symbols.len(),
{
    if symbols.len() == 0 {
        0
    } else {
        count_of(symbols.drop_last(), wanted) + if symbols.last() == wanted {
            1nat
        } else {
            0nat
        }
    }
}

/// How many symbols of `symbols` move the turtle, drawing or not.
pub open spec fn count_edges(symbols: Seq<BaseSymbols>) -> nat {
    count_of(symbols, BaseSymbols::Forward) + count_of(symbols, BaseSymbols::ForwardNoLine)
}

/// No symbol is counted that is not there.
pub proof fn lemma_count_edges_bound(symbols: Seq<BaseSymbols>)
    ensures
        count_edges(symbols) <= symbols.len(),
    decreases symbols.len(),
{
    if symbols.len() > 0 {
        lemma_count_edges_bound(symbols.drop_last());
    }
}

impl BaseSymbols {
    /// The symbol that `c` stands for.
    pub fn from_char(c: char) -> (symbol: BaseSymbols)
        ensures
            symbol == symbol_of(c),
    {
        if c == 'f' {
            BaseSymbols::ForwardNoLine
        } else if c == '+' {
            BaseSymbols::AngleIncrement
        } else if c == '-' {
            BaseSymbols::AngleDecrement
        } else {
            BaseSymbols::Forward
        }
    }

    /// The symbol as a text of one character.
    pub fn to_string(&self) -> (text: String)
        ensures
            text@ == seq![char_of(*self)],
    {
        let mut text = String::new();
        push_char(&mut text, self.to_char());
        assert(text@ =~= seq![char_of(*self)]);
        text
    }

    /// The character that this symbol is written as.
    pub fn to_char(&self) -> (c: char)
        ensures
            c == char_of(*self),
    {
        match self {
            BaseSymbols::Forward => 'F',
            BaseSymbols::ForwardNoLine => 'f',
            BaseSymbols::AngleIncrement => '+',
            BaseSymbols::AngleDecrement => '-',
        }
    }
}

/// A sequence of drawing instructions.
pub struct SystemExpression(pub Vec<BaseSymbols>);

impl View for SystemExpression {
    type V = Seq<BaseSymbols>;

    open spec fn view(&self) -> Seq<BaseSymbols> {
        self.0@
    }
}

impl SystemExpression {
    /// The number of symbols that move the turtle, drawing or not.
    pub fn total_edges(&self) -> (edges: i32)
        requires
            count_edges(self@) <= i32::MAX,
        ensures
            edges == count_edges(self@),
    {
        let mut edges: i32 = 0;
        let n = self.0.len();
        for i in 0..n
            invariant
                n == self@.len(),
                edges == count_edges(self@.take(i as int)),
                count_edges(self@) <= i32::MAX,
        {
            proof {
                assert(self@.take(i + 1).drop_last() =~= self@.take(i as int));
                lemma_count_edges_grows(self@.take(i + 1), self@);
            }
            match self.0[i] {
                BaseSymbols::Forward | BaseSymbols::ForwardNoLine => {
                    edges = edges + 1;
                },
                _ => {},
            }
        }
        proof {
            assert(self@.take(n as int) =~= self@);
        }
        edges
    }

    /// The text of the expression: the characters of its symbols, in order.
    pub fn to_string(&self) -> (text: String)
        ensures
            text@ == text_of(self@),
    {
        let mut text = String::new();
        let n = self.0.len();
        for i in 0..n
            invariant
                n == self@.len(),
                text@ == text_of(self@.take(i as int)),
        {
            push_char(&mut text, self.0[i].to_char());
            assert(text@ =~= text_of(self@.take(i + 1)));
        }
        proof {
            assert(self@.take(n as int) =~= self@);
        }
        text
    }
}

/// A longer sequence has no fewer moving symbols than its beginning.
pub proof fn lemma_count_edges_grows(prefix: Seq<BaseSymbols>, symbols: Seq<BaseSymbols>)
    requires
        prefix.is_prefix_of(symbols),
    ensures
        count_edges(prefix) <= count_edges(symbols),
    decreases symbols.len(),
{
    if prefix.len() < symbols.len() {
        assert(prefix.is_prefix_of(symbols.drop_last()));
        lemma_count_edges_grows(prefix, symbols.drop_last());
    } else {
        assert(prefix =~= symbols);
    }
}

/// Reads a text as drawing instructions.
pub fn derive_base_symbols(s: String) -> (expression: SystemExpression)
    ensures
        expression@ == symbols_of(s@),
{
    let mut symbols: Vec<BaseSymbols> = Vec::new();
    for c in it: s.as_str().chars()
        invariant
            it.seq() == s@,
            symbols@ == symbols_of(s@.take(it.index())),
    {
        symbols.push(BaseSymbols::from_char(c));
    }
    SystemExpression(symbols)
}

/// The pattern of a production rule: a letter, `=>`, and the text that
/// replaces the letter, with blanks allowed on both sides of the arrow. A
/// search for it proposes the letter and the replacement; whether the text as
/// a whole is that rule is decided by `is_rule_text`.
pub const RULE_PATTERN: &'static str = r"([A-Za-z])\s*=>\s*([A-Za-z+-]+)";

/// Why a rule was not registered.
#[derive(Clone, Copy, Debug, PartialEq, Eq, Structural)]
pub enum RuleError {
    /// The pattern of rules was turned down by the engine that searches for it.
    Pattern,
    /// The text holds no rule.
    NoMatch,
    /// What was found in place of the rule's letter is not one letter.
    Symbol,
    /// What was found in place of the replacement is empty or holds a
    /// character other than a letter, `+` or `-`.
    Replacement,
    /// The text as a whole is not the rule that was found in it: it holds
    /// more than the letter, the arrow and the replacement.
    Shape,
}

/// Whether `c` is one of the 52 letters from `A` to `Z` and from `a` to `z`.
pub open spec fn is_letter(c: char) -> bool {
    ('a' <= c && c <= 'z') || ('A' <= c && c <= 'Z')
}

/// Whether `c` may stand in a replacement.
pub open spec fn is_rule_char(c: char) -> bool {
    is_letter(c) || c == '+' || c == '-'
}

/// Whether `text` can replace a letter: it is not empty and holds letters,
/// `+` and `-` alone.
pub open spec fn is_replacement(text: Seq<char>) -> bool {
    text.len() > 0 && forall|i: int| 0 <= i < text.len() ==> is_rule_char(#[trigger] text[i])
}

/// What the group `i` of a match captured, if there is such a group and it
/// took part in the match.
pub open spec fn group(groups: Seq<Option<Seq<char>>>, i: int) -> Option<Seq<char>> {
    if 0 <= i < groups.len() {
        groups[i]
    } else {
        None
    }
}

/// Whether `c` is white space: a character with the Unicode property
/// `White_Space`.
pub open spec fn is_blank(c: char) -> bool {
    ('\t' <= c && c <= '\r') || c == ' ' || c == '\u{85}' || c == '\u{a0}' || c == '\u{1680}' || (
    '\u{2000}' <= c && c <= '\u{200a}') || c == '\u{2028}' || c == '\u{2029}' || c == '\u{202f}'
        || c == '\u{205f}' || c == '\u{3000}'
}

/// `text` without the blanks that it begins with.
pub open spec fn trim_start(text: Seq<char>) -> Seq<char>
    decreases text.len(),
{
    if text.len() > 0 && is_blank(text.first()) {
        trim_start(text.drop_first())
    } else {
        text
    }
}

/// `text` without the blanks that it ends with.
pub open spec fn trim_end(text: Seq<char>) -> Seq<char>
    decreases text.len(),
{
    if text.len() > 0 && is_blank(text.last()) {
        trim_end(text.drop_last())
    } else {
        text
    }
}

/// Whether the whole of `text` is the rule that rewrites `letter` to
/// `replacement`: it begins with the letter, it ends with the replacement,
/// and what stands between them is `=>` with nothing but blanks around it.
pub open spec fn is_rule_text(text: Seq<char>, letter: char, replacement: Seq<char>) -> bool {
    let end = text.len() - replacement.len();
    &&& end >= 1
    &&& text[0] == letter
    &&& text.subrange(end, text.len() as int) == replacement
    &&& trim_end(trim_start(text.subrange(1, end))) == seq!['=', '>']
}

/// Whether the whole of `text` is a rule: one letter, `=>`, and a replacement
/// of letters, `+` and `-`, with nothing but blanks around the arrow.
pub open spec fn is_rule(text: Seq<char>) -> bool {
    exists|letter: char, replacement: Seq<char>|
        is_letter(letter) && is_replacement(replacement) && #[trigger] is_rule_text(
            text,
            letter,
            replacement,
        )
}

/// The rule that `text` is, given what a search for `RULE_PATTERN` found in
/// it. The search proposes the letter, as its first group, and the
/// replacement, as its second; they are taken only where the whole of `text`
/// is the rule that they make.
pub open spec fn rule_found(found: SearchView, text: Seq<char>) -> Result<
    (char, Seq<char>),
    RuleError,
> {
    match found {
        SearchView::BadPattern => Err(RuleError::Pattern),
        SearchView::NoMatch => Err(RuleError::NoMatch),
        SearchView::Found(groups) => match group(groups, 1) {
            Some(letter) if letter.len() == 1 && is_letter(letter[0]) => match group(groups, 2) {
                Some(replacement) if is_replacement(replacement) => if is_rule_text(
                    text,
                    letter[0],
                    replacement,
                ) {
                    Ok((letter[0], replacement))
                } else {
                    Err(RuleError::Shape)
                },
                _ => Err(RuleError::Replacement),
            },
            _ => Err(RuleError::Symbol),
        },
    }
}

/// What is left of a text without the blanks at its beginning ends as the
/// text ends.
pub proof fn lemma_trim_start_keeps_end(text: Seq<char>)
    requires
        trim_start(text).len() > 0,
    ensures
        text.len() > 0,
        trim_start(text).last() == text.last(),
    decreases text.len(),
{
    if text.len() > 0 && is_blank(text.first()) {
        lemma_trim_start_keeps_end(text.drop_first());
    }
}

/// A text is the rule of one letter and one replacement at most: where the
/// whole of it is a rule, the letter and the replacement are determined by
/// it.
pub proof fn lemma_rule_text_unique(
    text: Seq<char>,
    letter: char,
    replacement: Seq<char>,
    other_letter: char,
    other_replacement: Seq<char>,
)
    requires
        is_replacement(replacement),
        is_replacement(other_replacement),
        is_rule_text(text, letter, replacement),
        is_rule_text(text, other_letter, other_replacement),
    ensures
        letter == other_letter,
        replacement == other_replacement,
{
    if replacement.len() > other_replacement.len() {
        lemma_rule_text_longer(text, replacement, other_replacement);
    } else if replacement.len() < other_replacement.len() {
        lemma_rule_text_longer(text, other_replacement, replacement);
    }
}

/// Of two endings of a text, the longer is no replacement where the arrow
/// stands before the shorter: it holds the `>` of the arrow or a blank.
proof fn lemma_rule_text_longer(text: Seq<char>, longer: Seq<char>, shorter: Seq<char>)
    requires
        longer.len() > shorter.len(),
        text.len() >= longer.len(),
        text.subrange(text.len() - longer.len(), text.len() as int) == longer,
        trim_end(trim_start(text.subrange(1, text.len() - shorter.len()))) == seq!['=', '>'],
    ensures
        !is_replacement(longer),
{
    let end = text.len() - shorter.len();
    let middle = text.subrange(1, end);
    let kept = trim_start(middle);
    assert(seq!['=', '>'].len() == 2);
    assert(seq!['=', '>'].last() == '>');
    assert(kept.len() > 0 && (is_blank(kept.last()) || kept.last() == '>'));
    lemma_trim_start_keeps_end(middle);
    assert(middle.last() == text[end - 1]);
    assert(longer[end - 1 - (text.len() - longer.len())] == text[end - 1]);
    assert(!is_rule_char(text[end - 1]));
}

/// A rule is read only from a text that is a rule as a whole.
pub proof fn lemma_rule_found_is_rule(found: SearchView, text: Seq<char>)
    requires
        rule_found(found, text) is Ok,
    ensures
        is_rule(text),
{
    let (letter, replacement) = rule_found(found, text)->Ok_0;
    assert(is_rule_text(text, letter, replacement));
}

/// Whether every rule rewrites a letter to a text that can replace it.
pub open spec fn valid_rules(rules: Map<char, Seq<char>>) -> bool {
    forall|c: char| #[trigger] rules.contains_key(c) ==> is_letter(c) && is_replacement(rules[c])
}

/// What replaces `c` in one generation: the text of its rule, or `c` itself
/// where it has none.
pub open spec fn replacement(rules: Map<char, Seq<char>>, c: char) -> Seq<char> {
    if rules.contains_key(c) {
        rules[c]
    } else {
        seq![c]
    }
}

/// One generation: every character of `text` gives way to its replacement,
/// all at once, and the replacements stand in the order of the characters.
pub open spec fn rewrite(rules: Map<char, Seq<char>>, text: Seq<char>) -> Seq<char> {
    text.map_values(|c: char| replacement(rules, c)).flatten()
}

/// The text after `n` generations.
pub open spec fn generation(rules: Map<char, Seq<char>>, axiom_text: Seq<char>, n: nat) -> Seq<char>
    decreases n,
{
    if n == 0 {
        axiom_text
    } else {
        rewrite(rules, generation(rules, axiom_text, (n - 1) as nat))
    }
}

/// The text without characters stays as it is.
pub proof fn lemma_rewrite_empty(rules: Map<char, Seq<char>>)
    ensures
        rewrite(rules, Seq::<char>::empty()) == Seq::<char>::empty(),
{
    let parts = Seq::<char>::empty().map_values(|c: char| replacement(rules, c));
    assert(parts =~= Seq::<Seq<char>>::empty());
}

/// A character more at the end of the text adds its replacement at the end of
/// the next generation.
pub proof fn lemma_rewrite_push(rules: Map<char, Seq<char>>, text: Seq<char>, c: char)
    ensures
        rewrite(rules, text.push(c)) == rewrite(rules, text) + replacement(rules, c),
{
    let each = |c: char| replacement(rules, c);
    assert(text.push(c).map_values(each) =~= text.map_values(each).push(each(c)));
    text.map_values(each).lemma_flatten_push(each(c));
}

/// The number that `c` is kept under in the table of rules.
fn code(c: char) -> (key: u32)
    ensures
        key == c as u32,
        key == c as int,
{
    c as u32
}

/// Whether `c` is a letter.
fn letter(c: char) -> (yes: bool)
    ensures
        yes == is_letter(c),
{
    ('a' <= c && c <= 'z') || ('A' <= c && c <= 'Z')
}

/// The letter that `text` consists of, if it is one letter.
fn single_letter(text: &str) -> (found: Option<char>)
    ensures
        found == (if text@.len() == 1 && is_letter(text@[0]) {
            Some(text@[0])
        } else {
            None::<char>
        }),
{
    if text.unicode_len() == 1 {
        let c = text.get_char(0);
        if letter(c) {
            return Some(c);
        }
    }
    None
}

/// Whether `text` can replace a letter.
fn replacement_text(text: &str) -> (yes: bool)
    ensures
        yes == is_replacement(text@),
{
    let mut any = false;
    for c in it: text.chars()
        invariant
            it.seq() == text@,
            any == (it.index() > 0),
            forall|i: int| 0 <= i < it.index() ==> is_rule_char(#[trigger] text@[i]),
    {
        if !(letter(c) || c == '+' || c == '-') {
            return false;
        }
        any = true;
    }
    any
}

/// Whether `c` is white space.
fn blank(c: char) -> (yes: bool)
    ensures
        yes == is_blank(c),
{
    ('\t' <= c && c <= '\r') || c == ' ' || c == '\u{85}' || c == '\u{a0}' || c == '\u{1680}' || (
    '\u{2000}' <= c && c <= '\u{200a}') || c == '\u{2028}' || c == '\u{2029}' || c == '\u{202f}'
        || c == '\u{205f}' || c == '\u{3000}'
}

/// The characters of `text`.
fn chars_of(text: &str) -> (chars: Vec<char>)
    ensures
        chars@ == text@,
{
    let mut chars: Vec<char> = Vec::new();
    for c in it: text.chars()
        invariant
            it.seq() == text@,
            chars@ == text@.take(it.index()),
    {
        chars.push(c);
    }
    chars
}

/// Whether the whole of `text` is the rule that rewrites `letter` to
/// `replacement`.
fn whole_rule(text: &str, letter: char, replacement: &str) -> (yes: bool)
    ensures
        yes == is_rule_text(text@, letter, replacement@),
{
    let all = chars_of(text);
    let tail = chars_of(replacement);
    if all.len() <= tail.len() {
        return false;
    }
    let end = all.len() - tail.len();
    if all[0] != letter {
        return false;
    }
    for k in 0..tail.len()
        invariant
            all@ == text@,
            tail@ == replacement@,
            end + tail.len() == all.len(),
            forall|j: int| 0 <= j < k ==> all@[end + j] == tail@[j],
    {
        if all[end + k] != tail[k] {
            proof {
                let ending = all@.subrange(end as int, all.len() as int);
                assert(ending[k as int] == all@[end + k]);
                assert(ending != tail@);
            }
            return false;
        }
    }
    assert(all@.subrange(end as int, all.len() as int) =~= tail@);
    let ghost middle = all@.subrange(1, end as int);
    let mut from: usize = 1;
    proof {
        assert(all@.subrange(from as int, end as int) =~= middle);
    }
    while from < end && blank(all[from])
        invariant
            1 <= from <= end <= all.len(),
            trim_start(middle) == trim_start(all@.subrange(from as int, end as int)),
        decreases end - from,
    {
        proof {
            assert(all@.subrange(from as int, end as int).drop_first() =~= all@.subrange(
                from + 1,
                end as int,
            ));
        }
        from = from + 1;
    }
    let ghost kept = all@.subrange(from as int, end as int);
    assert(trim_start(middle) == kept);
    let mut to: usize = end;
    while to > from && blank(all[to - 1])
        invariant
            from <= to <= end <= all.len(),
            trim_end(kept) == trim_end(all@.subrange(from as int, to as int)),
        decreases to - from,
    {
        proof {
            assert(all@.subrange(from as int, to as int).drop_last() =~= all@.subrange(
                from as int,
                to - 1,
            ));
        }
        to = to - 1;
    }
    let ghost arrow = all@.subrange(from as int, to as int);
    assert(trim_end(kept) == arrow);
    if to - from == 2 && all[from] == '=' && all[from + 1] == '>' {
        assert(arrow =~= seq!['=', '>']);
        true
    } else {
        assert(arrow != seq!['=', '>']) by {
            if arrow.len() == 2 {
                assert(arrow[0] == all@[from as int]);
                assert(arrow[1] == all@[from + 1]);
                assert(seq!['=', '>'][0] == '=');
                assert(seq!['=', '>'][1] == '>');
            } else {
                assert(seq!['=', '>'].len() == 2);
            }
        }
        false
    }
}

/// Reads the rule that `text` is out of what a search for `RULE_PATTERN`
/// found in it.
pub fn read_rule(found: Search, text: &str) -> (rule: Result<(char, String), RuleError>)
    ensures
        match rule_found(found@, text@) {
            Ok((letter, replacement)) => rule matches Ok(read) && read.0 == letter && read.1@
                == replacement,
            Err(error) => rule matches Err(e) && e == error,
        },
{
    match found {
        Search::BadPattern => Err(RuleError::Pattern),
        Search::NoMatch => Err(RuleError::NoMatch),
        Search::Found(groups) => {
            let ghost captured = groups_view(groups@);
            if groups.len() < 2 {
                return Err(RuleError::Symbol);
            }
            assert(captured[1] == group(captured, 1));
            let symbol = match &groups[1] {
                Some(part) => single_letter(part.as_str()),
                None => None,
            };
            match symbol {
                None => Err(RuleError::Symbol),
                Some(letter) => {
                    if groups.len() < 3 {
                        return Err(RuleError::Replacement);
                    }
                    assert(captured[2] == group(captured, 2));
                    match &groups[2] {
                        Some(part) => {
                            if !replacement_text(part.as_str()) {
                                Err(RuleError::Replacement)
                            } else if !whole_rule(text, letter, part.as_str()) {
                                Err(RuleError::Shape)
                            } else {
                                Ok((letter, part.clone()))
                            }
                        },
                        None => Err(RuleError::Replacement),
                    }
                },
            }
        },
    }
}

/// An axiom and the rules that rewrite it.
#[derive(Debug)]
pub struct System {
    axiom_text: &'static str,
    rules: HashMap<u32, String>,
}

impl System {
    /// The text of generation 0.
    pub closed spec fn axiom_text(&self) -> Seq<char> {
        self.axiom_text@
    }

    /// The rules: what replaces each letter that has a rule.
    ///
    /// The table keeps a rule under the code point of its letter. The first
    /// condition below holds of every character: it says that the character
    /// is its own code point.
    pub closed spec fn rules(&self) -> Map<char, Seq<char>> {
        Map::new(
            |c: char| c as u32 == c as int && self.rules@.contains_key(c as u32),
            |c: char| self.rules@[c as u32]@,
        )
    }

    /// The symbols of generation `n`; a negative `n` counts as 0.
    pub open spec fn expansion(&self, n: int) -> Seq<BaseSymbols> {
        symbols_of(
            generation(
                self.rules(),
                self.axiom_text(),
                if n > 0 {
                    n as nat
                } else {
                    0
                },
            ),
        )
    }

    /// Every rule rewrites a letter to a text that is not empty and holds
    /// letters, `+` and `-` alone.
    pub open spec fn wf(&self) -> bool {
        valid_rules(self.rules())
    }

    /// A system with the given axiom and no rule.
    pub fn from_axiom(axiom_text: &'static str) -> (system: System)
        ensures
            system.axiom_text() == axiom_text@,
            system.rules() == Map::<char, Seq<char>>::empty(),
            system.wf(),
    {
        let system = System { axiom_text, rules: HashMap::new() };
        assert(system.rules() =~= Map::<char, Seq<char>>::empty());
        system
    }

    /// Registers the rule that `rule` is. A rule for a letter that has one
    /// already takes its place. A text that is not a rule as a whole is
    /// refused and changes nothing.
    pub fn add_rule(&mut self, rule: &'static str) -> (outcome: Result<(), RuleError>)
        ensures
            final(self).axiom_text() == old(self).axiom_text(),
            old(self).wf() ==> final(self).wf(),
            outcome is Ok ==> is_rule(rule@),
            match rule_found(regex_search(RULE_PATTERN@, rule@), rule@) {
                Ok((letter, text)) => {
                    &&& outcome is Ok
                    &&& is_rule_text(rule@, letter, text)
                    &&& final(self).rules() == old(self).rules().insert(letter, text)
                },
                Err(error) => outcome == Err::<(), RuleError>(error) && final(self).rules() == old(
                    self,
                ).rules(),
            },
    {
        let found = search(RULE_PATTERN, rule);
        self.add_rule_found(found, rule)
    }

    /// Registers the rule that `rule` is, given what a search for
    /// `RULE_PATTERN` found in it.
    pub fn add_rule_found(&mut self, found: Search, rule: &str) -> (outcome: Result<(), RuleError>)
        ensures
            final(self).axiom_text() == old(self).axiom_text(),
            old(self).wf() ==> final(self).wf(),
            outcome is Ok ==> is_rule(rule@),
            match rule_found(found@, rule@) {
                Ok((letter, text)) => {
                    &&& outcome is Ok
                    &&& is_rule_text(rule@, letter, text)
                    &&& final(self).rules() == old(self).rules().insert(letter, text)
                },
                Err(error) => outcome == Err::<(), RuleError>(error) && final(self).rules() == old(
                    self,
                ).rules(),
            },
    {
        proof {
            if rule_found(found@, rule@) is Ok {
                lemma_rule_found_is_rule(found@, rule@);
            }
        }
        match read_rule(found, rule) {
            Ok((letter, text)) => {
                self.rules.insert(code(letter), text);
                assert(self.rules() =~= old(self).rules().insert(letter, text@));
                Ok(())
            },
            Err(error) => Err(error),
        }
    }

    /// The symbols of generation `n`; a negative `n` counts as 0.
    pub fn do_n_iterations(&self, n: i32) -> (expression: SystemExpression)
        ensures
            expression@ == self.expansion(n as int),
    {
        let ghost rounds: int = if n > 0 {
            n as int
        } else {
            0
        };
        let mut n = n;
        let mut current_buf = self.axiom_text.to_owned();
        let ghost mut done: nat = 0;
        while n > 0
            invariant
                current_buf@ == generation(self.rules(), self.axiom_text(), done),
                done + (if n > 0 {
                    n as int
                } else {
                    0
                }) == rounds,
            decreases n,
        {
            current_buf = self.expand_expression(current_buf);
            n = n - 1;
            proof {
                done = done + 1;
            }
        }
        derive_base_symbols(current_buf)
    }

    /// One generation of `expression`.
    pub fn expand_expression(&self, expression: String) -> (expanded: String)
        ensures
            expanded@ == rewrite(self.rules(), expression@),
    {
        let mut buffer = String::new();
        proof {
            lemma_rewrite_empty(self.rules());
            assert(expression@.take(0) =~= Seq::<char>::empty());
        }
        for c in it: expression.as_str().chars()
            invariant
                it.seq() == expression@,
                buffer@ == rewrite(self.rules(), expression@.take(it.index())),
        {
            proof {
                let read = expression@.take(it.index());
                assert(expression@.take(it.index() + 1) =~= read.push(c));
                lemma_rewrite_push(self.rules(), read, c);
            }
            let key = code(c);
            match self.rules.get(&key) {
                Some(s) => buffer.append(s.as_str()),
                None => push_char(&mut buffer, c),
            }
        }
        proof {
            assert(expression@.take(expression@.len() as int) =~= expression@);
        }
        buffer
    }
}


/// Reading the text of a symbol sequence gives the sequence back.
pub proof fn lemma_text_round_trip(symbols: Seq<BaseSymbols>)
    ensures
        symbols_of(text_of(symbols)) == symbols,
{
    assert(symbols_of(text_of(symbols)) =~= symbols);
}

/// The length that one generation gives `text`: each character with a rule
/// counts for the length of its replacement, each other character for 1.
pub open spec fn rewritten_len(rules: Map<char, Seq<char>>, text: Seq<char>) -> nat
    decreases text.len(),
{
    if text.len() == 0 {
        0
    } else {
        rewritten_len(rules, text.drop_last()) + if rules.contains_key(text.last()) {
            rules[text.last()].len()
        } else {
            1
        }
    }
}

/// One generation of a text has the length of the replacements of its
/// characters taken together, where a character without a rule counts for 1.
pub proof fn lemma_rewrite_len(rules: Map<char, Seq<char>>, text: Seq<char>)
    ensures
        rewrite(rules, text).len() == rewritten_len(rules, text),
    decreases text.len(),
{
    if text.len() == 0 {
        assert(text =~= Seq::<char>::empty());
        lemma_rewrite_empty(rules);
    } else {
        lemma_rewrite_len(rules, text.drop_last());
        lemma_rewrite_push(rules, text.drop_last(), text.last());
        assert(text.drop_last().push(text.last()) =~= text);
    }
}

/// One generation of two texts joined is the two generations joined: no rule
/// looks at the neighbours of the character that it rewrites.
pub proof fn lemma_rewrite_concat(rules: Map<char, Seq<char>>, left: Seq<char>, right: Seq<char>)
    ensures
        rewrite(rules, left + right) == rewrite(rules, left) + rewrite(rules, right),
    decreases right.len(),
{
    if right.len() == 0 {
        assert(left + right =~= left);
        lemma_rewrite_empty(rules);
        assert(right =~= Seq::<char>::empty());
        assert(rewrite(rules, left) + Seq::<char>::empty() =~= rewrite(rules, left));
    } else {
        let c = right.last();
        lemma_rewrite_concat(rules, left, right.drop_last());
        lemma_rewrite_push(rules, left + right.drop_last(), c);
        lemma_rewrite_push(rules, right.drop_last(), c);
        assert((left + right.drop_last()).push(c) =~= left + right);
        assert(right.drop_last().push(c) =~= right);
        assert((rewrite(rules, left) + rewrite(rules, right.drop_last())) + replacement(rules, c)
            =~= rewrite(rules, left) + (rewrite(rules, right.drop_last()) + replacement(rules, c)));
    }
}

/// A text none of whose characters has a rule is its own next generation.
pub proof fn lemma_rewrite_terminals(rules: Map<char, Seq<char>>, text: Seq<char>)
    requires
        forall|i: int| 0 <= i < text.len() ==> !rules.contains_key(#[trigger] text[i]),
    ensures
        rewrite(rules, text) == text,
    decreases text.len(),
{
    if text.len() == 0 {
        assert(text =~= Seq::<char>::empty());
        lemma_rewrite_empty(rules);
    } else {
        lemma_rewrite_terminals(rules, text.drop_last());
        lemma_rewrite_push(rules, text.drop_last(), text.last());
        assert(text.drop_last().push(text.last()) =~= text);
        assert(text.drop_last() + seq![text.last()] =~= text);
    }
}

/// Under rules whose replacements are not empty no generation is shorter
/// than the one before it.
pub proof fn lemma_rewrite_never_shortens(rules: Map<char, Seq<char>>, text: Seq<char>)
    requires
        valid_rules(rules),
    ensures
        rewrite(rules, text).len() >= text.len(),
    decreases text.len(),
{
    lemma_rewrite_len(rules, text);
    if text.len() > 0 {
        lemma_rewrite_len(rules, text.drop_last());
        lemma_rewrite_never_shortens(rules, text.drop_last());
    }
}

/// Generation 0 is the axiom, symbol for symbol: no rule has touched it. A
/// negative count of generations gives the same.
pub proof fn lemma_expansion_zero(system: System, n: int)
    requires
        n <= 0,
    ensures
        system.expansion(n) == symbols_of(system.axiom_text()),
{
}

/// Each generation is one rewriting of the generation before it.
pub proof fn lemma_expansion_step(system: System, n: int)
    requires
        n >= 0,
    ensures
        system.expansion(n + 1) == symbols_of(
            rewrite(system.rules(), generation(system.rules(), system.axiom_text(), n as nat)),
        ),
{
}

/// The expansion depends on the axiom, the rules and the count of generations
/// alone: two systems that agree in these expand to the same symbols.
pub proof fn lemma_expansion_deterministic(first: System, second: System, n: int)
    requires
        first.axiom_text() == second.axiom_text(),
        first.rules() == second.rules(),
    ensures
        first.expansion(n) == second.expansion(n),
{
}

} // verus!
