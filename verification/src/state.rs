//! The per-session context: the column-identifier allocator and the set of
//! enabled rewrite rules.
use vstd::prelude::*;

verus! {

/// A rewrite rule that can be switched on for a session.
#[derive(Debug, Clone, Copy, PartialEq, Eq, Hash)]
pub enum Rule {
    /// Scalar subqueries in computed columns are turned into dependent joins.
    Hoist,
    /// Dependent joins are turned into ordinary joins where possible.
    Decorrelate,
}

/// What a session context stands for: the next identifier to hand out and
/// the rules that are switched on.
pub struct SpecState {
    pub next_id: nat,
    pub rules: Set<Rule>,
}

impl SpecState {
    /// Whether the hoisting rule is on.
    pub open spec fn hoisting(self) -> bool {
        self.rules.contains(Rule::Hoist)
    }

    /// Whether the decorrelation rule is on.
    pub open spec fn decorrelating(self) -> bool {
        self.rules.contains(Rule::Decorrelate)
    }

    /// The same context after `n` more identifiers have been handed out.
    pub open spec fn advanced(self, n: nat) -> SpecState {
        SpecState { next_id: self.next_id + n, rules: self.rules }
    }

    /// The same context with the counter set to `next_id`.
    pub open spec fn at(self, next_id: nat) -> SpecState {
        SpecState { next_id, rules: self.rules }
    }

    /// The same context with `rule` switched on.
    pub open spec fn with_rule(self, rule: Rule) -> SpecState {
        SpecState { next_id: self.next_id, rules: self.rules.insert(rule) }
    }
}

/// Switching a rule on twice is switching it on once, and the order in
/// which two rules are switched on does not matter.
pub proof fn lemma_enable_idempotent(st: SpecState, rule: Rule, other: Rule)
    ensures
        st.with_rule(rule).with_rule(rule) == st.with_rule(rule),
        st.with_rule(rule).with_rule(other) == st.with_rule(other).with_rule(rule),
        st.with_rule(rule).rules.contains(rule),
{
    assert(st.rules.insert(rule).insert(rule) =~= st.rules.insert(rule));
    assert(st.rules.insert(rule).insert(other) =~= st.rules.insert(other).insert(rule));
}

/// Identifiers are handed out in increasing order: the identifier that a
/// session hands out after `n` others is `n` above the first. So no two of
/// them are the same.
pub proof fn lemma_ids_increase(st: SpecState, n: nat, m: nat)
    requires
        n < m,
    ensures
        st.advanced(n).next_id < st.advanced(m).next_id,
        st.advanced(n).advanced(1) == st.advanced(n + 1),
{
}

/// The context of one plan-building session.
#[derive(Debug)]
pub struct State {
    next_id: usize,
    hoist: bool,
    decorrelate: bool,
}

impl View for State {
    type V = SpecState;

    closed spec fn view(&self) -> SpecState {
        SpecState {
            next_id: self.next_id as nat,
            rules: Set::new(
                |r: Rule|
                    match r {
                        Rule::Hoist => self.hoist,
                        Rule::Decorrelate => self.decorrelate,
                    },
            ),
        }
    }
}

impl State {
    /// A fresh session: no identifier handed out yet, no rule switched on.
    pub fn new() -> (s: State)
        ensures
            s@ == (SpecState { next_id: 0, rules: Set::empty() }),
    {
        let s = State { next_id: 0, hoist: false, decorrelate: false };
        assert(s@.rules =~= Set::empty());
        s
    }

    /// A session whose first identifier is `first_id`, with no rule
    /// switched on: for plans whose columns below `first_id` are already
    /// taken.
    pub fn starting_at(first_id: usize) -> (s: State)
        ensures
            s@ == (SpecState { next_id: first_id as nat, rules: Set::empty() }),
    {
        let s = State { next_id: first_id, hoist: false, decorrelate: false };
        assert(s@.rules =~= Set::empty());
        s
    }

    /// Hands out the next identifier. Identifiers come in increasing order,
    /// so none is handed out twice.
    pub fn next(&mut self) -> (id: usize)
        requires
            old(self)@.next_id < usize::MAX,
        ensures
            id == old(self)@.next_id,
            final(self)@ == old(self)@.advanced(1),
    {
        let id = self.next_id;
        self.next_id = self.next_id + 1;
        assert(self@.rules =~= old(self)@.rules);
        id
    }

    /// Switches `rule` on. Switching on a rule that is already on changes nothing.
    pub fn enable(&mut self, rule: Rule)
        ensures
            final(self)@ == old(self)@.with_rule(rule),
    {
        match rule {
            Rule::Hoist => {
                self.hoist = true;
            },
            Rule::Decorrelate => {
                self.decorrelate = true;
            },
        }
        assert(self@.rules =~= old(self)@.rules.insert(rule));
    }

    /// Whether `rule` is switched on.
    pub fn enabled(&self, rule: Rule) -> (on: bool)
        ensures
            on == self@.rules.contains(rule),
    {
        match rule {
            Rule::Hoist => self.hoist,
            Rule::Decorrelate => self.decorrelate,
        }
    }

    /// The identifier that the next call of `next` will hand out.
    pub fn peek(&self) -> (id: usize)
        ensures
            id == self@.next_id,
    {
        self.next_id
    }
}

} // verus!
