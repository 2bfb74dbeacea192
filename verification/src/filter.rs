//! The binlog filter transformer: passes or drops events by an ordered
//! list of include/exclude rules keyed on the event's database and table.
//!
//! Evaluation folds left over the rules starting from `true`: a rule whose
//! database does not match the event is a no-op, a matching rule without a
//! table decides for its whole database, and a matching rule with a table
//! decides only when the event's table matches too.  Later rules override
//! earlier ones exactly where they match.

use vstd::prelude::*;
use crate::ComponentKind;
use crate::ComponentApi;
use crate::event::Event;
use crate::pointer::ptr_lookup;
use crate::value::ValueV;
use crate::text::str_eq;

verus! {

/// One filter rule: include or exclude a database, or one table in it.
/// An absent table means every table of that database.
#[derive(Debug, PartialEq)]
pub enum BinlogFilterRule {
    Include { database: String, table: Option<String> },
    Exclude { database: String, table: Option<String> },
}

/// An ordered list of filter rules.
#[derive(Debug, PartialEq)]
pub struct BinlogFilterRules {
    rules: Vec<BinlogFilterRule>,
}

/// The transformer that applies the rules between its inbox and its
/// destination.
#[derive(Debug, PartialEq)]
pub struct BinlogFilter {
    pub id: String,
    pub destination: String,
    pub rules: BinlogFilterRules,
}

/// What one rule does to the running state for a payload: nothing unless
/// the rule matches the event's database (and table, when it names one).
pub open spec fn rule_step(st: bool, rule: BinlogFilterRule, v: ValueV) -> bool {
    let dbv = ptr_lookup(v, "/meta/database"@);
    if !(dbv matches Some(ValueV::String(_))) {
        st
    } else {
        let db = dbv->Some_0->String_0;
        match rule {
            BinlogFilterRule::Include { database, table } => {
                if db != database@ {
                    st
                } else {
                    match table {
                        None => true,
                        Some(t) => match ptr_lookup(v, "/sql/table"@) {
                            Some(ValueV::String(tv)) => if tv == t@ {
                                true
                            } else {
                                st
                            },
                            _ => st,
                        },
                    }
                }
            },
            BinlogFilterRule::Exclude { database, table } => {
                if db != database@ {
                    st
                } else {
                    match table {
                        None => false,
                        Some(t) => match ptr_lookup(v, "/sql/table"@) {
                            Some(ValueV::String(tv)) => if tv == t@ {
                                false
                            } else {
                                st
                            },
                            _ => st,
                        },
                    }
                }
            },
        }
    }
}

/// The left fold of the rules over a payload, starting from `true`.
pub open spec fn eval_rules(rules: Seq<BinlogFilterRule>, v: ValueV) -> bool
    decreases rules.len(),
{
    if rules.len() == 0 {
        true
    } else {
        rule_step(eval_rules(rules.drop_last(), v), rules.last(), v)
    }
}

/// Applies one rule to the running state.
fn apply_rule(st: bool, rule: &BinlogFilterRule, event: &Event) -> (r: bool)
    ensures
        r == rule_step(st, *rule, event.value@),
{
    let dbv = match event.value.pointer("/meta/database") {
        Some(v) => v,
        None => {
            return st;
        },
    };
    let db = match dbv.as_str() {
        Some(s) => s,
        None => {
            return st;
        },
    };
    match rule {
        BinlogFilterRule::Include { database, table } => {
            if !str_eq(db, database.as_str()) {
                return st;
            }
            match table {
                None => true,
                Some(t) => {
                    match event.value.pointer("/sql/table") {
                        Some(tv) => match tv.as_str() {
                            Some(ts) => if str_eq(ts, t.as_str()) {
                                true
                            } else {
                                st
                            },
                            None => st,
                        },
                        None => st,
                    }
                },
            }
        },
        BinlogFilterRule::Exclude { database, table } => {
            if !str_eq(db, database.as_str()) {
                return st;
            }
            match table {
                None => false,
                Some(t) => {
                    match event.value.pointer("/sql/table") {
                        Some(tv) => match tv.as_str() {
                            Some(ts) => if str_eq(ts, t.as_str()) {
                                false
                            } else {
                                st
                            },
                            None => st,
                        },
                        None => st,
                    }
                },
            }
        },
    }
}

impl BinlogFilterRules {
    /// The rules, in declaration order.
    pub closed spec fn rule_list(&self) -> Seq<BinlogFilterRule> {
        self.rules@
    }

    /// An empty rule list, which passes everything.
    pub fn new() -> (r: Self)
        ensures
            r.rule_list() == Seq::<BinlogFilterRule>::empty(),
    {
        BinlogFilterRules { rules: Vec::new() }
    }

    /// Appends an inclusion rule for a database, or one table in it.
    pub fn include_rule(&mut self, database: String, table: Option<String>)
        ensures
            final(self).rule_list() == old(self).rule_list().push(
                BinlogFilterRule::Include { database, table },
            ),
    {
        self.rules.push(BinlogFilterRule::Include { database, table });
    }

    /// Appends an exclude rule for a database, or one table in it.
    pub fn exclude(&mut self, database: String, table: Option<String>)
        ensures
            final(self).rule_list() == old(self).rule_list().push(
                BinlogFilterRule::Exclude { database, table },
            ),
    {
        self.rules.push(BinlogFilterRule::Exclude { database, table });
    }

    /// Whether an event passes the rules.
    pub fn eval(&self, event: &Event) -> (r: bool)
        ensures
            r == eval_rules(self.rule_list(), event.value@),
    {
        let n = self.rules.len();
        let mut st = true;
        let mut i: usize = 0;
        proof {
            assert(self.rules@.take(0) =~= Seq::<BinlogFilterRule>::empty());
        }
        while i < n
            invariant
                i <= n,
                n == self.rules@.len(),
                st == eval_rules(self.rules@.take(i as int), event.value@),
            decreases n - i,
        {
            let rule = &self.rules[i];
            st = apply_rule(st, rule, event);
            proof {
                assert(self.rules@.take(i as int + 1).drop_last() =~= self.rules@.take(i as int));
                assert(self.rules@.take(i as int + 1).last() == self.rules@[i as int]);
            }
            i = i + 1;
        }
        proof {
            assert(self.rules@.take(n as int) =~= self.rules@);
        }
        st
    }
}

impl BinlogFilter {
    /// Passes the event on when the rules admit it; drops it otherwise.
    pub fn transform(&self, event: Event) -> (r: Option<Event>)
        ensures
            eval_rules(self.rules.rule_list(), event.value@) ==> r == Some(event),
            !eval_rules(self.rules.rule_list(), event.value@) ==> r is None,
    {
        if self.rules.eval(&event) {
            Some(event)
        } else {
            None
        }
    }
}

impl ComponentApi for BinlogFilter {
    open spec fn spec_id(&self) -> Seq<char> {
        self.id@
    }

    open spec fn spec_kind(&self) -> ComponentKind {
        ComponentKind::Transformer
    }

    fn id(&self) -> (r: &str)
        ensures
            r@ == self.spec_id(),
    {
        self.id.as_str()
    }

    fn kind(&self) -> (r: ComponentKind)
        ensures
            r == self.spec_kind(),
    {
        ComponentKind::Transformer
    }
}

} // verus!
