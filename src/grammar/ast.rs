//! The grammar tree that the parser builds, and its mathematical model.
use vstd::prelude::*;

verus! {

/// A whole grammar: its rules in source order.
#[derive(Debug, PartialEq)]
pub struct Grammar {
    pub rules: Vec<Rule>,
}

/// `name : body ;`
#[derive(Debug, PartialEq)]
pub struct Rule {
    pub name: String,
    pub body: Expression,
}

/// Alternatives separated by `|`; never empty.
#[derive(Debug, PartialEq)]
pub struct Expression {
    pub alternatives: Vec<Sequence>,
}

/// Items in a row; may be empty.
#[derive(Debug, PartialEq)]
pub struct Sequence {
    pub items: Vec<Item>,
}

#[derive(Debug, PartialEq)]
pub enum Item {
    NonTerminal(String),
    Terminal(String),
    Group(Expression),
    Optional(Expression),
    Repetition(Expression),
}

/// The model of an item; an expression is modelled as its alternatives, each the
/// sequence of its items.
pub enum ItemM {
    NonTerminal(Seq<char>),
    Terminal(Seq<char>),
    Group(Seq<Seq<ItemM>>),
    Optional(Seq<Seq<ItemM>>),
    Repetition(Seq<Seq<ItemM>>),
}

/// The model of a rule: its name and the model of its body.
pub type RuleM = (Seq<char>, Seq<Seq<ItemM>>);

pub open spec fn item_model(it: Item) -> ItemM
    decreases it, 3int,
{
    match it {
        Item::NonTerminal(s) => ItemM::NonTerminal(s@),
        Item::Terminal(s) => ItemM::Terminal(s@),
        Item::Group(e) => ItemM::Group(alts_model(e.alternatives@)),
        Item::Optional(e) => ItemM::Optional(alts_model(e.alternatives@)),
        Item::Repetition(e) => ItemM::Repetition(alts_model(e.alternatives@)),
    }
}

pub open spec fn items_model(items: Seq<Item>) -> Seq<ItemM>
    decreases items, 0int,
{
    if items.len() == 0 {
        Seq::empty()
    } else {
        items_model(items.drop_last()).push(item_model(items.last()))
    }
}

pub open spec fn alts_model(alts: Seq<Sequence>) -> Seq<Seq<ItemM>>
    decreases alts, 0int,
{
    if alts.len() == 0 {
        Seq::empty()
    } else {
        alts_model(alts.drop_last()).push(items_model(alts.last().items@))
    }
}

pub open spec fn expr_model(e: Expression) -> Seq<Seq<ItemM>> {
    alts_model(e.alternatives@)
}

pub open spec fn rules_model(rules: Seq<Rule>) -> Seq<RuleM>
    decreases rules.len(),
{
    if rules.len() == 0 {
        Seq::empty()
    } else {
        rules_model(rules.drop_last()).push((rules.last().name@, expr_model(rules.last().body)))
    }
}

} // verus!
