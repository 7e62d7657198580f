//! Rules over the tags of a scenario: which scenarios run alone, which may
//! be retried, which hooks apply.

use vstd::prelude::*;

verus! {

/// A rule over a set of tags.
#[derive(Debug)]
pub enum TagExpr {
    /// Both rules hold.
    And(Box<TagExpr>, Box<TagExpr>),
    /// One of the rules holds, or both.
    Or(Box<TagExpr>, Box<TagExpr>),
    /// The rule does not hold.
    Not(Box<TagExpr>),
    /// The tag is in the set.
    Tag(String),
}

/// The set of the tags in a list.
pub open spec fn tag_set(tags: Seq<String>) -> Set<Seq<char>> {
    Set::new(|tag: Seq<char>| exists|i: int| 0 <= i < tags.len() && (#[trigger] tags[i])@ == tag)
}

impl TagExpr {
    /// The rule holds of the set `tags`.
    pub open spec fn holds(&self, tags: Set<Seq<char>>) -> bool
        decreases self,
    {
        match self {
            TagExpr::And(left, right) => left.holds(tags) && right.holds(tags),
            TagExpr::Or(left, right) => left.holds(tags) || right.holds(tags),
            TagExpr::Not(inner) => !inner.holds(tags),
            TagExpr::Tag(tag) => tags.contains(tag@),
        }
    }

    /// Whether the rule holds of the tags in the list `tags`.
    pub fn eval(&self, tags: &Vec<String>) -> (r: bool)
        ensures
            r == self.holds(tag_set(tags@)),
        decreases self,
    {
        match self {
            TagExpr::And(left, right) => left.eval(tags) && right.eval(tags),
            TagExpr::Or(left, right) => left.eval(tags) || right.eval(tags),
            TagExpr::Not(inner) => !inner.eval(tags),
            TagExpr::Tag(tag) => has_tag(tags, tag),
        }
    }
}

impl Clone for TagExpr {
    fn clone(&self) -> (r: Self)
        ensures
            r == *self,
        decreases self,
    {
        match self {
            TagExpr::And(left, right) => TagExpr::And(
                Box::new((&**left).clone()),
                Box::new((&**right).clone()),
            ),
            TagExpr::Or(left, right) => TagExpr::Or(
                Box::new((&**left).clone()),
                Box::new((&**right).clone()),
            ),
            TagExpr::Not(inner) => TagExpr::Not(Box::new((&**inner).clone())),
            TagExpr::Tag(tag) => TagExpr::Tag(tag.clone()),
        }
    }
}

/// Whether `tag` is in the list `tags`.
pub fn has_tag(tags: &Vec<String>, tag: &String) -> (r: bool)
    ensures
        r == tag_set(tags@).contains(tag@),
{
    let mut i: usize = 0;
    while i < tags.len()
        invariant
            i <= tags.len(),
            forall|j: int| 0 <= j < i ==> tags@[j]@ != tag@,
        decreases tags.len() - i,
    {
        if tags[i] == *tag {
            return true;
        }
        i += 1;
    }
    false
}

/// A rule that may be absent holds of `tags`: an absent rule holds of every
/// set.
pub open spec fn applies_to(rule: Option<TagExpr>, tags: Set<Seq<char>>) -> bool {
    match rule {
        Some(expr) => expr.holds(tags),
        None => true,
    }
}

/// Whether a rule that may be absent holds of the tags in the list `tags`.
pub fn applies(rule: &Option<TagExpr>, tags: &Vec<String>) -> (r: bool)
    ensures
        r == applies_to(*rule, tag_set(tags@)),
{
    match rule {
        Some(expr) => expr.eval(tags),
        None => true,
    }
}

} // verus!
