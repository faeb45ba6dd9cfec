//! The structured form of a call expression and of the closure made from it.

use vstd::prelude::*;

verus! {

/// One argument slot of a call: an expression kept as its source text, or
/// the placeholder `_`.
#[derive(Clone, Debug, PartialEq, Eq)]
pub enum Argument {
    Fixed(String),
    Placeholder,
}

/// What an [`Argument`] stands for.
pub enum ArgumentView {
    Fixed(Seq<char>),
    Placeholder,
}

impl View for Argument {
    type V = ArgumentView;

    open spec fn view(&self) -> ArgumentView {
        match self {
            Argument::Fixed(e) => ArgumentView::Fixed(e@),
            Argument::Placeholder => ArgumentView::Placeholder,
        }
    }
}

/// `#[attributes...] callee(arguments...)`; the outer attributes and the
/// callee are kept as their source text.
#[derive(Clone, Debug, PartialEq, Eq)]
pub struct CallExpression {
    pub attributes: Vec<String>,
    pub callee: String,
    pub arguments: Vec<Argument>,
}

pub struct CallView {
    pub attributes: Seq<Seq<char>>,
    pub callee: Seq<char>,
    pub arguments: Seq<ArgumentView>,
}

impl View for CallExpression {
    type V = CallView;

    open spec fn view(&self) -> CallView {
        CallView {
            attributes: self.attributes@.map_values(|a: String| a@),
            callee: self.callee@,
            arguments: self.arguments@.map_values(|a: Argument| a@),
        }
    }
}

/// A generated parameter: its position among the placeholders and its name.
#[derive(Clone, Debug, PartialEq, Eq)]
pub struct ParameterBinding {
    pub index: usize,
    pub name: String,
}

pub struct ParameterView {
    pub index: nat,
    pub name: Seq<char>,
}

impl View for ParameterBinding {
    type V = ParameterView;

    open spec fn view(&self) -> ParameterView {
        ParameterView { index: self.index as nat, name: self.name@ }
    }
}

/// The closure `|parameters...| { body }`.
#[derive(Clone, Debug, PartialEq, Eq)]
pub struct BoundCallable {
    pub parameters: Vec<ParameterBinding>,
    pub body: CallExpression,
}

pub struct BoundView {
    pub parameters: Seq<ParameterView>,
    pub body: CallView,
}

impl View for BoundCallable {
    type V = BoundView;

    open spec fn view(&self) -> BoundView {
        BoundView {
            parameters: self.parameters@.map_values(|p: ParameterBinding| p@),
            body: self.body@,
        }
    }
}

/// The error of a transform whose input is not a call expression.
#[derive(Clone, Debug, PartialEq, Eq)]
pub struct MalformedInputError {
    /// Why the input could not be read as a call.
    pub message: String,
}

/// A copy of `texts`.
pub fn copy_texts(texts: &Vec<String>) -> (r: Vec<String>)
    ensures
        r@.map_values(|t: String| t@) == texts@.map_values(|t: String| t@),
{
    let mut r: Vec<String> = Vec::new();
    let mut i: usize = 0;
    while i < texts.len()
        invariant
            i <= texts.len(),
            r.len() == i,
            forall|k: int| 0 <= k < i ==> r[k]@ == texts[k]@,
        decreases texts.len() - i,
    {
        r.push(texts[i].clone());
        i = i + 1;
    }
    assert(r@.map_values(|t: String| t@) =~= texts@.map_values(|t: String| t@));
    r
}

} // verus!
