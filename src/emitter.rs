//! Source text of a call and of the closure made from it.

use vstd::prelude::*;
use crate::binder::parameter_names;
use crate::call::{Argument, ArgumentView, BoundCallable, BoundView, CallExpression, CallView};

verus! {

/// `items` separated by `", "`.
pub open spec fn join(items: Seq<Seq<char>>) -> Seq<char>
    decreases items.len(),
{
    if items.len() == 0 {
        seq![]
    } else if items.len() == 1 {
        items[0]
    } else {
        join(items.drop_last()) + seq![',', ' '] + items.last()
    }
}

/// The source text of an argument.
pub open spec fn argument_text(a: ArgumentView) -> Seq<char> {
    match a {
        ArgumentView::Fixed(e) => e,
        ArgumentView::Placeholder => seq!['_'],
    }
}

/// Each of `attributes` followed by a space.
pub open spec fn attributes_text(attributes: Seq<Seq<char>>) -> Seq<char>
    decreases attributes.len(),
{
    if attributes.len() == 0 {
        seq![]
    } else {
        attributes_text(attributes.drop_last()) + attributes.last() + seq![' ']
    }
}

/// `#[attr] ... callee(arg0, arg1, ...)`.
pub open spec fn call_text(c: CallView) -> Seq<char> {
    attributes_text(c.attributes) + c.callee + seq!['('] + join(c.arguments.map_values(|a: ArgumentView| argument_text(a))) + seq![
        ')',
    ]
}

/// `|p0, p1, ...| { body }`.
pub open spec fn closure_text(b: BoundView) -> Seq<char> {
    seq!['|'] + join(parameter_names(b.parameters)) + seq!['|', ' ', '{', ' '] + call_text(b.body)
        + seq![' ', '}']
}

proof fn lemma_join_step(items: Seq<Seq<char>>, i: int)
    requires
        0 <= i < items.len(),
    ensures
        join(items.take(i + 1)) == if i == 0 {
            items[0]
        } else {
            join(items.take(i)) + seq![',', ' '] + items[i]
        },
{
    assert(items.take(i + 1).drop_last() =~= items.take(i));
}

/// Appends `item` to `out`, after `", "` unless it is the first item.
fn push_item(out: &mut String, first: bool, item: &str)
    ensures
        final(out)@ == if first {
            old(out)@ + item@
        } else {
            old(out)@ + seq![',', ' '] + item@
        },
{
    if !first {
        proof { reveal_strlit(", "); }
        out.append(", ");
    }
    out.append(item);
    assert(final(out)@ =~= if first {
        old(out)@ + item@
    } else {
        old(out)@ + seq![',', ' '] + item@
    });
}

impl CallExpression {
    /// The source text of this call.
    pub fn to_source(&self) -> (r: String)
        ensures
            r@ == call_text(self@),
    {
        let ghost texts = self@.arguments.map_values(|a: ArgumentView| argument_text(a));
        let ghost attrs = self@.attributes;
        let mut out = String::new();
        let mut a: usize = 0;
        while a < self.attributes.len()
            invariant
                attrs == self@.attributes,
                a <= self.attributes.len(),
                out@ == attributes_text(attrs.take(a as int)),
            decreases self.attributes.len() - a,
        {
            assert(attrs.take(a + 1).drop_last() =~= attrs.take(a as int));
            assert(attrs[a as int] == self.attributes[a as int]@);
            out.append(self.attributes[a].as_str());
            proof { reveal_strlit(" "); }
            out.append(" ");
            assert(out@ =~= attributes_text(attrs.take(a + 1)));
            a = a + 1;
        }
        assert(attrs.take(a as int) =~= attrs);
        out.append(self.callee.as_str());
        proof { reveal_strlit("("); }
        out.append("(");
        let ghost start = out@;
        let mut i: usize = 0;
        while i < self.arguments.len()
            invariant
                texts == self@.arguments.map_values(|a: ArgumentView| argument_text(a)),
                i <= self.arguments.len(),
                out@ == start + join(texts.take(i as int)),
            decreases self.arguments.len() - i,
        {
            proof {
                lemma_join_step(texts, i as int);
            }
            assert(texts[i as int] == argument_text(self.arguments[i as int]@));
            match &self.arguments[i] {
                Argument::Fixed(e) => push_item(&mut out, i == 0, e.as_str()),
                Argument::Placeholder => {
                    proof { reveal_strlit("_"); }
                    push_item(&mut out, i == 0, "_");
                },
            }
            assert(out@ =~= start + join(texts.take(i + 1)));
            i = i + 1;
        }
        assert(texts.take(i as int) =~= texts);
        proof { reveal_strlit(")"); }
        out.append(")");
        assert(out@ =~= call_text(self@));
        out
    }
}

impl BoundCallable {
    /// The source text of this closure.
    pub fn to_source(&self) -> (r: String)
        ensures
            r@ == closure_text(self@),
    {
        let ghost names = parameter_names(self@.parameters);
        let mut out = String::new();
        proof { reveal_strlit("|"); }
        out.append("|");
        let ghost start = out@;
        let mut i: usize = 0;
        while i < self.parameters.len()
            invariant
                names == parameter_names(self@.parameters),
                i <= self.parameters.len(),
                out@ == start + join(names.take(i as int)),
            decreases self.parameters.len() - i,
        {
            proof {
                lemma_join_step(names, i as int);
            }
            assert(names[i as int] == self.parameters[i as int].name@);
            push_item(&mut out, i == 0, self.parameters[i].name.as_str());
            assert(out@ =~= start + join(names.take(i + 1)));
            i = i + 1;
        }
        assert(names.take(i as int) =~= names);
        proof { reveal_strlit("| { "); }
        out.append("| { ");
        let body = self.body.to_source();
        out.append(body.as_str());
        proof { reveal_strlit(" }"); }
        out.append(" }");
        assert(out@ =~= closure_text(self@));
        out
    }
}

} // verus!
