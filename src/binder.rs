//! Binding placeholders to generated parameters, and what the bound closure
//! does when it is called.

use vstd::prelude::*;
use crate::call::{
    copy_texts, Argument, ArgumentView, BoundCallable, BoundView, CallExpression, CallView,
    ParameterBinding, ParameterView,
};
use crate::naming::{lemma_param_names_unique, param_name, parameter_name};

verus! {

/// How many of the first `j` arguments are placeholders.
pub open spec fn placeholders_before(args: Seq<ArgumentView>, j: int) -> nat
    decreases j,
{
    if j <= 0 {
        0
    } else {
        placeholders_before(args, j - 1) + if args[j - 1] is Placeholder {
            1nat
        } else {
            0nat
        }
    }
}

/// How many arguments are placeholders.
pub open spec fn placeholder_count(args: Seq<ArgumentView>) -> nat {
    placeholders_before(args, args.len() as int)
}

/// Argument `j` after binding: a placeholder becomes a reference to the
/// parameter of its rank among the placeholders; any other argument stays.
pub open spec fn bound_argument(args: Seq<ArgumentView>, j: int) -> ArgumentView {
    if args[j] is Placeholder {
        ArgumentView::Fixed(param_name(placeholders_before(args, j)))
    } else {
        args[j]
    }
}

/// The parameters `__0, ..., __(k-1)`.
pub open spec fn bound_parameters(k: nat) -> Seq<ParameterView> {
    Seq::new(k, |i: int| ParameterView { index: i as nat, name: param_name(i as nat) })
}

/// The closure made from call `c`.
pub open spec fn bind_spec(c: CallView) -> BoundView {
    BoundView {
        parameters: bound_parameters(placeholder_count(c.arguments)),
        body: CallView {
            attributes: c.attributes,
            callee: c.callee,
            arguments: Seq::new(c.arguments.len(), |j: int| bound_argument(c.arguments, j)),
        },
    }
}

/// The names of the parameters, in order.
pub open spec fn parameter_names(params: Seq<ParameterView>) -> Seq<Seq<char>> {
    params.map_values(|p: ParameterView| p.name)
}

/// An argument `e` of a closure body called with `values` for the
/// parameters `names`: the value of the parameter that `e` is, or `e` itself
/// if it is none of them. Identifiers inside a compound `e` are left alone,
/// which is right for bodies whose compound parts mention no parameter (see
/// [`avoids_generated_names`]).
pub open spec fn substitute(
    e: Seq<char>,
    names: Seq<Seq<char>>,
    values: Seq<Seq<char>>,
) -> Seq<char>
    decreases names.len(),
{
    if names.len() == 0 {
        e
    } else if names.last() == e {
        values[names.len() - 1]
    } else {
        substitute(e, names.drop_last(), values)
    }
}

/// The call that the closure `b` makes when it is called with `values`, for
/// a closure in which parameters stand only as whole arguments.
pub open spec fn apply_spec(b: BoundView, values: Seq<Seq<char>>) -> CallView {
    CallView {
        attributes: b.body.attributes,
        callee: b.body.callee,
        arguments: b.body.arguments.map_values(
            |a: ArgumentView|
                match a {
                    ArgumentView::Fixed(e) => ArgumentView::Fixed(
                        substitute(e, parameter_names(b.parameters), values),
                    ),
                    ArgumentView::Placeholder => ArgumentView::Placeholder,
                },
        ),
    }
}

/// Call `c` with `values`, in order, put in its placeholder positions.
pub open spec fn fill(c: CallView, values: Seq<Seq<char>>) -> CallView {
    CallView {
        attributes: c.attributes,
        callee: c.callee,
        arguments: Seq::new(
            c.arguments.len(),
            |j: int|
                if c.arguments[j] is Placeholder {
                    ArgumentView::Fixed(values[placeholders_before(c.arguments, j) as int])
                } else {
                    c.arguments[j]
                },
        ),
    }
}

/// Whether `c` may continue an identifier: an ASCII letter or digit, `_`, or
/// any character outside ASCII.
pub open spec fn is_identifier_char(c: char) -> bool {
    ('a' <= c && c <= 'z') || ('A' <= c && c <= 'Z') || ('0' <= c && c <= '9') || c == '_' || (
    c as u32) >= 128
}

/// Whether `name` occurs in `text` as a whole identifier: at some position,
/// neither preceded nor followed by a character that would extend it.
pub open spec fn mentions(text: Seq<char>, name: Seq<char>) -> bool {
    exists|k: int, m: int|
        0 <= k && m == k + name.len() && m <= text.len() && #[trigger] text.subrange(k, m) == name
            && (k == 0 || !is_identifier_char(text[k - 1])) && (m == text.len()
            || !is_identifier_char(text[m]))
}

/// None of the parameters that binding `c` generates is mentioned in the
/// attributes, the callee or a fixed argument of `c`: in the closure each
/// such mention would refer to the parameter.
pub open spec fn avoids_generated_names(c: CallView) -> bool {
    &&& forall|i: nat|
        i < placeholder_count(c.arguments) ==> !#[trigger] mentions(c.callee, param_name(i))
    &&& forall|a: int, i: nat|
        0 <= a < c.attributes.len() && i < placeholder_count(c.arguments) ==> !#[trigger] mentions(
            c.attributes[a],
            param_name(i),
        )
    &&& forall|j: int, i: nat|
        0 <= j < c.arguments.len() && i < placeholder_count(c.arguments) && c.arguments[j] is Fixed
            ==> !#[trigger] mentions(c.arguments[j]->Fixed_0, param_name(i))
}

/// A text that is a name mentions it.
proof fn lemma_mentions_itself(name: Seq<char>)
    ensures
        mentions(name, name),
{
    assert(name.subrange(0, name.len() as int) =~= name);
}

proof fn lemma_placeholders_monotonic(args: Seq<ArgumentView>, a: int, b: int)
    requires
        a <= b,
    ensures
        placeholders_before(args, a) <= placeholders_before(args, b),
    decreases b - a,
{
    if a < b {
        lemma_placeholders_monotonic(args, a, b - 1);
    }
}

/// Each placeholder's rank is below the number of placeholders.
proof fn lemma_placeholder_rank(args: Seq<ArgumentView>, j: int)
    requires
        0 <= j < args.len(),
        args[j] is Placeholder,
    ensures
        placeholders_before(args, j) < placeholder_count(args),
{
    lemma_placeholders_monotonic(args, j + 1, args.len() as int);
}

proof fn lemma_substitute(e: Seq<char>, names: Seq<Seq<char>>, values: Seq<Seq<char>>)
    requires
        forall|i: int| 0 <= i < names.len() ==> names[i] == param_name(i as nat),
    ensures
        forall|r: nat| r < names.len() && e == param_name(r) ==> substitute(e, names, values)
            == values[r as int],
        (forall|i: nat| i < names.len() ==> e != param_name(i)) ==> substitute(e, names, values)
            == e,
    decreases names.len(),
{
    if names.len() > 0 {
        let n = (names.len() - 1) as nat;
        lemma_substitute(e, names.drop_last(), values);
        assert forall|r: nat| r < names.len() && e == param_name(r) implies substitute(
            e,
            names,
            values,
        ) == values[r as int] by {
            if r != n {
                lemma_param_names_unique(r, n);
            }
        }
    }
}

/// Binding gives one parameter to each placeholder, and no more.
pub proof fn lemma_parameter_count(c: CallView)
    ensures
        bind_spec(c).parameters.len() == placeholder_count(c.arguments),
{
}

/// The i-th parameter is bound to the i-th placeholder from the left: each
/// placeholder is replaced by a reference to the parameter of its rank, the
/// ranks of placeholders grow from left to right, and every other argument
/// keeps its position and its value.
pub proof fn lemma_order_preserved(c: CallView, j: int, k: int)
    requires
        0 <= j < c.arguments.len(),
        0 <= k < c.arguments.len(),
    ensures
        bind_spec(c).body.arguments.len() == c.arguments.len(),
        c.arguments[j] is Placeholder ==> {
            let i = placeholders_before(c.arguments, j);
            &&& i < bind_spec(c).parameters.len()
            &&& bind_spec(c).parameters[i as int].index == i
            &&& bind_spec(c).body.arguments[j] == ArgumentView::Fixed(
                bind_spec(c).parameters[i as int].name,
            )
        },
        !(c.arguments[j] is Placeholder) ==> bind_spec(c).body.arguments[j] == c.arguments[j],
        j < k && c.arguments[j] is Placeholder && c.arguments[k] is Placeholder
            ==> placeholders_before(c.arguments, j) < placeholders_before(c.arguments, k),
{
    if c.arguments[j] is Placeholder {
        lemma_placeholder_rank(c.arguments, j);
    }
    if j < k {
        lemma_placeholders_monotonic(c.arguments, j + 1, k);
    }
}

/// With no placeholder the closure takes no parameter and its body is the
/// call itself.
pub proof fn lemma_no_placeholders(c: CallView)
    requires
        placeholder_count(c.arguments) == 0,
    ensures
        bind_spec(c).parameters.len() == 0,
        bind_spec(c).body == c,
{
    assert forall|j: int| 0 <= j < c.arguments.len() implies !(c.arguments[j] is Placeholder) by {
        if c.arguments[j] is Placeholder {
            lemma_placeholder_rank(c.arguments, j);
        }
    }
    assert(bind_spec(c).body.arguments =~= c.arguments);
}

/// Calling the closure made from `c` with `values` makes the same call as
/// `c` with `values` put in its placeholder positions, provided that no
/// generated parameter is mentioned elsewhere in `c`.
pub proof fn lemma_bound_call_forwards(c: CallView, values: Seq<Seq<char>>)
    requires
        values.len() == placeholder_count(c.arguments),
        avoids_generated_names(c),
    ensures
        apply_spec(bind_spec(c), values) == fill(c, values),
{
    let b = bind_spec(c);
    let names = parameter_names(b.parameters);
    assert forall|j: int| 0 <= j < c.arguments.len() implies apply_spec(b, values).arguments[j]
        == fill(c, values).arguments[j] by {
        lemma_substitute(
            match c.arguments[j] {
                ArgumentView::Fixed(e) => e,
                ArgumentView::Placeholder => param_name(placeholders_before(c.arguments, j)),
            },
            names,
            values,
        );
        if c.arguments[j] is Placeholder {
            lemma_placeholder_rank(c.arguments, j);
        } else {
            let e = c.arguments[j]->Fixed_0;
            assert forall|i: nat| i < names.len() implies e != param_name(i) by {
                lemma_mentions_itself(e);
                assert(!mentions(e, param_name(i)));
            }
        }
    }
    assert(apply_spec(b, values).arguments =~= fill(c, values).arguments);
}

/// Replaces each placeholder of `call`, from left to right, by a reference
/// to a fresh parameter `__0`, `__1`, ... and returns the closure that takes
/// those parameters.
pub fn bind_placeholders(call: CallExpression) -> (r: BoundCallable)
    ensures
        r@ == bind_spec(call@),
{
    let ghost c = call@;
    let CallExpression { attributes, callee, arguments } = call;
    let mut parameters: Vec<ParameterBinding> = Vec::new();
    let mut bound: Vec<Argument> = Vec::new();
    let mut j: usize = 0;
    while j < arguments.len()
        invariant
            c == (CallView {
                attributes: attributes@.map_values(|a: String| a@),
                callee: callee@,
                arguments: arguments@.map_values(|a: Argument| a@),
            }),
            j <= arguments.len(),
            parameters.len() == placeholders_before(c.arguments, j as int),
            forall|i: int|
                0 <= i < parameters.len() ==> parameters[i]@ == (ParameterView {
                    index: i as nat,
                    name: param_name(i as nat),
                }),
            bound.len() == j,
            forall|k: int| 0 <= k < j ==> bound[k]@ == bound_argument(c.arguments, k),
        decreases arguments.len() - j,
    {
        match &arguments[j] {
            Argument::Placeholder => {
                let index = parameters.len();
                let name = parameter_name(index);
                parameters.push(ParameterBinding { index, name: name.clone() });
                bound.push(Argument::Fixed(name));
            },
            Argument::Fixed(e) => {
                bound.push(Argument::Fixed(e.clone()));
            },
        }
        j = j + 1;
    }
    let r = BoundCallable {
        parameters,
        body: CallExpression { attributes, callee, arguments: bound },
    };
    assert(r@.parameters =~= bind_spec(c).parameters);
    assert(r@.body.arguments =~= bind_spec(c).body.arguments);
    r
}

fn substitute_exec(
    e: &String,
    parameters: &Vec<ParameterBinding>,
    values: &Vec<String>,
) -> (r: String)
    requires
        values.len() == parameters.len(),
    ensures
        r@ == substitute(
            e@,
            parameters@.map_values(|p: ParameterBinding| p@.name),
            values@.map_values(|v: String| v@),
        ),
{
    let ghost names = parameters@.map_values(|p: ParameterBinding| p@.name);
    let ghost vals = values@.map_values(|v: String| v@);
    let mut i: usize = parameters.len();
    assert(names.take(i as int) =~= names);
    while i > 0
        invariant
            i <= parameters.len() == values.len(),
            names == parameters@.map_values(|p: ParameterBinding| p@.name),
            vals == values@.map_values(|v: String| v@),
            substitute(e@, names, vals) == substitute(e@, names.take(i as int), vals),
        decreases i,
    {
        let ghost prefix = names.take(i as int);
        assert(prefix.drop_last() =~= names.take(i - 1));
        if parameters[i - 1].name == *e {
            return values[i - 1].clone();
        }
        i = i - 1;
    }
    e.clone()
}

impl BoundCallable {
    /// The call that this closure makes when it is called with `values`.
    pub fn apply(&self, values: &Vec<String>) -> (r: CallExpression)
        requires
            values.len() == self.parameters.len(),
        ensures
            r@ == apply_spec(self@, values@.map_values(|v: String| v@)),
    {
        let ghost vals = values@.map_values(|v: String| v@);
        let ghost names = parameter_names(self@.parameters);
        assert(names =~= self.parameters@.map_values(|p: ParameterBinding| p@.name));
        let mut arguments: Vec<Argument> = Vec::new();
        let mut j: usize = 0;
        while j < self.body.arguments.len()
            invariant
                values.len() == self.parameters.len(),
                vals == values@.map_values(|v: String| v@),
                names == self.parameters@.map_values(|p: ParameterBinding| p@.name),
                names == parameter_names(self@.parameters),
                j <= self.body.arguments.len(),
                arguments.len() == j,
                forall|k: int|
                    0 <= k < j ==> arguments[k]@ == apply_spec(self@, vals).arguments[k],
            decreases self.body.arguments.len() - j,
        {
            match &self.body.arguments[j] {
                Argument::Fixed(e) => {
                    let s = substitute_exec(e, &self.parameters, values);
                    assert(self@.body.arguments[j as int] == self.body.arguments[j as int]@);
                    arguments.push(Argument::Fixed(s));
                },
                Argument::Placeholder => {
                    assert(self@.body.arguments[j as int] == self.body.arguments[j as int]@);
                    arguments.push(Argument::Placeholder);
                },
            }
            j = j + 1;
        }
        let r = CallExpression {
            attributes: copy_texts(&self.body.attributes),
            callee: self.body.callee.clone(),
            arguments,
        };
        assert(r@.arguments =~= apply_spec(self@, vals).arguments);
        r
    }
}

} // verus!
