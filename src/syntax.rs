//! Reading a call expression from its source text, and the whole transform.

use vstd::prelude::*;
use quote::ToTokens;
use crate::binder::{bind_placeholders, bind_spec};
use crate::call::{Argument, BoundCallable, CallExpression, CallView, MalformedInputError};
use crate::emitter::closure_text;

verus! {

/// Relies on `syn::parse_str::<syn::ExprCall>` to read `text` as a call, and
/// on `quote::ToTokens::to_token_stream` with `proc_macro2::TokenStream`'s
/// `to_string` for the text of its attributes, callee and arguments; a bare
/// `_` argument is a placeholder. The texts depend on the token printer that
/// proc_macro2 uses in the running process, so nothing is claimed of them.
#[verifier::external_body]
fn read_call(text: &str) -> (r: Result<CallExpression, String>) {
    let call: syn::ExprCall = match syn::parse_str(text) {
        Ok(call) => call,
        Err(error) => return Err(error.to_string()),
    };
    let attributes = call.attrs.iter().map(|a| a.to_token_stream().to_string()).collect();
    let arguments = call.args.iter().map(|arg| match arg {
        syn::Expr::Infer(_) => Argument::Placeholder,
        fixed => Argument::Fixed(fixed.to_token_stream().to_string()),
    }).collect();
    let callee = call.func.to_token_stream().to_string();
    Ok(CallExpression { attributes, callee, arguments })
}

/// Reads `input` as a call expression; an error, with a non-empty reason,
/// where it is not one.
pub fn parse_call(input: &str) -> (r: Result<CallExpression, MalformedInputError>)
    ensures
        r matches Err(e) ==> e.message@.len() > 0,
{
    match read_call(input) {
        Ok(call) => Ok(call),
        Err(message) => {
            if message.as_str().is_empty() {
                let reason = "expected a function call expression";
                proof {
                    reveal_strlit("expected a function call expression");
                }
                Err(MalformedInputError { message: String::from_str(reason) })
            } else {
                Err(MalformedInputError { message })
            }
        },
    }
}

/// The source text of the closure that takes the placeholders of `call`, in
/// order, and forwards them with the other arguments to the call.
pub fn bind_parsed(call: CallExpression) -> (r: String)
    ensures
        r@ == closure_text(bind_spec(call@)),
{
    bind_placeholders(call).to_source()
}

/// Reads `input` as a call expression and binds its placeholders: the
/// closure made from whatever call was read, or the error of
/// [`parse_call`].
pub fn bind_call(input: &str) -> (r: Result<BoundCallable, MalformedInputError>)
    ensures
        r matches Ok(b) ==> exists|c: CallView| b@ == bind_spec(c),
        r matches Err(e) ==> e.message@.len() > 0,
{
    let call = parse_call(input)?;
    let ghost c = call@;
    let b = bind_placeholders(call);
    assert(b@ == bind_spec(c));
    Ok(b)
}

/// The source text of the closure made from the call `input`: the text that
/// [`bind_parsed`] gives for whatever call [`parse_call`] read, or its error.
pub fn bind(input: &str) -> (r: Result<String, MalformedInputError>)
    ensures
        r matches Ok(s) ==> exists|c: CallView| s@ == closure_text(bind_spec(c)),
        r matches Err(e) ==> e.message@.len() > 0,
{
    let call = parse_call(input)?;
    let ghost c = call@;
    let s = bind_parsed(call);
    assert(s@ == closure_text(bind_spec(c)));
    Ok(s)
}

} // verus!
