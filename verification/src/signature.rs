//! The parameter list of a function as `syn` parses it, and what the calling
//! convention reads in it.

use syn::punctuated::Punctuated;
use syn::token::Comma;
use syn::{FnArg, Pat};
use vstd::prelude::*;

verus! {

/// A parameter as the operation declares it.
#[derive(Debug, PartialEq, Eq)]
pub enum Param {
    /// `self`, in any of its forms.
    Receiver,
    /// A parameter bound to one name.
    Named(String),
    /// A parameter that a pattern takes apart.
    Destructured,
}

/// `syn::punctuated::Punctuated`, a sequence of syntax tree nodes with
/// punctuation between them. Nothing is known of such a value but what
/// [`declared`] names and the two functions below are said to return.
#[verifier::external_type_specification]
#[verifier::external_body]
#[verifier::reject_recursive_types(T)]
#[verifier::reject_recursive_types(P)]
pub struct ExPunctuated<T, P>(Punctuated<T, P>);

/// `syn::FnArg`, one parameter of a function signature.
#[verifier::external_type_specification]
#[verifier::external_body]
pub struct ExFnArg(FnArg);

/// `syn::token::Comma`, the punctuation between parameters.
#[verifier::external_type_specification]
#[verifier::external_body]
pub struct ExComma(Comma);

/// What a parameter list holds, node by node in the order of the list:
/// [`Param::Receiver`] for `self`, [`Param::Named`] with the identifier's text
/// for a parameter whose pattern is one identifier, and
/// [`Param::Destructured`] for a parameter with any other pattern.
pub uninterp spec fn declared(inputs: Punctuated<FnArg, Comma>) -> Seq<Param>;

/// Calls `Punctuated::len`, which returns the number of nodes in the list,
/// not counting the punctuation. The contract claims that this is the number
/// of parameters that the list declares.
#[verifier::external_body]
fn count(inputs: &Punctuated<FnArg, Comma>) -> (count: usize)
    ensures
        count == declared(*inputs).len(),
{
    inputs.len()
}

/// Calls `Punctuated::index`, which hands out the node at `position` and
/// panics where there is none, and reads that node: which variant of `FnArg`
/// and of `Pat` it is, and for an identifier pattern the text that
/// `Ident::to_string` gives. The contract claims that the node so read is the
/// one that the list declares at `position`.
#[verifier::external_body]
fn param_at(inputs: &Punctuated<FnArg, Comma>, position: usize) -> (param: Param)
    requires
        position < declared(*inputs).len(),
    ensures
        param == declared(*inputs)[position as int],
{
    match &inputs[position] {
        FnArg::Receiver(_) => Param::Receiver,
        FnArg::Typed(typed) => match &*typed.pat {
            Pat::Ident(ident) => Param::Named(ident.ident.to_string()),
            _ => Param::Destructured,
        },
    }
}

/// Reads a parameter list into plain values.
pub fn read_params(inputs: &Punctuated<FnArg, Comma>) -> (params: Vec<Param>)
    ensures
        params@ == declared(*inputs),
{
    let n = count(inputs);
    let mut params: Vec<Param> = Vec::new();
    let mut i: usize = 0;
    while i < n
        invariant
            n == declared(*inputs).len(),
            i <= n,
            params@ == declared(*inputs).take(i as int),
        decreases n - i,
    {
        params.push(param_at(inputs, i));
        assert(declared(*inputs).take(i + 1) == declared(*inputs).take(i as int).push(
            declared(*inputs)[i as int],
        ));
        i = i + 1;
    }
    params
}

} // verus!
