//! The calling convention under which a plain asynchronous operation is
//! offered as a preemptible task.
//!
//! Some of the operation's parameters are chosen to be requirements. The
//! outer operation takes each of them as a reference to the cell that
//! protects the value, and lists those cells in the task it returns. The other
//! parameters pass through as they are.

use syn::punctuated::Punctuated;
use syn::token::Comma;
use syn::FnArg;
use vstd::prelude::*;
use crate::signature::{declared, read_params, Param};

verus! {

/// How a parameter gets from the outer operation to the inner one.
#[derive(Debug, Clone, Copy, PartialEq, Eq, Structural)]
pub enum Passing {
    /// `self` is handed on as it is.
    Receiver,
    /// The outer operation takes a reference to the cell that protects the
    /// value, the inner one is given the value in it, and the cell is one of
    /// the task's requirements.
    Requirement,
    /// The parameter is handed on as it is.
    Plain,
}

/// Why an operation cannot be wrapped.
#[derive(Debug, Clone, Copy, PartialEq, Eq, Structural)]
pub enum ConventionError {
    /// The operation is not asynchronous.
    NotAsync,
    /// The parameter at `position` is taken apart by a pattern.
    Destructured { position: usize },
}

impl ConventionError {
    /// The words in which the error is reported.
    pub open spec fn text(self) -> Seq<char> {
        match self {
            ConventionError::NotAsync => "function must be async to safetly be preempted"@,
            ConventionError::Destructured { .. } =>
                "this macro does not yet support destructuring function arguments"@,
        }
    }

    /// Returns the words in which the error is reported.
    pub fn message(&self) -> (message: &'static str)
        ensures
            message@ == self.text(),
    {
        match self {
            ConventionError::NotAsync => "function must be async to safetly be preempted",
            ConventionError::Destructured { .. } =>
                "this macro does not yet support destructuring function arguments",
        }
    }
}

/// What the wrapper does with each parameter, and which parameters make up
/// the requirement list of the task.
#[derive(Debug, PartialEq, Eq)]
pub struct IntermediateRepr {
    /// One entry for each parameter, in the order of the declaration.
    pub passing: Vec<Passing>,
    /// The positions of the parameters that are requirements, in the order of
    /// the declaration.
    pub requirements: Vec<usize>,
}

/// Whether a parameter called `name` is chosen to be a requirement. An empty
/// choice stands for every named parameter.
pub open spec fn chosen(name: Seq<char>, wrapped_names: Seq<String>) -> bool {
    wrapped_names.len() == 0 || exists|j: int|
        0 <= j < wrapped_names.len() && (#[trigger] wrapped_names[j])@ == name
}

/// How the parameter `param` is passed.
pub open spec fn passing_of(param: Param, wrapped_names: Seq<String>) -> Passing {
    match param {
        Param::Receiver => Passing::Receiver,
        Param::Named(name) => if chosen(name@, wrapped_names) {
            Passing::Requirement
        } else {
            Passing::Plain
        },
        Param::Destructured => Passing::Plain,
    }
}

/// The positions, among the first `n` parameters, of those that are
/// requirements, in ascending order.
pub open spec fn requirement_positions(
    params: Seq<Param>,
    wrapped_names: Seq<String>,
    n: int,
) -> Seq<usize>
    decreases n,
{
    if n <= 0 {
        Seq::empty()
    } else if passing_of(params[n - 1], wrapped_names) == Passing::Requirement {
        requirement_positions(params, wrapped_names, n - 1).push((n - 1) as usize)
    } else {
        requirement_positions(params, wrapped_names, n - 1)
    }
}

/// Whether the parameter at `position` is the first that is taken apart.
pub open spec fn first_destructured(params: Seq<Param>, position: int) -> bool {
    &&& 0 <= position < params.len()
    &&& params[position] is Destructured
    &&& forall|i: int| 0 <= i < position ==> !(params[i] is Destructured)
}

/// Whether `error` is the refusal that `params` call for: it points at the
/// first parameter that is taken apart.
pub open spec fn refuses(error: ConventionError, params: Seq<Param>) -> bool {
    error matches ConventionError::Destructured { position } && first_destructured(
        params,
        position as int,
    )
}

/// Whether no parameter is taken apart by a pattern.
pub open spec fn none_destructured(params: Seq<Param>) -> bool {
    forall|i: int| 0 <= i < params.len() ==> !(params[i] is Destructured)
}

/// Whether `ir` is what the convention makes of `params`.
pub open spec fn represents(
    ir: IntermediateRepr,
    params: Seq<Param>,
    wrapped_names: Seq<String>,
) -> bool {
    &&& ir.passing@ == Seq::new(params.len(), |i: int| passing_of(params[i], wrapped_names))
    &&& ir.requirements@ == requirement_positions(params, wrapped_names, params.len() as int)
}

/// Tells whether `name` is chosen to be a requirement.
fn is_chosen(name: &String, wrapped_names: &Vec<String>) -> (yes: bool)
    ensures
        yes == chosen(name@, wrapped_names@),
{
    if wrapped_names.len() == 0 {
        return true;
    }
    let mut j: usize = 0;
    while j < wrapped_names.len()
        invariant
            j <= wrapped_names.len(),
            forall|i: int| 0 <= i < j ==> (#[trigger] wrapped_names@[i])@ != name@,
        decreases wrapped_names.len() - j,
    {
        if wrapped_names[j] == *name {
            return true;
        }
        j = j + 1;
    }
    false
}

/// Works out how each of `params` is passed and which of them become
/// requirements. Only named parameters can be chosen; a parameter that is
/// taken apart by a pattern is refused, the first of them by position.
pub fn params_to_ir(params: &Vec<Param>, wrapped_names: &Vec<String>) -> (result: Result<
    IntermediateRepr,
    ConventionError,
>)
    ensures
        result is Ok <==> none_destructured(params@),
        result matches Ok(ir) ==> represents(ir, params@, wrapped_names@),
        result matches Err(error) ==> refuses(error, params@),
{
    let mut passing: Vec<Passing> = Vec::new();
    let mut requirements: Vec<usize> = Vec::new();
    let mut i: usize = 0;
    while i < params.len()
        invariant
            i <= params@.len(),
            forall|k: int| 0 <= k < i ==> !(params@[k] is Destructured),
            passing@ == Seq::new(i as nat, |k: int| passing_of(params@[k], wrapped_names@)),
            requirements@ == requirement_positions(params@, wrapped_names@, i as int),
        decreases params@.len() - i,
    {
        match &params[i] {
            Param::Receiver => {
                passing.push(Passing::Receiver);
            },
            Param::Named(name) => {
                if is_chosen(name, wrapped_names) {
                    passing.push(Passing::Requirement);
                    requirements.push(i);
                } else {
                    passing.push(Passing::Plain);
                }
            },
            Param::Destructured => {
                return Err(ConventionError::Destructured { position: i });
            },
        }
        assert(passing@ =~= Seq::new(
            (i + 1) as nat,
            |k: int| passing_of(params@[k], wrapped_names@),
        ));
        i = i + 1;
    }
    Ok(IntermediateRepr { passing, requirements })
}

/// Works out how each parameter in the list `inputs` is passed and which
/// parameters become requirements.
pub fn single_fn_to_ir(
    inputs: &Punctuated<FnArg, Comma>,
    wrapped_names: &Vec<String>,
) -> (result: Result<IntermediateRepr, ConventionError>)
    ensures
        result is Ok <==> none_destructured(declared(*inputs)),
        result matches Ok(ir) ==> represents(ir, declared(*inputs), wrapped_names@),
        result matches Err(error) ==> refuses(error, declared(*inputs)),
{
    let params = read_params(inputs);
    params_to_ir(&params, wrapped_names)
}

/// Decides how an operation with the parameter list `inputs` is wrapped, with
/// the parameters named in `wrapped_names` as its requirements. An operation
/// that is not asynchronous is refused before its parameters are looked at.
pub fn preemptible(
    is_async: bool,
    inputs: &Punctuated<FnArg, Comma>,
    wrapped_names: &Vec<String>,
) -> (result: Result<IntermediateRepr, ConventionError>)
    ensures
        !is_async ==> result == Err::<IntermediateRepr, ConventionError>(
            ConventionError::NotAsync,
        ),
        is_async ==> (result is Ok <==> none_destructured(declared(*inputs))),
        is_async ==> (result matches Ok(ir) ==> represents(
            ir,
            declared(*inputs),
            wrapped_names@,
        )),
        is_async ==> (result matches Err(error) ==> refuses(error, declared(*inputs))),
{
    if !is_async {
        return Err(ConventionError::NotAsync);
    }
    single_fn_to_ir(inputs, wrapped_names)
}

/// Whether `positions` lists, in ascending order and each of them once, those
/// of the first `n` parameters that are passed as requirements, and no other.
pub open spec fn lists_the_requirements(
    positions: Seq<usize>,
    params: Seq<Param>,
    wrapped_names: Seq<String>,
    n: int,
) -> bool {
    &&& forall|p: int|
        0 <= p < n && passing_of(params[p], wrapped_names) == Passing::Requirement
            ==> positions.contains(p as usize)
    &&& forall|r: int|
        0 <= r < positions.len() ==> 0 <= #[trigger] positions[r] < n && passing_of(
            params[positions[r] as int],
            wrapped_names,
        ) == Passing::Requirement
    &&& forall|r: int, s: int| 0 <= r < s < positions.len() ==> positions[r] < positions[s]
}

/// A parameter is in the requirement list exactly where it is passed as a
/// requirement: one that passes through as it is never appears there, nor
/// does `self`. The list is in the order of the declaration and names no
/// parameter twice.
pub proof fn requirements_are_the_chosen(params: Seq<Param>, wrapped_names: Seq<String>, n: int)
    requires
        0 <= n <= params.len(),
        n <= usize::MAX,
    ensures
        lists_the_requirements(
            requirement_positions(params, wrapped_names, n),
            params,
            wrapped_names,
            n,
        ),
    decreases n,
{
    if n > 0 {
        requirements_are_the_chosen(params, wrapped_names, n - 1);
        let before = requirement_positions(params, wrapped_names, n - 1);
        let now = requirement_positions(params, wrapped_names, n);
        if passing_of(params[n - 1], wrapped_names) == Passing::Requirement {
            assert(now == before.push((n - 1) as usize));
            assert(now[now.len() - 1] == (n - 1) as usize);
            assert forall|p: int|
                0 <= p < n && passing_of(params[p], wrapped_names)
                    == Passing::Requirement implies now.contains(p as usize) by {
                if p < n - 1 {
                    let r = choose|r: int| 0 <= r < before.len() && before[r] == p as usize;
                    assert(now[r] == p as usize);
                }
            }
        }
    }
}

} // verus!
