//! The decisions behind the code generated for blocks: how the parameters
//! and the return value of a block's `execute` method map onto the canonical
//! signature, which structs a block module must hold, and how the contracts
//! of initialization parameters are collected. Types are described by their
//! shape; parsing source text into shapes and emitting code from the
//! decisions is left to the code generator that calls this.
use vstd::prelude::*;

use vstd::string::StringExecFns;

verus! {

/// The shape of a type as written in source.
pub enum TypeShape {
    /// The unit type `()`.
    Unit,
    /// A path type such as `a::b::C<T>`.
    Path {
        /// Whether the path has a qualified self type (`<T as Tr>::C`).
        qualified: bool,
        /// The number of path segments.
        segments: usize,
        /// The identifier of the last segment.
        last: String,
        /// The arguments of the last segment.
        args: PathArgs,
    },
    /// A reference `&T` or `&mut T`.
    Ref { mutable: bool, target: Box<TypeShape> },
    /// A tuple type with at least one element.
    Tuple(Vec<TypeShape>),
    /// Any other type.
    Other,
}

/// The arguments of a path segment.
pub enum PathArgs {
    /// No arguments.
    Plain,
    /// Angle-bracketed arguments `<..>`.
    Angle(Vec<GenericArg>),
    /// Parenthesized arguments `(..) -> ..`.
    Paren,
}

/// One angle-bracketed argument.
pub enum GenericArg {
    /// A type argument.
    Type(TypeShape),
    /// A lifetime, constant or binding.
    NotAType,
}

/// The last segment of a path type is named `name`.
pub open spec fn last_is(ty: TypeShape, name: Seq<char>) -> bool {
    ty matches TypeShape::Path { last, .. } && last@ == name
}

/// A path of one segment without arguments: a bare identifier, read as a
/// generic type parameter.
pub open spec fn single_ident(ty: TypeShape) -> bool {
    ty matches TypeShape::Path { qualified, segments, args, .. } && !qualified && segments == 1
        && args is Plain
}

/// The only argument of `ty`, where `ty` is an unqualified path named `name`
/// with exactly `n` angle-bracketed arguments whose first is a type.
pub open spec fn first_type_arg(ty: TypeShape, name: Seq<char>, n: nat) -> Option<TypeShape> {
    match ty {
        TypeShape::Path { qualified, last, args, .. } => if !qualified && last@ == name {
            match args {
                PathArgs::Angle(v) => if n > 0 && v@.len() == n && v@[0] is Type {
                    Some(v@[0]->Type_0)
                } else {
                    None
                },
                _ => None,
            }
        } else {
            None
        },
        _ => None,
    }
}

/// A shared reference to a context: `&ExecutionContextTrait` or `&C` for a
/// generic `C`.
pub open spec fn is_context_param(ty: TypeShape) -> bool {
    ty matches TypeShape::Ref { mutable, target } && !mutable && (last_is(
        *target,
        "ExecutionContextTrait"@,
    ) || single_ident(*target))
}

/// The input, by value.
pub open spec fn is_input_param(ty: TypeShape) -> bool {
    last_is(ty, "Input"@)
}

/// A shared reference to the state.
pub open spec fn is_state_param(ty: TypeShape) -> bool {
    ty matches TypeShape::Ref { mutable, target } && !mutable && last_is(*target, "State"@)
}

/// A mutable reference to an effect consumer: `&mut EffectConsumerTrait` or
/// `&mut E` for a generic `E`.
pub open spec fn is_effects_param(ty: TypeShape) -> bool {
    ty matches TypeShape::Ref { mutable, target } && mutable && (last_is(
        *target,
        "EffectConsumerTrait"@,
    ) || single_ident(*target))
}

/// Whether two strings are equal.
fn str_eq(a: &str, b: &str) -> (r: bool)
    ensures
        r == (a@ == b@),
{
    let n = a.unicode_len();
    if n != b.unicode_len() {
        return false;
    }
    for i in 0..n
        invariant
            n == a@.len(),
            n == b@.len(),
            forall|j: int| 0 <= j < i ==> a@[j] == b@[j],
    {
        if a.get_char(i) != b.get_char(i) {
            return false;
        }
    }
    assert(a@ =~= b@);
    true
}

/// Whether the last segment of `ty` is named `name`.
fn last_segment_is(ty: &TypeShape, name: &str) -> (r: bool)
    ensures
        r == last_is(*ty, name@),
{
    match ty {
        TypeShape::Path { last, .. } => str_eq(last.as_str(), name),
        _ => false,
    }
}

/// Whether `ty` is a bare identifier.
fn is_single_ident(ty: &TypeShape) -> (r: bool)
    ensures
        r == single_ident(*ty),
{
    match ty {
        TypeShape::Path { qualified, segments, args, .. } => !*qualified && *segments == 1
            && matches!(args, PathArgs::Plain),
        _ => false,
    }
}

/// The role a parameter of `execute` plays in the canonical signature.
#[derive(Debug, Clone, Copy, PartialEq, Eq, Structural)]
pub enum ParamRole {
    Context,
    Input,
    State,
    EffectConsumer,
}

/// Which of the four canonical parameters are bound so far.
pub struct Bound {
    pub context: Option<usize>,
    pub input: Option<usize>,
    pub state: Option<usize>,
    pub effects: Option<usize>,
}

/// The role parameter `ty` takes, given which roles are bound already: the
/// first unbound role it fits, in the order context, input, state, effect
/// consumer.
pub open spec fn role_of(
    ty: TypeShape,
    context: bool,
    input: bool,
    state: bool,
    effects: bool,
) -> Option<ParamRole> {
    if !context && is_context_param(ty) {
        Some(ParamRole::Context)
    } else if !input && is_input_param(ty) {
        Some(ParamRole::Input)
    } else if !state && is_state_param(ty) {
        Some(ParamRole::State)
    } else if !effects && is_effects_param(ty) {
        Some(ParamRole::EffectConsumer)
    } else {
        None
    }
}

/// Binding the first `k` parameters in order: the parameter bound to each
/// role (its position), or the position of the first parameter that fits
/// no unbound role.
pub open spec fn bind_params(params: Seq<TypeShape>, k: nat) -> Result<
    (Option<nat>, Option<nat>, Option<nat>, Option<nat>),
    nat,
>
    decreases k,
{
    if k == 0 {
        Ok((None, None, None, None))
    } else {
        match bind_params(params, (k - 1) as nat) {
            Err(p) => Err(p),
            Ok((c, i, s, e)) => match role_of(
                params[k - 1],
                c is Some,
                i is Some,
                s is Some,
                e is Some,
            ) {
                Some(ParamRole::Context) => Ok((Some((k - 1) as nat), i, s, e)),
                Some(ParamRole::Input) => Ok((c, Some((k - 1) as nat), s, e)),
                Some(ParamRole::State) => Ok((c, i, Some((k - 1) as nat), e)),
                Some(ParamRole::EffectConsumer) => Ok((c, i, s, Some((k - 1) as nat))),
                None => Err((k - 1) as nat),
            },
        }
    }
}

/// Which parts of the canonical `(Output, State, Intents)` a value gives;
/// the parts it does not give take their default.
#[derive(Debug, Clone, Copy, PartialEq, Eq, Structural)]
pub enum Pick {
    Nothing,
    Output,
    State,
    Intents,
    OutputState,
    OutputIntents,
    StateIntents,
    OutputStateIntents,
}

/// How the body's value is turned into a result.
#[derive(Debug, Clone, Copy, PartialEq, Eq, Structural)]
pub enum Wrap {
    /// The value itself: the result is always `Ok`.
    Plain,
    /// A `Result`: `Ok` of the value gives `Ok`, an error is passed on.
    ResultOk,
    /// An `Option`: `Some` gives `Ok`, `None` gives a failure.
    OptionSome,
}

/// How the body of an `execute` method is adapted to the canonical return.
#[derive(Debug, Clone, Copy, PartialEq, Eq, Structural)]
pub struct Adapter {
    pub wrap: Wrap,
    pub pick: Pick,
}

/// The parts a value of type `ty` gives, if its type is one of the
/// supported shapes: `()`, `Output`, `State`, `Intents`, or the tuples
/// `(Output, State)`, `(Output, Intents)`, `(State, Intents)` and
/// `(Output, State, Intents)`.
pub open spec fn pick_of(ty: TypeShape) -> Option<Pick> {
    match ty {
        TypeShape::Unit => Some(Pick::Nothing),
        TypeShape::Tuple(v) => {
            let e = v@;
            if e.len() == 2 && last_is(e[0], "Output"@) && last_is(e[1], "State"@) {
                Some(Pick::OutputState)
            } else if e.len() == 2 && last_is(e[0], "Output"@) && last_is(e[1], "Intents"@) {
                Some(Pick::OutputIntents)
            } else if e.len() == 2 && last_is(e[0], "State"@) && last_is(e[1], "Intents"@) {
                Some(Pick::StateIntents)
            } else if e.len() == 3 && last_is(e[0], "Output"@) && last_is(e[1], "State"@)
                && last_is(e[2], "Intents"@) {
                Some(Pick::OutputStateIntents)
            } else {
                None
            }
        },
        _ => if last_is(ty, "Output"@) {
            Some(Pick::Output)
        } else if last_is(ty, "State"@) {
            Some(Pick::State)
        } else if last_is(ty, "Intents"@) {
            Some(Pick::Intents)
        } else {
            None
        },
    }
}

/// The adapter for a method whose declared return type is `ret` (`None`
/// where it declares none): a `Result<T, _>` or an `Option<T>` is unwrapped
/// first; `None` where the type is not supported.
pub open spec fn adapter_of(ret: Option<TypeShape>) -> Option<Adapter> {
    match ret {
        None => Some(Adapter { wrap: Wrap::Plain, pick: Pick::Nothing }),
        Some(ty) => if ty is Unit {
            Some(Adapter { wrap: Wrap::Plain, pick: Pick::Nothing })
        } else if first_type_arg(ty, "Result"@, 2) is Some {
            match pick_of(first_type_arg(ty, "Result"@, 2)->0) {
                Some(p) => Some(Adapter { wrap: Wrap::ResultOk, pick: p }),
                None => None,
            }
        } else if first_type_arg(ty, "Option"@, 1) is Some {
            match pick_of(first_type_arg(ty, "Option"@, 1)->0) {
                Some(p) => Some(Adapter { wrap: Wrap::OptionSome, pick: p }),
                None => None,
            }
        } else {
            match pick_of(ty) {
                Some(p) => Some(Adapter { wrap: Wrap::Plain, pick: p }),
                None => None,
            }
        },
    }
}

/// Why an `execute` method cannot be normalised.
#[derive(Debug, Clone, Copy, PartialEq, Eq, Structural)]
pub enum PlanError {
    /// The method has no receiver.
    NoReceiver,
    /// The parameter at this position fits no unbound role.
    UnsupportedParam(usize),
    /// The return type is not one of the supported shapes.
    UnsupportedReturn,
}

/// How an `execute` method is normalised: the position of the parameter
/// bound to each canonical role (`None`: the role is filled with `_`), and
/// the adapter of its return value.
pub struct ExecutePlan {
    pub context: Option<usize>,
    pub input: Option<usize>,
    pub state: Option<usize>,
    pub effects: Option<usize>,
    pub adapter: Adapter,
}

/// The plan for an `execute` method with or without a receiver, the
/// parameter types `params` in order, and the declared return type `ret`:
/// a missing receiver is refused first, then the first parameter that fits
/// no unbound role, then an unsupported return type.
pub open spec fn execute_plan_spec(
    has_receiver: bool,
    params: Seq<TypeShape>,
    ret: Option<TypeShape>,
    r: Result<ExecutePlan, PlanError>,
) -> bool {
    if !has_receiver {
        r == Err::<ExecutePlan, PlanError>(PlanError::NoReceiver)
    } else {
        match bind_params(params, params.len()) {
            Err(p) => r == Err::<ExecutePlan, PlanError>(PlanError::UnsupportedParam(p as usize)),
            Ok((c, i, s, e)) => match adapter_of(ret) {
                None => r == Err::<ExecutePlan, PlanError>(PlanError::UnsupportedReturn),
                Some(a) => r matches Ok(plan) && plan.adapter == a && opt_nat(plan.context) == c
                    && opt_nat(plan.input) == i && opt_nat(plan.state) == s && opt_nat(
                    plan.effects,
                ) == e,
            },
        }
    }
}

/// A position as a natural number.
pub open spec fn opt_nat(p: Option<usize>) -> Option<nat> {
    match p {
        Some(x) => Some(x as nat),
        None => None,
    }
}

/// The role parameter `ty` takes (see `role_of`).
fn role_for(ty: &TypeShape, bound: &Bound) -> (r: Option<ParamRole>)
    ensures
        r == role_of(
            *ty,
            bound.context is Some,
            bound.input is Some,
            bound.state is Some,
            bound.effects is Some,
        ),
{
    let is_context = match ty {
        TypeShape::Ref { mutable, target } => !*mutable && (last_segment_is(
            target,
            "ExecutionContextTrait",
        ) || is_single_ident(target)),
        _ => false,
    };
    let is_state = match ty {
        TypeShape::Ref { mutable, target } => !*mutable && last_segment_is(target, "State"),
        _ => false,
    };
    let is_effects = match ty {
        TypeShape::Ref { mutable, target } => *mutable && (last_segment_is(
            target,
            "EffectConsumerTrait",
        ) || is_single_ident(target)),
        _ => false,
    };
    if bound.context.is_none() && is_context {
        Some(ParamRole::Context)
    } else if bound.input.is_none() && last_segment_is(ty, "Input") {
        Some(ParamRole::Input)
    } else if bound.state.is_none() && is_state {
        Some(ParamRole::State)
    } else if bound.effects.is_none() && is_effects {
        Some(ParamRole::EffectConsumer)
    } else {
        None
    }
}

/// The only type argument of `ty` where it is an unqualified path named
/// `name` with exactly `n` angle-bracketed arguments whose first is a type.
fn type_arg<'a>(ty: &'a TypeShape, name: &str, n: usize) -> (r: Option<&'a TypeShape>)
    ensures
        r matches Some(t) ==> first_type_arg(*ty, name@, n as nat) == Some(*t),
        r is None ==> first_type_arg(*ty, name@, n as nat) is None,
{
    match ty {
        TypeShape::Path { qualified, last, args, .. } => {
            if !*qualified && str_eq(last.as_str(), name) {
                match args {
                    PathArgs::Angle(v) => {
                        if v.len() == n && n > 0 {
                            match &v[0] {
                                GenericArg::Type(t) => Some(t),
                                GenericArg::NotAType => None,
                            }
                        } else {
                            None
                        }
                    },
                    _ => None,
                }
            } else {
                None
            }
        },
        _ => None,
    }
}

/// The parts a value of type `ty` gives (see `pick_of`).
fn pick_for(ty: &TypeShape) -> (r: Option<Pick>)
    ensures
        r == pick_of(*ty),
{
    match ty {
        TypeShape::Unit => Some(Pick::Nothing),
        TypeShape::Tuple(v) => {
            if v.len() == 2 && last_segment_is(&v[0], "Output") && last_segment_is(&v[1], "State") {
                Some(Pick::OutputState)
            } else if v.len() == 2 && last_segment_is(&v[0], "Output") && last_segment_is(
                &v[1],
                "Intents",
            ) {
                Some(Pick::OutputIntents)
            } else if v.len() == 2 && last_segment_is(&v[0], "State") && last_segment_is(
                &v[1],
                "Intents",
            ) {
                Some(Pick::StateIntents)
            } else if v.len() == 3 && last_segment_is(&v[0], "Output") && last_segment_is(
                &v[1],
                "State",
            ) && last_segment_is(&v[2], "Intents") {
                Some(Pick::OutputStateIntents)
            } else {
                None
            }
        },
        _ => {
            if last_segment_is(ty, "Output") {
                Some(Pick::Output)
            } else if last_segment_is(ty, "State") {
                Some(Pick::State)
            } else if last_segment_is(ty, "Intents") {
                Some(Pick::Intents)
            } else {
                None
            }
        },
    }
}

/// The adapter for the declared return type `ret` (see `adapter_of`).
pub fn adapter_for(ret: &Option<TypeShape>) -> (r: Option<Adapter>)
    ensures
        r == adapter_of(*ret),
{
    match ret {
        None => Some(Adapter { wrap: Wrap::Plain, pick: Pick::Nothing }),
        Some(ty) => {
            if matches!(ty, TypeShape::Unit) {
                return Some(Adapter { wrap: Wrap::Plain, pick: Pick::Nothing });
            }
            match type_arg(ty, "Result", 2) {
                Some(inner) => {
                    return match pick_for(inner) {
                        Some(p) => Some(Adapter { wrap: Wrap::ResultOk, pick: p }),
                        None => None,
                    };
                },
                None => {},
            }
            match type_arg(ty, "Option", 1) {
                Some(inner) => {
                    return match pick_for(inner) {
                        Some(p) => Some(Adapter { wrap: Wrap::OptionSome, pick: p }),
                        None => None,
                    };
                },
                None => {},
            }
            match pick_for(ty) {
                Some(p) => Some(Adapter { wrap: Wrap::Plain, pick: p }),
                None => None,
            }
        },
    }
}

/// Plans the normalisation of an `execute` method: binds each parameter to
/// the first canonical role it fits, fills the unbound roles with `_`, and
/// chooses the adapter of the return value (see `execute_plan_spec`).
pub fn plan_execute(has_receiver: bool, params: &Vec<TypeShape>, ret: &Option<TypeShape>) -> (r:
    Result<ExecutePlan, PlanError>)
    ensures
        execute_plan_spec(has_receiver, params@, *ret, r),
{
    if !has_receiver {
        return Err(PlanError::NoReceiver);
    }
    let mut bound = Bound { context: None, input: None, state: None, effects: None };
    let n = params.len();
    for k in 0..n
        invariant
            has_receiver,
            n == params@.len(),
            bind_params(params@, k as nat) == Ok::<
                (Option<nat>, Option<nat>, Option<nat>, Option<nat>),
                nat,
            >((opt_nat(bound.context), opt_nat(bound.input), opt_nat(bound.state), opt_nat(bound.effects))),
    {
        match role_for(&params[k], &bound) {
            Some(ParamRole::Context) => {
                bound.context = Some(k);
            },
            Some(ParamRole::Input) => {
                bound.input = Some(k);
            },
            Some(ParamRole::State) => {
                bound.state = Some(k);
            },
            Some(ParamRole::EffectConsumer) => {
                bound.effects = Some(k);
            },
            None => {
                proof {
                    assert(bind_params(params@, (k + 1) as nat) == Err::<
                        (Option<nat>, Option<nat>, Option<nat>, Option<nat>),
                        nat,
                    >(k as nat));
                    lemma_bind_params_stops(params@, (k + 1) as nat, n as nat);
                }
                return Err(PlanError::UnsupportedParam(k));
            },
        }
    }
    match adapter_for(ret) {
        None => Err(PlanError::UnsupportedReturn),
        Some(adapter) => Ok(
            ExecutePlan {
                context: bound.context,
                input: bound.input,
                state: bound.state,
                effects: bound.effects,
                adapter,
            },
        ),
    }
}

/// Once a parameter fits no role, binding more parameters keeps that error.
proof fn lemma_bind_params_stops(params: Seq<TypeShape>, j: nat, k: nat)
    requires
        j <= k,
        bind_params(params, j) is Err,
    ensures
        bind_params(params, k) == bind_params(params, j),
    decreases k,
{
    if k > j {
        lemma_bind_params_stops(params, j, (k - 1) as nat);
    }
}

} // verus!
