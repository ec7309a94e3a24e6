//! The decisions behind the code generated from a block's structs: the keys
//! and readers or writers of its input and output, the associated types of
//! a block, the structs a block module must hold, and how the contracts of
//! initialization parameters are collected.
use vstd::prelude::*;

use crate::codegen::{GenericArg, PathArgs, TypeShape};
use crate::text::{decimal_text, usize_text};
use vstd::string::StringExecFns;

verus! {

/// The fields of a struct, as the code generator sees them.
pub enum StructFields {
    /// Named fields, in order.
    Named(Vec<String>),
    /// A unit struct.
    Unit,
    /// Tuple fields.
    Tuple,
}

/// Why no code can be generated for an input or output struct.
#[derive(Debug, Clone, Copy, PartialEq, Eq, Structural)]
pub enum ShapeError {
    /// The struct has tuple fields.
    TupleFields,
    /// The item is not a struct.
    NotAStruct,
}

/// What is generated for an input or output struct named `name`: the keys
/// struct `<name>Keys` with one channel-name field per field of the struct,
/// in order, and the reader `<name>Reader` or writer `<name>Writer`.
pub struct KeysPlan {
    pub keys_name: String,
    pub access_name: String,
    pub key_fields: Vec<String>,
}

/// The plan for an input (`reader` true) or output struct named `name` with
/// fields `fields`, or the error for an item that is not a struct with named
/// fields or a unit struct.
pub open spec fn keys_plan_spec(
    name: Seq<char>,
    is_struct: bool,
    fields: StructFields,
    reader: bool,
    r: Result<KeysPlan, ShapeError>,
) -> bool {
    if !is_struct {
        r == Err::<KeysPlan, ShapeError>(ShapeError::NotAStruct)
    } else {
        match fields {
            StructFields::Tuple => r == Err::<KeysPlan, ShapeError>(ShapeError::TupleFields),
            _ => r matches Ok(p) && p.keys_name@ == name + "Keys"@ && p.access_name@ == name + (
            if reader {
                "Reader"@
            } else {
                "Writer"@
            }) && p.key_fields@.map_values(|f: String| f@) == match fields {
                StructFields::Named(v) => v@.map_values(|f: String| f@),
                _ => Seq::<Seq<char>>::empty(),
            },
        }
    }
}

/// Plans the keys and the reader or writer of an input (`reader` true) or
/// output struct (see `keys_plan_spec`).
pub fn plan_keys(name: &str, is_struct: bool, fields: &StructFields, reader: bool) -> (r: Result<
    KeysPlan,
    ShapeError,
>)
    ensures
        keys_plan_spec(name@, is_struct, *fields, reader, r),
{
    if !is_struct {
        return Err(ShapeError::NotAStruct);
    }
    let key_fields: Vec<String> = match fields {
        StructFields::Tuple => {
            return Err(ShapeError::TupleFields);
        },
        StructFields::Unit => Vec::new(),
        StructFields::Named(v) => {
            let mut out: Vec<String> = Vec::new();
            let n = v.len();
            for i in 0..n
                invariant
                    n == v@.len(),
                    out@.map_values(|f: String| f@) == v@.take(i as int).map_values(
                        |f: String| f@,
                    ),
            {
                let ghost before = out@;
                let f = v[i].clone();
                out.push(f);
                assert(v@.take(i + 1) =~= v@.take(i as int).push(v@[i as int]));
                assert(out@ =~= before.push(f));
                assert(f == v@[i as int]);
                assert(out@.map_values(|f: String| f@) =~= before.map_values(|f: String| f@).push(
                    f@,
                ));
                assert(v@.take(i + 1).map_values(|f: String| f@) =~= v@.take(i as int).map_values(
                    |f: String| f@,
                ).push(v@[i as int]@));
                assert(out@.map_values(|f: String| f@) =~= v@.take(i + 1).map_values(
                    |f: String| f@,
                ));
            }
            assert(v@.take(n as int) =~= v@);
            out
        },
    };
    proof {
        if fields is Unit {
            assert(key_fields@.map_values(|f: String| f@) =~= Seq::<Seq<char>>::empty());
        }
    }
    let mut keys_name = String::from_str(name);
    keys_name.append("Keys");
    let mut access_name = String::from_str(name);
    if reader {
        access_name.append("Reader");
    } else {
        access_name.append("Writer");
    }
    Ok(KeysPlan { keys_name, access_name, key_fields })
}

/// The value of one argument of the block attribute.
pub enum AttrValue {
    /// A string literal, read as a type path.
    Str(String),
    /// A boolean literal.
    Bool(bool),
    /// A path, read as a type path.
    Path(String),
    /// Anything else.
    Other,
}

/// Where a block's `ContractDeps` comes from.
#[derive(Debug, Clone, Copy, PartialEq, Eq, Structural)]
pub enum DepsSource {
    /// The struct already derives it.
    AlreadyDerived,
    /// A derive is added to the struct.
    AddDerive,
    /// An implementation that depends on no contract is added.
    Empty,
}

/// The associated types of a block and the source of its contracts.
pub struct BlockPlan {
    pub input: String,
    pub output: String,
    pub state: String,
    pub init: String,
    pub intents: String,
    pub deps: DepsSource,
}

/// The type path the arguments `args` give the associated type `name`: the
/// last string or path argument named `name` among the first `k`.
pub open spec fn type_arg_value(args: Seq<(String, AttrValue)>, name: Seq<char>, k: nat) -> Option<
    Seq<char>,
>
    decreases k,
{
    if k == 0 {
        None
    } else if args[k - 1].0@ == name && (args[k - 1].1 is Str || args[k - 1].1 is Path) {
        match args[k - 1].1 {
            AttrValue::Str(s) => Some(s@),
            AttrValue::Path(s) => Some(s@),
            _ => None,
        }
    } else {
        type_arg_value(args, name, (k - 1) as nat)
    }
}

/// The value the arguments `args` give `contract_deps`: the last boolean
/// argument of that name among the first `k`.
pub open spec fn deps_arg_value(args: Seq<(String, AttrValue)>, k: nat) -> Option<bool>
    decreases k,
{
    if k == 0 {
        None
    } else if args[k - 1].0@ == "contract_deps"@ && args[k - 1].1 is Bool {
        Some(args[k - 1].1->Bool_0)
    } else {
        deps_arg_value(args, (k - 1) as nat)
    }
}

/// A type path given by the arguments, or `default`.
pub open spec fn or_default(v: Option<Seq<char>>, default: Seq<char>) -> Seq<char> {
    match v {
        Some(s) => s,
        None => default,
    }
}

/// The plan for a block struct with attribute arguments `args`, where
/// `derives_deps` says whether the struct already derives `ContractDeps`:
/// each associated type is the one the arguments name (the last such
/// argument), or `Input`, `Output`, `State`, `InitParams` and `ZeroIntents`;
/// contracts come from a derive unless `contract_deps = false`.
pub open spec fn block_plan_spec(
    args: Seq<(String, AttrValue)>,
    derives_deps: bool,
    p: BlockPlan,
) -> bool {
    &&& p.input@ == or_default(type_arg_value(args, "input"@, args.len()), "Input"@)
    &&& p.output@ == or_default(type_arg_value(args, "output"@, args.len()), "Output"@)
    &&& p.state@ == or_default(type_arg_value(args, "state"@, args.len()), "State"@)
    &&& p.init@ == or_default(type_arg_value(args, "init"@, args.len()), "InitParams"@)
    &&& p.intents@ == or_default(
        type_arg_value(args, "intents"@, args.len()),
        "::block_traits::intents::ZeroIntents"@,
    )
    &&& p.deps == if deps_arg_value(args, args.len()) == Some(false) {
        DepsSource::Empty
    } else if derives_deps {
        DepsSource::AlreadyDerived
    } else {
        DepsSource::AddDerive
    }
}

/// Whether two strings are equal.
fn same_text(a: &str, b: &str) -> (r: bool)
    ensures
        r == (a@ == b@),
{
    let n = a.unicode_len();
    if n != b.unicode_len() {
        return false;
    }
    for i in 0..n
        invariant
            n == a@.len(),
            n == b@.len(),
            forall|j: int| 0 <= j < i ==> a@[j] == b@[j],
    {
        if a.get_char(i) != b.get_char(i) {
            return false;
        }
    }
    assert(a@ =~= b@);
    true
}

/// The type path the arguments give `name`, or `default` (see
/// `type_arg_value`).
fn type_or_default(args: &Vec<(String, AttrValue)>, name: &str, default: &str) -> (r: String)
    ensures
        r@ == or_default(type_arg_value(args@, name@, args@.len()), default@),
{
    let mut found: Option<String> = None;
    let n = args.len();
    for k in 0..n
        invariant
            n == args@.len(),
            match found {
                Some(s) => type_arg_value(args@, name@, k as nat) == Some(s@),
                None => type_arg_value(args@, name@, k as nat) is None,
            },
    {
        if same_text(args[k].0.as_str(), name) {
            match &args[k].1 {
                AttrValue::Str(s) => {
                    found = Some(s.clone());
                },
                AttrValue::Path(s) => {
                    found = Some(s.clone());
                },
                _ => {},
            }
        }
    }
    match found {
        Some(s) => s,
        None => String::from_str(default),
    }
}

/// Plans the associated types and the contracts of a block struct (see
/// `block_plan_spec`).
pub fn plan_block(args: &Vec<(String, AttrValue)>, derives_deps: bool) -> (r: BlockPlan)
    ensures
        block_plan_spec(args@, derives_deps, r),
{
    let input = type_or_default(args, "input", "Input");
    let output = type_or_default(args, "output", "Output");
    let state = type_or_default(args, "state", "State");
    let init = type_or_default(args, "init", "InitParams");
    let intents = type_or_default(args, "intents", "::block_traits::intents::ZeroIntents");
    let mut enabled: Option<bool> = None;
    let n = args.len();
    for k in 0..n
        invariant
            n == args@.len(),
            enabled == deps_arg_value(args@, k as nat),
    {
        if same_text(args[k].0.as_str(), "contract_deps") {
            match &args[k].1 {
                AttrValue::Bool(b) => {
                    enabled = Some(*b);
                },
                _ => {},
            }
        }
    }
    let deps = match enabled {
        Some(false) => DepsSource::Empty,
        _ => if derives_deps {
            DepsSource::AlreadyDerived
        } else {
            DepsSource::AddDerive
        },
    };
    BlockPlan { input, output, state, init, intents, deps }
}

/// The kind of a struct in a block module, by its attribute.
#[derive(Debug, Clone, Copy, PartialEq, Eq, Structural)]
pub enum StructKind {
    Input,
    Output,
    State,
    Block,
}

/// The kind the attributes `attrs` give a struct: the first of `input`,
/// `output`, `state` and `block` that it carries, in that order.
pub open spec fn kind_of(attrs: Seq<Seq<char>>) -> Option<StructKind> {
    if attrs.contains("input"@) {
        Some(StructKind::Input)
    } else if attrs.contains("output"@) {
        Some(StructKind::Output)
    } else if attrs.contains("state"@) {
        Some(StructKind::State)
    } else if attrs.contains("block"@) {
        Some(StructKind::Block)
    } else {
        None
    }
}

/// The message for a module that holds `n` structs of the kind written
/// `kind`: none for exactly one.
pub open spec fn count_messages(kind: Seq<char>, n: nat) -> Seq<Seq<char>> {
    if n == 0 {
        seq!["Missing #["@ + kind + "] struct"@]
    } else if n == 1 {
        Seq::empty()
    } else {
        seq!["Found "@ + decimal_text(n) + " #["@ + kind + "] structs, expected exactly 1"@]
    }
}

/// The messages for a module holding the given numbers of input, output,
/// state and block structs, in that order.
pub open spec fn struct_count_messages(
    n_input: nat,
    n_output: nat,
    n_state: nat,
    n_block: nat,
) -> Seq<Seq<char>> {
    count_messages("input"@, n_input) + count_messages("output"@, n_output) + count_messages(
        "state"@,
        n_state,
    ) + count_messages("block"@, n_block)
}

/// Adds the message for `n` structs of the kind written `kind` (see
/// `count_messages`).
fn push_count_message(out: &mut Vec<String>, kind: &str, n: usize)
    ensures
        final(out)@.map_values(|s: String| s@) == old(out)@.map_values(|s: String| s@)
            + count_messages(kind@, n as nat),
{
    let ghost before = out@;
    if n == 0 {
        let mut m = String::from_str("Missing #[");
        m.append(kind);
        m.append("] struct");
        out.push(m);
    } else if n > 1 {
        let mut m = String::from_str("Found ");
        let digits = usize_text(n);
        m.append(digits.as_str());
        m.append(" #[");
        m.append(kind);
        m.append("] structs, expected exactly 1");
        out.push(m);
    }
    assert(out@.map_values(|s: String| s@) =~= before.map_values(|s: String| s@)
        + count_messages(kind@, n as nat));
}

/// The problems with a block module holding the given numbers of input,
/// output, state and block structs (see `struct_count_messages`): none
/// exactly when it holds one of each.
pub fn check_struct_counts(n_input: usize, n_output: usize, n_state: usize, n_block: usize) -> (r:
    Vec<String>)
    ensures
        r@.map_values(|s: String| s@) == struct_count_messages(
            n_input as nat,
            n_output as nat,
            n_state as nat,
            n_block as nat,
        ),
{
    let mut out: Vec<String> = Vec::new();
    assert(out@.map_values(|s: String| s@) =~= Seq::<Seq<char>>::empty());
    push_count_message(&mut out, "input", n_input);
    push_count_message(&mut out, "output", n_output);
    push_count_message(&mut out, "state", n_state);
    push_count_message(&mut out, "block", n_block);
    assert(Seq::<Seq<char>>::empty() + count_messages("input"@, n_input as nat) =~= count_messages(
        "input"@,
        n_input as nat,
    ));
    out
}

/// The kind of a struct given by its name and attribute names.
pub open spec fn struct_kind(s: (String, Vec<String>)) -> Option<StructKind> {
    kind_of(s.1@.map_values(|a: String| a@))
}

/// The number of the first `k` structs of `structs` (name and attribute
/// names) that have kind `kind`.
pub open spec fn count_kind(structs: Seq<(String, Vec<String>)>, kind: StructKind, k: nat) -> nat
    decreases k,
{
    if k == 0 {
        0
    } else {
        count_kind(structs, kind, (k - 1) as nat) + if struct_kind(structs[k - 1]) == Some(kind) {
            1nat
        } else {
            0nat
        }
    }
}

/// `name` is the name of a struct of `structs` with kind `kind`.
pub open spec fn named_kind(structs: Seq<(String, Vec<String>)>, kind: StructKind, name: Seq<char>) -> bool {
    exists|j: int|
        0 <= j < structs.len() && #[trigger] struct_kind(structs[j]) == Some(kind) && structs[j].0@
            == name
}

/// What is generated for a block module: its input, output, state and block
/// structs and the names of the input and output keys.
pub struct ModulePlan {
    pub input: String,
    pub output: String,
    pub state: String,
    pub block: String,
    pub input_keys: String,
    pub output_keys: String,
}

/// The plan for a block module holding the structs `structs` (name and
/// attribute names, in order): the messages of `check_struct_counts` where
/// it does not hold exactly one struct of each kind; otherwise that struct
/// of each kind, and the keys named after the input and output structs.
pub open spec fn module_plan_spec(
    structs: Seq<(String, Vec<String>)>,
    r: Result<ModulePlan, Vec<String>>,
) -> bool {
    let msgs = struct_count_messages(
        count_kind(structs, StructKind::Input, structs.len()),
        count_kind(structs, StructKind::Output, structs.len()),
        count_kind(structs, StructKind::State, structs.len()),
        count_kind(structs, StructKind::Block, structs.len()),
    );
    if msgs.len() > 0 {
        r matches Err(m) && m@.map_values(|s: String| s@) == msgs
    } else {
        r matches Ok(p) && named_kind(structs, StructKind::Input, p.input@) && named_kind(
            structs,
            StructKind::Output,
            p.output@,
        ) && named_kind(structs, StructKind::State, p.state@) && named_kind(
            structs,
            StructKind::Block,
            p.block@,
        ) && p.input_keys@ == p.input@ + "Keys"@ && p.output_keys@ == p.output@ + "Keys"@
    }
}

/// Whether the attribute names `attrs` include `name`.
fn has_attr(attrs: &Vec<String>, name: &str) -> (r: bool)
    ensures
        r == attrs@.map_values(|a: String| a@).contains(name@),
{
    let n = attrs.len();
    for i in 0..n
        invariant
            n == attrs@.len(),
            forall|j: int| 0 <= j < i ==> attrs@[j]@ != name@,
    {
        if same_text(attrs[i].as_str(), name) {
            proof {
                assert(attrs@.map_values(|a: String| a@)[i as int] == name@);
            }
            return true;
        }
    }
    proof {
        let names = attrs@.map_values(|a: String| a@);
        if names.contains(name@) {
            let j = choose|j: int| 0 <= j < names.len() && #[trigger] names[j] == name@;
            assert(attrs@[j]@ == name@);
        }
    }
    false
}

/// The kind the attribute names `attrs` give a struct (see `kind_of`).
fn kind_for(attrs: &Vec<String>) -> (r: Option<StructKind>)
    ensures
        r == kind_of(attrs@.map_values(|a: String| a@)),
{
    if has_attr(attrs, "input") {
        Some(StructKind::Input)
    } else if has_attr(attrs, "output") {
        Some(StructKind::Output)
    } else if has_attr(attrs, "state") {
        Some(StructKind::State)
    } else if has_attr(attrs, "block") {
        Some(StructKind::Block)
    } else {
        None
    }
}

/// Plans a block module holding the structs `structs` (name and attribute
/// names, in order; see `module_plan_spec`).
pub fn plan_block_module(structs: &Vec<(String, Vec<String>)>) -> (r: Result<
    ModulePlan,
    Vec<String>,
>)
    ensures
        module_plan_spec(structs@, r),
{
    let mut counts: [usize; 4] = [0, 0, 0, 0];
    let mut names: Vec<Option<String>> = vec![None, None, None, None];
    let n = structs.len();
    for j in 0..n
        invariant
            n == structs@.len(),
            names@.len() == 4,
            counts@[0] == count_kind(structs@, StructKind::Input, j as nat),
            counts@[1] == count_kind(structs@, StructKind::Output, j as nat),
            counts@[2] == count_kind(structs@, StructKind::State, j as nat),
            counts@[3] == count_kind(structs@, StructKind::Block, j as nat),
            counts@[0] <= j && counts@[1] <= j && counts@[2] <= j && counts@[3] <= j,
            names@[0] matches Some(s) ==> named_kind(structs@, StructKind::Input, s@),
            names@[1] matches Some(s) ==> named_kind(structs@, StructKind::Output, s@),
            names@[2] matches Some(s) ==> named_kind(structs@, StructKind::State, s@),
            names@[3] matches Some(s) ==> named_kind(structs@, StructKind::Block, s@),
            counts@[0] > 0 ==> names@[0] is Some,
            counts@[1] > 0 ==> names@[1] is Some,
            counts@[2] > 0 ==> names@[2] is Some,
            counts@[3] > 0 ==> names@[3] is Some,
    {
        let kind = kind_for(&structs[j].1);
        let slot: usize = match kind {
            Some(StructKind::Input) => 0,
            Some(StructKind::Output) => 1,
            Some(StructKind::State) => 2,
            Some(StructKind::Block) => 3,
            None => 4,
        };
        if slot < 4 {
            counts[slot] = counts[slot] + 1;
            names.set(slot, Some(structs[j].0.clone()));
        }
    }
    let errors = check_struct_counts(counts[0], counts[1], counts[2], counts[3]);
    if errors.len() > 0 {
        return Err(errors);
    }
    let input = names[0].clone().unwrap();
    let output = names[1].clone().unwrap();
    let state = names[2].clone().unwrap();
    let block = names[3].clone().unwrap();
    let mut input_keys = input.clone();
    input_keys.append("Keys");
    let mut output_keys = output.clone();
    output_keys.append("Keys");
    Ok(ModulePlan { input, output, state, block, input_keys, output_keys })
}

/// How the contracts of a value are collected.
pub enum Collect {
    /// It holds no contract.
    Nothing,
    /// It is a contract.
    Push,
    /// It is an `Option`: its content, if any, is collected.
    IfSome(Box<Collect>),
    /// It is a `Vec`: each element is collected, in order.
    Each(Box<Collect>),
}

/// The only type argument of a path segment's arguments, if it has exactly
/// one and it is a type.
pub open spec fn single_type(args: PathArgs) -> Option<TypeShape> {
    match args {
        PathArgs::Angle(v) => if v@.len() == 1 && v@[0] is Type {
            Some(v@[0]->Type_0)
        } else {
            None
        },
        _ => None,
    }
}

/// How the contracts of a value of type `ty` are collected: a type whose
/// last segment is `Contract` is a contract; an `Option<T>` or `Vec<T>` is
/// collected through `T`; anything else holds none.
pub open spec fn collect_spec(ty: TypeShape) -> Collect
    decreases ty,
{
    match ty {
        TypeShape::Path { last, args, .. } => if last@ == "Contract"@ {
            Collect::Push
        } else if (last@ == "Option"@ || last@ == "Vec"@) && single_type(args) is Some {
            match args {
                PathArgs::Angle(v) => {
                    proof {
                        assert(decreases_to!(v => v@));
                        assert(decreases_to!(v@ => v@[0]));
                    }
                    match v@[0] {
                        GenericArg::Type(t) => if last@ == "Option"@ {
                            Collect::IfSome(Box::new(collect_spec(t)))
                        } else {
                            Collect::Each(Box::new(collect_spec(t)))
                        },
                        _ => Collect::Nothing,
                    }
                },
                _ => Collect::Nothing,
            }
        } else {
            Collect::Nothing
        },
        _ => Collect::Nothing,
    }
}

/// Plans how the contracts of a value of type `ty` are collected (see
/// `collect_spec`).
pub fn plan_collect(ty: &TypeShape) -> (r: Collect)
    ensures
        r == collect_spec(*ty),
    decreases ty,
{
    match ty {
        TypeShape::Path { last, args, .. } => {
            if same_text(last.as_str(), "Contract") {
                return Collect::Push;
            }
            let is_option = same_text(last.as_str(), "Option");
            let is_vec = same_text(last.as_str(), "Vec");
            if !is_option && !is_vec {
                return Collect::Nothing;
            }
            match args {
                PathArgs::Angle(v) => {
                    if v.len() != 1 {
                        return Collect::Nothing;
                    }
                    proof {
                        assert(decreases_to!(v => v@));
                        assert(decreases_to!(v@ => v@[0]));
                    }
                    match &v[0] {
                        GenericArg::Type(t) => {
                            let inner = plan_collect(t);
                            if is_option {
                                Collect::IfSome(Box::new(inner))
                            } else {
                                Collect::Each(Box::new(inner))
                            }
                        },
                        GenericArg::NotAType => Collect::Nothing,
                    }
                },
                _ => Collect::Nothing,
            }
        },
        _ => Collect::Nothing,
    }
}

/// A named field of an initialization-parameters struct: its name, whether
/// it is marked to be left out of the contracts, and its type.
pub struct ParamField {
    pub name: String,
    pub skipped: bool,
    pub ty: TypeShape,
}

/// The contracts of an initialization-parameters struct are collected from
/// each named field that is not left out, in order, each as its type says;
/// a struct with unnamed fields or no fields has none.
pub open spec fn params_plan_spec(fields: Seq<ParamField>, r: Seq<(String, Collect)>) -> bool {
    let kept = fields.filter(|f: ParamField| !f.skipped);
    &&& r.len() == kept.len()
    &&& forall|k: int|
        0 <= k < r.len() ==> (#[trigger] r[k]).0@ == kept[k].name@ && r[k].1 == collect_spec(
            kept[k].ty,
        )
}

/// Plans the collection of the contracts of an initialization-parameters
/// struct with named fields `fields` (see `params_plan_spec`); `None` for an
/// item that is not a struct.
pub fn plan_init_params(is_struct: bool, fields: &Vec<ParamField>) -> (r: Option<
    Vec<(String, Collect)>,
>)
    ensures
        r is Some <==> is_struct,
        r matches Some(v) ==> params_plan_spec(fields@, v@),
{
    if !is_struct {
        return None;
    }
    let mut out: Vec<(String, Collect)> = Vec::new();
    let n = fields.len();
    for i in 0..n
        invariant
            n == fields@.len(),
            params_plan_spec(fields@.take(i as int), out@),
    {
        let ghost before = out@;
        proof {
            assert(fields@.take(i + 1).drop_last() =~= fields@.take(i as int));
            reveal(Seq::filter);
        }
        if !fields[i].skipped {
            let plan = plan_collect(&fields[i].ty);
            out.push((fields[i].name.clone(), plan));
        }
        proof {
            let kept0 = fields@.take(i as int).filter(|f: ParamField| !f.skipped);
            let kept1 = fields@.take(i + 1).filter(|f: ParamField| !f.skipped);
            if !fields@[i as int].skipped {
                assert(kept1 == kept0.push(fields@[i as int]));
            } else {
                assert(kept1 == kept0);
            }
        }
    }
    assert(fields@.take(n as int) =~= fields@);
    Some(out)
}

} // verus!
