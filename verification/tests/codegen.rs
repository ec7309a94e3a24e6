use block_weave::block_codegen::{
    check_struct_counts, plan_block, plan_block_module, plan_collect, plan_init_params, plan_keys,
    AttrValue, Collect, DepsSource, ParamField, ShapeError, StructFields,
};
use block_weave::codegen::{
    adapter_for, plan_execute, GenericArg, PathArgs, Pick, PlanError, TypeShape, Wrap,
};

fn named(name: &str) -> TypeShape {
    TypeShape::Path {
        qualified: false,
        segments: 1,
        last: name.to_string(),
        args: PathArgs::Plain,
    }
}

fn generic(name: &str, args: Vec<TypeShape>) -> TypeShape {
    TypeShape::Path {
        qualified: false,
        segments: 1,
        last: name.to_string(),
        args: PathArgs::Angle(args.into_iter().map(GenericArg::Type).collect()),
    }
}

fn shared(t: TypeShape) -> TypeShape {
    TypeShape::Ref { mutable: false, target: Box::new(t) }
}

fn unique(t: TypeShape) -> TypeShape {
    TypeShape::Ref { mutable: true, target: Box::new(t) }
}

#[test]
fn execute_without_receiver_is_refused() {
    let r = plan_execute(false, &vec![], &None);
    assert!(matches!(r, Err(PlanError::NoReceiver)));
}

#[test]
fn execute_parameters_bind_to_their_roles() {
    let params = vec![named("Input"), shared(named("C")), unique(named("E"))];
    let plan = plan_execute(true, &params, &None).ok().unwrap();
    assert_eq!(plan.input, Some(0));
    assert_eq!(plan.context, Some(1));
    assert_eq!(plan.effects, Some(2));
    assert_eq!(plan.state, None);
    assert_eq!(plan.adapter.wrap, Wrap::Plain);
    assert_eq!(plan.adapter.pick, Pick::Nothing);
}

#[test]
fn a_second_input_parameter_is_refused() {
    let params = vec![named("Input"), named("Input")];
    assert!(matches!(plan_execute(true, &params, &None), Err(PlanError::UnsupportedParam(1))));
}

#[test]
fn returns_are_adapted_by_their_shape() {
    let opt = Some(generic(
        "Option",
        vec![TypeShape::Tuple(vec![named("Output"), named("State")])],
    ));
    let a = adapter_for(&opt).unwrap();
    assert_eq!(a.wrap, Wrap::OptionSome);
    assert_eq!(a.pick, Pick::OutputState);

    let res = Some(generic("Result", vec![named("Intents"), named("FailureStatus")]));
    let a = adapter_for(&res).unwrap();
    assert_eq!(a.wrap, Wrap::ResultOk);
    assert_eq!(a.pick, Pick::Intents);

    assert!(adapter_for(&Some(named("u32"))).is_none());
    let r = plan_execute(true, &vec![shared(named("State"))], &Some(named("u32")));
    assert!(matches!(r, Err(PlanError::UnsupportedReturn)));
}

#[test]
fn struct_counts_name_every_problem() {
    assert!(check_struct_counts(1, 1, 1, 1).is_empty());
    assert_eq!(
        check_struct_counts(0, 1, 2, 1),
        vec![
            "Missing #[input] struct".to_string(),
            "Found 2 #[state] structs, expected exactly 1".to_string(),
        ]
    );
}

#[test]
fn block_module_finds_its_structs() {
    let structs = vec![
        ("In".to_string(), vec!["input".to_string()]),
        ("Out".to_string(), vec!["derive".to_string(), "output".to_string()]),
        ("St".to_string(), vec!["state".to_string()]),
        ("Blk".to_string(), vec!["block".to_string()]),
        ("Other".to_string(), vec![]),
    ];
    let plan = plan_block_module(&structs).ok().unwrap();
    assert_eq!(plan.input, "In");
    assert_eq!(plan.output, "Out");
    assert_eq!(plan.block, "Blk");
    assert_eq!(plan.input_keys, "InKeys");
    assert_eq!(plan.output_keys, "OutKeys");

    let missing = vec![("In".to_string(), vec!["input".to_string()])];
    assert_eq!(
        plan_block_module(&missing).err().unwrap(),
        vec![
            "Missing #[output] struct".to_string(),
            "Missing #[state] struct".to_string(),
            "Missing #[block] struct".to_string(),
        ]
    );
}

#[test]
fn keys_follow_the_fields() {
    let fields = StructFields::Named(vec!["a".to_string(), "b".to_string()]);
    let plan = plan_keys("Input", true, &fields, true).ok().unwrap();
    assert_eq!(plan.keys_name, "InputKeys");
    assert_eq!(plan.access_name, "InputReader");
    assert_eq!(plan.key_fields, vec!["a".to_string(), "b".to_string()]);

    let plan = plan_keys("Output", true, &StructFields::Unit, false).ok().unwrap();
    assert_eq!(plan.access_name, "OutputWriter");
    assert!(plan.key_fields.is_empty());

    assert!(matches!(plan_keys("X", true, &StructFields::Tuple, true), Err(ShapeError::TupleFields)));
    assert!(matches!(plan_keys("X", false, &StructFields::Unit, true), Err(ShapeError::NotAStruct)));
}

#[test]
fn block_attributes_choose_the_types() {
    let args = vec![
        ("input".to_string(), AttrValue::Path("MyIn".to_string())),
        ("intents".to_string(), AttrValue::Str("OneIntent".to_string())),
        ("input".to_string(), AttrValue::Str("LastIn".to_string())),
    ];
    let plan = plan_block(&args, false);
    assert_eq!(plan.input, "LastIn");
    assert_eq!(plan.output, "Output");
    assert_eq!(plan.intents, "OneIntent");
    assert_eq!(plan.init, "InitParams");
    assert_eq!(plan.deps, DepsSource::AddDerive);

    let off = vec![("contract_deps".to_string(), AttrValue::Bool(false))];
    assert_eq!(plan_block(&off, true).deps, DepsSource::Empty);
    assert_eq!(plan_block(&vec![], true).deps, DepsSource::AlreadyDerived);
    assert_eq!(plan_block(&vec![], true).intents, "::block_traits::intents::ZeroIntents");
}

#[test]
fn contracts_are_collected_through_options_and_vecs() {
    let ty = generic("Vec", vec![generic("Option", vec![named("Contract")])]);
    match plan_collect(&ty) {
        Collect::Each(inner) => match *inner {
            Collect::IfSome(inner) => assert!(matches!(*inner, Collect::Push)),
            _ => panic!("expected an option"),
        },
        _ => panic!("expected a vec"),
    }
    assert!(matches!(plan_collect(&named("u32")), Collect::Nothing));

    let fields = vec![
        ParamField { name: "c".to_string(), skipped: false, ty: named("Contract") },
        ParamField { name: "skip".to_string(), skipped: true, ty: named("Contract") },
        ParamField { name: "n".to_string(), skipped: false, ty: named("i32") },
    ];
    let plan = plan_init_params(true, &fields).unwrap();
    assert_eq!(plan.len(), 2);
    assert_eq!(plan[0].0, "c");
    assert!(matches!(plan[0].1, Collect::Push));
    assert_eq!(plan[1].0, "n");
    assert!(matches!(plan[1].1, Collect::Nothing));
    assert!(plan_init_params(false, &fields).is_none());
}
