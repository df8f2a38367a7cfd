use beff_core::bdd::Bdd;
use beff_core::context::{EngineError, MappingAtomic, SemTypeContext, MAX_DEPTH};
use beff_core::literal::{LitSet, Literal};
use beff_core::schema::{resolve_schema, Json, JsonSchema, Mater, Optionality, Validator};
use beff_core::semtype::SemType;
use beff_core::to_schema::{to_validators, SchemerContext};

fn lower(s: JsonSchema, ctx: &mut SemTypeContext) -> SemType {
    s.to_sub_type(&vec![], ctx).unwrap()
}

#[test]
fn array_subtype_antisymmetry() {
    let mut ctx = SemTypeContext::new();
    let strings = lower(JsonSchema::Array(Box::new(JsonSchema::String)), &mut ctx);
    let booleans = lower(JsonSchema::Array(Box::new(JsonSchema::Boolean)), &mut ctx);
    assert!(!strings.is_subtype(&booleans, &ctx).unwrap());
    assert!(!booleans.is_subtype(&strings, &ctx).unwrap());
    assert!(strings.intersect(&booleans).is_empty(&ctx).unwrap());
    assert!(strings.is_subtype(&strings, &ctx).unwrap());
}

#[test]
fn closed_tuple_is_inhabited() {
    let mut ctx = SemTypeContext::new();
    let t = lower(
        JsonSchema::Tuple {
            prefix_items: vec![JsonSchema::String],
            items: None,
        },
        &mut ctx,
    );
    assert!(!t.is_empty(&ctx).unwrap());
    let strings = lower(JsonSchema::Array(Box::new(JsonSchema::String)), &mut ctx);
    assert!(t.is_subtype(&strings, &ctx).unwrap());
    assert!(!strings.is_subtype(&t, &ctx).unwrap());
}

#[test]
fn diff_with_self_is_never_for_every_shape() {
    let mut ctx = SemTypeContext::new();
    let shapes = vec![
        JsonSchema::Null,
        JsonSchema::Number,
        JsonSchema::Const(Json::String("x".into())),
        JsonSchema::object(vec![("a".into(), JsonSchema::String.required())]),
        JsonSchema::any_of(vec![JsonSchema::Boolean, JsonSchema::String]),
    ];
    for s in shapes {
        let t = lower(s, &mut ctx);
        let d = t.diff(&t);
        assert!(d.is_empty(&ctx).unwrap());
        assert_eq!(ctx.materialize(&d).unwrap(), Mater::Never);
    }
}

#[test]
fn null_and_string_do_not_meet() {
    let mut ctx = SemTypeContext::new();
    let t = lower(JsonSchema::Null, &mut ctx).intersect(&lower(JsonSchema::String, &mut ctx));
    assert!(t.is_empty(&ctx).unwrap());
}

#[test]
fn materialize_scalars() {
    let mut ctx = SemTypeContext::new();
    let cases = vec![
        (JsonSchema::Boolean, Mater::Bool),
        (JsonSchema::Number, Mater::Number),
        (JsonSchema::Const(Json::Null), Mater::Null),
        (JsonSchema::Const(Json::Bool(true)), Mater::Bool),
        (JsonSchema::Const(Json::parse_int(7)), Mater::Number),
        (JsonSchema::StNever, Mater::Never),
        (JsonSchema::AnyObject, Mater::Object(vec![])),
        (JsonSchema::Any, Mater::Null),
    ];
    for (s, m) in cases {
        let t = lower(s, &mut ctx);
        assert_eq!(ctx.materialize(&t).unwrap(), m);
    }
}

#[test]
fn string_literals_union_and_difference() {
    let mut ctx = SemTypeContext::new();
    let ab = lower(
        JsonSchema::any_of(vec![
            JsonSchema::Const(Json::String("a".into())),
            JsonSchema::Const(Json::String("b".into())),
        ]),
        &mut ctx,
    );
    let a = lower(JsonSchema::Const(Json::String("a".into())), &mut ctx);
    assert!(a.is_subtype(&ab, &ctx).unwrap());
    assert!(!ab.is_subtype(&a, &ctx).unwrap());
    assert_eq!(
        ctx.materialize(&ab.diff(&a)).unwrap(),
        Mater::StringLiteral("b".into())
    );
    let all_strings = lower(JsonSchema::String, &mut ctx);
    let not_a = all_strings.diff(&a);
    assert_eq!(ctx.materialize(&not_a).unwrap(), Mater::String);
    assert!(not_a.intersect(&a).is_empty(&ctx).unwrap());
    assert!(not_a.union(&a).is_subtype(&all_strings, &ctx).unwrap());
    assert!(all_strings.is_subtype(&not_a.union(&a), &ctx).unwrap());
}

#[test]
fn complement_of_null_holds_everything_else() {
    let mut ctx = SemTypeContext::new();
    let null = lower(JsonSchema::Null, &mut ctx);
    let rest = null.complement();
    assert!(rest.intersect(&null).is_empty(&ctx).unwrap());
    assert_eq!(ctx.materialize(&rest).unwrap(), Mater::Bool);
    assert!(rest.has_void());
    assert!(!null.has_void());
}

#[test]
fn optional_field_admits_absence() {
    let mut ctx = SemTypeContext::new();
    let required = lower(
        JsonSchema::object(vec![("a".into(), JsonSchema::String.required())]),
        &mut ctx,
    );
    let optional = lower(
        JsonSchema::object(vec![("a".into(), JsonSchema::String.optional())]),
        &mut ctx,
    );
    assert!(required.is_subtype(&optional, &ctx).unwrap());
    assert!(!optional.is_subtype(&required, &ctx).unwrap());
    assert_eq!(
        ctx.materialize(&optional.diff(&required)).unwrap(),
        Mater::Object(vec![("a".into(), Mater::Void)])
    );
}

#[test]
fn equal_shapes_share_a_handle() {
    let mut ctx = SemTypeContext::new();
    let s = || JsonSchema::object(vec![("a".into(), JsonSchema::Number.required())]);
    lower(s(), &mut ctx);
    lower(s(), &mut ctx);
    assert_eq!(ctx.mapping_definitions.len(), 1);
    lower(
        JsonSchema::object(vec![("b".into(), JsonSchema::Number.required())]),
        &mut ctx,
    );
    assert_eq!(ctx.mapping_definitions.len(), 2);
}

#[test]
fn self_referential_component() {
    let validators = vec![Validator {
        name: "Node".into(),
        schema: JsonSchema::object(vec![
            ("next".into(), JsonSchema::Ref("Node".into()).optional()),
            ("value".into(), JsonSchema::Number.required()),
        ]),
    }];
    let mut ctx = SemTypeContext::new();
    let t = JsonSchema::Ref("Node".into())
        .to_sub_type(&validators, &mut ctx)
        .unwrap();
    assert!(!t.is_empty(&ctx).unwrap());
    assert_eq!(
        ctx.materialize(&t).unwrap(),
        Mater::Object(vec![
            ("next".into(), Mater::Void),
            ("value".into(), Mater::Number),
        ])
    );
    let vs = to_validators(&ctx, &t, "Node").unwrap();
    let names: Vec<&str> = vs.iter().map(|v| v.name.as_str()).collect();
    assert_eq!(names, vec!["t_1", "Node"]);
}

#[test]
fn schemer_memoizes_and_names() {
    let mut ctx = SemTypeContext::new();
    let t = lower(JsonSchema::Number, &mut ctx);
    let mut schemer = SchemerContext::new();
    let a = schemer.to_schema(&ctx, &t, None).unwrap();
    assert_eq!(a, JsonSchema::AnyOf(vec![JsonSchema::Number]));
    assert_eq!(schemer.validators.len(), 1);
    assert_eq!(schemer.validators[0].name, "t_1");
    let b = schemer.to_schema(&ctx, &t, Some("Other")).unwrap();
    assert_eq!(a, b);
    assert_eq!(schemer.validators.len(), 1);
    assert!(schemer.recursive_validators.is_empty());
}

#[test]
fn to_validators_names_the_top_schema() {
    let mut ctx = SemTypeContext::new();
    let t = lower(JsonSchema::String, &mut ctx);
    let vs = to_validators(&ctx, &t, "Name").unwrap();
    assert_eq!(vs.len(), 1);
    assert_eq!(vs[0].name, "Name");
    assert_eq!(vs[0].schema, JsonSchema::AnyOf(vec![JsonSchema::String]));
    let never = SemType::never();
    let vs = to_validators(&ctx, &never, "Nothing").unwrap();
    assert_eq!(vs[0].schema, JsonSchema::StNever);
}

#[test]
fn to_validators_renders_objects_and_arrays() {
    let mut ctx = SemTypeContext::new();
    let t = lower(
        JsonSchema::object(vec![
            ("a".into(), JsonSchema::String.required()),
            ("b".into(), JsonSchema::Boolean.optional()),
        ]),
        &mut ctx,
    );
    let vs = to_validators(&ctx, &t, "Obj").unwrap();
    assert_eq!(vs.len(), 1);
    let expected = JsonSchema::AnyOf(vec![JsonSchema::Object(vec![
        (
            "a".into(),
            Optionality::Required(JsonSchema::AnyOf(vec![JsonSchema::String])),
        ),
        (
            "b".into(),
            Optionality::Optional(JsonSchema::AnyOf(vec![JsonSchema::Boolean])),
        ),
    ])]);
    assert_eq!(vs[0].schema, expected);

    let l = lower(JsonSchema::Array(Box::new(JsonSchema::Number)), &mut ctx);
    let vs = to_validators(&ctx, &l, "List").unwrap();
    assert_eq!(
        vs[0].schema,
        JsonSchema::AnyOf(vec![JsonSchema::Array(Box::new(JsonSchema::AnyOf(vec![
            JsonSchema::Number
        ])))])
    );
}

#[test]
fn unknown_reference_is_an_error() {
    let mut ctx = SemTypeContext::new();
    let r = JsonSchema::Ref("Missing".into()).to_sub_type(&vec![], &mut ctx);
    assert_eq!(r.err(), Some(EngineError::UnknownReference("Missing".into())));
}

#[test]
fn unsupported_schemas_are_errors() {
    let mut ctx = SemTypeContext::new();
    assert_eq!(
        JsonSchema::Error.to_sub_type(&vec![], &mut ctx).err(),
        Some(EngineError::UnsupportedSchema)
    );
    assert_eq!(
        JsonSchema::OpenApiResponseRef("x".into())
            .to_sub_type(&vec![], &mut ctx)
            .err(),
        Some(EngineError::UnsupportedSchema)
    );
}

#[test]
fn deep_nesting_is_too_complex() {
    let mut s = JsonSchema::Number;
    for _ in 0..(MAX_DEPTH + 5) {
        s = JsonSchema::Array(Box::new(s));
    }
    let mut ctx = SemTypeContext::new();
    assert_eq!(s.to_sub_type(&vec![], &mut ctx).err(), Some(EngineError::TooComplex));
}

#[test]
fn foreign_handle_is_rejected() {
    let mut ctx = SemTypeContext::new();
    let r = ctx.define_mapping(3, MappingAtomic { fields: vec![] });
    assert_eq!(r, Err(EngineError::InvalidHandle));
    assert!(ctx.get_mapping_atomic(0).is_none());
    let t = SemType::from_bdd(Bdd::from_atom(5), false);
    assert_eq!(t.is_empty(&ctx), Err(EngineError::InvalidHandle));
}

#[test]
fn reserved_handle_is_defined_later() {
    let mut ctx = SemTypeContext::new();
    let h = ctx.reserve_mapping();
    assert_eq!(h, 0);
    assert!(ctx.define_mapping(h, MappingAtomic { fields: vec![] }).is_ok());
    assert!(ctx.get_mapping_atomic(h).unwrap().fields.is_empty());
}

#[test]
fn bdd_algebra_on_atoms() {
    let a = Bdd::from_atom(1);
    let b = Bdd::from_atom(2);
    assert!(matches!(a.diff(&a), Bdd::False));
    assert!(matches!(a.union(&a.complement()), Bdd::True));
    assert!(matches!(a.intersect(&Bdd::False), Bdd::False));
    assert!(matches!(a.union(&Bdd::True), Bdd::True));
    let ab = a.union(&b);
    assert!(ab.same(&b.union(&a)));
    assert!(matches!(ab, Bdd::Node { atom: 2, .. }));
}

#[test]
fn literal_sets_keep_one_polarity() {
    let a = LitSet::single(Literal::Str("a".into()));
    let b = LitSet::single(Literal::Str("b".into()));
    let not_a = a.complement();
    assert!(!not_a.allowed);
    let u = not_a.union(&b);
    assert!(!u.allowed);
    assert_eq!(u.values.len(), 1);
    let i = not_a.intersect(&a.union(&b));
    assert!(i.allowed);
    assert_eq!(i.values.len(), 1);
    assert!(matches!(&i.values[0], Literal::Str(s) if s == "b"));
    assert!(a.intersect(&b).is_empty());
    assert!(a.union(&not_a).is_full());
}

#[test]
fn references_resolve_through_components() {
    let components = vec![
        Validator {
            name: "A".into(),
            schema: JsonSchema::Ref("B".into()),
        },
        Validator {
            name: "B".into(),
            schema: JsonSchema::Array(Box::new(JsonSchema::Number)),
        },
        Validator {
            name: "Self".into(),
            schema: JsonSchema::Ref("Self".into()),
        },
    ];
    assert_eq!(
        resolve_schema(JsonSchema::Ref("A".into()), &components, 8),
        Some(JsonSchema::Array(Box::new(JsonSchema::Number)))
    );
    assert_eq!(
        resolve_schema(JsonSchema::Null, &components, 0),
        Some(JsonSchema::Null)
    );
    assert_eq!(resolve_schema(JsonSchema::Ref("Nope".into()), &components, 8), None);
    assert_eq!(resolve_schema(JsonSchema::Ref("Self".into()), &components, 8), None);
    assert_eq!(resolve_schema(JsonSchema::Ref("A".into()), &components, 1), None);
}

#[test]
fn empty_object_inside_self_referential_component() {
    let validators = vec![Validator {
        name: "Node".into(),
        schema: JsonSchema::object(vec![
            ("next".into(), JsonSchema::Ref("Node".into()).optional()),
            ("meta".into(), JsonSchema::object(vec![]).required()),
        ]),
    }];
    let mut ctx = SemTypeContext::new();
    let t = JsonSchema::Ref("Node".into())
        .to_sub_type(&validators, &mut ctx)
        .unwrap();
    assert_eq!(ctx.mapping_definitions.len(), 2);
    assert!(ctx.pending_mappings.is_empty());
    assert_eq!(
        ctx.materialize(&t).unwrap(),
        Mater::Object(vec![
            ("next".into(), Mater::Void),
            ("meta".into(), Mater::Object(vec![])),
        ])
    );
}

#[test]
fn validators_of_plain_and_empty_types() {
    let mut ctx = SemTypeContext::new();
    let n = lower(JsonSchema::Null, &mut ctx);
    let s = lower(JsonSchema::String, &mut ctx);
    assert_eq!(
        to_validators(&ctx, &n, "T").unwrap(),
        vec![Validator {
            name: "T".into(),
            schema: JsonSchema::AnyOf(vec![JsonSchema::Null])
        }]
    );
    assert_eq!(
        to_validators(&ctx, &s, "T").unwrap(),
        vec![Validator {
            name: "T".into(),
            schema: JsonSchema::AnyOf(vec![JsonSchema::String])
        }]
    );
    assert_eq!(
        to_validators(&ctx, &n.intersect(&s), "T").unwrap(),
        vec![Validator {
            name: "T".into(),
            schema: JsonSchema::StNever
        }]
    );
    let a = lower(
        JsonSchema::any_of(vec![JsonSchema::Null, JsonSchema::String]),
        &mut ctx,
    );
    assert_eq!(
        to_validators(&ctx, &a.diff(&a), "T").unwrap(),
        vec![Validator {
            name: "T".into(),
            schema: JsonSchema::StNever
        }]
    );
}

#[test]
fn validators_of_literals_and_formats() {
    let mut ctx = SemTypeContext::new();
    let c = lower(JsonSchema::Const(Json::String("def".into())), &mut ctx);
    let f = lower(JsonSchema::StringWithFormat("password".into()), &mut ctx);
    assert_eq!(
        to_validators(&ctx, &c, "C").unwrap()[0].schema,
        JsonSchema::AnyOf(vec![JsonSchema::Const(Json::String("def".into()))])
    );
    assert_eq!(
        to_validators(&ctx, &f, "F").unwrap()[0].schema,
        JsonSchema::AnyOf(vec![JsonSchema::StringWithFormat("password".into())])
    );
    let all = lower(JsonSchema::String, &mut ctx);
    assert_eq!(
        to_validators(&ctx, &all.diff(&c), "N").unwrap()[0].schema,
        JsonSchema::AnyOf(vec![JsonSchema::StNot(Box::new(JsonSchema::Const(
            Json::String("def".into())
        )))])
    );
}

#[test]
fn validators_of_shapes() {
    let mut ctx = SemTypeContext::new();
    let t = lower(
        JsonSchema::Tuple {
            prefix_items: vec![JsonSchema::String],
            items: Some(Box::new(JsonSchema::Boolean)),
        },
        &mut ctx,
    );
    assert_eq!(
        to_validators(&ctx, &t, "T").unwrap()[0].schema,
        JsonSchema::AnyOf(vec![JsonSchema::Tuple {
            prefix_items: vec![JsonSchema::AnyOf(vec![JsonSchema::String])],
            items: Some(Box::new(JsonSchema::AnyOf(vec![JsonSchema::Boolean]))),
        }])
    );
    let s = lower(JsonSchema::Array(Box::new(JsonSchema::String)), &mut ctx);
    let b = lower(JsonSchema::Array(Box::new(JsonSchema::Boolean)), &mut ctx);
    let d = to_validators(&ctx, &s.diff(&b), "D").unwrap();
    assert_eq!(d.len(), 1);
    match &d[0].schema {
        JsonSchema::AnyOf(parts) => {
            assert_eq!(parts.len(), 1);
            assert!(matches!(&parts[0], JsonSchema::AllOf(v) if v.len() == 2));
        }
        other => panic!("unexpected schema {:?}", other),
    }
}
