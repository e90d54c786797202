use scope_resolution::alias::Alias;
use scope_resolution::alias::AliasKind;
use scope_resolution::alias::AliasVar;
use scope_resolution::alias::TypeBody;
use scope_resolution::alias::create_alias;
use scope_resolution::debug_names::DebugNameRegistry;
use scope_resolution::ident::Ident;
use scope_resolution::ident::IdentIds;
use scope_resolution::problem::RuntimeError;
use scope_resolution::region::Loc;
use scope_resolution::region::Region;
use scope_resolution::scope::MODULE_ATTR;
use scope_resolution::scope::MODULE_LIST;
use scope_resolution::scope::MODULE_STR;
use scope_resolution::scope::Scope;
use scope_resolution::symbol::Symbol;

fn empty_body() -> TypeBody {
    TypeBody {
        type_variables: Vec::new(),
        lambda_set_variables: Vec::new(),
        recursion_variables: Vec::new(),
    }
}

#[test]
fn ident_table_keeps_every_allocation() {
    let mut ids = IdentIds::default();
    assert_eq!(ids.add_ident(&Ident::from_text("a")), 0);
    assert_eq!(ids.add_ident(&Ident::from_text("b")), 1);
    assert_eq!(ids.add_ident(&Ident::from_text("a")), 2);

    assert_eq!(ids.lookup_all(&Ident::from_text("a")), vec![0, 2]);
    assert_eq!(ids.lookup_all(&Ident::from_text("b")), vec![1]);
    assert!(ids.lookup_all(&Ident::from_text("c")).is_empty());
    assert_eq!(ids.get_id(&Ident::from_text("a")), Some(0));
    assert_eq!(ids.len(), 3);
}

#[test]
fn lookup_not_in_scope_carries_names() {
    let mut scope = Scope::new(MODULE_ATTR, IdentIds::default());
    scope
        .introduce(Ident::from_text("alpha"), Region::zero())
        .unwrap();

    let err = scope
        .lookup(&Ident::from_text("zzz"), Region::new(3, 7))
        .unwrap_err();
    match err {
        RuntimeError::LookupNotInScope {
            loc,
            names_in_scope,
        } => {
            assert_eq!(loc.region, Region::new(3, 7));
            assert_eq!(loc.value, Ident::from_text("zzz"));
            assert!(names_in_scope.contains(&Ident::from_text("Box")));
            assert!(names_in_scope.contains(&Ident::from_text("alpha")));
            assert_eq!(names_in_scope.len(), 10);
        }
        other => panic!("expected LookupNotInScope, got {:?}", other),
    }
}

#[test]
fn first_introduce_symbol_values() {
    let mut scope = Scope::new(MODULE_ATTR, IdentIds::default());

    let a = scope
        .introduce(Ident::from_text("a"), Region::zero())
        .unwrap();
    let b = scope
        .introduce(Ident::from_text("b"), Region::zero())
        .unwrap();

    assert_eq!(a, Symbol::new(MODULE_ATTR, 0));
    assert_eq!(b, Symbol::new(MODULE_ATTR, 1));
}

#[test]
fn exposed_ident_reuses_index() {
    let mut exposed = IdentIds::default();
    exposed.add_ident(&Ident::from_text("main"));
    exposed.add_ident(&Ident::from_text("helper"));

    let mut scope = Scope::new(MODULE_ATTR, exposed);

    // The pre-seeded names are not resolvable until introduced.
    assert!(scope.lookup(&Ident::from_text("main"), Region::zero()).is_err());

    let region = Region::new(5, 9);
    let sym = scope
        .introduce(Ident::from_text("helper"), region)
        .unwrap();
    // The header's identifier index is kept, so other modules' references
    // stay valid.
    assert_eq!(sym, Symbol::new(MODULE_ATTR, 1));
    assert_eq!(
        scope.lookup(&Ident::from_text("helper"), Region::zero()).unwrap(),
        sym
    );
}

#[test]
fn scopeless_symbol_not_resolvable() {
    let mut scope = Scope::new(MODULE_ATTR, IdentIds::default());
    let ident = Ident::from_text("guard");

    let hidden = scope.scopeless_symbol(&ident, Region::zero());
    assert!(scope.lookup(&ident, Region::zero()).is_err());

    let introduced = scope.introduce(ident.clone(), Region::zero()).unwrap();
    assert_ne!(hidden, introduced);
    assert_eq!(scope.lookup(&ident, Region::zero()).unwrap(), introduced);
}

#[test]
fn minted_symbols_all_distinct() {
    let mut scope = Scope::new(MODULE_ATTR, IdentIds::default());

    let mut symbols: Vec<Symbol> = Vec::new();
    symbols.push(
        scope
            .introduce(Ident::from_text("one"), Region::zero())
            .unwrap(),
    );
    symbols.push(scope.scopeless_symbol(&Ident::from_text("one"), Region::zero()));
    symbols.push(scope.gen_unique_symbol());
    symbols.push(scope.gen_unique_symbol());
    // A shadowing introduce still mints a fresh symbol, inside the error.
    let (_, _, shadow) = scope
        .introduce(Ident::from_text("one"), Region::zero())
        .unwrap_err();
    symbols.push(shadow);

    for i in 0..symbols.len() {
        for j in (i + 1)..symbols.len() {
            assert_ne!(symbols[i], symbols[j]);
        }
    }
}

#[test]
fn duplicate_import_reports_first() {
    let mut scope = Scope::new(MODULE_ATTR, IdentIds::default());
    let ident = Ident::from_text("product");
    let first_symbol = Symbol::new(MODULE_LIST, 11);
    let region1 = Region::new(1, 2);

    scope.import(ident.clone(), first_symbol, region1).unwrap();

    let err = scope
        .import(ident.clone(), Symbol::new(MODULE_STR, 4), Region::new(8, 9))
        .unwrap_err();
    assert_eq!(err, (first_symbol, region1));

    // The first import still resolves.
    assert_eq!(scope.lookup(&ident, Region::zero()).unwrap(), first_symbol);
}

#[test]
fn ability_member_specialization_is_not_shadowing() {
    let mut scope = Scope::new(MODULE_ATTR, IdentIds::default());
    let ident = Ident::from_text("hash");

    let member = scope.introduce(ident.clone(), Region::zero()).unwrap();
    scope.abilities_store.register_ability_member(member);

    let (specializing, of_member) = scope
        .introduce_or_shadow_ability_member(ident.clone(), Region::new(4, 6))
        .unwrap();

    assert_ne!(specializing, member);
    assert_eq!(of_member, Some(member));
    // The member's own binding still wins lookups.
    assert_eq!(scope.lookup(&ident, Region::zero()).unwrap(), member);
}

#[test]
fn non_ability_collision_is_illegal_shadow() {
    let mut scope = Scope::new(MODULE_ATTR, IdentIds::default());
    let ident = Ident::from_text("plain");

    let original = scope.introduce(ident.clone(), Region::new(1, 3)).unwrap();

    let (original_region, shadow_loc, shadow_symbol) = scope
        .introduce_or_shadow_ability_member(ident.clone(), Region::new(7, 9))
        .unwrap_err();

    assert_eq!(original_region, Region::new(1, 3));
    assert_eq!(shadow_loc.region, Region::new(7, 9));
    assert_eq!(shadow_loc.value, ident);
    assert_ne!(shadow_symbol, original);
}

#[test]
fn opaque_ref_resolves_local_opaque() {
    let mut scope = Scope::new(MODULE_ATTR, IdentIds::default());
    let ident = Ident::from_text("Age");

    let sym = scope.introduce(ident.clone(), Region::new(2, 5)).unwrap();
    scope.add_alias(sym, Region::new(2, 5), Vec::new(), empty_body(), AliasKind::Opaque);

    let (found, alias) = scope.lookup_opaque_ref(&ident, Region::new(30, 34)).unwrap();
    assert_eq!(found, sym);
    assert_eq!(alias.kind, AliasKind::Opaque);
}

#[test]
fn opaque_ref_on_transparent_alias_points_at_header() {
    let mut scope = Scope::new(MODULE_ATTR, IdentIds::default());
    let ident = Ident::from_text("Age");

    let sym = scope.introduce(ident.clone(), Region::new(2, 5)).unwrap();
    scope.add_alias(
        sym,
        Region::new(2, 5),
        Vec::new(),
        empty_body(),
        AliasKind::Transparent,
    );

    let err = scope
        .lookup_opaque_ref(&ident, Region::new(30, 34))
        .unwrap_err();
    match err {
        RuntimeError::OpaqueNotDefined {
            usage,
            opaques_in_scope,
            opt_defined_alias,
        } => {
            assert_eq!(usage.region, Region::new(30, 34));
            assert_eq!(usage.value, ident);
            assert!(opaques_in_scope.is_empty());
            assert_eq!(opt_defined_alias, Some(Region::new(2, 5)));
        }
        other => panic!("expected OpaqueNotDefined, got {:?}", other),
    }
}

#[test]
fn opaque_ref_via_import_is_outside_scope() {
    let mut scope = Scope::new(MODULE_ATTR, IdentIds::default());
    let ident = Ident::from_text("Age");
    let import_region = Region::new(1, 4);

    scope
        .import(ident.clone(), Symbol::new(MODULE_STR, 9), import_region)
        .unwrap();

    let err = scope
        .lookup_opaque_ref(&ident, Region::new(40, 44))
        .unwrap_err();
    match err {
        RuntimeError::OpaqueOutsideScope {
            opaque,
            referenced_region,
            imported_region,
        } => {
            assert_eq!(opaque, ident);
            assert_eq!(referenced_region, Region::new(40, 44));
            assert_eq!(imported_region, import_region);
        }
        other => panic!("expected OpaqueOutsideScope, got {:?}", other),
    }
}

#[test]
fn opaque_ref_unknown_name_lists_local_opaques() {
    let mut scope = Scope::new(MODULE_ATTR, IdentIds::default());

    let age = Ident::from_text("Age");
    let sym = scope.introduce(age.clone(), Region::zero()).unwrap();
    scope.add_alias(sym, Region::zero(), Vec::new(), empty_body(), AliasKind::Opaque);

    let err = scope
        .lookup_opaque_ref(&Ident::from_text("Nope"), Region::zero())
        .unwrap_err();
    match err {
        RuntimeError::OpaqueNotDefined {
            usage,
            opaques_in_scope,
            opt_defined_alias,
        } => {
            assert_eq!(usage.value, Ident::from_text("Nope"));
            assert_eq!(opaques_in_scope, vec![age]);
            assert_eq!(opt_defined_alias, None);
        }
        other => panic!("expected OpaqueNotDefined, got {:?}", other),
    }
}

#[test]
fn alias_overwrite_and_inner_scope_rollback() {
    let mut scope = Scope::new(MODULE_ATTR, IdentIds::default());

    let outer = scope.introduce(Ident::from_text("A"), Region::zero()).unwrap();
    scope.add_alias(
        outer,
        Region::zero(),
        Vec::new(),
        empty_body(),
        AliasKind::Transparent,
    );
    assert!(scope.contains_alias(outer));

    // Overwriting under the same key keeps one entry, with the new kind.
    scope.add_alias(outer, Region::new(9, 12), Vec::new(), empty_body(), AliasKind::Opaque);
    assert_eq!(scope.lookup_alias(outer).unwrap().kind, AliasKind::Opaque);

    let marker = scope.inner_scope();
    let inner = scope.introduce(Ident::from_text("B"), Region::zero()).unwrap();
    scope.add_alias(
        inner,
        Region::zero(),
        Vec::new(),
        empty_body(),
        AliasKind::Transparent,
    );
    assert!(scope.contains_alias(inner));
    scope.exit_inner_scope(marker);

    assert!(!scope.contains_alias(inner));
    assert!(scope.contains_alias(outer));
}

#[test]
fn sibling_inner_scopes_are_independent() {
    let mut scope = Scope::new(MODULE_ATTR, IdentIds::default());
    let ident = Ident::from_text("x");

    assert!(scope.lookup(&ident, Region::zero()).is_err());

    let first = scope.inner_scope();
    scope.introduce(ident.clone(), Region::zero()).unwrap();
    scope.exit_inner_scope(first);

    let second = scope.inner_scope();
    // The sibling does not see the first nested scope's binding...
    assert!(scope.lookup(&ident, Region::zero()).is_err());
    // ...and may introduce the same name itself.
    assert!(scope.introduce(ident.clone(), Region::zero()).is_ok());
    scope.exit_inner_scope(second);

    assert!(scope.lookup(&ident, Region::zero()).is_err());
}

#[test]
fn create_alias_header_spans_variables() {
    let alias: Alias = create_alias(
        Symbol::new(MODULE_ATTR, 0),
        Region::new(10, 12),
        vec![Loc {
            region: Region::new(14, 20),
            value: AliasVar {
                name: Ident::from_text("a"),
                var: 5,
            },
        }],
        TypeBody {
            type_variables: vec![5],
            lambda_set_variables: vec![8],
            recursion_variables: Vec::new(),
        },
        AliasKind::Opaque,
    );

    assert_eq!(alias.header_region(), Region::new(10, 20));
    assert_eq!(alias.lambda_set_variables, vec![8]);
    assert_eq!(alias.kind, AliasKind::Opaque);
}

#[test]
fn register_debug_idents_records_all_names() {
    let mut registry = DebugNameRegistry::default();
    let mut scope = Scope::new(MODULE_ATTR, IdentIds::default());

    scope.introduce(Ident::from_text("alpha"), Region::zero()).unwrap();
    scope.scopeless_symbol(&Ident::from_text("beta"), Region::zero());

    scope.register_debug_idents(&mut registry);

    assert_eq!(registry.len(), 1);
    let names = registry.names_of(MODULE_ATTR).unwrap();
    // Invisible allocations are recorded too.
    assert_eq!(
        names,
        &vec![Ident::from_text("alpha"), Ident::from_text("beta")]
    );
    assert!(registry.names_of(MODULE_LIST).is_none());
}
