use scope_resolution::debug_names::DebugNameRegistry;
use scope_resolution::ident::Ident;
use scope_resolution::ident::IdentIds;
use scope_resolution::region::Position;
use scope_resolution::region::Region;
use scope_resolution::scope::MODULE_ATTR;
use scope_resolution::scope::MODULE_LIST;
use scope_resolution::scope::Scope;
use scope_resolution::symbol::Symbol;

#[test]
fn scope_contains_introduced() {
    let mut scope = Scope::new(MODULE_ATTR, IdentIds::default());

    let region = Region::zero();
    let ident = Ident::from_text("mezolit");

    assert!(scope.lookup(&ident, region).is_err());

    assert!(scope.introduce(ident.clone(), region).is_ok());

    assert!(scope.lookup(&ident, region).is_ok());
}

#[test]
fn second_introduce_shadows() {
    let mut registry = DebugNameRegistry::default();
    let mut scope = Scope::new(MODULE_ATTR, IdentIds::default());

    let region1 = Region::from_pos(Position { offset: 10 });
    let region2 = Region::from_pos(Position { offset: 20 });
    let ident = Ident::from_text("mezolit");

    assert!(scope.lookup(&ident, Region::zero()).is_err());

    let first = scope.introduce(ident.clone(), region1).unwrap();
    let (original_region, _ident, shadow_symbol) =
        scope.introduce(ident.clone(), region2).unwrap_err();

    scope.register_debug_idents(&mut registry);

    assert_ne!(first, shadow_symbol);
    assert_eq!(original_region, region1);

    let lookup = scope.lookup(&ident, Region::zero()).unwrap();

    assert_eq!(first, lookup);
}

#[test]
fn inner_scope_does_not_influence_outer() {
    let mut scope = Scope::new(MODULE_ATTR, IdentIds::default());

    let region = Region::zero();
    let ident = Ident::from_text("uránia");

    assert!(scope.lookup(&ident, region).is_err());

    let marker = scope.inner_scope();
    assert!(scope.introduce(ident.clone(), region).is_ok());
    scope.exit_inner_scope(marker);

    assert!(scope.lookup(&ident, region).is_err());
}

#[test]
fn default_idents_in_scope() {
    let scope = Scope::new(MODULE_ATTR, IdentIds::default());

    let idents: Vec<_> = scope.idents_in_scope();

    assert_eq!(
        &idents,
        &[
            Ident::from_text("Box"),
            Ident::from_text("Set"),
            Ident::from_text("Dict"),
            Ident::from_text("Str"),
            Ident::from_text("Ok"),
            Ident::from_text("False"),
            Ident::from_text("List"),
            Ident::from_text("True"),
            Ident::from_text("Err"),
        ]
    );
}

#[test]
fn idents_with_inner_scope() {
    let mut scope = Scope::new(MODULE_ATTR, IdentIds::default());

    let idents: Vec<_> = scope.idents_in_scope();

    assert_eq!(
        &idents,
        &[
            Ident::from_text("Box"),
            Ident::from_text("Set"),
            Ident::from_text("Dict"),
            Ident::from_text("Str"),
            Ident::from_text("Ok"),
            Ident::from_text("False"),
            Ident::from_text("List"),
            Ident::from_text("True"),
            Ident::from_text("Err"),
        ]
    );

    let builtin_count = idents.len();

    let region = Region::zero();

    let ident1 = Ident::from_text("uránia");
    let ident2 = Ident::from_text("malmok");
    let ident3 = Ident::from_text("Járnak");

    scope.introduce(ident1.clone(), region).unwrap();
    scope.introduce(ident2.clone(), region).unwrap();
    scope.introduce(ident3.clone(), region).unwrap();

    let idents: Vec<_> = scope.idents_in_scope();

    assert_eq!(
        &idents[builtin_count..],
        &[ident1.clone(), ident2.clone(), ident3.clone(),]
    );

    let marker = scope.inner_scope();
    {
        let ident4 = Ident::from_text("Ångström");
        let ident5 = Ident::from_text("Sirály");

        scope.introduce(ident4.clone(), region).unwrap();
        scope.introduce(ident5.clone(), region).unwrap();

        let idents: Vec<_> = scope.idents_in_scope();

        assert_eq!(
            &idents[builtin_count..],
            &[
                ident1.clone(),
                ident2.clone(),
                ident3.clone(),
                ident4,
                ident5
            ]
        );
    }
    scope.exit_inner_scope(marker);

    let idents: Vec<_> = scope.idents_in_scope();

    assert_eq!(&idents[builtin_count..], &[ident1, ident2, ident3,]);
}

#[test]
fn import_is_in_scope() {
    let mut scope = Scope::new(MODULE_ATTR, IdentIds::default());

    let ident = Ident::from_text("product");
    let symbol = Symbol::new(MODULE_LIST, 11);
    let region = Region::zero();

    assert!(scope.lookup(&ident, region).is_err());

    assert!(scope.import(ident.clone(), symbol, region).is_ok());

    assert!(scope.lookup(&ident, region).is_ok());

    assert!(scope.idents_in_scope().iter().any(|x| *x == ident));
}

#[test]
fn shadow_of_import() {
    let mut registry = DebugNameRegistry::default();
    let mut scope = Scope::new(MODULE_ATTR, IdentIds::default());

    let ident = Ident::from_text("product");
    let symbol = Symbol::new(MODULE_LIST, 11);

    let region1 = Region::from_pos(Position { offset: 10 });
    let region2 = Region::from_pos(Position { offset: 20 });

    scope.import(ident.clone(), symbol, region1).unwrap();

    let (original_region, _ident, shadow_symbol) =
        scope.introduce(ident.clone(), region2).unwrap_err();

    scope.register_debug_idents(&mut registry);

    assert_ne!(symbol, shadow_symbol);
    assert_eq!(original_region, region1);

    let lookup = scope.lookup(&ident, Region::zero()).unwrap();

    assert_eq!(symbol, lookup);
}
