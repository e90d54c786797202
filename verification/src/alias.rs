use vstd::prelude::*;

verus! {

use crate::ident::Ident;
use crate::region::Loc;
use crate::region::Region;
use crate::symbol::Symbol;

/// Whether a type alias is an ordinary transparent alias, or an opaque one
/// that hides its representation outside the module that declares it.
#[derive(Clone, Copy, PartialEq, Eq, Structural, Debug)]
pub enum AliasKind {
    Transparent,
    Opaque,
}

/// A type-variable binding in an alias header: the variable's textual name
/// and the inference variable standing for it.
#[derive(Debug)]
pub struct AliasVar {
    pub name: Ident,
    pub var: u32,
}

pub struct AliasVarView {
    pub name: Seq<char>,
    pub var: u32,
}

impl View for AliasVar {
    type V = AliasVarView;

    open spec fn view(&self) -> AliasVarView {
        AliasVarView { name: self.name@, var: self.var }
    }
}

/// What the scope logic reads of an alias's underlying type expression: the
/// inference variables occurring in it, by kind. Building the expression
/// itself, and collecting these variables from it, happens elsewhere.
#[derive(Debug)]
pub struct TypeBody {
    pub type_variables: Vec<u32>,
    pub lambda_set_variables: Vec<u32>,
    pub recursion_variables: Vec<u32>,
}

pub struct TypeBodyView {
    pub type_variables: Seq<u32>,
    pub lambda_set_variables: Seq<u32>,
    pub recursion_variables: Seq<u32>,
}

impl View for TypeBody {
    type V = TypeBodyView;

    open spec fn view(&self) -> TypeBodyView {
        TypeBodyView {
            type_variables: self.type_variables@,
            lambda_set_variables: self.lambda_set_variables@,
            recursion_variables: self.recursion_variables@,
        }
    }
}

/// A type-alias definition owned by the alias registry: its declaring
/// region, its header's type-variable bindings, the variables derived from
/// its body, the body itself, and whether it is structural or opaque.
#[derive(Debug)]
pub struct Alias {
    pub region: Region,
    pub type_variables: Vec<Loc<AliasVar>>,
    pub lambda_set_variables: Vec<u32>,
    pub recursion_variables: Vec<u32>,
    pub typ: TypeBody,
    pub kind: AliasKind,
}

pub struct AliasView {
    pub region: Region,
    pub type_variables: Seq<(Region, AliasVarView)>,
    pub lambda_set_variables: Seq<u32>,
    pub recursion_variables: Seq<u32>,
    pub typ: TypeBodyView,
    pub kind: AliasKind,
}

impl View for Alias {
    type V = AliasView;

    open spec fn view(&self) -> AliasView {
        AliasView {
            region: self.region,
            type_variables: Seq::new(
                self.type_variables@.len(),
                |i: int| (self.type_variables@[i].region, self.type_variables@[i].value@),
            ),
            lambda_set_variables: self.lambda_set_variables@,
            recursion_variables: self.recursion_variables@,
            typ: self.typ@,
            kind: self.kind,
        }
    }
}

impl AliasView {
    /// The span of the whole alias header: the declaring region widened
    /// over every type-variable binding.
    pub open spec fn header_region_spec(self) -> Region
        decreases self.type_variables.len(),
    {
        if self.type_variables.len() == 0 {
            self.region
        } else {
            let shorter = AliasView { type_variables: self.type_variables.drop_last(), ..self };
            shorter.header_region_spec().span_across_spec(self.type_variables.last().0)
        }
    }
}

impl Alias {
    /// The source span of the alias header, for diagnostics that point at
    /// why a name is not an opaque type.
    pub fn header_region(&self) -> (r: Region)
        ensures
            r == self@.header_region_spec(),
    {
        let mut r = self.region;
        let n: usize = self.type_variables.len();
        let mut i: usize = 0;
        while i < n
            invariant
                n == self.type_variables@.len(),
                i <= n,
                r == (AliasView { type_variables: self@.type_variables.take(i as int), ..self@ }).header_region_spec(),
            decreases n - i,
        {
            proof {
                assert(self@.type_variables.take(i as int + 1).drop_last() =~= self@.type_variables.take(
                    i as int,
                ));
            }
            r = r.span_across(&self.type_variables[i].region);
            i = i + 1;
        }
        proof {
            assert(self@.type_variables.take(n as int) =~= self@.type_variables);
        }
        r
    }
}

/// The view of a header's type-variable list: each binding's region paired
/// with its name and variable.
pub open spec fn loc_vars_view(vars: Seq<Loc<AliasVar>>) -> Seq<(Region, AliasVarView)> {
    Seq::new(vars.len(), |i: int| (vars[i].region, vars[i].value@))
}

/// The alias record [`create_alias`] builds: the body's derived variable
/// lists are copied out beside the body itself.
pub open spec fn make_alias_view(
    region: Region,
    vars: Seq<(Region, AliasVarView)>,
    typ: TypeBodyView,
    kind: AliasKind,
) -> AliasView {
    AliasView {
        region,
        type_variables: vars,
        lambda_set_variables: typ.lambda_set_variables,
        recursion_variables: typ.recursion_variables,
        typ,
        kind,
    }
}

/// Whether every type variable free in the alias body is bound by the
/// header's type-variable list. An alias that breaks this is an internal
/// inconsistency of the alias-construction logic upstream, not a user error,
/// so [`create_alias`] refuses such inputs outright.
pub open spec fn body_vars_bound(vars: Seq<(Region, AliasVarView)>, typ: TypeBodyView) -> bool {
    forall|i: int|
        0 <= i < typ.type_variables.len() ==> exists|j: int|
            0 <= j < vars.len() && vars[j].1.var == #[trigger] typ.type_variables[i]
}

/// Builds the alias record stored by the registry from the pieces the
/// declaration walker collected.
pub fn create_alias(
    name: Symbol,
    region: Region,
    vars: Vec<Loc<AliasVar>>,
    typ: TypeBody,
    kind: AliasKind,
) -> (alias: Alias)
    requires
        body_vars_bound(
            loc_vars_view(vars@),
            typ@,
        ),
    ensures
        alias@ == make_alias_view(region, loc_vars_view(vars@), typ@, kind),
{
    let _ = name;
    let lambda_set_variables = copy_u32s(&typ.lambda_set_variables);
    let recursion_variables = copy_u32s(&typ.recursion_variables);
    Alias { region, type_variables: vars, lambda_set_variables, recursion_variables, typ, kind }
}

fn copy_u32s(v: &Vec<u32>) -> (r: Vec<u32>)
    ensures
        r@ == v@,
{
    let mut r: Vec<u32> = Vec::new();
    let n: usize = v.len();
    let mut i: usize = 0;
    while i < n
        invariant
            n == v@.len(),
            i <= n,
            r@ == v@.take(i as int),
        decreases n - i,
    {
        r.push(v[i]);
        proof {
            assert(v@.take(i as int + 1) =~= v@.take(i as int).push(v@[i as int]));
        }
        i = i + 1;
    }
    proof {
        assert(v@.take(n as int) =~= v@);
    }
    r
}

} // verus!
