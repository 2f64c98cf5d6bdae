//! The action schema: an immutable description of one action set. Each
//! variant has a command name and an ordered list of typed parameters.
//! Construction validates the ordering invariants once — required parameters
//! before optional ones, a variadic parameter only in last position, and
//! variant names unique under case-insensitive comparison — so that
//! resolution never meets an ambiguous parameter list.

use vstd::prelude::*;

use crate::text::ieq;

verus! {

/// How many tokens a parameter consumes: exactly one, at most one, or every
/// remaining one.
#[derive(Clone, Copy, Debug, PartialEq, Eq, Structural)]
pub enum WrapType {
    Required,
    Optional,
    Variadic,
}

/// The integer widths a parameter can declare; the width bounds the accepted
/// range of the conversion.
#[derive(Clone, Copy, Debug, PartialEq, Eq, Structural)]
pub enum IntType {
    I8,
    I16,
    I32,
    I64,
    I128,
    ISize,
    U8,
    U16,
    U32,
    U64,
    U128,
    USize,
}

/// The floating-point widths a parameter can declare. The width does not
/// change which tokens are accepted, only the conversion the caller applies.
#[derive(Clone, Copy, Debug, PartialEq, Eq, Structural)]
pub enum FloatType {
    F32,
    F64,
}

/// The scalar type a single token (or joined run of tokens) converts to.
#[derive(Clone, Copy, Debug, PartialEq, Eq, Structural)]
pub enum ArgumentType {
    String,
    Integer(IntType),
    Float(FloatType),
    Bool,
}

/// One typed parameter of a variant: its scalar type and how it consumes
/// tokens.
#[derive(Clone, Copy, Debug, PartialEq, Eq, Structural)]
pub struct OrderedArgument {
    pub wrap_type: WrapType,
    pub argument_type: ArgumentType,
}

impl OrderedArgument {
    /// A parameter with no wrapper around its type: a required scalar.
    pub fn none(argument_type: ArgumentType) -> (r: OrderedArgument)
        ensures
            r == (OrderedArgument { wrap_type: WrapType::Required, argument_type }),
    {
        OrderedArgument { wrap_type: WrapType::Required, argument_type }
    }
}

/// One named action case: its command name and its ordered parameters.
#[derive(Debug, Clone)]
pub struct VariantSpec {
    pub name: String,
    pub args: Vec<OrderedArgument>,
}

/// The mathematical shape of a [`VariantSpec`].
pub struct VariantSpecV {
    pub name: Seq<char>,
    pub args: Seq<OrderedArgument>,
}

impl View for VariantSpec {
    type V = VariantSpecV;

    open spec fn view(&self) -> VariantSpecV {
        VariantSpecV { name: self.name@, args: self.args@ }
    }
}

/// The views of a sequence of variant specifications.
pub open spec fn schema_view(vs: Seq<VariantSpec>) -> Seq<VariantSpecV> {
    Seq::new(vs.len(), |i: int| vs[i]@)
}

/// The ordering invariant of one parameter list: no required parameter after
/// an optional one, and a variadic parameter only in last position.
pub open spec fn args_wf(args: Seq<OrderedArgument>) -> bool {
    &&& forall|i: int, j: int|
        0 <= i < j < args.len() && args[i].wrap_type == WrapType::Optional
            ==> args[j].wrap_type != WrapType::Required
    &&& forall|i: int|
        0 <= i < args.len() && args[i].wrap_type == WrapType::Variadic ==> i == args.len() - 1
}

/// The schema invariant: every parameter list is well ordered and variant
/// names are unique under case-insensitive comparison.
pub open spec fn schema_wf(vs: Seq<VariantSpecV>) -> bool {
    &&& forall|i: int| 0 <= i < vs.len() ==> args_wf(#[trigger] vs[i].args)
    &&& forall|i: int, j: int| 0 <= i < j < vs.len() ==> !ieq(vs[i].name, vs[j].name)
}

/// Why a schema was rejected at construction.
#[derive(Debug, Clone, PartialEq, Eq)]
pub enum SchemaError {
    /// A required parameter follows an optional one.
    RequiredAfterOptional { action: String },
    /// A variadic parameter is not the last parameter.
    VariadicNotLast { action: String },
    /// Two variants share a name under case-insensitive comparison.
    DuplicateAction { action: String },
}

/// The mathematical shape of a [`SchemaError`].
pub enum SchemaErrorV {
    RequiredAfterOptional { action: Seq<char> },
    VariadicNotLast { action: Seq<char> },
    DuplicateAction { action: Seq<char> },
}

impl View for SchemaError {
    type V = SchemaErrorV;

    open spec fn view(&self) -> SchemaErrorV {
        match self {
            SchemaError::RequiredAfterOptional { action } => SchemaErrorV::RequiredAfterOptional {
                action: action@,
            },
            SchemaError::VariadicNotLast { action } => SchemaErrorV::VariadicNotLast {
                action: action@,
            },
            SchemaError::DuplicateAction { action } => SchemaErrorV::DuplicateAction {
                action: action@,
            },
        }
    }
}

/// The first violation in one parameter list at or after position `i`, given
/// whether an optional parameter stands before `i`.
pub open spec fn args_error_at(
    args: Seq<OrderedArgument>,
    name: Seq<char>,
    i: int,
    seen_opt: bool,
) -> Option<SchemaErrorV>
    decreases args.len() - i,
    when 0 <= i <= args.len()
{
    if i >= args.len() {
        None
    } else if args[i].wrap_type == WrapType::Variadic && i != args.len() - 1 {
        Some(SchemaErrorV::VariadicNotLast { action: name })
    } else if args[i].wrap_type == WrapType::Required && seen_opt {
        Some(SchemaErrorV::RequiredAfterOptional { action: name })
    } else {
        args_error_at(args, name, i + 1, seen_opt || args[i].wrap_type == WrapType::Optional)
    }
}

/// The first violation in the schema at or after variant `i`: each variant's
/// own parameter list is checked first, then its name against the names
/// before it.
pub open spec fn schema_error_at(vs: Seq<VariantSpecV>, i: int) -> Option<SchemaErrorV>
    decreases vs.len() - i,
    when 0 <= i <= vs.len()
{
    if i >= vs.len() {
        None
    } else {
        match args_error_at(vs[i].args, vs[i].name, 0, false) {
            Some(e) => Some(e),
            None => if exists|j: int| 0 <= j < i && ieq(vs[j].name, vs[i].name) {
                Some(SchemaErrorV::DuplicateAction { action: vs[i].name })
            } else {
                schema_error_at(vs, i + 1)
            },
        }
    }
}

/// The first violation in the schema, if any.
pub open spec fn schema_error(vs: Seq<VariantSpecV>) -> Option<SchemaErrorV> {
    schema_error_at(vs, 0)
}

/// Whether an optional parameter stands before position `i`.
pub open spec fn opt_before(args: Seq<OrderedArgument>, i: int) -> bool {
    exists|k: int| 0 <= k < i && args[k].wrap_type == WrapType::Optional
}

proof fn lemma_args_error_none(args: Seq<OrderedArgument>, name: Seq<char>, i: int, seen_opt: bool)
    requires
        0 <= i <= args.len(),
        seen_opt == opt_before(args, i),
    ensures
        args_error_at(args, name, i, seen_opt) is None <==> (forall|j: int|
            i <= j < args.len() && args[j].wrap_type == WrapType::Variadic ==> j == args.len() - 1)
            && (forall|j: int|
            i <= j < args.len() && args[j].wrap_type == WrapType::Required ==> !opt_before(
                args,
                j,
            )),
    decreases args.len() - i,
{
    if i >= args.len() {
    } else if args[i].wrap_type == WrapType::Variadic && i != args.len() - 1 {
    } else if args[i].wrap_type == WrapType::Required && seen_opt {
    } else {
        assert(opt_before(args, i + 1) == (seen_opt || args[i].wrap_type == WrapType::Optional))
            by {
            if seen_opt || args[i].wrap_type == WrapType::Optional {
                if seen_opt {
                    let k = choose|k: int| 0 <= k < i && args[k].wrap_type == WrapType::Optional;
                    assert(0 <= k < i + 1 && args[k].wrap_type == WrapType::Optional);
                } else {
                    assert(0 <= i < i + 1 && args[i].wrap_type == WrapType::Optional);
                }
            }
        }
        lemma_args_error_none(args, name, i + 1, seen_opt || args[i].wrap_type
            == WrapType::Optional);
        if args_error_at(args, name, i, seen_opt) is None {
            assert forall|j: int|
                i <= j < args.len() && args[j].wrap_type == WrapType::Required implies !opt_before(
                args,
                j,
            ) by {
                if j == i {
                    assert(!seen_opt);
                }
            }
        }
    }
}

/// A parameter list passes validation exactly when it is well ordered.
pub proof fn lemma_args_error_iff_wf(args: Seq<OrderedArgument>, name: Seq<char>)
    ensures
        args_error_at(args, name, 0, false) is None <==> args_wf(args),
{
    assert(!opt_before(args, 0));
    lemma_args_error_none(args, name, 0, false);
    if args_error_at(args, name, 0, false) is None {
        assert forall|i: int, j: int|
            0 <= i < j < args.len() && args[i].wrap_type == WrapType::Optional implies args[j].wrap_type
            != WrapType::Required by {
            if args[j].wrap_type == WrapType::Required {
                assert(opt_before(args, j));
            }
        }
    } else {
        if args_wf(args) {
            assert forall|j: int|
                0 <= j < args.len() && args[j].wrap_type == WrapType::Required implies !opt_before(
                args,
                j,
            ) by {
                if opt_before(args, j) {
                    let k = choose|k: int| 0 <= k < j && args[k].wrap_type == WrapType::Optional;
                    assert(args[j].wrap_type != WrapType::Required);
                }
            }
        }
    }
}

/// A schema passes validation exactly when it is well formed.
pub proof fn lemma_schema_error_iff_wf(vs: Seq<VariantSpecV>)
    ensures
        schema_error(vs) is None <==> schema_wf(vs),
{
    lemma_schema_error_none(vs, 0);
}

proof fn lemma_schema_error_none(vs: Seq<VariantSpecV>, i: int)
    requires
        0 <= i <= vs.len(),
    ensures
        schema_error_at(vs, i) is None <==> (forall|j: int|
            i <= j < vs.len() ==> args_wf(#[trigger] vs[j].args)) && (forall|j: int, k: int|
            0 <= j < k < vs.len() && i <= k ==> !ieq(vs[j].name, vs[k].name)),
    decreases vs.len() - i,
{
    if i < vs.len() {
        lemma_args_error_iff_wf(vs[i].args, vs[i].name);
        lemma_schema_error_none(vs, i + 1);
    }
}

/// A validated, immutable action schema.
pub struct ActionSchema {
    variants: Vec<VariantSpec>,
}

impl View for ActionSchema {
    type V = Seq<VariantSpecV>;

    closed spec fn view(&self) -> Seq<VariantSpecV> {
        schema_view(self.variants@)
    }
}

impl ActionSchema {
    /// Every schema in circulation is well formed: construction validated it.
    /// `use_type_invariant` recovers this fact from a schema value.
    #[verifier::type_invariant]
    pub open spec fn inv(self) -> bool {
        schema_wf(self@)
    }

    /// The number of variants.
    pub fn variant_count(&self) -> (n: usize)
        ensures
            n == self@.len(),
    {
        self.variants.len()
    }

    /// The variant at a position.
    pub fn variant_at(&self, i: usize) -> (v: &VariantSpec)
        requires
            i < self@.len(),
        ensures
            v@ == self@[i as int],
    {
        &self.variants[i]
    }

    /// Validates the declared variants and builds the schema. Rejects, with
    /// the first violation in declaration order, a required parameter after
    /// an optional one, a variadic parameter out of last position, and a
    /// duplicate (case-insensitive) variant name.
    pub fn new(variants: Vec<VariantSpec>) -> (r: Result<ActionSchema, SchemaError>)
        ensures
            match r {
                Ok(s) => s@ == schema_view(variants@) && schema_wf(s@) && schema_error(
                    schema_view(variants@),
                ) is None,
                Err(e) => schema_error(schema_view(variants@)) == Some(e@),
            },
    {
        let ghost vsv = schema_view(variants@);
        let n = variants.len();
        let mut i: usize = 0;
        while i < n
            invariant
                0 <= i <= n,
                n == variants@.len(),
                vsv == schema_view(variants@),
                vsv.len() == n,
                forall|j: int| 0 <= j < n ==> vsv[j] == variants@[j]@,
                schema_error_at(vsv, 0) == schema_error_at(vsv, i as int),
            decreases n - i,
        {
            let v = &variants[i];
            // check this variant's parameter ordering
            let m = v.args.len();
            let mut k: usize = 0;
            let mut seen_opt = false;
            while k < m
                invariant
                    0 <= k <= m,
                    m == v.args@.len(),
                    v@ == vsv[i as int],
                    i < n,
                    vsv.len() == n,
                    vsv == schema_view(variants@),
                    args_error_at(v.args@, v.name@, 0, false) == args_error_at(
                        v.args@,
                        v.name@,
                        k as int,
                        seen_opt,
                    ),
                    schema_error_at(vsv, 0) == schema_error_at(vsv, i as int),
                decreases m - k,
            {
                let a = v.args[k];
                match a.wrap_type {
                    WrapType::Variadic => {
                        if k + 1 != m {
                            proof {
                                assert(args_error_at(v.args@, v.name@, k as int, seen_opt)
                                    == Some(
                                    SchemaErrorV::VariadicNotLast { action: v.name@ },
                                ));
                                assert(schema_error_at(vsv, i as int) == Some(
                                    SchemaErrorV::VariadicNotLast { action: v.name@ },
                                ));
                            }
                            return Err(
                                SchemaError::VariadicNotLast { action: v.name.clone() },
                            );
                        }
                    },
                    WrapType::Required => {
                        if seen_opt {
                            proof {
                                assert(args_error_at(v.args@, v.name@, k as int, seen_opt)
                                    == Some(
                                    SchemaErrorV::RequiredAfterOptional { action: v.name@ },
                                ));
                                assert(schema_error_at(vsv, i as int) == Some(
                                    SchemaErrorV::RequiredAfterOptional { action: v.name@ },
                                ));
                            }
                            return Err(
                                SchemaError::RequiredAfterOptional { action: v.name.clone() },
                            );
                        }
                    },
                    WrapType::Optional => {
                    },
                }
                seen_opt = seen_opt || matches!(a.wrap_type, WrapType::Optional);
                k += 1;
            }
            proof {
                assert(args_error_at(v.args@, v.name@, m as int, seen_opt) is None);
                assert(args_error_at(vsv[i as int].args, vsv[i as int].name, 0, false) is None);
            }
            // check the name against the names before it
            let mut j: usize = 0;
            while j < i
                invariant
                    0 <= j <= i < n,
                    n == variants@.len(),
                    vsv == schema_view(variants@),
                    vsv.len() == n,
                    forall|l: int| 0 <= l < n ==> vsv[l] == variants@[l]@,
                    forall|l: int| 0 <= l < j ==> !ieq(vsv[l].name, vsv[i as int].name),
                    args_error_at(vsv[i as int].args, vsv[i as int].name, 0, false) is None,
                    schema_error_at(vsv, 0) == schema_error_at(vsv, i as int),
                decreases i - j,
            {
                if crate::text::str_ieq(variants[j].name.as_str(), variants[i].name.as_str()) {
                    proof {
                        assert(ieq(vsv[j as int].name, vsv[i as int].name));
                        assert(schema_error_at(vsv, i as int) == Some(
                            SchemaErrorV::DuplicateAction { action: vsv[i as int].name },
                        ));
                    }
                    return Err(SchemaError::DuplicateAction { action: variants[i].name.clone() });
                }
                j += 1;
            }
            proof {
                assert(args_error_at(vsv[i as int].args, vsv[i as int].name, 0, false) is None);
                assert(!(exists|l: int|
                    0 <= l < i && ieq(vsv[l].name, vsv[i as int].name)));
            }
            i += 1;
        }
        proof {
            lemma_schema_error_iff_wf(vsv);
        }
        Ok(ActionSchema { variants })
    }
}

} // verus!
