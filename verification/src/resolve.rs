//! The command resolver: matches a tokenized command line against a
//! validated action schema and converts the argument words, strictly left to
//! right and without backtracking, into the matched variant's typed values.
//!
//! A trailing `String` parameter greedily joins all remaining words with
//! single spaces; a variadic parameter collects every remaining word,
//! converting each independently. Every failure is a structured error value.

use vstd::prelude::*;

use crate::coerce::{int_max, int_min, int_token_val, is_float_token, is_signed};
use crate::error::{Error, ErrorV};
use crate::schema::{ActionSchema, ArgumentType, IntType, OrderedArgument, VariantSpecV, WrapType};
use crate::text::{bool_token, ieq};

verus! {

/// One converted argument value. An integer carries the parsed value at full
/// precision; a float carries the validated token, to be converted by the
/// caller at its declared width.
#[derive(Debug, Clone, PartialEq, Eq)]
pub enum Scalar {
    Str(String),
    Signed(i128),
    Unsigned(u128),
    Float(String),
    Bool(bool),
}

/// The mathematical shape of a [`Scalar`].
pub enum ScalarV {
    Str(Seq<char>),
    Signed(int),
    Unsigned(int),
    Float(Seq<char>),
    Bool(bool),
}

impl View for Scalar {
    type V = ScalarV;

    open spec fn view(&self) -> ScalarV {
        match self {
            Scalar::Str(s) => ScalarV::Str(s@),
            Scalar::Signed(v) => ScalarV::Signed(*v as int),
            Scalar::Unsigned(v) => ScalarV::Unsigned(*v as int),
            Scalar::Float(s) => ScalarV::Float(s@),
            Scalar::Bool(b) => ScalarV::Bool(*b),
        }
    }
}

/// The views of a sequence of scalars.
pub open spec fn svals_view(vs: Seq<Scalar>) -> Seq<ScalarV> {
    Seq::new(vs.len(), |i: int| vs[i]@)
}

/// The value resolved for one parameter: a scalar, an omitted optional, or
/// the list a variadic parameter collected.
#[derive(Debug, Clone, PartialEq, Eq)]
pub enum ArgValue {
    Given(Scalar),
    Omitted,
    List(Vec<Scalar>),
}

/// The mathematical shape of an [`ArgValue`].
pub enum ArgValueV {
    Given(ScalarV),
    Omitted,
    List(Seq<ScalarV>),
}

impl View for ArgValue {
    type V = ArgValueV;

    open spec fn view(&self) -> ArgValueV {
        match self {
            ArgValue::Given(s) => ArgValueV::Given(s@),
            ArgValue::Omitted => ArgValueV::Omitted,
            ArgValue::List(vs) => ArgValueV::List(svals_view(vs@)),
        }
    }
}

/// The views of a sequence of argument values.
pub open spec fn avals_view(vs: Seq<ArgValue>) -> Seq<ArgValueV> {
    Seq::new(vs.len(), |i: int| vs[i]@)
}

/// A resolved action: which variant of the schema matched, and one value per
/// parameter of that variant.
#[derive(Debug, Clone, PartialEq, Eq)]
pub struct ResolvedAction {
    pub variant: usize,
    pub args: Vec<ArgValue>,
}

/// The mathematical shape of a [`ResolvedAction`].
pub struct ResolvedActionV {
    pub variant: int,
    pub args: Seq<ArgValueV>,
}

impl View for ResolvedAction {
    type V = ResolvedActionV;

    open spec fn view(&self) -> ResolvedActionV {
        ResolvedActionV { variant: self.variant as int, args: avals_view(self.args@) }
    }
}

/// The outcome of converting one token at one scalar type: the typed value,
/// or the matching parse error carrying the token and the variant name.
pub open spec fn conv_result(ty: ArgumentType, action: Seq<char>, tok: Seq<char>) -> Result<
    ScalarV,
    ErrorV,
> {
    match ty {
        ArgumentType::String => Ok(ScalarV::Str(tok)),
        ArgumentType::Integer(it) => match int_token_val(tok) {
            Some(v) => if int_min(it) <= v && v <= int_max(it) {
                Ok(
                    if is_signed(it) {
                        ScalarV::Signed(v)
                    } else {
                        ScalarV::Unsigned(v)
                    },
                )
            } else {
                Err(ErrorV::ParseIntError { action, token: tok })
            },
            None => Err(ErrorV::ParseIntError { action, token: tok }),
        },
        ArgumentType::Float(_) => if is_float_token(tok) {
            Ok(ScalarV::Float(tok))
        } else {
            Err(ErrorV::ParseFloatError { action, token: tok })
        },
        ArgumentType::Bool => match bool_token(tok) {
            Some(b) => Ok(ScalarV::Bool(b)),
            None => Err(ErrorV::ParseBoolError { action, token: tok }),
        },
    }
}

/// The remaining tokens joined with single spaces.
pub open spec fn join_spaces(toks: Seq<Seq<char>>) -> Seq<char>
    decreases toks.len(),
{
    if toks.len() == 0 {
        Seq::empty()
    } else if toks.len() == 1 {
        toks[0]
    } else {
        toks[0] + seq![' '] + join_spaces(toks.drop_first())
    }
}

/// Element-wise conversion of the tokens a variadic parameter collects; the
/// first failure aborts the whole resolution with that element's error.
pub open spec fn conv_list(ty: ArgumentType, action: Seq<char>, toks: Seq<Seq<char>>) -> Result<
    Seq<ScalarV>,
    ErrorV,
>
    decreases toks.len(),
{
    if toks.len() == 0 {
        Ok(Seq::empty())
    } else {
        match conv_result(ty, action, toks[0]) {
            Err(e) => Err(e),
            Ok(v) => match conv_list(ty, action, toks.drop_first()) {
                Err(e) => Err(e),
                Ok(vs) => Ok(seq![v] + vs),
            },
        }
    }
}

/// Prepends one resolved value to the outcome of walking the rest.
pub open spec fn cons_val(v: ArgValueV, r: Result<Seq<ArgValueV>, ErrorV>) -> Result<
    Seq<ArgValueV>,
    ErrorV,
> {
    match r {
        Ok(vs) => Ok(seq![v] + vs),
        Err(e) => Err(e),
    }
}

/// Prepends already-resolved values to the outcome of walking the rest.
pub open spec fn cons_vals(pre: Seq<ArgValueV>, r: Result<Seq<ArgValueV>, ErrorV>) -> Result<
    Seq<ArgValueV>,
    ErrorV,
> {
    match r {
        Ok(vs) => Ok(pre + vs),
        Err(e) => Err(e),
    }
}

/// How many of the parameters are required.
pub open spec fn count_required(args: Seq<OrderedArgument>) -> int
    decreases args.len(),
{
    if args.len() == 0 {
        0
    } else {
        count_required(args.drop_last()) + if args.last().wrap_type == WrapType::Required {
            1int
        } else {
            0int
        }
    }
}

/// The left-to-right walk of a variant's parameters over the argument words.
/// Once a word is consumed for one parameter it is never reconsidered for the
/// next: there is no backtracking. A last `String` parameter joins all
/// remaining words; an optional parameter is omitted rather than failing when
/// the words run out; a variadic parameter collects everything left. Words
/// left over once no parameter can consume them are an error.
pub open spec fn walk_args(
    args: Seq<OrderedArgument>,
    action: Seq<char>,
    toks: Seq<Seq<char>>,
    expected: int,
    given: int,
) -> Result<Seq<ArgValueV>, ErrorV>
    decreases args.len(),
{
    if args.len() == 0 {
        if toks.len() > 0 {
            Err(ErrorV::TooManyArguments(action))
        } else {
            Ok(Seq::empty())
        }
    } else {
        let a = args[0];
        let last = args.len() == 1;
        match a.wrap_type {
            WrapType::Required => if a.argument_type == ArgumentType::String && last {
                Ok(seq![ArgValueV::Given(ScalarV::Str(join_spaces(toks)))])
            } else if toks.len() == 0 {
                Err(ErrorV::NotEnoughArguments { action, expected, given })
            } else {
                match conv_result(a.argument_type, action, toks[0]) {
                    Err(e) => Err(e),
                    Ok(v) => cons_val(
                        ArgValueV::Given(v),
                        walk_args(args.drop_first(), action, toks.drop_first(), expected, given),
                    ),
                }
            },
            WrapType::Optional => if toks.len() == 0 {
                cons_val(
                    ArgValueV::Omitted,
                    walk_args(args.drop_first(), action, toks, expected, given),
                )
            } else if a.argument_type == ArgumentType::String && last {
                Ok(seq![ArgValueV::Given(ScalarV::Str(join_spaces(toks)))])
            } else {
                match conv_result(a.argument_type, action, toks[0]) {
                    Err(e) => Err(e),
                    Ok(v) => cons_val(
                        ArgValueV::Given(v),
                        walk_args(args.drop_first(), action, toks.drop_first(), expected, given),
                    ),
                }
            },
            WrapType::Variadic => match conv_list(a.argument_type, action, toks) {
                Err(e) => Err(e),
                Ok(vs) => cons_val(
                    ArgValueV::List(vs),
                    walk_args(args.drop_first(), action, Seq::empty(), expected, given),
                ),
            },
        }
    }
}

/// The first variant at or after position `i` whose name matches the word
/// case-insensitively.
pub open spec fn find_variant_at(vs: Seq<VariantSpecV>, word: Seq<char>, i: int) -> Option<int>
    decreases vs.len() - i,
    when 0 <= i <= vs.len()
{
    if i >= vs.len() {
        None
    } else if ieq(vs[i].name, word) {
        Some(i)
    } else {
        find_variant_at(vs, word, i + 1)
    }
}

/// The first variant whose name matches the word case-insensitively.
pub open spec fn find_variant(vs: Seq<VariantSpecV>, word: Seq<char>) -> Option<int> {
    find_variant_at(vs, word, 0)
}

/// Resolution of an already-tokenized command line: no words is a distinct
/// condition; the first word selects the variant case-insensitively; the
/// remaining words are walked against its parameters.
pub open spec fn resolve_tokens(vs: Seq<VariantSpecV>, toks: Seq<Seq<char>>) -> Result<
    ResolvedActionV,
    ErrorV,
> {
    if toks.len() == 0 {
        Err(ErrorV::NoActionGiven)
    } else {
        match find_variant(vs, toks[0]) {
            None => Err(ErrorV::UnknownAction { action: toks[0] }),
            Some(i) => {
                let v = vs[i];
                let rest = toks.drop_first();
                match walk_args(v.args, v.name, rest, count_required(v.args), rest.len() as int) {
                    Err(e) => Err(e),
                    Ok(vals) => Ok(ResolvedActionV { variant: i, args: vals }),
                }
            },
        }
    }
}

/// Resolution of a raw command line: tokenize, then resolve the tokens.
pub open spec fn resolve_line(vs: Seq<VariantSpecV>, line: Seq<char>) -> Result<
    ResolvedActionV,
    ErrorV,
> {
    match crate::parse::tokens_of(line) {
        None => Err(ErrorV::TokenizeError),
        Some(toks) => resolve_tokens(vs, toks),
    }
}

/// Builds the scalar for an integer parameter from a sign and a magnitude
/// that fit the declared width.
fn int_scalar(t: IntType, neg: bool, mag: u128) -> (r: Scalar)
    requires
        ({
            let v = if neg {
                -(mag as int)
            } else {
                mag as int
            };
            int_min(t) <= v <= int_max(t)
        }),
    ensures
        r@ == ({
            let v = if neg {
                -(mag as int)
            } else {
                mag as int
            };
            if is_signed(t) {
                ScalarV::Signed(v)
            } else {
                ScalarV::Unsigned(v)
            }
        }),
{
    match t {
        IntType::U8 | IntType::U16 | IntType::U32 | IntType::U64 | IntType::U128
        | IntType::USize => Scalar::Unsigned(mag),
        IntType::I8 | IntType::I16 | IntType::I32 | IntType::I64 | IntType::I128
        | IntType::ISize => {
            if neg {
                if mag == 0 {
                    Scalar::Signed(0)
                } else {
                    Scalar::Signed(-((mag - 1) as i128) - 1)
                }
            } else {
                Scalar::Signed(mag as i128)
            }
        },
    }
}

/// Converts one token at one scalar type, or reports the matching parse
/// error, carrying the token and the variant name.
fn convert(ty: ArgumentType, action: &String, tok: &String) -> (r: Result<Scalar, Error>)
    ensures
        match r {
            Ok(v) => conv_result(ty, action@, tok@) == Ok::<ScalarV, ErrorV>(v@),
            Err(e) => conv_result(ty, action@, tok@) == Err::<ScalarV, ErrorV>(e@),
        },
{
    match ty {
        ArgumentType::String => Ok(Scalar::Str(tok.clone())),
        ArgumentType::Integer(it) => {
            match crate::coerce::parse_int_token(tok.as_str()) {
                Some(p) => {
                    let (neg, mag) = p;
                    if crate::coerce::int_fits(it, neg, mag) {
                        Ok(int_scalar(it, neg, mag))
                    } else {
                        Err(Error::ParseIntError { action: action.clone(), token: tok.clone() })
                    }
                },
                None => {
                    proof {
                        assert(int_max(it) <= u128::MAX as int);
                        assert(int_min(it) >= -(u128::MAX as int));
                    }
                    Err(Error::ParseIntError { action: action.clone(), token: tok.clone() })
                },
            }
        },
        ArgumentType::Float(_) => {
            if crate::coerce::is_float(tok.as_str()) {
                Ok(Scalar::Float(tok.clone()))
            } else {
                Err(Error::ParseFloatError { action: action.clone(), token: tok.clone() })
            }
        },
        ArgumentType::Bool => {
            match crate::parse_bool(tok.as_str()) {
                Some(b) => Ok(Scalar::Bool(b)),
                None => Err(Error::ParseBoolError { action: action.clone(), token: tok.clone() }),
            }
        },
    }
}

/// Joins the tokens from `start` on with single spaces.
fn join_tokens(toks: &Vec<String>, start: usize) -> (r: String)
    requires
        start <= toks@.len(),
    ensures
        r@ == join_spaces(toks.deep_view().skip(start as int)),
{
    let ghost tdv = toks.deep_view();
    let len = toks.len();
    let mut out = String::new();
    if start >= len {
        proof {
            assert(tdv.skip(start as int) =~= Seq::<Seq<char>>::empty());
        }
        return out;
    }
    out.append(toks[start].as_str());
    let mut i = start + 1;
    proof {
        assert(out@ =~= tdv[start as int]);
        if i < len {
            assert(tdv.skip(start as int).drop_first() =~= tdv.skip(start + 1));
        } else {
            assert(tdv.skip(start as int) =~= seq![tdv[start as int]]);
        }
    }
    while i < len
        invariant
            start + 1 <= i <= len,
            len == toks@.len(),
            tdv == toks.deep_view(),
            i < len ==> join_spaces(tdv.skip(start as int)) == out@ + seq![' '] + join_spaces(
                tdv.skip(i as int),
            ),
            i == len ==> join_spaces(tdv.skip(start as int)) == out@,
        decreases len - i,
    {
        let ghost out0 = out@;
        out.append(" ");
        out.append(toks[i].as_str());
        proof {
            reveal_strlit(" ");
            assert(" "@ =~= seq![' ']);
            assert(out@ =~= out0 + seq![' '] + tdv[i as int]);
            if i + 1 < len {
                assert(tdv.skip(i as int).drop_first() =~= tdv.skip(i + 1));
                assert(join_spaces(tdv.skip(i as int)) == tdv[i as int] + seq![' ']
                    + join_spaces(tdv.skip(i + 1)));
                assert(out0 + seq![' '] + (tdv[i as int] + seq![' '] + join_spaces(
                    tdv.skip(i + 1),
                )) =~= out@ + seq![' '] + join_spaces(tdv.skip(i + 1)));
            } else {
                assert(tdv.skip(i as int) =~= seq![tdv[i as int]]);
                assert(join_spaces(tdv.skip(i as int)) == tdv[i as int]);
                assert(out0 + seq![' '] + tdv[i as int] =~= out@);
            }
        }
        i += 1;
    }
    out
}

/// Counts the required parameters.
fn count_required_args(args: &Vec<OrderedArgument>) -> (n: usize)
    ensures
        n as int == count_required(args@),
        n <= args@.len(),
{
    let len = args.len();
    let mut n: usize = 0;
    let mut k: usize = 0;
    while k < len
        invariant
            0 <= k <= len,
            len == args@.len(),
            n <= k,
            n as int == count_required(args@.subrange(0, k as int)),
        decreases len - k,
    {
        proof {
            assert(args@.subrange(0, k + 1).drop_last() =~= args@.subrange(0, k as int));
        }
        if matches!(args[k].wrap_type, WrapType::Required) {
            n += 1;
        }
        k += 1;
    }
    proof {
        assert(args@.subrange(0, len as int) =~= args@);
    }
    n
}

/// Finds the variant whose name matches the word case-insensitively.
fn find_variant_index(schema: &ActionSchema, word: &String) -> (r: Option<usize>)
    ensures
        match r {
            Some(i) => i < schema@.len() && find_variant(schema@, word@) == Some(i as int),
            None => find_variant(schema@, word@) is None,
        },
{
    let n = schema.variant_count();
    let mut vi: usize = 0;
    while vi < n
        invariant
            0 <= vi <= n,
            n == schema@.len(),
            find_variant(schema@, word@) == find_variant_at(schema@, word@, vi as int),
        decreases n - vi,
    {
        if crate::text::str_ieq(schema.variant_at(vi).name.as_str(), word.as_str()) {
            return Some(vi);
        }
        vi += 1;
    }
    None
}

/// Converts every token from `start` on at one scalar type, for a variadic
/// parameter; the first failure aborts with that element's error.
fn convert_list(ty: ArgumentType, action: &String, toks: &Vec<String>, start: usize) -> (r: Result<
    Vec<Scalar>,
    Error,
>)
    requires
        start <= toks@.len(),
    ensures
        match r {
            Ok(vs) => conv_list(ty, action@, toks.deep_view().skip(start as int)) == Ok::<
                Seq<ScalarV>,
                ErrorV,
            >(svals_view(vs@)),
            Err(e) => conv_list(ty, action@, toks.deep_view().skip(start as int)) == Err::<
                Seq<ScalarV>,
                ErrorV,
            >(e@),
        },
{
    let ghost tdv = toks.deep_view();
    let tlen = toks.len();
    let mut lv: Vec<Scalar> = Vec::new();
    let mut tj = start;
    proof {
        assert(svals_view(lv@) =~= Seq::<ScalarV>::empty());
    }
    while tj < tlen
        invariant
            start <= tj <= tlen,
            tlen == tdv.len(),
            tdv == toks.deep_view(),
            conv_list(ty, action@, tdv.skip(start as int)) == scal_cons(
                svals_view(lv@),
                conv_list(ty, action@, tdv.skip(tj as int)),
            ),
        decreases tlen - tj,
    {
        proof {
            assert(tdv.skip(tj as int)[0] == tdv[tj as int]);
            assert(tdv.skip(tj as int).drop_first() =~= tdv.skip(tj + 1));
        }
        match convert(ty, action, &toks[tj]) {
            Err(e) => {
                proof {
                    assert(conv_list(ty, action@, tdv.skip(tj as int)) == Err::<
                        Seq<ScalarV>,
                        ErrorV,
                    >(e@));
                }
                return Err(e);
            },
            Ok(sv) => {
                let ghost svv = sv@;
                let ghost lv0 = svals_view(lv@);
                lv.push(sv);
                proof {
                    assert(svals_view(lv@) =~= lv0.push(svv));
                    let tail = conv_list(ty, action@, tdv.skip(tj + 1));
                    if let Ok(vs) = tail {
                        assert(lv0 + (seq![svv] + vs) =~= lv0.push(svv) + vs);
                    }
                }
                tj += 1;
            },
        }
    }
    proof {
        assert(tdv.skip(tj as int).len() == 0);
        assert(conv_list(ty, action@, tdv.skip(tj as int)) == Ok::<Seq<ScalarV>, ErrorV>(
            Seq::empty(),
        ));
        assert(svals_view(lv@) + Seq::<ScalarV>::empty() =~= svals_view(lv@));
    }
    Ok(lv)
}

/// Resolves a raw command line against the schema: tokenizes it, matches the
/// leading word to a variant case-insensitively, walks the remaining words
/// against that variant's parameters, and returns the resolved action or the
/// structured error that `resolve_line` specifies for this input.
pub fn resolve(schema: &ActionSchema, line: &str) -> (r: Result<ResolvedAction, Error>)
    ensures
        match r {
            Ok(a) => resolve_line(schema@, line@) == Ok::<ResolvedActionV, ErrorV>(a@),
            Err(e) => resolve_line(schema@, line@) == Err::<ResolvedActionV, ErrorV>(e@),
        },
{
    let toks = match crate::parse::tokenize(line) {
        Ok(t) => t,
        Err(e) => {
            return Err(e);
        },
    };
    let ghost tdv = toks.deep_view();
    if toks.len() == 0 {
        return Err(Error::NoActionGiven);
    }
    let vi = match find_variant_index(schema, &toks[0]) {
        None => {
            return Err(Error::UnknownAction { action: toks[0].clone() });
        },
        Some(vi) => vi,
    };
    let v = schema.variant_at(vi);
    let ghost gargs = v@.args;
    let ghost name_v = v@.name;
    let ghost rest = tdv.skip(1);
    let expected = count_required_args(&v.args);
    let tlen = toks.len();
    let given = tlen - 1;
    let nargs = v.args.len();
    let mut vals: Vec<ArgValue> = Vec::new();
    let mut pi: usize = 0;
    let mut ti: usize = 1;
    proof {
        assert(rest.len() == given as int);
        assert(rest =~= tdv.skip(1));
        assert(avals_view(vals@) =~= Seq::<ArgValueV>::empty());
        assert(cons_vals(avals_view(vals@), walk_args(gargs, name_v, rest, expected as int, given as int))
            == walk_args(gargs, name_v, rest, expected as int, given as int)) by {
            if let Ok(vs) = walk_args(gargs, name_v, rest, expected as int, given as int) {
                assert(avals_view(vals@) + vs =~= vs);
            }
        }
        assert(gargs.skip(0) =~= gargs);
    }
    loop
        invariant
            0 <= pi <= nargs,
            1 <= ti <= tlen,
            nargs == gargs.len(),
            tlen == tdv.len(),
            tdv == toks.deep_view(),
            tdv.len() > 0,
            v@ == schema@[vi as int],
            vi < schema@.len(),
            gargs == v.args@,
            name_v == v.name@,
            rest == tdv.skip(1),
            expected as int == count_required(gargs),
            given as int == rest.len(),
            find_variant(schema@, tdv[0]) == Some(vi as int),
            resolve_line(schema@, line@) == resolve_tokens(schema@, tdv),
            walk_args(gargs, name_v, rest, expected as int, given as int) == cons_vals(
                avals_view(vals@),
                walk_args(
                    gargs.skip(pi as int),
                    name_v,
                    tdv.skip(ti as int),
                    expected as int,
                    given as int,
                ),
            ),
        decreases nargs - pi,
    {
        let ghost residual = walk_args(
            gargs.skip(pi as int),
            name_v,
            tdv.skip(ti as int),
            expected as int,
            given as int,
        );
        if pi >= nargs {
            proof {
                assert(gargs.skip(pi as int) =~= Seq::<OrderedArgument>::empty());
            }
            if ti < tlen {
                proof {
                    assert(tdv.skip(ti as int).len() > 0);
                    assert(residual == Err::<Seq<ArgValueV>, ErrorV>(
                        ErrorV::TooManyArguments(name_v),
                    ));
                }
                return Err(Error::TooManyArguments(v.name.clone()));
            }
            proof {
                assert(tdv.skip(ti as int).len() == 0);
                assert(residual == Ok::<Seq<ArgValueV>, ErrorV>(Seq::empty()));
                assert(avals_view(vals@) + Seq::<ArgValueV>::empty() =~= avals_view(vals@));
            }
            return Ok(ResolvedAction { variant: vi, args: vals });
        }
        let a = v.args[pi];
        let last = pi + 1 == nargs;
        proof {
            assert(gargs.skip(pi as int)[0] == gargs[pi as int]);
            assert(gargs.skip(pi as int).drop_first() =~= gargs.skip(pi + 1));
            assert(gargs.skip(pi as int).len() == nargs - pi);
            if ti < tlen {
                assert(tdv.skip(ti as int)[0] == tdv[ti as int]);
                assert(tdv.skip(ti as int).drop_first() =~= tdv.skip(ti + 1));
            }
        }
        let ghost vals0 = avals_view(vals@);
        match a.wrap_type {
            WrapType::Required => {
                if matches!(a.argument_type, ArgumentType::String) && last {
                    let joined = join_tokens(&toks, ti);
                    proof {
                        assert(residual == Ok::<Seq<ArgValueV>, ErrorV>(
                            seq![ArgValueV::Given(ScalarV::Str(join_spaces(tdv.skip(ti as int))))],
                        ));
                    }
                    vals.push(ArgValue::Given(Scalar::Str(joined)));
                    proof {
                        assert(avals_view(vals@) =~= vals0.push(
                            ArgValueV::Given(ScalarV::Str(joined@)),
                        ));
                        assert(vals0 + seq![ArgValueV::Given(ScalarV::Str(joined@))]
                            =~= avals_view(vals@));
                        assert(gargs.skip(nargs as int) =~= Seq::<OrderedArgument>::empty());
                        assert(tdv.skip(tlen as int) =~= Seq::<Seq<char>>::empty());
                        assert(avals_view(vals@) + Seq::<ArgValueV>::empty() =~= avals_view(
                            vals@,
                        ));
                    }
                    ti = tlen;
                    pi += 1;
                } else if ti >= tlen {
                    proof {
                        assert(tdv.skip(ti as int).len() == 0);
                        assert(residual == Err::<Seq<ArgValueV>, ErrorV>(
                            ErrorV::NotEnoughArguments {
                                action: name_v,
                                expected: expected as int,
                                given: given as int,
                            },
                        ));
                    }
                    return Err(
                        Error::NotEnoughArguments { action: v.name.clone(), expected, given },
                    );
                } else {
                    match convert(a.argument_type, &v.name, &toks[ti]) {
                        Err(e) => {
                            return Err(e);
                        },
                        Ok(sv) => {
                            proof {
                                assert(conv_result(a.argument_type, name_v, tdv[ti as int])
                                    == Ok::<ScalarV, ErrorV>(sv@));
                            }
                            let ghost svv = sv@;
                            vals.push(ArgValue::Given(sv));
                            proof {
                                assert(avals_view(vals@) =~= vals0.push(ArgValueV::Given(svv)));
                                lemma_cons_shift(
                                    vals0,
                                    ArgValueV::Given(svv),
                                    walk_args(
                                        gargs.skip(pi + 1),
                                        name_v,
                                        tdv.skip(ti + 1),
                                        expected as int,
                                        given as int,
                                    ),
                                );
                            }
                            ti += 1;
                            pi += 1;
                        },
                    }
                }
            },
            WrapType::Optional => {
                if ti >= tlen {
                    proof {
                        assert(tdv.skip(ti as int).len() == 0);
                    }
                    vals.push(ArgValue::Omitted);
                    proof {
                        assert(avals_view(vals@) =~= vals0.push(ArgValueV::Omitted));
                        lemma_cons_shift(
                            vals0,
                            ArgValueV::Omitted,
                            walk_args(
                                gargs.skip(pi + 1),
                                name_v,
                                tdv.skip(ti as int),
                                expected as int,
                                given as int,
                            ),
                        );
                    }
                    pi += 1;
                } else if matches!(a.argument_type, ArgumentType::String) && last {
                    let joined = join_tokens(&toks, ti);
                    proof {
                        assert(tdv.skip(ti as int).len() > 0);
                        assert(residual == Ok::<Seq<ArgValueV>, ErrorV>(
                            seq![ArgValueV::Given(ScalarV::Str(join_spaces(tdv.skip(ti as int))))],
                        ));
                    }
                    vals.push(ArgValue::Given(Scalar::Str(joined)));
                    proof {
                        assert(avals_view(vals@) =~= vals0.push(
                            ArgValueV::Given(ScalarV::Str(joined@)),
                        ));
                        assert(vals0 + seq![ArgValueV::Given(ScalarV::Str(joined@))]
                            =~= avals_view(vals@));
                        assert(gargs.skip(nargs as int) =~= Seq::<OrderedArgument>::empty());
                        assert(tdv.skip(tlen as int) =~= Seq::<Seq<char>>::empty());
                        assert(avals_view(vals@) + Seq::<ArgValueV>::empty() =~= avals_view(
                            vals@,
                        ));
                    }
                    ti = tlen;
                    pi += 1;
                } else {
                    match convert(a.argument_type, &v.name, &toks[ti]) {
                        Err(e) => {
                            return Err(e);
                        },
                        Ok(sv) => {
                            let ghost svv = sv@;
                            vals.push(ArgValue::Given(sv));
                            proof {
                                assert(avals_view(vals@) =~= vals0.push(ArgValueV::Given(svv)));
                                lemma_cons_shift(
                                    vals0,
                                    ArgValueV::Given(svv),
                                    walk_args(
                                        gargs.skip(pi + 1),
                                        name_v,
                                        tdv.skip(ti + 1),
                                        expected as int,
                                        given as int,
                                    ),
                                );
                            }
                            ti += 1;
                            pi += 1;
                        },
                    }
                }
            },
            WrapType::Variadic => {
                let lv = match convert_list(a.argument_type, &v.name, &toks, ti) {
                    Err(e) => {
                        proof {
                            assert(residual == Err::<Seq<ArgValueV>, ErrorV>(e@));
                        }
                        return Err(e);
                    },
                    Ok(lv) => lv,
                };
                let ghost lvv = svals_view(lv@);
                vals.push(ArgValue::List(lv));
                proof {
                    assert(avals_view(vals@) =~= vals0.push(ArgValueV::List(lvv)));
                    assert(gargs.skip(pi as int).drop_first() =~= gargs.skip(pi + 1));
                    lemma_cons_shift(
                        vals0,
                        ArgValueV::List(lvv),
                        walk_args(
                            gargs.skip(pi + 1),
                            name_v,
                            Seq::empty(),
                            expected as int,
                            given as int,
                        ),
                    );
                    assert(tdv.skip(tlen as int) =~= Seq::<Seq<char>>::empty());
                }
                ti = tlen;
                pi += 1;
            },
        }
    }
}

/// The scalar-list counterpart of [`cons_vals`].
pub open spec fn scal_cons(pre: Seq<ScalarV>, r: Result<Seq<ScalarV>, ErrorV>) -> Result<
    Seq<ScalarV>,
    ErrorV,
> {
    match r {
        Ok(vs) => Ok(pre + vs),
        Err(e) => Err(e),
    }
}

proof fn lemma_cons_shift(pre: Seq<ArgValueV>, v: ArgValueV, r: Result<Seq<ArgValueV>, ErrorV>)
    ensures
        cons_vals(pre, cons_val(v, r)) == cons_vals(pre.push(v), r),
{
    if let Ok(vs) = r {
        assert(pre + (seq![v] + vs) =~= pre.push(v) + vs);
    }
}

} // verus!
