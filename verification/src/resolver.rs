use vstd::prelude::*;

use vstd::seq_lib::lemma_multiset_commutative;

use crate::expr::{
    spec_eval, flags_map, eval_expr, Declaration, EvalOutcome, FlagError, FlagExpr, ResolvedFlag,
    VariantDecl,
};

verus! {

/// One full pass of fixpoint resolution over the unresolved declarations,
/// in order. A declaration that evaluates is appended to the resolved
/// flags (and is visible to the declarations after it in the same pass);
/// one that defers is kept for a later pass; an invalid expression aborts
/// the pass with a hard error blaming that declaration.
pub open spec fn spec_pass(
    set_name: Seq<char>,
    unres: Seq<Declaration>,
    rs: Seq<ResolvedFlag>,
) -> Result<(Seq<Declaration>, Seq<ResolvedFlag>), FlagError>
    decreases unres.len(),
{
    if unres.len() == 0 {
        Ok((Seq::empty(), rs))
    } else {
        let d = unres[0];
        match spec_eval(set_name, d.expr, flags_map(rs)) {
            EvalOutcome::Invalid => Err(FlagError::InvalidExpression { name: d.name }),
            EvalOutcome::Resolved(v) => spec_pass(
                set_name,
                unres.drop_first(),
                rs.push(ResolvedFlag { name: d.name, value: v }),
            ),
            EvalOutcome::Deferred => match spec_pass(set_name, unres.drop_first(), rs) {
                Ok((u2, r2)) => Ok((seq![d] + u2, r2)),
                Err(e) => Err(e),
            },
        }
    }
}

/// A pass never returns more unresolved declarations than it was given.
pub proof fn lemma_spec_pass_len(set_name: Seq<char>, unres: Seq<Declaration>, rs: Seq<ResolvedFlag>)
    ensures
        spec_pass(set_name, unres, rs) matches Ok(p) ==> p.0.len() <= unres.len(),
    decreases unres.len(),
{
    if unres.len() == 0 {
    } else {
        let d = unres[0];
        match spec_eval(set_name, d.expr, flags_map(rs)) {
            EvalOutcome::Invalid => {},
            EvalOutcome::Resolved(v) => {
                lemma_spec_pass_len(
                    set_name,
                    unres.drop_first(),
                    rs.push(ResolvedFlag { name: d.name, value: v }),
                );
            },
            EvalOutcome::Deferred => {
                lemma_spec_pass_len(set_name, unres.drop_first(), rs);
            },
        }
    }
}

/// Fixpoint iteration: passes repeat until one makes no progress. If
/// declarations are then still unresolved, resolution fails blaming the
/// first of them in declaration order; otherwise the resolved flags are
/// the result.
pub open spec fn spec_fix(
    set_name: Seq<char>,
    unres: Seq<Declaration>,
    rs: Seq<ResolvedFlag>,
) -> Result<Seq<ResolvedFlag>, FlagError>
    decreases unres.len(),
{
    match spec_pass(set_name, unres, rs) {
        Err(e) => Err(e),
        Ok((u2, r2)) => if u2.len() == unres.len() {
            if u2.len() == 0 {
                Ok(r2)
            } else {
                Err(FlagError::UnresolvedDiscriminant { name: u2[0].name })
            }
        } else {
            proof {
                lemma_spec_pass_len(set_name, unres, rs);
            }
            spec_fix(set_name, u2, r2)
        },
    }
}

/// Resolution of a declaration list: fixpoint iteration starting from no
/// resolved flags. The result is a function of the declaration list (and
/// the enclosing set's name) alone.
pub open spec fn spec_resolve(set_name: Seq<char>, decls: Seq<Declaration>) -> Result<
    Seq<ResolvedFlag>,
    FlagError,
> {
    spec_fix(set_name, decls, Seq::empty())
}

/// Collection of the source variants into declarations, in order: a
/// variant with fields is a hard error; one without discriminant syntax
/// becomes `Implicit`.
pub open spec fn spec_collect(vs: Seq<VariantDecl>) -> Result<Seq<Declaration>, FlagError>
    decreases vs.len(),
{
    if vs.len() == 0 {
        Ok(Seq::empty())
    } else {
        let v = vs[0];
        if !v.is_unit {
            Err(FlagError::NonUnitVariant { name: v.name })
        } else {
            let d = Declaration {
                name: v.name,
                expr: match v.discriminant {
                    Option::Some(e) => e,
                    Option::None => FlagExpr::Implicit,
                },
            };
            match spec_collect(vs.drop_first()) {
                Ok(ds) => Ok(seq![d] + ds),
                Err(e) => Err(e),
            }
        }
    }
}

/// Runs one resolution pass: evaluates each unresolved declaration in
/// order against the flags resolved so far, appending those that resolve
/// and returning those that defer.
#[verifier::loop_isolation(false)]
fn run_pass(set_name: &String, unres: Vec<Declaration>, resolved: &mut Vec<ResolvedFlag>) -> (r:
    Result<Vec<Declaration>, FlagError>)
    ensures
        match spec_pass(set_name@, unres@, old(resolved)@) {
            Ok((u2, r2)) => r matches Ok(u) && u@ == u2 && final(resolved)@ == r2,
            Err(e) => r matches Err(e2) && e2 == e,
        },
{
    let ghost unres0 = unres@;
    let ghost rs0 = resolved@;
    let mut pending = unres;
    let mut remaining: Vec<Declaration> = Vec::new();
    while pending.len() > 0
        invariant
            spec_pass(set_name@, unres0, rs0) == (match spec_pass(
                set_name@,
                pending@,
                resolved@,
            ) {
                Ok((u2, r2)) => Ok::<(Seq<Declaration>, Seq<ResolvedFlag>), FlagError>(
                    (remaining@ + u2, r2),
                ),
                Err(e) => Err(e),
            }),
        decreases pending.len(),
    {
        let ghost pending_before = pending@;
        let d = pending.remove(0);
        proof {
            assert(pending@ =~= pending_before.drop_first());
            assert(d == pending_before[0]);
        }
        let outcome = eval_expr(set_name, &d.expr, resolved);
        match outcome {
            EvalOutcome::Resolved(v) => {
                resolved.push(ResolvedFlag { name: d.name, value: v });
            },
            EvalOutcome::Deferred => {
                let ghost remaining_before = remaining@;
                remaining.push(d);
                proof {
                    assert forall|u2: Seq<Declaration>|
                        remaining_before + (seq![d] + u2) =~= remaining@ + u2 by {}
                }
            },
            EvalOutcome::Invalid => {
                return Err(FlagError::InvalidExpression { name: d.name });
            },
        }
    }
    proof {
        assert(remaining@ + Seq::<Declaration>::empty() =~= remaining@);
    }
    Ok(remaining)
}

/// Resolves every declaration to a value by fixpoint iteration, or fails:
/// with `InvalidExpression` on a malformed discriminant, or with
/// `UnresolvedDiscriminant` blaming the first declaration (in declaration
/// order) still without a value once no pass makes progress.
#[verifier::loop_isolation(false)]
pub fn resolve(set_name: &String, decls: Vec<Declaration>) -> (r: Result<
    Vec<ResolvedFlag>,
    FlagError,
>)
    ensures
        match r {
            Ok(flags) => spec_resolve(set_name@, decls@) == Ok::<Seq<ResolvedFlag>, FlagError>(
                flags@,
            ),
            Err(e) => spec_resolve(set_name@, decls@) == Err::<Seq<ResolvedFlag>, FlagError>(e),
        },
{
    let ghost decls0 = decls@;
    let mut unres = decls;
    let mut rs: Vec<ResolvedFlag> = Vec::new();
    loop
        invariant
            spec_resolve(set_name@, decls0) == spec_fix(set_name@, unres@, rs@),
        decreases unres.len(),
    {
        let ghost unres_before = unres@;
        let ghost rs_before = rs@;
        let before = unres.len();
        match run_pass(set_name, unres, &mut rs) {
            Err(e) => {
                return Err(e);
            },
            Ok(u2) => {
                proof {
                    lemma_spec_pass_len(set_name@, unres_before, rs_before);
                }
                if u2.len() == before {
                    if u2.len() == 0 {
                        return Ok(rs);
                    } else {
                        let name = u2[0].name.clone();
                        return Err(FlagError::UnresolvedDiscriminant { name });
                    }
                }
                unres = u2;
            },
        }
    }
}

/// Collects the source variants into declarations, in order: the first
/// variant carrying fields is a hard error; a variant without discriminant
/// syntax becomes `Implicit`.
#[verifier::loop_isolation(false)]
pub fn collect(variants: Vec<VariantDecl>) -> (r: Result<Vec<Declaration>, FlagError>)
    ensures
        match r {
            Ok(ds) => spec_collect(variants@) == Ok::<Seq<Declaration>, FlagError>(ds@),
            Err(e) => spec_collect(variants@) == Err::<Seq<Declaration>, FlagError>(e),
        },
{
    let mut pending = variants;
    let mut out: Vec<Declaration> = Vec::new();
    while pending.len() > 0
        invariant
            spec_collect(variants@) == (match spec_collect(pending@) {
                Ok(ds) => Ok::<Seq<Declaration>, FlagError>(out@ + ds),
                Err(e) => Err(e),
            }),
        decreases pending.len(),
    {
        let ghost pending_before = pending@;
        let v = pending.remove(0);
        proof {
            assert(pending@ =~= pending_before.drop_first());
            assert(v == pending_before[0]);
        }
        if !v.is_unit {
            return Err(FlagError::NonUnitVariant { name: v.name });
        }
        let expr = match v.discriminant {
            Option::Some(e) => e,
            Option::None => FlagExpr::Implicit,
        };
        let d = Declaration { name: v.name, expr };
        let ghost d0 = d;
        let ghost out_before = out@;
        out.push(d);
        proof {
            assert forall|ds: Seq<Declaration>| out_before + (seq![d0] + ds) =~= out@ + ds by {}
        }
    }
    proof {
        assert(out@ + Seq::<Declaration>::empty() =~= out@);
    }
    Ok(out)
}

/// The names of a declaration list, in order.
pub open spec fn decl_names(ds: Seq<Declaration>) -> Seq<Seq<char>> {
    ds.map_values(|d: Declaration| d.name@)
}

/// The names of a resolved-flag list, in order.
pub open spec fn flag_names(rs: Seq<ResolvedFlag>) -> Seq<Seq<char>> {
    rs.map_values(|f: ResolvedFlag| f.name@)
}

/// The names of a variant list, in order.
pub open spec fn variant_names(vs: Seq<VariantDecl>) -> Seq<Seq<char>> {
    vs.map_values(|v: VariantDecl| v.name@)
}

/// Collection keeps the variant names, in order.
pub proof fn lemma_collect_names(vs: Seq<VariantDecl>)
    ensures
        spec_collect(vs) matches Ok(ds) ==> decl_names(ds) == variant_names(vs),
    decreases vs.len(),
{
    if vs.len() == 0 {
        assert(decl_names(Seq::<Declaration>::empty()) =~= variant_names(vs));
    } else {
        let v = vs[0];
        if v.is_unit {
            lemma_collect_names(vs.drop_first());
            let d = Declaration {
                name: v.name,
                expr: match v.discriminant {
                    Option::Some(e) => e,
                    Option::None => FlagExpr::Implicit,
                },
            };
            match spec_collect(vs.drop_first()) {
                Ok(ds) => {
                    assert(decl_names(seq![d] + ds) =~= seq![v.name@] + decl_names(ds));
                    assert(variant_names(vs) =~= seq![v.name@] + variant_names(vs.drop_first()));
                    assert(decl_names(seq![d] + ds) =~= variant_names(vs));
                },
                Err(_) => {},
            }
        }
    }
}

/// A pass moves names from the unresolved declarations to the resolved
/// flags: together they keep exactly the names they had.
pub proof fn lemma_pass_names(set_name: Seq<char>, unres: Seq<Declaration>, rs: Seq<ResolvedFlag>)
    ensures
        spec_pass(set_name, unres, rs) matches Ok(p) ==> (flag_names(p.1)
            + decl_names(p.0)).to_multiset() == (flag_names(rs) + decl_names(unres)).to_multiset(),
    decreases unres.len(),
{
    broadcast use vstd::multiset::group_multiset_axioms;

    if unres.len() == 0 {
        assert(decl_names(unres) =~= Seq::<Seq<char>>::empty());
        assert(decl_names(Seq::<Declaration>::empty()) =~= Seq::<Seq<char>>::empty());
        assert(flag_names(rs) + decl_names(unres) =~= flag_names(rs) + decl_names(
            Seq::<Declaration>::empty(),
        ));
    } else {
        let d = unres[0];
        match spec_eval(set_name, d.expr, flags_map(rs)) {
            EvalOutcome::Invalid => {},
            EvalOutcome::Resolved(v) => {
                let rf = ResolvedFlag { name: d.name, value: v };
                lemma_pass_names(set_name, unres.drop_first(), rs.push(rf));
                assert(flag_names(rs.push(rf)) + decl_names(unres.drop_first()) =~= flag_names(rs)
                    + decl_names(unres));
            },
            EvalOutcome::Deferred => {
                lemma_pass_names(set_name, unres.drop_first(), rs);
                match spec_pass(set_name, unres.drop_first(), rs) {
                    Ok(p) => {
                        let a = flag_names(p.1);
                        let b = decl_names(p.0);
                        let n = seq![d.name@];
                        assert(decl_names(seq![d] + p.0) =~= n + b);
                        lemma_multiset_commutative(a, n + b);
                        lemma_multiset_commutative(n, b);
                        lemma_multiset_commutative(a, b);
                        lemma_multiset_commutative(flag_names(rs), decl_names(unres));
                        lemma_multiset_commutative(flag_names(rs), decl_names(unres.drop_first()));
                        assert(decl_names(unres) =~= n + decl_names(unres.drop_first()));
                        lemma_multiset_commutative(n, decl_names(unres.drop_first()));
                        assert forall|x: Seq<char>|
                            (a + (n + b)).to_multiset().count(x) == (flag_names(rs) + decl_names(
                                unres,
                            )).to_multiset().count(x) by {
                            assert((a + b).to_multiset().count(x) == (flag_names(rs) + decl_names(
                                unres.drop_first(),
                            )).to_multiset().count(x));
                        }
                        assert((a + (n + b)).to_multiset() =~= (flag_names(rs) + decl_names(
                            unres,
                        )).to_multiset());
                    },
                    Err(_) => {},
                }
            },
        }
    }
}

/// Fixpoint iteration gives the resolved flags exactly the names of the
/// declarations it was given, next to those already resolved.
pub proof fn lemma_fix_names(set_name: Seq<char>, unres: Seq<Declaration>, rs: Seq<ResolvedFlag>)
    ensures
        spec_fix(set_name, unres, rs) matches Ok(r) ==> flag_names(r).to_multiset() == (flag_names(
            rs,
        ) + decl_names(unres)).to_multiset(),
    decreases unres.len(),
{
    lemma_pass_names(set_name, unres, rs);
    lemma_spec_pass_len(set_name, unres, rs);
    match spec_pass(set_name, unres, rs) {
        Err(_) => {},
        Ok((u2, r2)) => {
            if u2.len() == unres.len() {
                if u2.len() == 0 {
                    assert(decl_names(u2) =~= Seq::<Seq<char>>::empty());
                    assert(flag_names(r2) + decl_names(u2) =~= flag_names(r2));
                }
            } else {
                lemma_fix_names(set_name, u2, r2);
            }
        },
    }
}

/// Resolution of declarations with pairwise distinct names yields resolved
/// flags with pairwise distinct names.
pub proof fn lemma_resolve_unique_names(set_name: Seq<char>, decls: Seq<Declaration>)
    requires
        decl_names(decls).no_duplicates(),
    ensures
        spec_resolve(set_name, decls) matches Ok(r) ==> flag_names(r).no_duplicates(),
{
    lemma_fix_names(set_name, decls, Seq::<ResolvedFlag>::empty());
    match spec_resolve(set_name, decls) {
        Ok(r) => {
            assert(flag_names(Seq::<ResolvedFlag>::empty()) =~= Seq::<Seq<char>>::empty());
            assert(flag_names(Seq::<ResolvedFlag>::empty()) + decl_names(decls) =~= decl_names(
                decls,
            ));
            decl_names(decls).lemma_multiset_has_no_duplicates();
            flag_names(r).lemma_multiset_has_no_duplicates_conv();
        },
        Err(_) => {},
    }
}

/// A pass only appends to the resolved flags.
pub proof fn lemma_pass_prefix(set_name: Seq<char>, unres: Seq<Declaration>, rs: Seq<ResolvedFlag>)
    ensures
        spec_pass(set_name, unres, rs) matches Ok(p) ==> rs.is_prefix_of(p.1),
    decreases unres.len(),
{
    if unres.len() == 0 {
        assert(rs =~= rs.subrange(0, rs.len() as int));
    } else {
        let d = unres[0];
        match spec_eval(set_name, d.expr, flags_map(rs)) {
            EvalOutcome::Invalid => {},
            EvalOutcome::Resolved(v) => {
                let rs1 = rs.push(ResolvedFlag { name: d.name, value: v });
                lemma_pass_prefix(set_name, unres.drop_first(), rs1);
                match spec_pass(set_name, unres.drop_first(), rs1) {
                    Ok(p) => {
                        assert(rs =~= p.1.subrange(0, rs.len() as int));
                    },
                    Err(_) => {},
                }
            },
            EvalOutcome::Deferred => {
                lemma_pass_prefix(set_name, unres.drop_first(), rs);
            },
        }
    }
}

/// Fixpoint iteration only appends to the resolved flags.
pub proof fn lemma_fix_prefix(set_name: Seq<char>, unres: Seq<Declaration>, rs: Seq<ResolvedFlag>)
    ensures
        spec_fix(set_name, unres, rs) matches Ok(r) ==> rs.is_prefix_of(r),
    decreases unres.len(),
{
    lemma_pass_prefix(set_name, unres, rs);
    lemma_spec_pass_len(set_name, unres, rs);
    match spec_pass(set_name, unres, rs) {
        Err(_) => {},
        Ok((u2, r2)) => {
            if u2.len() == unres.len() {
            } else {
                lemma_fix_prefix(set_name, u2, r2);
                match spec_fix(set_name, u2, r2) {
                    Ok(r) => {
                        assert(rs =~= r.subrange(0, rs.len() as int));
                    },
                    Err(_) => {},
                }
            }
        },
    }
}

/// Every declaration a pass hands back was among those it was given.
pub proof fn lemma_pass_elements(set_name: Seq<char>, unres: Seq<Declaration>, rs: Seq<ResolvedFlag>)
    ensures
        spec_pass(set_name, unres, rs) matches Ok(p) ==> forall|j: int|
            0 <= j < p.0.len() ==> unres.contains(p.0[j]),
    decreases unres.len(),
{
    if unres.len() == 0 {
    } else {
        let d = unres[0];
        assert(unres[0] == d);
        match spec_eval(set_name, d.expr, flags_map(rs)) {
            EvalOutcome::Invalid => {},
            EvalOutcome::Resolved(v) => {
                let rs1 = rs.push(ResolvedFlag { name: d.name, value: v });
                lemma_pass_elements(set_name, unres.drop_first(), rs1);
                match spec_pass(set_name, unres.drop_first(), rs1) {
                    Ok(p) => {
                        assert forall|j: int| 0 <= j < p.0.len() implies unres.contains(
                            p.0[j],
                        ) by {
                            let i = choose|i: int|
                                0 <= i < unres.drop_first().len() && unres.drop_first()[i]
                                    == p.0[j];
                            assert(unres[i + 1] == p.0[j]);
                        }
                    },
                    Err(_) => {},
                }
            },
            EvalOutcome::Deferred => {
                lemma_pass_elements(set_name, unres.drop_first(), rs);
                match spec_pass(set_name, unres.drop_first(), rs) {
                    Ok(p) => {
                        assert forall|j: int| 0 <= j < (seq![d] + p.0).len() implies unres.contains(
                            (seq![d] + p.0)[j],
                        ) by {
                            if j == 0 {
                                assert((seq![d] + p.0)[0] == d);
                            } else {
                                assert((seq![d] + p.0)[j] == p.0[j - 1]);
                                let i = choose|i: int|
                                    0 <= i < unres.drop_first().len() && unres.drop_first()[i]
                                        == p.0[j - 1];
                                assert(unres[i + 1] == p.0[j - 1]);
                            }
                        }
                    },
                    Err(_) => {},
                }
            },
        }
    }
}

/// The flag at position `i` of the resolved list is justified by the
/// declaration pool: some declaration there has its name, and that
/// declaration's expression evaluates to its value against exactly the
/// flags resolved before it.
pub open spec fn justified(
    set_name: Seq<char>,
    pool: Seq<Declaration>,
    r: Seq<ResolvedFlag>,
    i: int,
) -> bool {
    exists|j: int|
        0 <= j < pool.len() && pool[j].name@ == r[i].name@ && spec_eval(
            set_name,
            pool[j].expr,
            flags_map(r.take(i)),
        ) == EvalOutcome::Resolved(r[i].value)
}

/// Each flag a pass resolves is justified by the declarations it was
/// given.
pub proof fn lemma_pass_justified(set_name: Seq<char>, unres: Seq<Declaration>, rs: Seq<ResolvedFlag>)
    ensures
        spec_pass(set_name, unres, rs) matches Ok(p) ==> forall|i: int|
            rs.len() <= i < p.1.len() ==> #[trigger] justified(set_name, unres, p.1, i),
    decreases unres.len(),
{
    if unres.len() == 0 {
    } else {
        let d = unres[0];
        match spec_eval(set_name, d.expr, flags_map(rs)) {
            EvalOutcome::Invalid => {},
            EvalOutcome::Resolved(v) => {
                let rf = ResolvedFlag { name: d.name, value: v };
                let rs1 = rs.push(rf);
                lemma_pass_justified(set_name, unres.drop_first(), rs1);
                lemma_pass_prefix(set_name, unres.drop_first(), rs1);
                match spec_pass(set_name, unres.drop_first(), rs1) {
                    Ok(p) => {
                        assert forall|i: int| rs.len() <= i < p.1.len() implies #[trigger] justified(
                            set_name,
                            unres,
                            p.1,
                            i,
                        ) by {
                            if i == rs.len() {
                                assert(rs1 =~= p.1.subrange(0, rs1.len() as int));
                                assert(p.1.take(i) =~= rs);
                                assert(p.1[i] == rs1[i]);
                                assert(unres[0].name@ == p.1[i].name@ && spec_eval(
                                    set_name,
                                    unres[0].expr,
                                    flags_map(p.1.take(i)),
                                ) == EvalOutcome::Resolved(p.1[i].value));
                            } else {
                                assert(justified(set_name, unres.drop_first(), p.1, i));
                                let j = choose|j: int|
                                    0 <= j < unres.drop_first().len() && unres.drop_first()[
                                        j
                                    ].name@ == p.1[i].name@ && spec_eval(
                                        set_name,
                                        unres.drop_first()[j].expr,
                                        flags_map(p.1.take(i)),
                                    ) == EvalOutcome::Resolved(p.1[i].value);
                                assert(unres[j + 1] == unres.drop_first()[j]);
                            }
                        }
                    },
                    Err(_) => {},
                }
            },
            EvalOutcome::Deferred => {
                lemma_pass_justified(set_name, unres.drop_first(), rs);
                match spec_pass(set_name, unres.drop_first(), rs) {
                    Ok(p) => {
                        assert forall|i: int| rs.len() <= i < p.1.len() implies #[trigger] justified(
                            set_name,
                            unres,
                            p.1,
                            i,
                        ) by {
                            assert(justified(set_name, unres.drop_first(), p.1, i));
                            let j = choose|j: int|
                                0 <= j < unres.drop_first().len() && unres.drop_first()[j].name@
                                    == p.1[i].name@ && spec_eval(
                                    set_name,
                                    unres.drop_first()[j].expr,
                                    flags_map(p.1.take(i)),
                                ) == EvalOutcome::Resolved(p.1[i].value);
                            assert(unres[j + 1] == unres.drop_first()[j]);
                        }
                    },
                    Err(_) => {},
                }
            },
        }
    }
}

/// Each flag the fixpoint iteration resolves is justified by the
/// declarations it was given.
pub proof fn lemma_fix_justified(set_name: Seq<char>, unres: Seq<Declaration>, rs: Seq<ResolvedFlag>)
    ensures
        spec_fix(set_name, unres, rs) matches Ok(r) ==> forall|i: int|
            rs.len() <= i < r.len() ==> #[trigger] justified(set_name, unres, r, i),
    decreases unres.len(),
{
    lemma_spec_pass_len(set_name, unres, rs);
    lemma_pass_justified(set_name, unres, rs);
    lemma_pass_elements(set_name, unres, rs);
    match spec_pass(set_name, unres, rs) {
        Err(_) => {},
        Ok((u2, r2)) => {
            if u2.len() == unres.len() {
            } else {
                lemma_fix_justified(set_name, u2, r2);
                lemma_fix_prefix(set_name, u2, r2);
                match spec_fix(set_name, u2, r2) {
                    Ok(r) => {
                        assert(r2 =~= r.subrange(0, r2.len() as int));
                        assert forall|i: int| rs.len() <= i < r.len() implies #[trigger] justified(
                            set_name,
                            unres,
                            r,
                            i,
                        ) by {
                            if i < r2.len() {
                                assert(justified(set_name, unres, r2, i));
                                assert(r.take(i) =~= r2.take(i));
                                assert(r[i] == r2[i]);
                                let j = choose|j: int|
                                    0 <= j < unres.len() && unres[j].name@ == r2[i].name@
                                        && spec_eval(
                                        set_name,
                                        unres[j].expr,
                                        flags_map(r2.take(i)),
                                    ) == EvalOutcome::Resolved(r2[i].value);
                                assert(unres[j].name@ == r[i].name@ && spec_eval(
                                    set_name,
                                    unres[j].expr,
                                    flags_map(r.take(i)),
                                ) == EvalOutcome::Resolved(r[i].value));
                            } else {
                                assert(justified(set_name, u2, r, i));
                                let j2 = choose|j2: int|
                                    0 <= j2 < u2.len() && u2[j2].name@ == r[i].name@ && spec_eval(
                                        set_name,
                                        u2[j2].expr,
                                        flags_map(r.take(i)),
                                    ) == EvalOutcome::Resolved(r[i].value);
                                assert(unres.contains(u2[j2]));
                                let j = choose|j: int| 0 <= j < unres.len() && unres[j] == u2[j2];
                                assert(unres[j].name@ == r[i].name@ && spec_eval(
                                    set_name,
                                    unres[j].expr,
                                    flags_map(r.take(i)),
                                ) == EvalOutcome::Resolved(r[i].value));
                            }
                        }
                    },
                    Err(_) => {},
                }
            }
        },
    }
}

} // verus!
