use vstd::prelude::*;

use crate::expr::{
    flags_map, spec_eval, spec_self_marker, Declaration, EvalOutcome, FlagError, FlagExpr,
    ResolvedFlag,
};
use crate::flagset::{lemma_flags_map_contains, lemma_flags_map_prefix_submap};
use crate::resolver::{
    decl_names, flag_names, justified, lemma_fix_justified, lemma_fix_names,
    lemma_resolve_unique_names, spec_fix, spec_pass, spec_resolve,
};

verus! {

/// Resolution is deterministic: the final mapping is a function of the
/// declaration list (and the enclosing set's name) alone, so resolving the
/// same declarations again gives the same resolved flags, whatever order
/// any internal processing visits them in.
pub proof fn lemma_resolution_deterministic(
    name1: Seq<char>,
    decls1: Seq<Declaration>,
    name2: Seq<char>,
    decls2: Seq<Declaration>,
)
    requires
        name1 == name2,
        decls1 == decls2,
    ensures
        spec_resolve(name1, decls1) == spec_resolve(name2, decls2),
{
}

/// A forward reference resolves: a declaration standing before the
/// declaration it references still gets its value once the referenced
/// one resolves, here a self-qualified reference to a later literal.
pub proof fn lemma_forward_reference(set_name: Seq<char>, a: Declaration, b: Declaration, v: u128)
    requires
        a.expr matches FlagExpr::Reference(segs) && segs@.len() == 2 && (segs@[0]@ == set_name
            || segs@[0]@ == spec_self_marker()) && segs@[1]@ == b.name@,
        b.expr matches FlagExpr::Literal(lit) && lit == v,
        a.name@ != b.name@,
    ensures
        spec_resolve(set_name, seq![a, b]) == Ok::<Seq<ResolvedFlag>, FlagError>(
            seq![ResolvedFlag { name: b.name, value: v }, ResolvedFlag { name: a.name, value: v }],
        ),
{
    let rfb = ResolvedFlag { name: b.name, value: v };
    let rfa = ResolvedFlag { name: a.name, value: v };
    let e = Seq::<Declaration>::empty();
    let er = Seq::<ResolvedFlag>::empty();
    assert(seq![a, b].drop_first() =~= seq![b]);
    assert(seq![b].drop_first() =~= e);
    assert(flags_map(er) =~= Map::<Seq<char>, u128>::empty());
    assert(spec_eval(set_name, b.expr, flags_map(er)) == EvalOutcome::Resolved(v));
    assert(spec_pass(set_name, e, er.push(rfb)) == Ok::<
        (Seq<Declaration>, Seq<ResolvedFlag>),
        FlagError,
    >((e, er.push(rfb))));
    assert(spec_pass(set_name, seq![b], er) == Ok::<
        (Seq<Declaration>, Seq<ResolvedFlag>),
        FlagError,
    >((e, er.push(rfb))));
    assert(spec_eval(set_name, a.expr, flags_map(er)) == EvalOutcome::Deferred);
    assert(spec_pass(set_name, seq![a, b], er) == Ok::<
        (Seq<Declaration>, Seq<ResolvedFlag>),
        FlagError,
    >((seq![a] + e, er.push(rfb))));
    assert(seq![a] + e =~= seq![a]);
    assert(er.push(rfb).drop_last() =~= er);
    assert(er.push(rfb).last() == rfb);
    assert(flags_map(er.push(rfb)) =~= Map::<Seq<char>, u128>::empty().insert(b.name@, v));
    assert(spec_eval(set_name, a.expr, flags_map(er.push(rfb))) == EvalOutcome::Resolved(v));
    assert(seq![a].drop_first() =~= e);
    assert(spec_pass(set_name, e, er.push(rfb).push(rfa)) == Ok::<
        (Seq<Declaration>, Seq<ResolvedFlag>),
        FlagError,
    >((e, er.push(rfb).push(rfa))));
    assert(spec_pass(set_name, seq![a], er.push(rfb)) == Ok::<
        (Seq<Declaration>, Seq<ResolvedFlag>),
        FlagError,
    >((e, er.push(rfb).push(rfa))));
    assert(spec_fix(set_name, e, er.push(rfb).push(rfa)) == Ok::<Seq<ResolvedFlag>, FlagError>(
        er.push(rfb).push(rfa),
    ));
    assert(spec_fix(set_name, seq![a], er.push(rfb)) == Ok::<Seq<ResolvedFlag>, FlagError>(
        er.push(rfb).push(rfa),
    ));
    assert(spec_fix(set_name, seq![a, b], er) == Ok::<Seq<ResolvedFlag>, FlagError>(
        er.push(rfb).push(rfa),
    ));
    assert(er.push(rfb).push(rfa) =~= seq![rfb, rfa]);
}

/// Two declarations referencing each other form a cycle: no pass makes
/// progress, and resolution fails with the unresolved-discriminant error
/// blaming the first of them, rather than looping or inventing a value.
pub proof fn lemma_cycle_unresolved(set_name: Seq<char>, a: Declaration, b: Declaration)
    requires
        a.expr matches FlagExpr::Reference(segs) && segs@.len() == 2 && (segs@[0]@ == set_name
            || segs@[0]@ == spec_self_marker()) && segs@[1]@ == b.name@,
        b.expr matches FlagExpr::Reference(segs) && segs@.len() == 2 && (segs@[0]@ == set_name
            || segs@[0]@ == spec_self_marker()) && segs@[1]@ == a.name@,
    ensures
        spec_resolve(set_name, seq![a, b]) == Err::<Seq<ResolvedFlag>, FlagError>(
            FlagError::UnresolvedDiscriminant { name: a.name },
        ),
{
    let e = Seq::<Declaration>::empty();
    let er = Seq::<ResolvedFlag>::empty();
    assert(seq![a, b].drop_first() =~= seq![b]);
    assert(seq![b].drop_first() =~= e);
    assert(flags_map(er) =~= Map::<Seq<char>, u128>::empty());
    assert(spec_eval(set_name, a.expr, flags_map(er)) == EvalOutcome::Deferred);
    assert(spec_eval(set_name, b.expr, flags_map(er)) == EvalOutcome::Deferred);
    assert(spec_pass(set_name, e, er) == Ok::<(Seq<Declaration>, Seq<ResolvedFlag>), FlagError>(
        (e, er),
    ));
    assert(spec_pass(set_name, seq![b], er) == Ok::<
        (Seq<Declaration>, Seq<ResolvedFlag>),
        FlagError,
    >((seq![b] + e, er)));
    assert(spec_pass(set_name, seq![a, b], er) == Ok::<
        (Seq<Declaration>, Seq<ResolvedFlag>),
        FlagError,
    >((seq![a] + (seq![b] + e), er)));
    assert((seq![a] + (seq![b] + e)).len() == 2);
    assert((seq![a] + (seq![b] + e))[0] == a);
}

/// A successful resolution is consistent with the declarations: the
/// resolved flags carry exactly the declared names, every one of those
/// names is present in the final mapping, and every resolved value is the
/// value of its declaration's expression evaluated under the final
/// mapping.
pub proof fn lemma_resolution_consistent(set_name: Seq<char>, decls: Seq<Declaration>)
    requires
        decl_names(decls).no_duplicates(),
    ensures
        spec_resolve(set_name, decls) matches Ok(rs) ==> {
            &&& flag_names(rs).to_multiset() == decl_names(decls).to_multiset()
            &&& forall|i: int| 0 <= i < rs.len() ==> flags_map(rs).contains_key(#[trigger] rs[i].name@)
            &&& forall|i: int|
                0 <= i < rs.len() ==> exists|j: int|
                    0 <= j < decls.len() && decls[j].name@ == #[trigger] rs[i].name@ && spec_eval(
                        set_name,
                        decls[j].expr,
                        flags_map(rs),
                    ) == EvalOutcome::Resolved(rs[i].value)
        },
{
    let er = Seq::<ResolvedFlag>::empty();
    lemma_fix_names(set_name, decls, er);
    lemma_fix_justified(set_name, decls, er);
    lemma_resolve_unique_names(set_name, decls);
    match spec_resolve(set_name, decls) {
        Err(_) => {},
        Ok(rs) => {
            assert(flag_names(er) =~= Seq::<Seq<char>>::empty());
            assert(flag_names(er) + decl_names(decls) =~= decl_names(decls));
            lemma_flags_map_contains(rs);
            assert forall|i: int| 0 <= i < rs.len() implies exists|j: int|
                0 <= j < decls.len() && decls[j].name@ == #[trigger] rs[i].name@ && spec_eval(
                    set_name,
                    decls[j].expr,
                    flags_map(rs),
                ) == EvalOutcome::Resolved(rs[i].value) by {
                assert(justified(set_name, decls, rs, i));
                let j = choose|j: int|
                    0 <= j < decls.len() && decls[j].name@ == rs[i].name@ && spec_eval(
                        set_name,
                        decls[j].expr,
                        flags_map(rs.take(i)),
                    ) == EvalOutcome::Resolved(rs[i].value);
                lemma_flags_map_prefix_submap(rs, i);
                crate::expr::lemma_eval_monotone(
                    set_name,
                    decls[j].expr,
                    flags_map(rs.take(i)),
                    flags_map(rs),
                );
                assert(decls[j].name@ == rs[i].name@ && spec_eval(
                    set_name,
                    decls[j].expr,
                    flags_map(rs),
                ) == EvalOutcome::Resolved(rs[i].value));
            }
        },
    }
}

} // verus!
