use vstd::prelude::*;

verus! {

/// A bitwise combinator allowed in a discriminant expression.
#[derive(Clone, Copy, Debug, PartialEq, Eq, Structural)]
pub enum FlagOp {
    And,
    Or,
    Xor,
}

/// A discriminant expression attached to one flag variant.
///
/// `Reference` holds the segments of a path expression; a well-formed
/// reference has exactly two segments, the first naming the enclosing flag
/// set (or the self marker) and the second naming a sibling variant.
/// `UnsupportedBinaryOp` stands for a binary expression whose operator is
/// not a bitwise AND, OR or XOR, and `Unsupported` for any other expression
/// form (or a non-integer literal): both are invalid, but an invalid binary
/// expression is only reported once both of its operands have resolved.
#[derive(Debug)]
pub enum FlagExpr {
    Implicit,
    Literal(u128),
    Reference(Vec<String>),
    BinaryOp(FlagOp, Box<FlagExpr>, Box<FlagExpr>),
    UnsupportedBinaryOp(Box<FlagExpr>, Box<FlagExpr>),
    Unsupported,
}

/// One variant of the declared flag set, as it stands in the source: its
/// name, whether it is unit-like (carries no fields), and its discriminant
/// expression if it has one.
#[derive(Debug)]
pub struct VariantDecl {
    pub name: String,
    pub is_unit: bool,
    pub discriminant: Option<FlagExpr>,
}

/// A collected flag declaration: a name and the expression that must give
/// its value. A variant without discriminant syntax is `Implicit`.
#[derive(Debug)]
pub struct Declaration {
    pub name: String,
    pub expr: FlagExpr,
}

/// A flag whose discriminant has been resolved to a concrete value.
#[derive(Debug)]
pub struct ResolvedFlag {
    pub name: String,
    pub value: u128,
}

/// The errors that abort flag-set generation. Each names the offending
/// variant.
#[derive(Debug, PartialEq, Eq)]
pub enum FlagError {
    /// A declared variant carries associated data.
    NonUnitVariant { name: String },
    /// A discriminant expression has an unsupported form: a non-integer
    /// literal, a malformed or mis-qualified reference path, a non-bitwise
    /// binary operator, or any other expression kind.
    InvalidExpression { name: String },
    /// Fixpoint resolution ended with this declaration still unresolved:
    /// a cyclic or missing reference, or an implicit discriminant.
    UnresolvedDiscriminant { name: String },
    /// The flag set needs a bit position beyond the largest supported
    /// backing width.
    OversizedFlagSet { name: String },
}

impl FlagError {
    /// The name of the variant this error blames.
    pub fn name(&self) -> (r: &String)
        ensures
            *r == self.spec_name(),
    {
        match self {
            FlagError::NonUnitVariant { name } => name,
            FlagError::InvalidExpression { name } => name,
            FlagError::UnresolvedDiscriminant { name } => name,
            FlagError::OversizedFlagSet { name } => name,
        }
    }

    pub open spec fn spec_name(self) -> String {
        match self {
            FlagError::NonUnitVariant { name } => name,
            FlagError::InvalidExpression { name } => name,
            FlagError::UnresolvedDiscriminant { name } => name,
            FlagError::OversizedFlagSet { name } => name,
        }
    }
}

/// The outcome of evaluating one discriminant expression against the flags
/// resolved so far: a value, a deferral to a later pass (some referenced
/// flag has no value yet), or a hard error.
#[derive(Clone, Copy, Debug, PartialEq, Eq, Structural)]
pub enum EvalOutcome {
    Resolved(u128),
    Deferred,
    Invalid,
}

pub open spec fn spec_apply_op(op: FlagOp, a: u128, b: u128) -> u128 {
    match op {
        FlagOp::And => a & b,
        FlagOp::Or => a | b,
        FlagOp::Xor => a ^ b,
    }
}

/// The qualifier by which a discriminant expression may refer to the
/// enclosing flag set without repeating its name.
pub open spec fn spec_self_marker() -> Seq<char> {
    "Self"@
}

/// The mapping given by a list of resolved flags; on a repeated name the
/// later entry wins.
pub open spec fn flags_map(rs: Seq<ResolvedFlag>) -> Map<Seq<char>, u128>
    decreases rs.len(),
{
    if rs.len() == 0 {
        Map::empty()
    } else {
        flags_map(rs.drop_last()).insert(rs.last().name@, rs.last().value)
    }
}

/// Evaluation of a discriminant expression under a partial mapping of
/// already-resolved flags. A reference to a name without a value defers;
/// an implicit discriminant always defers (no value is ever invented); a
/// malformed form is invalid; a binary expression evaluates only once both
/// operands do.
pub open spec fn spec_eval(set_name: Seq<char>, e: FlagExpr, resolved: Map<Seq<char>, u128>) -> EvalOutcome
    decreases e,
{
    match e {
        FlagExpr::Implicit => EvalOutcome::Deferred,
        FlagExpr::Literal(v) => EvalOutcome::Resolved(v),
        FlagExpr::Reference(segments) => {
            if segments@.len() != 2 {
                EvalOutcome::Invalid
            } else if segments@[0]@ != set_name && segments@[0]@ != spec_self_marker() {
                EvalOutcome::Invalid
            } else if resolved.contains_key(segments@[1]@) {
                EvalOutcome::Resolved(resolved[segments@[1]@])
            } else {
                EvalOutcome::Deferred
            }
        },
        FlagExpr::BinaryOp(op, l, r) => match spec_eval(set_name, *l, resolved) {
            EvalOutcome::Invalid => EvalOutcome::Invalid,
            EvalOutcome::Deferred => EvalOutcome::Deferred,
            EvalOutcome::Resolved(a) => match spec_eval(set_name, *r, resolved) {
                EvalOutcome::Invalid => EvalOutcome::Invalid,
                EvalOutcome::Deferred => EvalOutcome::Deferred,
                EvalOutcome::Resolved(b) => EvalOutcome::Resolved(spec_apply_op(op, a, b)),
            },
        },
        FlagExpr::UnsupportedBinaryOp(l, r) => match spec_eval(set_name, *l, resolved) {
            EvalOutcome::Invalid => EvalOutcome::Invalid,
            EvalOutcome::Deferred => EvalOutcome::Deferred,
            EvalOutcome::Resolved(_) => match spec_eval(set_name, *r, resolved) {
                EvalOutcome::Invalid => EvalOutcome::Invalid,
                EvalOutcome::Deferred => EvalOutcome::Deferred,
                EvalOutcome::Resolved(_) => EvalOutcome::Invalid,
            },
        },
        FlagExpr::Unsupported => EvalOutcome::Invalid,
    }
}

/// Looks a name up in the resolved flags, as the mapping they give.
pub fn lookup(resolved: &Vec<ResolvedFlag>, name: &String) -> (r: Option<u128>)
    ensures
        match r {
            Some(v) => flags_map(resolved@).contains_key(name@) && flags_map(resolved@)[name@]
                == v,
            None => !flags_map(resolved@).contains_key(name@),
        },
{
    let mut found: Option<u128> = None;
    let mut j: usize = 0;
    while j < resolved.len()
        invariant
            j <= resolved@.len(),
            match found {
                Some(v) => flags_map(resolved@.take(j as int)).contains_key(name@) && flags_map(
                    resolved@.take(j as int),
                )[name@] == v,
                None => !flags_map(resolved@.take(j as int)).contains_key(name@),
            },
        decreases resolved@.len() - j,
    {
        proof {
            assert(resolved@.take(j + 1).drop_last() =~= resolved@.take(j as int));
            assert(resolved@.take(j + 1).last() == resolved@[j as int]);
        }
        if resolved[j].name == *name {
            found = Some(resolved[j].value);
        }
        j += 1;
    }
    proof {
        assert(resolved@.take(resolved@.len() as int) =~= resolved@);
    }
    found
}

/// Evaluates a discriminant expression against the flags resolved so far.
pub fn eval_expr(set_name: &String, e: &FlagExpr, resolved: &Vec<ResolvedFlag>) -> (r:
    EvalOutcome)
    ensures
        r == spec_eval(set_name@, *e, flags_map(resolved@)),
    decreases *e,
{
    match e {
        FlagExpr::Implicit => EvalOutcome::Deferred,
        FlagExpr::Literal(v) => EvalOutcome::Resolved(*v),
        FlagExpr::Reference(segments) => {
            if segments.len() != 2 {
                EvalOutcome::Invalid
            } else {
                let self_marker = String::from_str("Self");
                if !(segments[0] == *set_name || segments[0] == self_marker) {
                    EvalOutcome::Invalid
                } else {
                    match lookup(resolved, &segments[1]) {
                        Some(v) => EvalOutcome::Resolved(v),
                        None => EvalOutcome::Deferred,
                    }
                }
            }
        },
        FlagExpr::BinaryOp(op, l, r) => match eval_expr(set_name, &*l, resolved) {
            EvalOutcome::Invalid => EvalOutcome::Invalid,
            EvalOutcome::Deferred => EvalOutcome::Deferred,
            EvalOutcome::Resolved(a) => match eval_expr(set_name, &*r, resolved) {
                EvalOutcome::Invalid => EvalOutcome::Invalid,
                EvalOutcome::Deferred => EvalOutcome::Deferred,
                EvalOutcome::Resolved(b) => {
                    let combined: u128 = match op {
                        FlagOp::And => a & b,
                        FlagOp::Or => a | b,
                        FlagOp::Xor => a ^ b,
                    };
                    EvalOutcome::Resolved(combined)
                },
            },
        },
        FlagExpr::UnsupportedBinaryOp(l, r) => match eval_expr(set_name, &*l, resolved) {
            EvalOutcome::Invalid => EvalOutcome::Invalid,
            EvalOutcome::Deferred => EvalOutcome::Deferred,
            EvalOutcome::Resolved(_) => match eval_expr(set_name, &*r, resolved) {
                EvalOutcome::Invalid => EvalOutcome::Invalid,
                EvalOutcome::Deferred => EvalOutcome::Deferred,
                EvalOutcome::Resolved(_) => EvalOutcome::Invalid,
            },
        },
        FlagExpr::Unsupported => EvalOutcome::Invalid,
    }
}

/// Evaluation is monotone in the resolved mapping: an expression that
/// resolves under a mapping resolves to the same value under any
/// extension of it.
pub proof fn lemma_eval_monotone(
    set_name: Seq<char>,
    e: FlagExpr,
    m1: Map<Seq<char>, u128>,
    m2: Map<Seq<char>, u128>,
)
    requires
        forall|k: Seq<char>| #[trigger] m1.contains_key(k) ==> m2.contains_key(k) && m2[k]
            == m1[k],
    ensures
        spec_eval(set_name, e, m1) matches EvalOutcome::Resolved(v) ==> spec_eval(set_name, e, m2)
            == EvalOutcome::Resolved(v),
    decreases e,
{
    match e {
        FlagExpr::BinaryOp(op, l, r) => {
            lemma_eval_monotone(set_name, *l, m1, m2);
            lemma_eval_monotone(set_name, *r, m1, m2);
        },
        _ => {},
    }
}

} // verus!
