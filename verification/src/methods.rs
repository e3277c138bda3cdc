//! The method names that operators become, and back; what a comparison
//! gives for two values from how they are ordered.
use vstd::prelude::*;

use crate::ast::CmpOp;
use crate::mir::comparison_method;

verus! {

/// The comparison a method name stands for, if any.
pub open spec fn method_comparison(m: Seq<char>) -> Option<CmpOp> {
    if m == "eq"@ {
        Some(CmpOp::Eq)
    } else if m == "not_eq"@ {
        Some(CmpOp::NotEq)
    } else if m == "lt"@ {
        Some(CmpOp::Lt)
    } else if m == "gt"@ {
        Some(CmpOp::Gt)
    } else if m == "lt_eq"@ {
        Some(CmpOp::LtEq)
    } else if m == "gt_eq"@ {
        Some(CmpOp::GtEq)
    } else {
        None
    }
}

/// The comparison that a method name stands for: `eq`, `not_eq`, `lt`,
/// `gt`, `lt_eq` or `gt_eq`.
pub fn method_to_cmp_op(method: &str) -> (r: Option<CmpOp>)
    ensures
        r == method_comparison(method@),
{
    let m = crate::text::text(method);
    if m == crate::text::text("eq") {
        Some(CmpOp::Eq)
    } else if m == crate::text::text("not_eq") {
        Some(CmpOp::NotEq)
    } else if m == crate::text::text("lt") {
        Some(CmpOp::Lt)
    } else if m == crate::text::text("gt") {
        Some(CmpOp::Gt)
    } else if m == crate::text::text("lt_eq") {
        Some(CmpOp::LtEq)
    } else if m == crate::text::text("gt_eq") {
        Some(CmpOp::GtEq)
    } else {
        None
    }
}

/// A comparison lowered to a method call is recognised again from the
/// method's name: the method names of the comparisons are all different.
pub proof fn law_comparison_method_round_trip(op: CmpOp)
    ensures
        method_comparison(comparison_method(op)) == Some(op),
{
    reveal_strlit("eq");
    reveal_strlit("not_eq");
    reveal_strlit("lt");
    reveal_strlit("gt");
    reveal_strlit("lt_eq");
    reveal_strlit("gt_eq");
    let eq = "eq"@;
    let ne = "not_eq"@;
    let lt = "lt"@;
    let gt = "gt"@;
    let le = "lt_eq"@;
    let ge = "gt_eq"@;
    assert(ne.len() != eq.len());
    assert(lt[0] != eq[0] && lt.len() != ne.len());
    assert(gt[0] != eq[0] && gt.len() != ne.len() && gt[0] != lt[0]);
    assert(le.len() != eq.len() && le[0] != ne[0] && le.len() != lt.len() && le.len() != gt.len());
    assert(ge.len() != eq.len() && ge[0] != ne[0] && ge.len() != lt.len() && ge.len() != gt.len() && ge[0] != le[0]);
}


/// How two values are ordered.
#[derive(Debug, Clone, Copy, PartialEq, Eq)]
pub enum Order {
    Less,
    Equal,
    Greater,
}

/// Whether `a op b` holds for values `a` and `b` ordered `o`.
pub open spec fn order_holds(op: CmpOp, o: Order) -> bool {
    match op {
        CmpOp::Eq => o is Equal,
        CmpOp::NotEq => !(o is Equal),
        CmpOp::Lt => o is Less,
        CmpOp::Gt => o is Greater,
        CmpOp::LtEq => !(o is Greater),
        CmpOp::GtEq => !(o is Less),
    }
}

/// The comparison `a op b` of two totally ordered values, given how they
/// are ordered.
pub fn compare_ord(op: CmpOp, o: Order) -> (r: bool)
    ensures
        r == order_holds(op, o),
{
    match op {
        CmpOp::Eq => matches!(o, Order::Equal),
        CmpOp::NotEq => !matches!(o, Order::Equal),
        CmpOp::Lt => matches!(o, Order::Less),
        CmpOp::Gt => matches!(o, Order::Greater),
        CmpOp::LtEq => !matches!(o, Order::Greater),
        CmpOp::GtEq => !matches!(o, Order::Less),
    }
}

/// The comparison `a op b` of two partially ordered values, given how they
/// are ordered (`None` when they are unordered, as NaN is): equality and
/// inequality hold as for ordered values (unordered values are not equal);
/// an ordering comparison of unordered values is an error.
pub open spec fn partial_holds(op: CmpOp, o: Option<Order>) -> Result<bool, Seq<char>> {
    match o {
        Some(ord) => Ok(order_holds(op, ord)),
        None => match op {
            CmpOp::Eq => Ok(false),
            CmpOp::NotEq => Ok(true),
            _ => Err("NaN comparison"@),
        },
    }
}

pub fn compare_partial(op: CmpOp, o: Option<Order>) -> (r: Result<bool, String>)
    ensures
        match partial_holds(op, o) {
            Ok(b) => r == Ok::<bool, String>(b),
            Err(m) => r is Err && r->Err_0@ == m,
        },
{
    match o {
        Some(ord) => Ok(compare_ord(op, ord)),
        None => match op {
            CmpOp::Eq => Ok(false),
            CmpOp::NotEq => Ok(true),
            _ => Err(crate::text::text("NaN comparison")),
        },
    }
}

/// Each comparison and its negation are complements: `not_eq` of `eq`,
/// `gt_eq` of `lt`, `lt_eq` of `gt`, for ordered values; for unordered
/// values only `eq` and `not_eq` give an answer, and they give opposite
/// ones.
pub proof fn law_comparison_complements(o: Order)
    ensures
        order_holds(CmpOp::NotEq, o) == !order_holds(CmpOp::Eq, o),
        order_holds(CmpOp::GtEq, o) == !order_holds(CmpOp::Lt, o),
        order_holds(CmpOp::LtEq, o) == !order_holds(CmpOp::Gt, o),
        partial_holds(CmpOp::NotEq, None) == Ok::<bool, Seq<char>>(!(partial_holds(CmpOp::Eq, None)->Ok_0)),
{
}

} // verus!
