use vstd::prelude::*;
use core::cmp::Ordering;
use crate::context::{
    ContextValue, RenderContext, Data, values_view, entries_view, strip_sigil, compare_text,
};
use crate::template::{
    TemplateExprNode, Expr, exprs_of, exprs_size, nodes_view, lemma_exprs_size_elem,
    lemma_exprs_size_skip, lemma_nodes_view,
};
use crate::value::{RenderValue, Val, text_of, rvs_view, members_view, val_to_data, finalize_into};
use crate::semantics::{
    Builtin, CmpOp, MathOp, ErrorKind, Binder, Table, Scope, builtin, html_of, is_set_of, if_of,
    switch_of, case_of, get_of, cmp_of, math_of, for_of, cmp_operand, math_operand, range_of,
    iterable_of, name_of, binder_of, for_items, for_entries, bind_element, bind_entry, in_position,
    index_into, member_index, compare, compare_lists, cmp_ints, cmp_holds, apply_math,
    truthy, range_items, range_count, switch_key, word_html, word_in, word_range, word_enumerate,
    doctype,
};
use crate::renderer::{Attributes, Renderer, RenderError, TagHandler, agrees, agrees_all, same_text};

verus! {

pub(crate) fn call_builtin<H: TagHandler>(
    r: &Renderer<H>,
    b: Builtin,
    a: Attributes,
    ch: &[TemplateExprNode],
    c: &RenderContext,
    d: u64,
) -> (res: Result<RenderValue, RenderError>)
    ensures
        agrees(res, builtin(r.table(), b, a@, exprs_of(ch@), c@, d as nat)),
    decreases d, exprs_size(exprs_of(ch@)), 6nat,
{
    match b {
        Builtin::Html => do_html(r, &a, ch, c, d),
        Builtin::IsSet => do_is_set(ch, c),
        Builtin::If => do_if(r, ch, c, d),
        Builtin::Switch => do_switch(r, ch, c, d),
        Builtin::Case => do_case(r, ch, c, d),
        Builtin::For => do_for(r, ch, c, d),
        Builtin::Get => do_get(r, ch, c, d),
        Builtin::Cmp(op) => do_cmp_op(r, op, ch, c, d),
        Builtin::Math(op) => do_math_op(r, op, ch, c, d),
    }
}

/// `html`: the doctype marker, then an `html` element.
pub(crate) fn do_html<H: TagHandler>(
    r: &Renderer<H>,
    a: &Attributes,
    ch: &[TemplateExprNode],
    c: &RenderContext,
    d: u64,
) -> (res: Result<RenderValue, RenderError>)
    ensures
        agrees(res, html_of(r.table(), a@, exprs_of(ch@), c@, d as nat)),
    decreases d, exprs_size(exprs_of(ch@)), 3nat,
{
    proof {
        reveal_strlit("html");
        reveal_strlit("<!doctype html5>");
    }
    assert("html"@ == word_html());
    assert("<!doctype html5>"@ == doctype());
    let m = r.basic_html_tag("html", a, ch, c, d)?;
    let mut l: Vec<RenderValue> = Vec::new();
    l.push(RenderValue::String("<!doctype html5>".to_string()));
    let ghost mv = m@;
    l.push(m);
    assert(rvs_view(l) =~= seq![Val::Str(doctype()), mv]);
    Ok(RenderValue::List(l))
}

/// `is-set`: whether the identifier names a bound variable.
pub(crate) fn do_is_set(ch: &[TemplateExprNode], c: &RenderContext) -> (res: Result<RenderValue, RenderError>)
    ensures
        agrees(res, is_set_of(exprs_of(ch@), c@)),
{
    if ch.len() > 0 {
        match &ch[0] {
            TemplateExprNode::Identifier(x) => Ok(RenderValue::Boolean(c.get(x.as_str()).is_some())),
            _ => Err(RenderError::about(ErrorKind::IsSet, "expected identifier", ch)),
        }
    } else {
        Err(RenderError::about(ErrorKind::IsSet, "expected identifier", ch))
    }
}

fn is_truthy(v: &RenderValue) -> (r: bool)
    ensures
        r == truthy(v@),
{
    match v {
        RenderValue::Boolean(b) => *b,
        RenderValue::String(s) => s.as_str().unicode_len() > 0,
        RenderValue::Integer(i) => *i != 0,
        _ => false,
    }
}

/// `if`: the second child where the first is true, else the third or nothing.
pub(crate) fn do_if<H: TagHandler>(r: &Renderer<H>, ch: &[TemplateExprNode], c: &RenderContext, d: u64) -> (res: Result<
    RenderValue,
    RenderError,
>)
    ensures
        agrees(res, if_of(r.table(), exprs_of(ch@), c@, d as nat)),
    decreases d, exprs_size(exprs_of(ch@)), 3nat,
{
    if ch.len() == 0 {
        return Err(RenderError::about(ErrorKind::If, "condition not found", ch));
    }
    proof {
        lemma_exprs_size_elem(exprs_of(ch@), 0);
        if ch@.len() > 1 {
            lemma_exprs_size_elem(exprs_of(ch@), 1);
        }
        if ch@.len() > 2 {
            lemma_exprs_size_elem(exprs_of(ch@), 2);
        }
    }
    let v = r.eval_node(&ch[0], c, d)?;
    if is_truthy(&v) {
        if ch.len() < 2 {
            Err(RenderError::about(ErrorKind::If, "code block not found", ch))
        } else {
            r.eval_node(&ch[1], c, d)
        }
    } else {
        if ch.len() < 3 {
            Ok(RenderValue::Empty)
        } else {
            r.eval_node(&ch[2], c, d)
        }
    }
}

/// `switch`: binds the discriminant's text under the hidden name in a copy of
/// the context and evaluates the cases there.
pub(crate) fn do_switch<H: TagHandler>(
    r: &Renderer<H>,
    ch: &[TemplateExprNode],
    c: &RenderContext,
    d: u64,
) -> (res: Result<RenderValue, RenderError>)
    ensures
        agrees(res, switch_of(r.table(), exprs_of(ch@), c@, d as nat)),
    decreases d, exprs_size(exprs_of(ch@)), 3nat,
{
    if ch.len() == 0 {
        return Err(RenderError::about(ErrorKind::Switch, "variable not found", ch));
    }
    proof {
        lemma_exprs_size_elem(exprs_of(ch@), 0);
        lemma_exprs_size_skip(exprs_of(ch@), 1);
        reveal_strlit("__switch");
    }
    assert("__switch"@ == switch_key());
    assert(strip_sigil(switch_key()) == switch_key());
    let v = r.eval_node(&ch[0], c, d)?;
    let mut text = String::new();
    finalize_into(&v, &mut text);
    assert(text@ =~= text_of(v@));
    let mut inner = c.copy();
    inner.insert("__switch", ContextValue::String(text));
    let vs = r.eval_nodes(ch, 1, &inner, d)?;
    Ok(RenderValue::List(vs))
}

/// `case`: its body where its label is the discriminant, else nothing.
pub(crate) fn do_case<H: TagHandler>(r: &Renderer<H>, ch: &[TemplateExprNode], c: &RenderContext, d: u64) -> (res: Result<
    RenderValue,
    RenderError,
>)
    ensures
        agrees(res, case_of(r.table(), exprs_of(ch@), c@, d as nat)),
    decreases d, exprs_size(exprs_of(ch@)), 3nat,
{
    if ch.len() == 0 {
        return Err(RenderError::about(ErrorKind::Case, "variant not found", ch));
    }
    proof {
        reveal_strlit("__switch");
        lemma_exprs_size_skip(exprs_of(ch@), 1);
    }
    assert("__switch"@ == switch_key());
    assert(strip_sigil(switch_key()) == switch_key());
    match c.get("__switch") {
        None => Err(RenderError::about(ErrorKind::Case, "switch variable not found", ch)),
        Some(sw) => {
            let hit = match (&ch[0], sw) {
                (TemplateExprNode::Identifier(x), ContextValue::String(s)) => same_text(
                    x.as_str(),
                    s.as_str(),
                ),
                _ => false,
            };
            if hit {
                let vs = r.eval_nodes(ch, 1, c, d)?;
                Ok(RenderValue::List(vs))
            } else {
                Ok(RenderValue::Empty)
            }
        },
    }
}

pub proof fn lemma_member_index(o: Seq<(Seq<char>, Val)>, k: Seq<char>)
    ensures
        -1 <= member_index(o, k) < o.len(),
        member_index(o, k) >= 0 ==> o[member_index(o, k)].0 == k,
        forall|j: int| 0 <= j < o.len() && j < member_index(o, k) ==> o[j].0 != k,
        member_index(o, k) < 0 ==> forall|j: int| 0 <= j < o.len() ==> o[j].0 != k,
    decreases o.len(),
{
    if o.len() > 0 {
        lemma_member_index(o.drop_last(), k);
        assert forall|j: int| 0 <= j < o.len() - 1 implies o[j] == o.drop_last()[j] by {}
    }
}

fn index_value(a: RenderValue, i: RenderValue, ch: &[TemplateExprNode]) -> (res: Result<RenderValue, RenderError>)
    ensures
        match index_into(a@, i@) {
            Ok(v) => res matches Ok(x) && x@ == v,
            Err(k) => res matches Err(e) && e.kind() == k,
        },
{
    match (a, i) {
        (RenderValue::List(l), RenderValue::Integer(n)) => {
            if n >= 0 && (n as u64) < (l.len() as u64) {
                let mut l = l;
                assert(rvs_view(l)[n as int] == l[n as int]@);
                let x = l.remove(n as usize);
                Ok(x)
            } else {
                Err(RenderError::about(ErrorKind::Get, "array out of bounds", ch))
            }
        },
        (RenderValue::Object(o), RenderValue::String(s)) => {
            let ghost m = members_view(o);
            proof {
                lemma_member_index(m, s@);
            }
            let mut j: usize = 0;
            while j < o.len()
                invariant
                    j <= o.len(),
                    m == members_view(o),
                    a@ == Val::Obj(m),
                    i@ == Val::Str(s@),
                    m.len() == o.len(),
                    forall|q: int| 0 <= q < j ==> m[q].0 != s@,
                    -1 <= member_index(m, s@) < m.len(),
                    member_index(m, s@) >= 0 ==> m[member_index(m, s@)].0 == s@,
                    forall|q: int| 0 <= q < m.len() && q < member_index(m, s@) ==> m[q].0 != s@,
                    member_index(m, s@) < 0 ==> forall|q: int| 0 <= q < m.len() ==> m[q].0 != s@,
                decreases o.len() - j,
            {
                if same_text(o[j].0.as_str(), s.as_str()) {
                    assert(m[j as int] == (o[j as int].0@, o[j as int].1@));
                    assert(m[j as int].0 == s@);
                    assert(member_index(m, s@) == j) by {
                        let mi = member_index(m, s@);
                        if mi < 0 {
                        } else if mi < j {
                        } else if mi > j {
                        }
                    }
                    let mut o = o;
                    let x = o.remove(j);
                    return Ok(x.1);
                }
                j += 1;
            }
            Err(RenderError::about(ErrorKind::Get, "key not found", ch))
        },
        _ => Err(RenderError::about(ErrorKind::Get, "invalid index/indexable", ch)),
    }
}

/// `get`: an element of a list by position or a member of an object by name.
pub(crate) fn do_get<H: TagHandler>(r: &Renderer<H>, ch: &[TemplateExprNode], c: &RenderContext, d: u64) -> (res: Result<
    RenderValue,
    RenderError,
>)
    ensures
        agrees(res, get_of(r.table(), exprs_of(ch@), c@, d as nat)),
    decreases d, exprs_size(exprs_of(ch@)), 3nat,
{
    if ch.len() == 0 {
        return Err(RenderError::about(ErrorKind::Get, "missing indexable", ch));
    }
    proof {
        lemma_exprs_size_elem(exprs_of(ch@), 0);
        if ch@.len() > 1 {
            lemma_exprs_size_elem(exprs_of(ch@), 1);
        }
    }
    let a = r.eval_node(&ch[0], c, d)?;
    if ch.len() < 2 {
        return Err(RenderError::about(ErrorKind::Get, "missing index", ch));
    }
    let i = r.eval_node(&ch[1], c, d)?;
    index_value(a, i, ch)
}

/// An evaluation result as caller data.
pub fn to_context_value(v: &RenderValue) -> (r: ContextValue)
    ensures
        r@ == val_to_data(v@),
    decreases v,
{
    match v {
        RenderValue::String(s) => ContextValue::String(s.clone()),
        RenderValue::Integer(i) => ContextValue::Integer(*i),
        RenderValue::Boolean(b) => ContextValue::Boolean(*b),
        RenderValue::List(l) => ContextValue::List(to_context_values(l)),
        RenderValue::Object(o) => ContextValue::Object(RenderContext { entries: to_context_entries(o) }),
        RenderValue::Template(t) => ContextValue::Template(t.copy()),
        RenderValue::Empty => {
            let s = String::new();
            assert(s@ =~= Seq::<char>::empty());
            ContextValue::String(s)
        },
    }
}

fn to_context_values(l: &Vec<RenderValue>) -> (r: Vec<ContextValue>)
    ensures
        Data::List(values_view(r)) == val_to_data(Val::List(rvs_view(*l))),
    decreases l,
{
    let mut out: Vec<ContextValue> = Vec::new();
    let mut i: usize = 0;
    while i < l.len()
        invariant
            i <= l.len(),
            out.len() == i,
            forall|j: int| 0 <= j < i ==> (#[trigger] out[j])@ == val_to_data(l[j]@),
        decreases l.len() - i,
    {
        out.push(to_context_value(&l[i]));
        i += 1;
    }
    assert(values_view(out) =~= val_to_data(Val::List(rvs_view(*l)))->List_0);
    out
}

fn to_context_entries(l: &Vec<(String, RenderValue)>) -> (r: Vec<(String, ContextValue)>)
    ensures
        Data::Obj(entries_view(r)) == val_to_data(Val::Obj(members_view(*l))),
    decreases l,
{
    let mut out: Vec<(String, ContextValue)> = Vec::new();
    let mut i: usize = 0;
    while i < l.len()
        invariant
            i <= l.len(),
            out.len() == i,
            forall|j: int| 0 <= j < i ==> (#[trigger] out[j]).0@ == l[j].0@ && out[j].1@ == val_to_data(l[j].1@),
        decreases l.len() - i,
    {
        out.push((l[i].0.clone(), to_context_value(&l[i].1)));
        i += 1;
    }
    assert(entries_view(out) =~= val_to_data(Val::Obj(members_view(*l)))->Obj_0);
    out
}

fn compare_ints(a: i64, b: i64) -> (r: Ordering)
    ensures
        r == cmp_ints(a as int, b as int),
{
    if a < b {
        Ordering::Less
    } else if a > b {
        Ordering::Greater
    } else {
        Ordering::Equal
    }
}

fn compare_values(a: &ContextValue, b: &ContextValue) -> (r: Option<Ordering>)
    ensures
        r == compare(a@, b@),
    decreases a,
{
    match (a, b) {
        (ContextValue::Integer(x), ContextValue::Integer(y)) => Some(compare_ints(*x, *y)),
        (ContextValue::Boolean(x), ContextValue::Boolean(y)) => Some(
            compare_ints(
                if *x {
                    1
                } else {
                    0
                },
                if *y {
                    1
                } else {
                    0
                },
            ),
        ),
        (ContextValue::String(x), ContextValue::String(y)) => Some(compare_text(x.as_str(), y.as_str())),
        (ContextValue::List(x), ContextValue::List(y)) => compare_value_lists(x, y),
        _ => None,
    }
}

fn compare_value_lists(x: &Vec<ContextValue>, y: &Vec<ContextValue>) -> (r: Option<Ordering>)
    ensures
        r == compare_lists(values_view(*x), values_view(*y)),
    decreases x,
{
    let ghost xs = values_view(*x);
    let ghost ys = values_view(*y);
    let mut i: usize = 0;
    assert(xs.skip(0) =~= xs);
    assert(ys.skip(0) =~= ys);
    while i < x.len() && i < y.len()
        invariant
            i <= x.len(),
            i <= y.len(),
            xs == values_view(*x),
            ys == values_view(*y),
            compare_lists(xs, ys) == compare_lists(xs.skip(i as int), ys.skip(i as int)),
        decreases x.len() - i,
    {
        assert(xs.skip(i as int)[0] == x[i as int]@);
        assert(ys.skip(i as int)[0] == y[i as int]@);
        assert(xs.skip(i as int).drop_first() =~= xs.skip(i + 1));
        assert(ys.skip(i as int).drop_first() =~= ys.skip(i + 1));
        match compare_values(&x[i], &y[i]) {
            Some(Ordering::Equal) => {},
            o => {
                return o;
            },
        }
        i += 1;
    }
    if i < x.len() {
        Some(Ordering::Greater)
    } else if i < y.len() {
        Some(Ordering::Less)
    } else {
        Some(Ordering::Equal)
    }
}

impl PartialEq for ContextValue {
    /// Equal within integers, booleans, strings and lists; values of different
    /// kinds, objects and templates are never equal.
    fn eq(&self, other: &ContextValue) -> (r: bool) {
        match compare_values(self, other) {
            Some(Ordering::Equal) => true,
            _ => false,
        }
    }
}

impl vstd::std_specs::cmp::PartialEqSpecImpl for ContextValue {
    open spec fn obeys_eq_spec() -> bool {
        true
    }

    open spec fn eq_spec(&self, other: &ContextValue) -> bool {
        compare(self@, other@) == Some(Ordering::Equal)
    }
}

impl PartialOrd for ContextValue {
    /// The order of `compare`: within one kind only, lists lexicographically.
    fn partial_cmp(&self, other: &ContextValue) -> (r: Option<Ordering>) {
        compare_values(self, other)
    }
}

impl vstd::std_specs::cmp::PartialOrdSpecImpl for ContextValue {
    open spec fn obeys_partial_cmp_spec() -> bool {
        true
    }

    open spec fn partial_cmp_spec(&self, other: &ContextValue) -> Option<Ordering> {
        compare(self@, other@)
    }
}

fn holds(op: CmpOp, o: Option<Ordering>) -> (r: bool)
    ensures
        r == cmp_holds(op, o),
{
    match (op, o) {
        (CmpOp::Eq, Some(Ordering::Equal)) => true,
        (CmpOp::Eq, _) => false,
        (CmpOp::Ne, Some(Ordering::Equal)) => false,
        (CmpOp::Ne, _) => true,
        (CmpOp::Lt, Some(Ordering::Less)) => true,
        (CmpOp::Lt, _) => false,
        (CmpOp::Gt, Some(Ordering::Greater)) => true,
        (CmpOp::Gt, _) => false,
        (CmpOp::Lte, Some(Ordering::Less)) => true,
        (CmpOp::Lte, Some(Ordering::Equal)) => true,
        (CmpOp::Lte, _) => false,
        (CmpOp::Gte, Some(Ordering::Greater)) => true,
        (CmpOp::Gte, Some(Ordering::Equal)) => true,
        (CmpOp::Gte, _) => false,
    }
}

fn cmp_operand_value<H: TagHandler>(
    r: &Renderer<H>,
    ch: &[TemplateExprNode],
    k: usize,
    c: &RenderContext,
    d: u64,
) -> (res: Result<ContextValue, RenderError>)
    ensures
        match cmp_operand(r.table(), exprs_of(ch@), k as int, c@, d as nat) {
            None => true,
            Some(Ok(x)) => res matches Ok(v) && v@ == x,
            Some(Err(e)) => res matches Err(y) && y.kind() == e,
        },
    decreases d, exprs_size(exprs_of(ch@)), 3nat,
{
    if k >= ch.len() {
        return Err(RenderError::about(ErrorKind::Cmp, "missing operand", ch));
    }
    match &ch[k] {
        TemplateExprNode::Identifier(x) => match c.get(x.as_str()) {
            Some(v) => Ok(v.copy()),
            None => Ok(ContextValue::String(x.clone())),
        },
        TemplateExprNode::Integer(i) => Ok(ContextValue::Integer(*i)),
        TemplateExprNode::Tag(_) => {
            proof {
                lemma_exprs_size_elem(exprs_of(ch@), k as int);
            }
            match r.eval_node(&ch[k], c, d) {
                Ok(v) => Ok(to_context_value(&v)),
                Err(_) => Err(RenderError::about(ErrorKind::Cmp, "operand failed to evaluate", ch)),
            }
        },
    }
}

/// The comparison operators.
pub(crate) fn do_cmp_op<H: TagHandler>(
    r: &Renderer<H>,
    op: CmpOp,
    ch: &[TemplateExprNode],
    c: &RenderContext,
    d: u64,
) -> (res: Result<RenderValue, RenderError>)
    ensures
        agrees(res, cmp_of(r.table(), op, exprs_of(ch@), c@, d as nat)),
    decreases d, exprs_size(exprs_of(ch@)), 4nat,
{
    let x = cmp_operand_value(r, ch, 0, c, d)?;
    let y = cmp_operand_value(r, ch, 1, c, d)?;
    Ok(RenderValue::Boolean(holds(op, compare_values(&x, &y))))
}

fn math_operand_value<H: TagHandler>(
    r: &Renderer<H>,
    ch: &[TemplateExprNode],
    k: usize,
    c: &RenderContext,
    d: u64,
) -> (res: Result<i64, RenderError>)
    ensures
        match math_operand(r.table(), exprs_of(ch@), k as int, c@, d as nat) {
            None => true,
            Some(Ok(x)) => res == Ok::<i64, RenderError>(x),
            Some(Err(e)) => res matches Err(y) && y.kind() == e,
        },
    decreases d, exprs_size(exprs_of(ch@)), 3nat,
{
    if k >= ch.len() {
        return Err(RenderError::about(ErrorKind::Math, "missing operand", ch));
    }
    proof {
        lemma_exprs_size_elem(exprs_of(ch@), k as int);
    }
    match r.eval_node(&ch[k], c, d) {
        Ok(RenderValue::Integer(i)) => Ok(i),
        _ => Err(RenderError::about(ErrorKind::Math, "operand is not an integer", ch)),
    }
}

fn compute(op: MathOp, x: i64, y: i64) -> (r: Option<i64>)
    ensures
        r == apply_math(op, x, y),
{
    match op {
        MathOp::Add => Some(x.wrapping_add(y)),
        MathOp::Sub => Some(x.wrapping_sub(y)),
        MathOp::Mul => Some(x.wrapping_mul(y)),
        MathOp::Div => if y == 0 {
            None
        } else {
            match x.checked_div(y) {
                Some(q) => Some(q),
                None => Some(i64::MIN),
            }
        },
        MathOp::Rem => if y == 0 {
            None
        } else {
            match x.checked_rem(y) {
                Some(q) => Some(q),
                None => Some(0),
            }
        },
    }
}

/// The arithmetic operators.
pub(crate) fn do_math_op<H: TagHandler>(
    r: &Renderer<H>,
    op: MathOp,
    ch: &[TemplateExprNode],
    c: &RenderContext,
    d: u64,
) -> (res: Result<RenderValue, RenderError>)
    ensures
        agrees(res, math_of(r.table(), op, exprs_of(ch@), c@, d as nat)),
    decreases d, exprs_size(exprs_of(ch@)), 4nat,
{
    let x = math_operand_value(r, ch, 0, c, d)?;
    let y = math_operand_value(r, ch, 1, c, d)?;
    match compute(op, x, y) {
        Some(z) => Ok(RenderValue::Integer(z)),
        None => Err(RenderError::about(ErrorKind::Math, "division by zero", ch)),
    }
}


pub proof fn lemma_in_position(s: Seq<Expr>)
    ensures
        -1 <= in_position(s) < s.len(),
        in_position(s) >= 0 ==> s[in_position(s)] == Expr::Ident(word_in()),
        forall|j: int| 0 <= j < s.len() && (j < in_position(s) || in_position(s) < 0) ==> s[j] != Expr::Ident(word_in()),
    decreases s.len(),
{
    if s.len() > 0 {
        lemma_in_position(s.drop_last());
        assert forall|j: int| 0 <= j < s.len() - 1 implies s[j] == s.drop_last()[j] by {}
    }
}

fn find_in(ch: &[TemplateExprNode]) -> (r: Option<usize>)
    ensures
        in_position(exprs_of(ch@)) < 0 ==> r is None,
        in_position(exprs_of(ch@)) >= 0 ==> r == Some(in_position(exprs_of(ch@)) as usize),
        r matches Some(p) ==> p < ch@.len() && p as int == in_position(exprs_of(ch@)),
{
    let ghost s = exprs_of(ch@);
    proof {
        lemma_in_position(s);
        reveal_strlit("in");
    }
    assert("in"@ == word_in());
    let mut i: usize = 0;
    while i < ch.len()
        invariant
            i <= ch.len(),
            s == exprs_of(ch@),
            "in"@ == word_in(),
            forall|j: int| 0 <= j < i ==> s[j] != Expr::Ident(word_in()),
            -1 <= in_position(s) < s.len(),
            in_position(s) >= 0 ==> s[in_position(s)] == Expr::Ident(word_in()),
            forall|j: int| 0 <= j < s.len() && (j < in_position(s) || in_position(s) < 0) ==> s[j] != Expr::Ident(word_in()),
        decreases ch.len() - i,
    {
        let hit = match &ch[i] {
            TemplateExprNode::Identifier(x) => same_text(x.as_str(), "in"),
            _ => false,
        };
        if hit {
            assert(s[i as int] == Expr::Ident(word_in()));
            return Some(i);
        }
        i += 1;
    }
    None
}

fn range_list(lo: i64, hi: i64, step: i64) -> (r: Vec<ContextValue>)
    requires
        step > 0,
    ensures
        values_view(r) == range_items(lo, hi, step),
{
    let mut out: Vec<ContextValue> = Vec::new();
    let mut cur: i128 = lo as i128;
    let ghost n = range_count(lo, hi, step);
    let ghost mut k: int = 0;
    assert(lo as int + 0 * (step as int) == lo as int) by (nonlinear_arith);
    proof {
        if hi > lo {
            assert(n >= 1) by (nonlinear_arith)
                requires
                    n == (hi as int - lo as int + step as int - 1) / (step as int),
                    hi > lo,
                    step > 0,
            ;
        }
    }
    while cur < hi as i128
        invariant
            step > 0,
            n == range_count(lo, hi, step),
            out@.len() == k,
            0 <= k,
            cur == lo as int + k * (step as int),
            k == 0 || cur - step < hi,
            k > 0 ==> lo < hi,
            cur < hi ==> k < n,
            forall|j: int| 0 <= j < k ==> (#[trigger] out[j])@ == Data::Int((lo + j * step) as i64),
        decreases (hi as int) - (cur as int) + (step as int),
    {
        let ghost old_cur = cur as int;
        out.push(ContextValue::Integer(cur as i64));
        cur = cur + step as i128;
        proof {
            k = k + 1;
            assert(cur == lo as int + k * (step as int)) by (nonlinear_arith)
                requires
                    cur == old_cur + step,
                    old_cur == lo as int + (k - 1) * (step as int),
            ;
            assert(cur < hi ==> k < n) by (nonlinear_arith)
                requires
                    cur == lo as int + k * (step as int),
                    n == (hi as int - lo as int + step as int - 1) / (step as int),
                    step > 0,
            ;
        }
    }
    proof {
        if k > 0 {
            assert(k == n) by (nonlinear_arith)
                requires
                    cur >= hi,
                    cur - step < hi,
                    k > 0,
                    cur == lo as int + k * (step as int),
                    n == (hi as int - lo as int + step as int - 1) / (step as int),
                    step > 0,
            ;
        } else {
            assert(n == 0);
        }
    }
    assert(values_view(out) =~= range_items(lo, hi, step));
    out
}

#[verifier::rlimit(40)]
fn parse_range<H: TagHandler>(r: &Renderer<H>, rch: &Vec<TemplateExprNode>, c: &RenderContext, d: u64) -> (res: Result<
    ContextValue,
    RenderError,
>)
    ensures
        match range_of(r.table(), nodes_view(*rch), c@, d as nat) {
            None => true,
            Some(Ok(x)) => res matches Ok(v) && v@ == x,
            Some(Err(e)) => res matches Err(y) && y.kind() == e,
        },
    decreases d, exprs_size(nodes_view(*rch)), 3nat,
{
    let ghost s = nodes_view(*rch);
    if rch.len() < 2 {
        return Err(RenderError::about(ErrorKind::For, "invalid range", rch.as_slice()));
    }
    proof {
        lemma_exprs_size_elem(s, 0);
        lemma_exprs_size_elem(s, 1);
        if s.len() > 2 {
            lemma_exprs_size_elem(s, 2);
        }
    }
    let lo = match r.eval_node(&rch[0], c, d) {
        Ok(RenderValue::Integer(i)) => i,
        _ => {
            return Err(RenderError::about(ErrorKind::For, "invalid range", rch.as_slice()));
        },
    };
    let hi = match r.eval_node(&rch[1], c, d) {
        Ok(RenderValue::Integer(i)) => i,
        _ => {
            return Err(RenderError::about(ErrorKind::For, "invalid range", rch.as_slice()));
        },
    };
    let step = if rch.len() > 2 {
        match r.eval_node(&rch[2], c, d) {
            Ok(RenderValue::Integer(i)) => i,
            _ => {
                return Err(RenderError::about(ErrorKind::For, "invalid range", rch.as_slice()));
            },
        }
    } else {
        1
    };
    if step <= 0 {
        return Err(RenderError::about(ErrorKind::For, "invalid range", rch.as_slice()));
    }
    let items = range_list(lo, hi, step);
    Ok(ContextValue::List(items))
}

fn iterable_value<H: TagHandler>(r: &Renderer<H>, ch: &[TemplateExprNode], p: usize, c: &RenderContext, d: u64) -> (res: Result<
    ContextValue,
    RenderError,
>)
    requires
        (p as int) + 1 < ch@.len(),
    ensures
        match iterable_of(r.table(), exprs_of(ch@), p as int, c@, d as nat) {
            None => true,
            Some(Ok(x)) => res matches Ok(v) && v@ == x,
            Some(Err(e)) => res matches Err(y) && y.kind() == e,
        },
    decreases d, exprs_size(exprs_of(ch@)), 3nat,
{
    proof {
        reveal_strlit("range");
    }
    assert("range"@ == word_range());
    let n = ch.len();
    let q = p + 1;
    match &ch[q] {
        TemplateExprNode::Identifier(x) => match c.get(x.as_str()) {
            None => Err(RenderError::about(ErrorKind::For, "iterable is not a variable", ch)),
            Some(v) => Ok(v.copy()),
        },
        TemplateExprNode::Tag(t) => {
            if same_text(t.tag.as_str(), "range") {
                proof {
                    lemma_exprs_size_elem(exprs_of(ch@), p + 1);
                }
                parse_range(r, &t.children, c, d)
            } else {
                Err(RenderError::about(ErrorKind::For, "iteration variable is not a valid type", ch))
            }
        },
        _ => Err(RenderError::about(ErrorKind::For, "iteration variable is not a valid type", ch)),
    }
}

fn name_value<H: TagHandler>(r: &Renderer<H>, ch: &[TemplateExprNode], k: usize, c: &RenderContext, d: u64) -> (res: Result<
    String,
    RenderError,
>)
    requires
        k < ch@.len(),
    ensures
        match name_of(r.table(), exprs_of(ch@), k as int, c@, d as nat) {
            None => true,
            Some(Ok(x)) => res matches Ok(v) && v@ == x,
            Some(Err(e)) => res matches Err(y) && y.kind() == e,
        },
    decreases d, exprs_size(exprs_of(ch@)), 3nat,
{
    proof {
        lemma_exprs_size_elem(exprs_of(ch@), k as int);
    }
    match r.eval_node(&ch[k], c, d) {
        Ok(v) => {
            let mut text = String::new();
            finalize_into(&v, &mut text);
            assert(text@ =~= text_of(v@));
            Ok(text)
        },
        Err(_) => Err(RenderError::about(ErrorKind::For, "missing variable to iterate over", ch)),
    }
}

/// How a `for` over a list binds each element.
pub enum LoopBinder {
    Single(String),
    /// Item name, index name.
    Indexed(String, String),
}

impl View for LoopBinder {
    type V = Binder;

    open spec fn view(&self) -> Binder {
        match self {
            LoopBinder::Single(n) => Binder::Single(n@),
            LoopBinder::Indexed(item, index) => Binder::Indexed(item@, index@),
        }
    }
}

fn binder_value<H: TagHandler>(r: &Renderer<H>, ch: &[TemplateExprNode], p: usize, c: &RenderContext, d: u64) -> (res: Result<
    LoopBinder,
    RenderError,
>)
    requires
        p < ch@.len(),
    ensures
        match binder_of(r.table(), exprs_of(ch@), p - 1, c@, d as nat) {
            None => true,
            Some(Ok(x)) => res matches Ok(v) && v@ == x,
            Some(Err(e)) => res matches Err(y) && y.kind() == e,
        },
    decreases d, exprs_size(exprs_of(ch@)), 4nat,
{
    if p == 0 {
        return Err(RenderError::about(ErrorKind::For, "missing variable to iterate over", ch));
    }
    proof {
        reveal_strlit("enumerate");
    }
    assert("enumerate"@ == word_enumerate());
    match &ch[p - 1] {
        TemplateExprNode::Identifier(_) => {
            let n = name_value(r, ch, p - 1, c, d)?;
            Ok(LoopBinder::Single(n))
        },
        TemplateExprNode::Tag(t) => {
            proof {
                lemma_nodes_view(t.children);
            }
            if same_text(t.tag.as_str(), "enumerate") && t.children.len() >= 2 {
                match (&t.children[0], &t.children[1]) {
                    (TemplateExprNode::Identifier(index), TemplateExprNode::Identifier(item)) => {
                        Ok(LoopBinder::Indexed(item.clone(), index.clone()))
                    },
                    _ => Err(RenderError::about(ErrorKind::For, "invalid enumerate", ch)),
                }
            } else {
                Err(RenderError::about(ErrorKind::For, "invalid loop variable", ch))
            }
        },
        _ => Err(RenderError::about(ErrorKind::For, "invalid loop variable", ch)),
    }
}

pub proof fn lemma_for_items_prefix(t: Table, s: Seq<Data>, b: Binder, body: Seq<Expr>, c: Scope, d: nat, k: int)
    requires
        0 <= k <= s.len(),
        !(for_items(t, s.take(k), b, body, c, d) matches Some(Ok(_))),
    ensures
        for_items(t, s, b, body, c, d) == for_items(t, s.take(k), b, body, c, d),
    decreases s.len(),
{
    if k == s.len() {
        assert(s.take(k) =~= s);
    } else {
        assert(s.drop_last().take(k) =~= s.take(k));
        lemma_for_items_prefix(t, s.drop_last(), b, body, c, d, k);
    }
}

pub proof fn lemma_for_entries_prefix(
    t: Table,
    s: Seq<(Seq<char>, Data)>,
    kn: Seq<char>,
    vn: Seq<char>,
    body: Seq<Expr>,
    c: Scope,
    d: nat,
    k: int,
)
    requires
        0 <= k <= s.len(),
        !(for_entries(t, s.take(k), kn, vn, body, c, d) matches Some(Ok(_))),
    ensures
        for_entries(t, s, kn, vn, body, c, d) == for_entries(t, s.take(k), kn, vn, body, c, d),
    decreases s.len(),
{
    if k == s.len() {
        assert(s.take(k) =~= s);
    } else {
        assert(s.drop_last().take(k) =~= s.take(k));
        lemma_for_entries_prefix(t, s.drop_last(), kn, vn, body, c, d, k);
    }
}

fn for_each_item<H: TagHandler>(
    r: &Renderer<H>,
    items: &Vec<ContextValue>,
    b: &LoopBinder,
    ch: &[TemplateExprNode],
    start: usize,
    c: &RenderContext,
    d: u64,
) -> (res: Result<Vec<RenderValue>, RenderError>)
    requires
        start <= ch@.len(),
    ensures
        agrees_all(res, for_items(r.table(), values_view(*items), b@, exprs_of(ch@).skip(start as int), c@, d as nat)),
    decreases d, exprs_size(exprs_of(ch@).skip(start as int)), items@.len() + 2,
{
    let ghost t = r.table();
    let ghost all = values_view(*items);
    let ghost body = exprs_of(ch@).skip(start as int);
    let mut out: Vec<RenderValue> = Vec::new();
    let mut i: usize = 0;
    assert(all.take(0) =~= Seq::<Data>::empty());
    assert(rvs_view(out) =~= Seq::<Val>::empty());
    while i < items.len()
        invariant
            i <= items.len(),
            t == r.table(),
            all == values_view(*items),
            body == exprs_of(ch@).skip(start as int),
            start <= ch@.len(),
            match for_items(t, all.take(i as int), b@, body, c@, d as nat) {
                None => true,
                Some(Ok(vs)) => rvs_view(out) == vs,
                Some(Err(_)) => false,
            },
        decreases items.len() - i,
    {
        let ghost k: int = i as int;
        assert(all.take(k + 1).drop_last() =~= all.take(k));
        assert(all.take(k + 1).last() == items[k]@);
        let mut inner = c.copy();
        match b {
            LoopBinder::Single(n) => {
                inner.insert(n.as_str(), items[i].copy());
            },
            LoopBinder::Indexed(item, index) => {
                inner.insert(item.as_str(), items[i].copy());
                inner.insert(index.as_str(), ContextValue::Integer(i as i64));
            },
        }
        assert(inner@ == bind_element(c@, b@, k, all[k]));
        let vs = match r.eval_nodes(ch, start, &inner, d) {
            Ok(vs) => vs,
            Err(e) => {
                proof {
                    lemma_for_items_prefix(t, all, b@, body, c@, d as nat, k + 1);
                }
                return Err(e);
            },
        };
        let ghost vv = rvs_view(vs);
        out.push(RenderValue::List(vs));
        proof {
            if let Some(Ok(prev)) = for_items(t, all.take(k), b@, body, c@, d as nat) {
                assert(rvs_view(out) =~= prev.push(Val::List(vv)));
            }
        }
        i += 1;
    }
    assert(all.take(i as int) =~= all);
    Ok(out)
}

fn for_each_entry<H: TagHandler>(
    r: &Renderer<H>,
    es: &Vec<(String, ContextValue)>,
    kn: &String,
    vn: &String,
    ch: &[TemplateExprNode],
    start: usize,
    c: &RenderContext,
    d: u64,
) -> (res: Result<Vec<RenderValue>, RenderError>)
    requires
        start <= ch@.len(),
    ensures
        agrees_all(res, for_entries(r.table(), entries_view(*es), kn@, vn@, exprs_of(ch@).skip(start as int), c@, d as nat)),
    decreases d, exprs_size(exprs_of(ch@).skip(start as int)), es@.len() + 2,
{
    let ghost t = r.table();
    let ghost all = entries_view(*es);
    let ghost body = exprs_of(ch@).skip(start as int);
    let mut out: Vec<RenderValue> = Vec::new();
    let mut i: usize = 0;
    assert(all.take(0) =~= Seq::<(Seq<char>, Data)>::empty());
    assert(rvs_view(out) =~= Seq::<Val>::empty());
    while i < es.len()
        invariant
            i <= es.len(),
            t == r.table(),
            all == entries_view(*es),
            body == exprs_of(ch@).skip(start as int),
            start <= ch@.len(),
            match for_entries(t, all.take(i as int), kn@, vn@, body, c@, d as nat) {
                None => true,
                Some(Ok(vs)) => rvs_view(out) == vs,
                Some(Err(_)) => false,
            },
        decreases es.len() - i,
    {
        let ghost k: int = i as int;
        assert(all.take(k + 1).drop_last() =~= all.take(k));
        assert(all.take(k + 1).last() == (es[k].0@, es[k].1@));
        let mut inner = c.copy();
        inner.insert(kn.as_str(), ContextValue::String(es[i].0.clone()));
        inner.insert(vn.as_str(), es[i].1.copy());
        assert(inner@ == bind_entry(c@, kn@, vn@, all[k]));
        let vs = match r.eval_nodes(ch, start, &inner, d) {
            Ok(vs) => vs,
            Err(e) => {
                proof {
                    lemma_for_entries_prefix(t, all, kn@, vn@, body, c@, d as nat, k + 1);
                }
                return Err(e);
            },
        };
        let ghost vv = rvs_view(vs);
        out.push(RenderValue::List(vs));
        proof {
            if let Some(Ok(prev)) = for_entries(t, all.take(k), kn@, vn@, body, c@, d as nat) {
                assert(rvs_view(out) =~= prev.push(Val::List(vv)));
            }
        }
        i += 1;
    }
    assert(all.take(i as int) =~= all);
    Ok(out)
}

#[verifier::rlimit(60)]
/// `for`: iterates a list (by element, or with `enumerate` by position and
/// element) or an object (by key and value), evaluating the body once per
/// element in a fresh copy of the context.
pub(crate) fn do_for<H: TagHandler>(r: &Renderer<H>, ch: &[TemplateExprNode], c: &RenderContext, d: u64) -> (res: Result<
    RenderValue,
    RenderError,
>)
    ensures
        agrees(res, for_of(r.table(), exprs_of(ch@), c@, d as nat)),
    decreases d, exprs_size(exprs_of(ch@)), 5nat,
{
    let p = match find_in(ch) {
        Some(p) => p,
        None => {
            return Err(RenderError::about(ErrorKind::For, "invalid syntax", ch));
        },
    };
    if p == 0 {
        return Err(RenderError::about(ErrorKind::For, "missing variable to iterate over", ch));
    }
    if p >= ch.len() - 1 {
        return Err(RenderError::about(ErrorKind::For, "no iteration variable specified", ch));
    }
    assert(p as int == in_position(exprs_of(ch@)));
    assert((p as int) + 1 < ch@.len());
    let it = match iterable_value(r, ch, p, c, d) {
        Ok(it) => it,
        Err(e) => {
            return Err(e);
        },
    };
    proof {
        lemma_exprs_size_skip(exprs_of(ch@), p + 2);
    }
    match it {
        ContextValue::List(items) => {
            let b = binder_value(r, ch, p, c, d)?;
            let vs = for_each_item(r, &items, &b, ch, p + 2, c, d)?;
            Ok(RenderValue::List(vs))
        },
        ContextValue::Object(o) => {
            if p < 2 {
                return Err(RenderError::about(ErrorKind::For, "missing key variable to iterate over", ch));
            }
            let kn = name_value(r, ch, p - 2, c, d)?;
            let vn = name_value(r, ch, p - 1, c, d)?;
            let vs = for_each_entry(r, &o.entries, &kn, &vn, ch, p + 2, c, d)?;
            Ok(RenderValue::List(vs))
        },
        _ => Err(RenderError::about(ErrorKind::For, "element is not iterable", ch)),
    }
}

} // verus!
