//! What evaluating a template means: the evaluator's contracts are stated
//! over these functions.
use vstd::prelude::*;
use crate::context::{Data, lookup, bind, strip_sigil};
use crate::template::{
    Expr, node_size, exprs_size, attrs_size, lemma_exprs_size_elem, lemma_exprs_size_skip,
};
use crate::value::{Val, text_of, texts, data_to_val, val_to_data};

verus! {

#[derive(Debug, Clone, Copy, PartialEq, Eq, Structural)]
pub enum CmpOp {
    Eq,
    Ne,
    Lt,
    Gt,
    Lte,
    Gte,
}

#[derive(Debug, Clone, Copy, PartialEq, Eq, Structural)]
pub enum MathOp {
    Add,
    Sub,
    Mul,
    Div,
    Rem,
}

/// The standard handlers.
#[derive(Debug, Clone, Copy, PartialEq, Eq, Structural)]
pub enum Builtin {
    Html,
    IsSet,
    If,
    Switch,
    Case,
    For,
    Get,
    Cmp(CmpOp),
    Math(MathOp),
}

/// The kind of a render error.
#[derive(Debug, Clone, Copy, PartialEq, Eq, Structural)]
pub enum ErrorKind {
    IsSet,
    Cmp,
    If,
    Case,
    Switch,
    For,
    Get,
    Math,
    UserDefined,
    /// Variable expansion went deeper than the depth it was given.
    Depth,
}

/// A dispatch table: tag names with a standard handler, or `None` for a
/// caller-supplied handler. A later entry hides an earlier one of the same name.
pub type Table = Seq<(Seq<char>, Option<Builtin>)>;

/// Variable bindings.
pub type Scope = Seq<(Seq<char>, Data)>;

/// The outcome of evaluating something: `None` where a caller-supplied handler
/// decides it, else the value or the kind of the failure.
pub type Outcome = Option<Result<Val, ErrorKind>>;

pub type Outcomes = Option<Result<Seq<Val>, ErrorKind>>;

/// How a `for` over a list binds each element.
pub enum Binder {
    /// `for x in ...`: the element under one name.
    Single(Seq<char>),
    /// `for (enumerate i x) in ...`: the element under the item name and
    /// its position under the index name.
    Indexed(Seq<char>, Seq<char>),
}

/// The handler for a tag name: `None` where there is none, so that the tag
/// is plain markup.
pub open spec fn dispatch(t: Table, name: Seq<char>) -> Option<Option<Builtin>>
    decreases t.len(),
{
    if t.len() == 0 {
        None
    } else if t.last().0 == name {
        Some(t.last().1)
    } else {
        dispatch(t.drop_last(), name)
    }
}

pub open spec fn switch_key() -> Seq<char> {
    seq!['_', '_', 's', 'w', 'i', 't', 'c', 'h']
}

pub open spec fn word_in() -> Seq<char> {
    seq!['i', 'n']
}

pub open spec fn word_range() -> Seq<char> {
    seq!['r', 'a', 'n', 'g', 'e']
}

pub open spec fn word_enumerate() -> Seq<char> {
    seq!['e', 'n', 'u', 'm', 'e', 'r', 'a', 't', 'e']
}

pub open spec fn word_html() -> Seq<char> {
    seq!['h', 't', 'm', 'l']
}

pub open spec fn doctype() -> Seq<char> {
    seq!['<', '!', 'd', 'o', 'c', 't', 'y', 'p', 'e', ' ', 'h', 't', 'm', 'l', '5', '>']
}

/// `Boolean(true)`, a non-empty string and a non-zero integer are true;
/// everything else is false.
pub open spec fn truthy(v: Val) -> bool {
    match v {
        Val::Bool(b) => b,
        Val::Str(s) => s.len() > 0,
        Val::Int(i) => i != 0,
        _ => false,
    }
}

/// Position of the first `.` in `s`, or `s.len()` where there is none.
pub open spec fn first_dot(s: Seq<char>) -> int
    decreases s.len(),
{
    if s.len() == 0 {
        0
    } else if s[0] == '.' {
        0
    } else {
        1 + first_dot(s.drop_first())
    }
}

pub proof fn lemma_first_dot(s: Seq<char>)
    ensures
        0 <= first_dot(s) <= s.len(),
        first_dot(s) < s.len() ==> s[first_dot(s)] == '.',
        forall|j: int| 0 <= j < first_dot(s) ==> s[j] != '.',
    decreases s.len(),
{
    if s.len() > 0 && s[0] != '.' {
        lemma_first_dot(s.drop_first());
        assert forall|j: int| 1 <= j < first_dot(s) implies s[j] != '.' by {
            assert(s[j] == s.drop_first()[j - 1]);
        }
    }
}

/// A dotted path `a.b.c` (sigil removed) looked up from `c`: objects are
/// entered; the first value that is not an object is the result; a missing
/// segment gives `false`; a path that ends on an object gives its own text.
pub open spec fn walk(c: Scope, rest: Seq<char>, whole: Seq<char>) -> Val
    decreases rest.len(),
{
    let i = first_dot(rest);
    proof {
        lemma_first_dot(rest);
    }
    match lookup(c, strip_sigil(rest.take(i))) {
        None => Val::Bool(false),
        Some(Data::Obj(o)) => if i >= rest.len() {
            Val::Str(whole)
        } else {
            walk(o, rest.skip(i + 1), whole)
        },
        Some(x) => data_to_val(x),
    }
}

/// The elements of `range(lo, hi, step)`: from `lo` upward by `step`, below `hi`.
pub open spec fn range_count(lo: i64, hi: i64, step: i64) -> int {
    if hi > lo && step > 0 {
        (hi as int - lo as int + step as int - 1) / (step as int)
    } else {
        0
    }
}

pub open spec fn range_items(lo: i64, hi: i64, step: i64) -> Seq<Data> {
    Seq::new(range_count(lo, hi, step) as nat, |k: int| Data::Int((lo + k * step) as i64))
}

/// Two's-complement arithmetic; `None` for a division or remainder by zero.
pub open spec fn apply_math(op: MathOp, a: i64, b: i64) -> Option<i64> {
    match op {
        MathOp::Add => Some(a.wrapping_add(b)),
        MathOp::Sub => Some(a.wrapping_sub(b)),
        MathOp::Mul => Some(a.wrapping_mul(b)),
        MathOp::Div => if b == 0 {
            None
        } else {
            match a.checked_div(b) {
                Some(q) => Some(q),
                None => Some(i64::MIN),
            }
        },
        MathOp::Rem => if b == 0 {
            None
        } else {
            match a.checked_rem(b) {
                Some(q) => Some(q),
                None => Some(0),
            }
        },
    }
}

/// Lexicographic order of character sequences by code point.
pub open spec fn cmp_chars(a: Seq<char>, b: Seq<char>) -> core::cmp::Ordering
    decreases a.len(),
{
    if a.len() == 0 && b.len() == 0 {
        core::cmp::Ordering::Equal
    } else if a.len() == 0 {
        core::cmp::Ordering::Less
    } else if b.len() == 0 {
        core::cmp::Ordering::Greater
    } else if a[0] == b[0] {
        cmp_chars(a.drop_first(), b.drop_first())
    } else if (a[0] as u32) < (b[0] as u32) {
        core::cmp::Ordering::Less
    } else {
        core::cmp::Ordering::Greater
    }
}

pub open spec fn cmp_ints(a: int, b: int) -> core::cmp::Ordering {
    if a < b {
        core::cmp::Ordering::Less
    } else if a > b {
        core::cmp::Ordering::Greater
    } else {
        core::cmp::Ordering::Equal
    }
}

/// The order of two values: defined within integers, booleans, strings and
/// lists (lexicographically); values of different kinds are unordered.
pub open spec fn compare(a: Data, b: Data) -> Option<core::cmp::Ordering>
    decreases a,
{
    match (a, b) {
        (Data::Int(x), Data::Int(y)) => Some(cmp_ints(x as int, y as int)),
        (Data::Bool(x), Data::Bool(y)) => Some(
            cmp_ints(if x { 1 } else { 0 }, if y { 1 } else { 0 }),
        ),
        (Data::Str(x), Data::Str(y)) => Some(cmp_chars(x, y)),
        (Data::List(x), Data::List(y)) => compare_lists(x, y),
        _ => None,
    }
}

pub open spec fn compare_lists(x: Seq<Data>, y: Seq<Data>) -> Option<core::cmp::Ordering>
    decreases x,
{
    if x.len() == 0 && y.len() == 0 {
        Some(core::cmp::Ordering::Equal)
    } else if x.len() == 0 {
        Some(core::cmp::Ordering::Less)
    } else if y.len() == 0 {
        Some(core::cmp::Ordering::Greater)
    } else {
        match compare(x[0], y[0]) {
            Some(core::cmp::Ordering::Equal) => {
                proof {
                    assert(decreases_to!(x => x[0]));
                }
                compare_lists(x.drop_first(), y.drop_first())
            },
            o => o,
        }
    }
}

pub open spec fn cmp_holds(op: CmpOp, o: Option<core::cmp::Ordering>) -> bool {
    match op {
        CmpOp::Eq => o == Some(core::cmp::Ordering::Equal),
        CmpOp::Ne => o != Some(core::cmp::Ordering::Equal),
        CmpOp::Lt => o == Some(core::cmp::Ordering::Less),
        CmpOp::Gt => o == Some(core::cmp::Ordering::Greater),
        CmpOp::Lte => o == Some(core::cmp::Ordering::Less) || o == Some(core::cmp::Ordering::Equal),
        CmpOp::Gte => o == Some(core::cmp::Ordering::Greater) || o == Some(
            core::cmp::Ordering::Equal,
        ),
    }
}

/// ` key="value"` for each attribute, in order.
pub open spec fn attr_text(a: Seq<(Seq<char>, Seq<char>)>) -> Seq<char>
    decreases a.len(),
{
    if a.len() == 0 {
        Seq::empty()
    } else {
        attr_text(a.drop_last()) + seq![' '] + a.last().0 + seq!['=', '"'] + a.last().1 + seq!['"']
    }
}

pub open spec fn open_tag(name: Seq<char>, a: Seq<(Seq<char>, Seq<char>)>) -> Seq<char> {
    seq!['<'] + name + attr_text(a) + seq!['>']
}

pub open spec fn empty_tag(name: Seq<char>, a: Seq<(Seq<char>, Seq<char>)>) -> Seq<char> {
    seq!['<'] + name + attr_text(a) + seq![' ', '/', '>']
}

pub open spec fn close_tag(name: Seq<char>) -> Seq<char> {
    seq!['<', '/'] + name + seq!['>']
}

/// A markup element around given child values: `<name attrs />` where there
/// are no children, else the opening tag, the children and the closing tag.
pub open spec fn element(name: Seq<char>, a: Seq<(Seq<char>, Seq<char>)>, children: Option<Seq<Val>>) -> Val {
    match children {
        None => Val::List(seq![Val::Str(empty_tag(name, a))]),
        Some(vs) => Val::List(
            seq![Val::Str(open_tag(name, a)), Val::List(vs), Val::Str(close_tag(name))],
        ),
    }
}

/// Evaluates one node.
pub open spec fn eval(t: Table, e: Expr, c: Scope, d: nat) -> Outcome
    decreases d, node_size(e), 0nat,
{
    match e {
        Expr::Ident(s) => expand(t, s, c, d),
        Expr::Int(i) => Some(Ok(Val::Int(i))),
        Expr::Tag(name, attrs, ch) => match eval_attrs(t, attrs, c, d) {
            None => None,
            Some(Err(k)) => Some(Err(k)),
            Some(Ok(av)) => match dispatch(t, name) {
                None => markup(t, name, av, ch, c, d),
                Some(None) => None,
                Some(Some(b)) => builtin(t, b, av, ch, c, d),
            },
        },
    }
}

/// Evaluates nodes left to right; the first failure ends it.
pub open spec fn eval_seq(t: Table, s: Seq<Expr>, c: Scope, d: nat) -> Outcomes
    decreases d, exprs_size(s), 1nat,
{
    if s.len() == 0 {
        Some(Ok(Seq::empty()))
    } else {
        proof {
            lemma_exprs_size_elem(s, s.len() - 1);
            assert(node_size(s.last()) >= 1);
        }
        match eval_seq(t, s.drop_last(), c, d) {
            None => None,
            Some(Err(k)) => Some(Err(k)),
            Some(Ok(vs)) => match eval(t, s.last(), c, d) {
                None => None,
                Some(Err(k)) => Some(Err(k)),
                Some(Ok(v)) => Some(Ok(vs.push(v))),
            },
        }
    }
}

/// Evaluates each attribute to a pair of strings: the key's text and the
/// concatenated text of the values.
pub open spec fn eval_attrs(t: Table, a: Seq<(Expr, Seq<Expr>)>, c: Scope, d: nat) -> Option<
    Result<Seq<(Seq<char>, Seq<char>)>, ErrorKind>,
>
    decreases d, attrs_size(a), 0nat,
{
    if a.len() == 0 {
        Some(Ok(Seq::empty()))
    } else {
        match eval_attrs(t, a.drop_last(), c, d) {
            None => None,
            Some(Err(k)) => Some(Err(k)),
            Some(Ok(xs)) => match eval(t, a.last().0, c, d) {
                None => None,
                Some(Err(k)) => Some(Err(k)),
                Some(Ok(kv)) => match eval_seq(t, a.last().1, c, d) {
                    None => None,
                    Some(Err(k)) => Some(Err(k)),
                    Some(Ok(vs)) => Some(Ok(xs.push((text_of(kv), texts(vs))))),
                },
            },
        }
    }
}

/// Resolves an identifier.
pub open spec fn expand(t: Table, s: Seq<char>, c: Scope, d: nat) -> Outcome
    decreases d, 0nat, 0nat,
{
    if !(s.len() > 0 && s[0] == '$') {
        Some(Ok(Val::Str(s)))
    } else {
        let rest = s.drop_first();
        if first_dot(rest) < rest.len() {
            Some(Ok(walk(c, rest, s)))
        } else {
            match lookup(c, strip_sigil(rest)) {
                None => Some(Ok(Val::Str(s))),
                Some(Data::List(items)) => if d == 0 {
                    Some(Err(ErrorKind::Depth))
                } else {
                    match expand_items(t, items, c, (d - 1) as nat) {
                        None => None,
                        Some(Err(k)) => Some(Err(k)),
                        Some(Ok(vs)) => Some(Ok(Val::List(vs))),
                    }
                },
                Some(Data::Tmpl(e)) => if d == 0 {
                    Some(Err(ErrorKind::Depth))
                } else {
                    match eval(t, e, c, (d - 1) as nat) {
                        None => None,
                        Some(Err(k)) => Some(Err(k)),
                        Some(Ok(v)) => Some(Ok(Val::Str(text_of(v)))),
                    }
                },
                Some(x) => Some(Ok(data_to_val(x))),
            }
        }
    }
}

/// The elements of a list variable: strings are expanded again, other
/// elements are taken as they are.
pub open spec fn expand_items(t: Table, items: Seq<Data>, c: Scope, d: nat) -> Outcomes
    decreases d, 0nat, items.len() + 1,
{
    if items.len() == 0 {
        Some(Ok(Seq::empty()))
    } else {
        match expand_items(t, items.drop_last(), c, d) {
            None => None,
            Some(Err(k)) => Some(Err(k)),
            Some(Ok(vs)) => match items.last() {
                Data::Str(s) => match expand(t, s, c, d) {
                    None => None,
                    Some(Err(k)) => Some(Err(k)),
                    Some(Ok(v)) => Some(Ok(vs.push(v))),
                },
                x => Some(Ok(vs.push(data_to_val(x)))),
            },
        }
    }
}

/// A tag without a handler: an element with its attributes and children.
pub open spec fn markup(
    t: Table,
    name: Seq<char>,
    a: Seq<(Seq<char>, Seq<char>)>,
    ch: Seq<Expr>,
    c: Scope,
    d: nat,
) -> Outcome
    decreases d, exprs_size(ch), 2nat,
{
    if ch.len() == 0 {
        Some(Ok(element(name, a, None)))
    } else {
        match eval_seq(t, ch, c, d) {
            None => None,
            Some(Err(k)) => Some(Err(k)),
            Some(Ok(vs)) => Some(Ok(element(name, a, Some(vs)))),
        }
    }
}

/// A tag with a standard handler.
pub open spec fn builtin(
    t: Table,
    b: Builtin,
    a: Seq<(Seq<char>, Seq<char>)>,
    ch: Seq<Expr>,
    c: Scope,
    d: nat,
) -> Outcome
    decreases d, exprs_size(ch), 6nat,
{
    match b {
        Builtin::Html => html_of(t, a, ch, c, d),
        Builtin::IsSet => is_set_of(ch, c),
        Builtin::If => if_of(t, ch, c, d),
        Builtin::Switch => switch_of(t, ch, c, d),
        Builtin::Case => case_of(t, ch, c, d),
        Builtin::For => for_of(t, ch, c, d),
        Builtin::Get => get_of(t, ch, c, d),
        Builtin::Cmp(op) => cmp_of(t, op, ch, c, d),
        Builtin::Math(op) => math_of(t, op, ch, c, d),
    }
}

/// `html`: the doctype, then an `html` element.
pub open spec fn html_of(t: Table, a: Seq<(Seq<char>, Seq<char>)>, ch: Seq<Expr>, c: Scope, d: nat) -> Outcome
    decreases d, exprs_size(ch), 3nat,
{
    match markup(t, word_html(), a, ch, c, d) {
        None => None,
        Some(Err(k)) => Some(Err(k)),
        Some(Ok(m)) => Some(Ok(Val::List(seq![Val::Str(doctype()), m]))),
    }
}

/// `is-set`: whether the identifier names a bound variable.
pub open spec fn is_set_of(ch: Seq<Expr>, c: Scope) -> Outcome {
    if ch.len() > 0 {
        match ch[0] {
            Expr::Ident(x) => Some(Ok(Val::Bool(lookup(c, strip_sigil(x)) is Some))),
            _ => Some(Err(ErrorKind::IsSet)),
        }
    } else {
        Some(Err(ErrorKind::IsSet))
    }
}

/// `if`: the second child where the first is true, else the third or `Empty`.
pub open spec fn if_of(t: Table, ch: Seq<Expr>, c: Scope, d: nat) -> Outcome
    decreases d, exprs_size(ch), 3nat,
{
    if ch.len() == 0 {
        Some(Err(ErrorKind::If))
    } else {
        proof {
            lemma_exprs_size_elem(ch, 0);
            if ch.len() > 1 {
                lemma_exprs_size_elem(ch, 1);
            }
            if ch.len() > 2 {
                lemma_exprs_size_elem(ch, 2);
            }
        }
        match eval(t, ch[0], c, d) {
            None => None,
            Some(Err(k)) => Some(Err(k)),
            Some(Ok(v)) => if truthy(v) {
                if ch.len() < 2 {
                    Some(Err(ErrorKind::If))
                } else {
                    eval(t, ch[1], c, d)
                }
            } else {
                if ch.len() < 3 {
                    Some(Ok(Val::Empty))
                } else {
                    eval(t, ch[2], c, d)
                }
            },
        }
    }
}

/// `switch`: the discriminant's text bound under the hidden name in a copy
/// of the scope, then every other child evaluated there.
pub open spec fn switch_of(t: Table, ch: Seq<Expr>, c: Scope, d: nat) -> Outcome
    decreases d, exprs_size(ch), 3nat,
{
    if ch.len() == 0 {
        Some(Err(ErrorKind::Switch))
    } else {
        proof {
            lemma_exprs_size_elem(ch, 0);
            lemma_exprs_size_skip(ch, 1);
        }
        match eval(t, ch[0], c, d) {
            None => None,
            Some(Err(k)) => Some(Err(k)),
            Some(Ok(v)) => match eval_seq(
                t,
                ch.skip(1),
                bind(c, switch_key(), Data::Str(text_of(v))),
                d,
            ) {
                None => None,
                Some(Err(k)) => Some(Err(k)),
                Some(Ok(vs)) => Some(Ok(Val::List(vs))),
            },
        }
    }
}

/// `case`: its body where its label equals the discriminant, else `Empty`.
pub open spec fn case_of(t: Table, ch: Seq<Expr>, c: Scope, d: nat) -> Outcome
    decreases d, exprs_size(ch), 3nat,
{
    if ch.len() == 0 {
        Some(Err(ErrorKind::Case))
    } else {
        match lookup(c, switch_key()) {
            None => Some(Err(ErrorKind::Case)),
            Some(sw) => if ch[0] matches Expr::Ident(x) && sw == Data::Str(x) {
                proof {
                    lemma_exprs_size_skip(ch, 1);
                }
                match eval_seq(t, ch.skip(1), c, d) {
                    None => None,
                    Some(Err(k)) => Some(Err(k)),
                    Some(Ok(vs)) => Some(Ok(Val::List(vs))),
                }
            } else {
                Some(Ok(Val::Empty))
            },
        }
    }
}

/// `get`: an element of a list by position, or a member of an object by name.
pub open spec fn get_of(t: Table, ch: Seq<Expr>, c: Scope, d: nat) -> Outcome
    decreases d, exprs_size(ch), 3nat,
{
    if ch.len() == 0 {
        Some(Err(ErrorKind::Get))
    } else {
        proof {
            lemma_exprs_size_elem(ch, 0);
            if ch.len() > 1 {
                lemma_exprs_size_elem(ch, 1);
            }
        }
        match eval(t, ch[0], c, d) {
            None => None,
            Some(Err(k)) => Some(Err(k)),
            Some(Ok(a)) => if ch.len() < 2 {
                Some(Err(ErrorKind::Get))
            } else {
                match eval(t, ch[1], c, d) {
                    None => None,
                    Some(Err(k)) => Some(Err(k)),
                    Some(Ok(i)) => Some(index_into(a, i)),
                }
            },
        }
    }
}

/// Index of the first member named `k`, or -1.
pub open spec fn member_index(o: Seq<(Seq<char>, Val)>, k: Seq<char>) -> int
    decreases o.len(),
{
    if o.len() == 0 {
        -1
    } else if o.last().0 == k && member_index(o.drop_last(), k) < 0 {
        o.len() - 1
    } else {
        member_index(o.drop_last(), k)
    }
}

pub open spec fn index_into(a: Val, i: Val) -> Result<Val, ErrorKind> {
    match (a, i) {
        (Val::List(l), Val::Int(n)) => if 0 <= n < l.len() {
            Ok(l[n as int])
        } else {
            Err(ErrorKind::Get)
        },
        (Val::Obj(o), Val::Str(k)) => {
            let j = member_index(o, k);
            if 0 <= j < o.len() {
                Ok(o[j].1)
            } else {
                Err(ErrorKind::Get)
            }
        },
        _ => Err(ErrorKind::Get),
    }
}

/// An operand of a comparison: an identifier is looked up, falling back to
/// its own text; an integer is itself; a tag is evaluated, and its failure
/// is a comparison failure.
pub open spec fn cmp_operand(t: Table, ch: Seq<Expr>, k: int, c: Scope, d: nat) -> Option<
    Result<Data, ErrorKind>,
>
    decreases d, exprs_size(ch), 3nat,
{
    if k < 0 || k >= ch.len() {
        Some(Err(ErrorKind::Cmp))
    } else {
        match ch[k] {
            Expr::Ident(x) => Some(
                Ok(
                    match lookup(c, strip_sigil(x)) {
                        Some(v) => v,
                        None => Data::Str(x),
                    },
                ),
            ),
            Expr::Int(i) => Some(Ok(Data::Int(i))),
            _ => {
                proof {
                    lemma_exprs_size_elem(ch, k);
                }
                match eval(t, ch[k], c, d) {
                    None => None,
                    Some(Err(_)) => Some(Err(ErrorKind::Cmp)),
                    Some(Ok(v)) => Some(Ok(val_to_data(v))),
                }
            },
        }
    }
}

pub open spec fn cmp_of(t: Table, op: CmpOp, ch: Seq<Expr>, c: Scope, d: nat) -> Outcome
    decreases d, exprs_size(ch), 4nat,
{
    match cmp_operand(t, ch, 0, c, d) {
        None => None,
        Some(Err(k)) => Some(Err(k)),
        Some(Ok(x)) => match cmp_operand(t, ch, 1, c, d) {
            None => None,
            Some(Err(k)) => Some(Err(k)),
            Some(Ok(y)) => Some(Ok(Val::Bool(cmp_holds(op, compare(x, y))))),
        },
    }
}

/// An operand of arithmetic: the child must evaluate to an integer; any
/// other outcome, a failure included, is an arithmetic failure.
pub open spec fn math_operand(t: Table, ch: Seq<Expr>, k: int, c: Scope, d: nat) -> Option<
    Result<i64, ErrorKind>,
>
    decreases d, exprs_size(ch), 3nat,
{
    if k < 0 || k >= ch.len() {
        Some(Err(ErrorKind::Math))
    } else {
        proof {
            lemma_exprs_size_elem(ch, k);
        }
        match eval(t, ch[k], c, d) {
            None => None,
            Some(Err(_)) => Some(Err(ErrorKind::Math)),
            Some(Ok(Val::Int(i))) => Some(Ok(i)),
            Some(Ok(_)) => Some(Err(ErrorKind::Math)),
        }
    }
}

pub open spec fn math_of(t: Table, op: MathOp, ch: Seq<Expr>, c: Scope, d: nat) -> Outcome
    decreases d, exprs_size(ch), 4nat,
{
    match math_operand(t, ch, 0, c, d) {
        None => None,
        Some(Err(k)) => Some(Err(k)),
        Some(Ok(x)) => match math_operand(t, ch, 1, c, d) {
            None => None,
            Some(Err(k)) => Some(Err(k)),
            Some(Ok(y)) => match apply_math(op, x, y) {
                None => Some(Err(ErrorKind::Math)),
                Some(z) => Some(Ok(Val::Int(z))),
            },
        },
    }
}

/// Position of the first child that is the identifier `in`, or -1.
pub open spec fn in_position(ch: Seq<Expr>) -> int
    decreases ch.len(),
{
    if ch.len() == 0 {
        -1
    } else if in_position(ch.drop_last()) >= 0 {
        in_position(ch.drop_last())
    } else if ch.last() == Expr::Ident(word_in()) {
        ch.len() - 1
    } else {
        -1
    }
}

/// `range(lo, hi, step?)`: the children of the range tag evaluate to
/// integers; the step is 1 where it is absent and must be positive. Any
/// failure among them is a `for` failure.
pub open spec fn range_of(t: Table, rch: Seq<Expr>, c: Scope, d: nat) -> Option<Result<Data, ErrorKind>>
    decreases d, exprs_size(rch), 3nat,
{
    if rch.len() < 2 {
        Some(Err(ErrorKind::For))
    } else {
        proof {
            lemma_exprs_size_elem(rch, 0);
            lemma_exprs_size_elem(rch, 1);
            if rch.len() > 2 {
                lemma_exprs_size_elem(rch, 2);
            }
        }
        match eval(t, rch[0], c, d) {
            None => None,
            Some(Err(_)) => Some(Err(ErrorKind::For)),
            Some(Ok(Val::Int(lo))) => match eval(t, rch[1], c, d) {
                None => None,
                Some(Err(_)) => Some(Err(ErrorKind::For)),
                Some(Ok(Val::Int(hi))) => {
                    let st = if rch.len() > 2 {
                        eval(t, rch[2], c, d)
                    } else {
                        Some(Ok(Val::Int(1)))
                    };
                    match st {
                        None => None,
                        Some(Err(_)) => Some(Err(ErrorKind::For)),
                        Some(Ok(Val::Int(s))) => if s <= 0 {
                            Some(Err(ErrorKind::For))
                        } else {
                            Some(Ok(Data::List(range_items(lo, hi, s))))
                        },
                        Some(Ok(_)) => Some(Err(ErrorKind::For)),
                    }
                },
                Some(Ok(_)) => Some(Err(ErrorKind::For)),
            },
            Some(Ok(_)) => Some(Err(ErrorKind::For)),
        }
    }
}

/// What a `for` iterates over: a variable, or a `range` tag.
pub open spec fn iterable_of(t: Table, ch: Seq<Expr>, p: int, c: Scope, d: nat) -> Option<
    Result<Data, ErrorKind>,
>
    decreases d, exprs_size(ch), 3nat,
{
    if p < 0 || p + 1 >= ch.len() {
        Some(Err(ErrorKind::For))
    } else {
        match ch[p + 1] {
            Expr::Ident(x) => match lookup(c, strip_sigil(x)) {
                None => Some(Err(ErrorKind::For)),
                Some(v) => Some(Ok(v)),
            },
            Expr::Tag(name, _, rch) => if name == word_range() {
                proof {
                    lemma_exprs_size_elem(ch, p + 1);
                }
                range_of(t, rch, c, d)
            } else {
                Some(Err(ErrorKind::For))
            },
            _ => Some(Err(ErrorKind::For)),
        }
    }
}

/// The text of a loop-variable child; any failure is a `for` failure.
pub open spec fn name_of(t: Table, ch: Seq<Expr>, k: int, c: Scope, d: nat) -> Option<
    Result<Seq<char>, ErrorKind>,
>
    decreases d, exprs_size(ch), 3nat,
{
    if k < 0 || k >= ch.len() {
        Some(Err(ErrorKind::For))
    } else {
        proof {
            lemma_exprs_size_elem(ch, k);
        }
        match eval(t, ch[k], c, d) {
            None => None,
            Some(Err(_)) => Some(Err(ErrorKind::For)),
            Some(Ok(v)) => Some(Ok(text_of(v))),
        }
    }
}

/// The loop header of a `for` over a list: an identifier (evaluated, then
/// taken as text), or `(enumerate index item)`.
pub open spec fn binder_of(t: Table, ch: Seq<Expr>, k: int, c: Scope, d: nat) -> Option<
    Result<Binder, ErrorKind>,
>
    decreases d, exprs_size(ch), 4nat,
{
    if k < 0 || k >= ch.len() {
        Some(Err(ErrorKind::For))
    } else {
        match ch[k] {
            Expr::Ident(_) => match name_of(t, ch, k, c, d) {
                None => None,
                Some(Err(e)) => Some(Err(e)),
                Some(Ok(n)) => Some(Ok(Binder::Single(n))),
            },
            Expr::Tag(name, _, ech) => if name == word_enumerate() && ech.len() >= 2 && (
            ech[0] matches Expr::Ident(_)) && (ech[1] matches Expr::Ident(_)) {
                Some(Ok(Binder::Indexed(ech[1]->Ident_0, ech[0]->Ident_0)))
            } else {
                Some(Err(ErrorKind::For))
            },
            _ => Some(Err(ErrorKind::For)),
        }
    }
}

/// The scope for the element at position `i`.
pub open spec fn bind_element(c: Scope, b: Binder, i: int, x: Data) -> Scope {
    match b {
        Binder::Single(n) => bind(c, strip_sigil(n), x),
        Binder::Indexed(item, index) => bind(
            bind(c, strip_sigil(item), x),
            strip_sigil(index),
            Data::Int(i as i64),
        ),
    }
}

/// The body evaluated once per element, in order, each time in a fresh copy
/// of the scope with the element bound.
pub open spec fn for_items(t: Table, items: Seq<Data>, b: Binder, body: Seq<Expr>, c: Scope, d: nat) -> Outcomes
    decreases d, exprs_size(body), items.len() + 2,
{
    if items.len() == 0 {
        Some(Ok(Seq::empty()))
    } else {
        match for_items(t, items.drop_last(), b, body, c, d) {
            None => None,
            Some(Err(k)) => Some(Err(k)),
            Some(Ok(vs)) => match eval_seq(
                t,
                body,
                bind_element(c, b, items.len() - 1, items.last()),
                d,
            ) {
                None => None,
                Some(Err(k)) => Some(Err(k)),
                Some(Ok(r)) => Some(Ok(vs.push(Val::List(r)))),
            },
        }
    }
}

/// The scope for one entry of an object.
pub open spec fn bind_entry(c: Scope, kn: Seq<char>, vn: Seq<char>, e: (Seq<char>, Data)) -> Scope {
    bind(bind(c, strip_sigil(kn), Data::Str(e.0)), strip_sigil(vn), e.1)
}

/// The body evaluated once per entry, in the object's order, each time in a
/// fresh copy of the scope with the key and the value bound.
pub open spec fn for_entries(
    t: Table,
    es: Seq<(Seq<char>, Data)>,
    kn: Seq<char>,
    vn: Seq<char>,
    body: Seq<Expr>,
    c: Scope,
    d: nat,
) -> Outcomes
    decreases d, exprs_size(body), es.len() + 2,
{
    if es.len() == 0 {
        Some(Ok(Seq::empty()))
    } else {
        match for_entries(t, es.drop_last(), kn, vn, body, c, d) {
            None => None,
            Some(Err(k)) => Some(Err(k)),
            Some(Ok(vs)) => match eval_seq(t, body, bind_entry(c, kn, vn, es.last()), d) {
                None => None,
                Some(Err(k)) => Some(Err(k)),
                Some(Ok(r)) => Some(Ok(vs.push(Val::List(r)))),
            },
        }
    }
}

/// `for`: `item in iterable body...`, `(enumerate index item) in list body...`
/// or `key value in object body...`.
pub open spec fn for_of(t: Table, ch: Seq<Expr>, c: Scope, d: nat) -> Outcome
    decreases d, exprs_size(ch), 5nat,
{
    let p = in_position(ch);
    if p < 1 || p + 1 >= ch.len() {
        Some(Err(ErrorKind::For))
    } else {
        match iterable_of(t, ch, p, c, d) {
            None => None,
            Some(Err(k)) => Some(Err(k)),
            Some(Ok(it)) => {
                let body = ch.skip(p + 2);
                proof {
                    lemma_exprs_size_skip(ch, p + 2);
                }
                match it {
                    Data::List(items) => match binder_of(t, ch, p - 1, c, d) {
                        None => None,
                        Some(Err(k)) => Some(Err(k)),
                        Some(Ok(b)) => match for_items(t, items, b, body, c, d) {
                            None => None,
                            Some(Err(k)) => Some(Err(k)),
                            Some(Ok(vs)) => Some(Ok(Val::List(vs))),
                        },
                    },
                    Data::Obj(es) => match name_of(t, ch, p - 2, c, d) {
                        None => None,
                        Some(Err(k)) => Some(Err(k)),
                        Some(Ok(kn)) => match name_of(t, ch, p - 1, c, d) {
                            None => None,
                            Some(Err(k)) => Some(Err(k)),
                            Some(Ok(vn)) => match for_entries(t, es, kn, vn, body, c, d) {
                                None => None,
                                Some(Err(k)) => Some(Err(k)),
                                Some(Ok(vs)) => Some(Ok(Val::List(vs))),
                            },
                        },
                    },
                    _ => Some(Err(ErrorKind::For)),
                }
            },
        }
    }
}

} // verus!
