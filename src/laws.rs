//! Properties of evaluation that hold for every input, proved from the
//! definitions in `semantics`.
use vstd::prelude::*;
use crate::context::{Data, lookup, bind, strip_sigil, lemma_lookup_bind};
use crate::template::{
    Expr, node_size, exprs_size, attrs_size, lemma_exprs_size_elem, lemma_exprs_size_skip,
};
use crate::value::{Val, text_of, texts};
use crate::builtins::lemma_in_position;
use crate::renderer::standard_table;
use crate::semantics::{
    Builtin, ErrorKind, Binder, Table, Scope, dispatch, eval, eval_seq, eval_attrs, builtin, truthy,
    lemma_first_dot, range_items, range_count, in_position, word_in, word_range, range_of,
    iterable_of, name_of, binder_of, markup, expand, expand_items, cmp_operand, math_operand, for_of,
    word_html, element, open_tag, close_tag, empty_tag, for_items, for_entries, bind_element,
    bind_entry, switch_key,
};

verus! {

pub open spec fn word_get() -> Seq<char> {
    seq!['g', 'e', 't']
}

pub open spec fn word_is_set() -> Seq<char> {
    seq!['i', 's', '-', 's', 'e', 't']
}

pub open spec fn word_if() -> Seq<char> {
    seq!['i', 'f']
}

pub open spec fn word_case() -> Seq<char> {
    seq!['c', 'a', 's', 'e']
}

pub open spec fn word_switch() -> Seq<char> {
    seq!['s', 'w', 'i', 't', 'c', 'h']
}

/// A tag without attributes.
pub open spec fn plain_tag(name: Seq<char>, ch: Seq<Expr>) -> Expr {
    Expr::Tag(name, Seq::empty(), ch)
}

proof fn lemma_plain_tag(t: Table, name: Seq<char>, ch: Seq<Expr>, c: Scope, d: nat, b: Builtin)
    requires
        dispatch(t, name) == Some(Some(b)),
    ensures
        eval(t, plain_tag(name, ch), c, d) == builtin(t, b, Seq::empty(), ch, c, d),
{
    assert(eval_attrs(t, Seq::empty(), c, d) == Some(
        Ok::<Seq<(Seq<char>, Seq<char>)>, ErrorKind>(Seq::empty()),
    ));
}

/// `get` on a list and a position inside it gives the element at that position;
/// the list's length is out of bounds and gives a `get` error.
pub proof fn law_get_list(t: Table, a: Expr, b: Expr, c: Scope, d: nat, l: Seq<Val>, i: i64)
    requires
        dispatch(t, word_get()) == Some(Some(Builtin::Get)),
        eval(t, a, c, d) == Some(Ok::<Val, ErrorKind>(Val::List(l))),
        eval(t, b, c, d) == Some(Ok::<Val, ErrorKind>(Val::Int(i))),
    ensures
        0 <= i < l.len() ==> eval(t, plain_tag(word_get(), seq![a, b]), c, d) == Some(
            Ok::<Val, ErrorKind>(l[i as int]),
        ),
        i == l.len() ==> eval(t, plain_tag(word_get(), seq![a, b]), c, d) == Some(
            Err::<Val, ErrorKind>(ErrorKind::Get),
        ),
{
    lemma_plain_tag(t, word_get(), seq![a, b], c, d, Builtin::Get);
    assert(seq![a, b][0] == a);
    assert(seq![a, b][1] == b);
}

/// A variable that is not bound, written without a path, stays as written,
/// sigil included.
pub proof fn law_unbound_variable(t: Table, n: Seq<char>, c: Scope, d: nat)
    requires
        forall|j: int| 0 <= j < n.len() ==> n[j] != '.',
        n.len() == 0 || n[0] != '$',
        lookup(c, n) is None,
    ensures
        eval(t, Expr::Ident(seq!['$'] + n), c, d) == Some(
            Ok::<Val, ErrorKind>(Val::Str(seq!['$'] + n)),
        ),
        text_of(Val::Str(seq!['$'] + n)) == seq!['$'] + n,
{
    let s = seq!['$'] + n;
    assert(s.drop_first() =~= n);
    lemma_first_dot(n);
    assert(strip_sigil(n) == n);
}

/// `is-set` on `$x` is true exactly when `x` is bound, whatever its value.
pub proof fn law_is_set(t: Table, x: Seq<char>, c: Scope, d: nat)
    requires
        dispatch(t, word_is_set()) == Some(Some(Builtin::IsSet)),
        x.len() == 0 || x[0] != '$',
    ensures
        eval(t, plain_tag(word_is_set(), seq![Expr::Ident(seq!['$'] + x)]), c, d) == Some(
            Ok::<Val, ErrorKind>(Val::Bool(lookup(c, x) is Some)),
        ),
{
    lemma_plain_tag(t, word_is_set(), seq![Expr::Ident(seq!['$'] + x)], c, d, Builtin::IsSet);
    assert((seq!['$'] + x).drop_first() =~= x);
}

/// `false`, `0`, the empty string and the empty value are false; `true`, other
/// integers and non-empty strings are true.
pub proof fn law_truthiness(i: i64, s: Seq<char>)
    ensures
        !truthy(Val::Bool(false)),
        !truthy(Val::Int(0)),
        !truthy(Val::Str(Seq::empty())),
        !truthy(Val::Empty),
        truthy(Val::Bool(true)),
        i != 0 ==> truthy(Val::Int(i)),
        s.len() > 0 ==> truthy(Val::Str(s)),
{
}

/// `if (cond a b)`: where the condition's value is true the result is the value
/// of `a`, else that of `b`, or the empty value where `b` is absent.
pub proof fn law_if(t: Table, cond: Expr, a: Expr, rest: Seq<Expr>, c: Scope, d: nat, v: Val)
    requires
        dispatch(t, word_if()) == Some(Some(Builtin::If)),
        rest.len() <= 1,
        eval(t, cond, c, d) == Some(Ok::<Val, ErrorKind>(v)),
    ensures
        eval(t, plain_tag(word_if(), seq![cond, a] + rest), c, d) == if truthy(v) {
            eval(t, a, c, d)
        } else if rest.len() == 1 {
            eval(t, rest[0], c, d)
        } else {
            Some(Ok::<Val, ErrorKind>(Val::Empty))
        },
{
    let ch = seq![cond, a] + rest;
    lemma_plain_tag(t, word_if(), ch, c, d, Builtin::If);
    assert(ch[0] == cond);
    assert(ch[1] == a);
    if rest.len() == 1 {
        assert(ch[2] == rest[0]);
    }
}

/// `range(lo, hi, step)` gives ceil((hi - lo) / step) integers: the first is
/// `lo`, each is `step` above the one before, and all are below `hi`.
pub proof fn law_range(lo: i64, hi: i64, step: i64)
    requires
        step > 0,
    ensures
        hi <= lo ==> range_items(lo, hi, step).len() == 0,
        hi > lo ==> (range_items(lo, hi, step).len() - 1) * step < hi - lo
            <= range_items(lo, hi, step).len() * step,
        forall|k: int|
            0 <= k < range_items(lo, hi, step).len() ==> lo <= lo + k * step < hi
                && #[trigger] range_items(lo, hi, step)[k] == Data::Int((lo + k * step) as i64),
        forall|j: int, k: int|
            0 <= j < k < range_items(lo, hi, step).len() ==> (#[trigger] range_items(lo, hi, step)[j])->Int_0
                < (#[trigger] range_items(lo, hi, step)[k])->Int_0,
{
    let n = range_count(lo, hi, step);
    if hi > lo {
        assert((n - 1) * step < hi - lo <= n * step) by (nonlinear_arith)
            requires
                n == (hi as int - lo as int + step as int - 1) / (step as int),
                step > 0,
                hi > lo,
        ;
    }
    assert forall|k: int| 0 <= k < range_items(lo, hi, step).len() implies lo <= lo + k * step < hi
        && #[trigger] range_items(lo, hi, step)[k] == Data::Int((lo + k * step) as i64) by {
        assert(lo <= lo + k * step < hi) by (nonlinear_arith)
            requires
                0 <= k < n,
                n == (hi as int - lo as int + step as int - 1) / (step as int),
                step > 0,
                hi > lo,
        ;
    }
    assert forall|j: int, k: int| 0 <= j < k < range_items(lo, hi, step).len() implies (
    #[trigger] range_items(lo, hi, step)[j])->Int_0 < (#[trigger] range_items(lo, hi, step)[k])->Int_0 by {
        assert(lo + j * step < lo + k * step) by (nonlinear_arith)
            requires
                j < k,
                step > 0,
        ;
        assert(lo <= lo + j * step < hi) by (nonlinear_arith)
            requires
                0 <= j < n,
                n == (hi as int - lo as int + step as int - 1) / (step as int),
                step > 0,
                hi > lo,
        ;
        assert(lo <= lo + k * step < hi) by (nonlinear_arith)
            requires
                0 <= k < n,
                n == (hi as int - lo as int + step as int - 1) / (step as int),
                step > 0,
                hi > lo,
        ;
    }
}

/// A `for` over a list evaluates its body once per element, in order, each
/// time with that element (and its position) bound.
pub proof fn law_for_items(t: Table, items: Seq<Data>, b: Binder, body: Seq<Expr>, c: Scope, d: nat)
    ensures
        for_items(t, items, b, body, c, d) matches Some(Ok(vs)) ==> vs.len() == items.len() && forall|
            j: int,
        |
            0 <= j < items.len() ==> eval_seq(t, body, bind_element(c, b, j, items[j]), d) == Some(
                Ok::<Seq<Val>, ErrorKind>((#[trigger] vs[j])->List_0),
            ) && vs[j] is List,
    decreases items.len(),
{
    if items.len() > 0 {
        law_for_items(t, items.drop_last(), b, body, c, d);
        if let Some(Ok(vs)) = for_items(t, items, b, body, c, d) {
            assert forall|j: int| 0 <= j < items.len() - 1 implies items[j] == items.drop_last()[j] by {}
        }
    }
}

pub open spec fn word_for() -> Seq<char> {
    seq!['f', 'o', 'r']
}

/// `for n in (range lo hi step) body...` binds `n` to each integer of the
/// range in turn, from `lo` upward, and evaluates the body once for each:
/// ceil((hi - lo) / step) times.
pub proof fn law_for_range(
    t: Table,
    n: Seq<char>,
    lo_e: Expr,
    hi_e: Expr,
    step_e: Expr,
    body: Seq<Expr>,
    c: Scope,
    d: nat,
    lo: i64,
    hi: i64,
    step: i64,
)
    requires
        dispatch(t, word_for()) == Some(Some(Builtin::For)),
        n.len() == 0 || n[0] != '$',
        n != word_in(),
        step > 0,
        eval(t, lo_e, c, d) == Some(Ok::<Val, ErrorKind>(Val::Int(lo))),
        eval(t, hi_e, c, d) == Some(Ok::<Val, ErrorKind>(Val::Int(hi))),
        eval(t, step_e, c, d) == Some(Ok::<Val, ErrorKind>(Val::Int(step))),
    ensures
        ({
            let e = plain_tag(
                word_for(),
                seq![
                    Expr::Ident(n),
                    Expr::Ident(word_in()),
                    plain_tag(word_range(), seq![lo_e, hi_e, step_e]),
                ] + body,
            );
            eval(t, e, c, d) matches Some(Ok(v)) ==> {
                &&& v is List
                &&& v->List_0.len() == range_count(lo, hi, step)
                &&& forall|k: int|
                    0 <= k < range_count(lo, hi, step) ==> eval_seq(
                        t,
                        body,
                        bind(c, n, Data::Int((lo + k * step) as i64)),
                        d,
                    ) == Some(Ok::<Seq<Val>, ErrorKind>((#[trigger] v->List_0[k])->List_0))
            }
        }),
{
    let rch = seq![lo_e, hi_e, step_e];
    let ch = seq![Expr::Ident(n), Expr::Ident(word_in()), plain_tag(word_range(), rch)] + body;
    lemma_plain_tag(t, word_for(), ch, c, d, Builtin::For);
    lemma_in_position(ch);
    assert(ch[0] == Expr::Ident(n));
    assert(ch[1] == Expr::Ident(word_in()));
    assert(ch[2] == plain_tag(word_range(), rch));
    assert(in_position(ch) == 1);
    assert(rch[0] == lo_e && rch[1] == hi_e && rch[2] == step_e);
    assert(ch.skip(3) =~= body);
    assert(strip_sigil(n) == n);
    let items = range_items(lo, hi, step);
    assert(range_of(t, rch, c, d) == Some(Ok::<Data, ErrorKind>(Data::List(items))));
    assert(iterable_of(t, ch, 1, c, d) == Some(Ok::<Data, ErrorKind>(Data::List(items))));
    assert(eval(t, Expr::Ident(n), c, d) == Some(Ok::<Val, ErrorKind>(Val::Str(n))));
    assert(name_of(t, ch, 0, c, d) == Some(Ok::<Seq<char>, ErrorKind>(n)));
    assert(binder_of(t, ch, 0, c, d) == Some(Ok::<Binder, ErrorKind>(Binder::Single(n))));
    law_for_items(t, items, Binder::Single(n), body, c, d);
    assert forall|k: int| 0 <= k < items.len() implies #[trigger] bind_element(c, Binder::Single(n), k, items[k])
        == bind(c, n, Data::Int((lo + k * step) as i64)) by {}
}

/// `for k v in $o body...` over an object `o` evaluates the body once per
/// stored entry, in the object's (key) order, with `k` bound to the entry's
/// key and `v` to its value; no other binding of the two names occurs.
pub proof fn law_for_object(
    t: Table,
    kv: Seq<char>,
    vv: Seq<char>,
    o: Seq<char>,
    body: Seq<Expr>,
    c: Scope,
    d: nat,
    es: Seq<(Seq<char>, Data)>,
)
    requires
        dispatch(t, word_for()) == Some(Some(Builtin::For)),
        kv.len() == 0 || kv[0] != '$',
        vv.len() == 0 || vv[0] != '$',
        kv != word_in(),
        vv != word_in(),
        lookup(c, o) == Some(Data::Obj(es)),
    ensures
        ({
            let e = plain_tag(
                word_for(),
                seq![
                    Expr::Ident(kv),
                    Expr::Ident(vv),
                    Expr::Ident(word_in()),
                    Expr::Ident(seq!['$'] + o),
                ] + body,
            );
            eval(t, e, c, d) matches Some(Ok(v)) ==> {
                &&& v is List
                &&& v->List_0.len() == es.len()
                &&& forall|j: int|
                    0 <= j < es.len() ==> eval_seq(
                        t,
                        body,
                        bind(bind(c, kv, Data::Str(es[j].0)), vv, es[j].1),
                        d,
                    ) == Some(Ok::<Seq<Val>, ErrorKind>((#[trigger] v->List_0[j])->List_0))
            }
        }),
{
    let ch = seq![
        Expr::Ident(kv),
        Expr::Ident(vv),
        Expr::Ident(word_in()),
        Expr::Ident(seq!['$'] + o),
    ] + body;
    lemma_plain_tag(t, word_for(), ch, c, d, Builtin::For);
    lemma_in_position(ch);
    assert(ch[0] == Expr::Ident(kv));
    assert(ch[1] == Expr::Ident(vv));
    assert(ch[2] == Expr::Ident(word_in()));
    assert(ch[3] == Expr::Ident(seq!['$'] + o));
    assert(in_position(ch) == 2);
    assert((seq!['$'] + o).drop_first() =~= o);
    assert(ch.skip(4) =~= body);
    assert(strip_sigil(kv) == kv);
    assert(strip_sigil(vv) == vv);
    assert(iterable_of(t, ch, 2, c, d) == Some(Ok::<Data, ErrorKind>(Data::Obj(es))));
    assert(eval(t, Expr::Ident(kv), c, d) == Some(Ok::<Val, ErrorKind>(Val::Str(kv))));
    assert(eval(t, Expr::Ident(vv), c, d) == Some(Ok::<Val, ErrorKind>(Val::Str(vv))));
    assert(name_of(t, ch, 0, c, d) == Some(Ok::<Seq<char>, ErrorKind>(kv)));
    assert(name_of(t, ch, 1, c, d) == Some(Ok::<Seq<char>, ErrorKind>(vv)));
    law_for_entries(t, es, kv, vv, body, c, d);
}

/// A `for` over an object evaluates its body once per entry, in the object's
/// order, each time with that entry's key and value bound.
pub proof fn law_for_entries(
    t: Table,
    es: Seq<(Seq<char>, Data)>,
    kn: Seq<char>,
    vn: Seq<char>,
    body: Seq<Expr>,
    c: Scope,
    d: nat,
)
    ensures
        for_entries(t, es, kn, vn, body, c, d) matches Some(Ok(vs)) ==> vs.len() == es.len() && forall|
            j: int,
        |
            0 <= j < es.len() ==> eval_seq(t, body, bind_entry(c, kn, vn, es[j]), d) == Some(
                Ok::<Seq<Val>, ErrorKind>((#[trigger] vs[j])->List_0),
            ) && vs[j] is List,
    decreases es.len(),
{
    if es.len() > 0 {
        law_for_entries(t, es.drop_last(), kn, vn, body, c, d);
        if let Some(Ok(vs)) = for_entries(t, es, kn, vn, body, c, d) {
            assert forall|j: int| 0 <= j < es.len() - 1 implies es[j] == es.drop_last()[j] by {}
        }
    }
}

/// `switch` evaluates its cases in a scope where the hidden name holds the
/// text of the discriminant.
pub proof fn law_switch(t: Table, cond: Expr, cases: Seq<Expr>, c: Scope, d: nat, v: Val)
    requires
        dispatch(t, word_switch()) == Some(Some(Builtin::Switch)),
        eval(t, cond, c, d) == Some(Ok::<Val, ErrorKind>(v)),
    ensures
        eval(t, plain_tag(word_switch(), seq![cond] + cases), c, d) == match eval_seq(
            t,
            cases,
            bind(c, switch_key(), Data::Str(text_of(v))),
            d,
        ) {
            None => None,
            Some(Err(k)) => Some(Err(k)),
            Some(Ok(vs)) => Some(Ok(Val::List(vs))),
        },
        lookup(bind(c, switch_key(), Data::Str(text_of(v))), switch_key()) == Some(
            Data::Str(text_of(v)),
        ),
{
    let ch = seq![cond] + cases;
    lemma_plain_tag(t, word_switch(), ch, c, d, Builtin::Switch);
    assert(ch[0] == cond);
    assert(ch.skip(1) =~= cases);
    lemma_lookup_bind(c, switch_key(), Data::Str(text_of(v)), switch_key());
}

/// Under a discriminant `s`, a `case` whose label is not `s` emits nothing, and
/// the one whose label is `s` emits its body.
pub proof fn law_case(t: Table, label: Seq<char>, body: Seq<Expr>, c: Scope, d: nat, s: Seq<char>)
    requires
        dispatch(t, word_case()) == Some(Some(Builtin::Case)),
        lookup(c, switch_key()) == Some(Data::Str(s)),
    ensures
        label != s ==> eval(t, plain_tag(word_case(), seq![Expr::Ident(label)] + body), c, d)
            == Some(Ok::<Val, ErrorKind>(Val::Empty)),
        label == s ==> eval(t, plain_tag(word_case(), seq![Expr::Ident(label)] + body), c, d)
            == match eval_seq(t, body, c, d) {
            None => None,
            Some(Err(k)) => Some(Err(k)),
            Some(Ok(vs)) => Some(Ok(Val::List(vs))),
        },
{
    let ch = seq![Expr::Ident(label)] + body;
    lemma_plain_tag(t, word_case(), ch, c, d, Builtin::Case);
    assert(ch[0] == Expr::Ident(label));
    assert(ch.skip(1) =~= body);
}

/// Every entry of the table is a standard handler.
pub open spec fn standard_only(t: Table) -> bool {
    forall|i: int| 0 <= i < t.len() ==> (#[trigger] t[i]).1 is Some
}

proof fn lemma_dispatch_standard(t: Table, name: Seq<char>)
    requires
        standard_only(t),
    ensures
        dispatch(t, name) != Some(None::<Builtin>),
    decreases t.len(),
{
    if t.len() > 0 {
        assert(t[t.len() - 1].1 is Some);
        assert forall|i: int| 0 <= i < t.drop_last().len() implies (#[trigger] t.drop_last()[i]).1 is Some by {
            assert(t.drop_last()[i] == t[i]);
        }
        lemma_dispatch_standard(t.drop_last(), name);
    }
}

/// With standard handlers only, evaluation always decides: every node gives a
/// value or an error.
pub proof fn law_standard_handlers_decide(t: Table, e: Expr, c: Scope, d: nat)
    requires
        standard_only(t),
    ensures
        eval(t, e, c, d) is Some,
    decreases d, node_size(e), 0nat,
{
    match e {
        Expr::Ident(s) => lemma_expand_decided(t, s, c, d),
        Expr::Int(_) => {},
        Expr::Tag(name, attrs, ch) => {
            lemma_attrs_decided(t, attrs, c, d);
            lemma_dispatch_standard(t, name);
            if let Some(Ok(av)) = eval_attrs(t, attrs, c, d) {
                match dispatch(t, name) {
                    None => lemma_markup_decided(t, name, av, ch, c, d),
                    Some(Some(b)) => lemma_builtin_decided(t, b, av, ch, c, d),
                    Some(None) => {},
                }
            }
        },
    }
}

proof fn lemma_seq_decided(t: Table, s: Seq<Expr>, c: Scope, d: nat)
    requires
        standard_only(t),
    ensures
        eval_seq(t, s, c, d) is Some,
    decreases d, exprs_size(s), 1nat,
{
    if s.len() > 0 {
        lemma_exprs_size_elem(s, s.len() - 1);
        assert(node_size(s.last()) >= 1);
        lemma_seq_decided(t, s.drop_last(), c, d);
        law_standard_handlers_decide(t, s.last(), c, d);
    }
}

proof fn lemma_attrs_decided(t: Table, a: Seq<(Expr, Seq<Expr>)>, c: Scope, d: nat)
    requires
        standard_only(t),
    ensures
        eval_attrs(t, a, c, d) is Some,
    decreases d, attrs_size(a), 0nat,
{
    if a.len() > 0 {
        lemma_attrs_decided(t, a.drop_last(), c, d);
        law_standard_handlers_decide(t, a.last().0, c, d);
        lemma_seq_decided(t, a.last().1, c, d);
    }
}

proof fn lemma_expand_decided(t: Table, s: Seq<char>, c: Scope, d: nat)
    requires
        standard_only(t),
    ensures
        expand(t, s, c, d) is Some,
    decreases d, 0nat, 0nat,
{
    if s.len() > 0 && s[0] == '$' && d > 0 {
        let rest = s.drop_first();
        match lookup(c, strip_sigil(rest)) {
            Some(Data::List(items)) => lemma_items_decided(t, items, c, (d - 1) as nat),
            Some(Data::Tmpl(e)) => law_standard_handlers_decide(t, e, c, (d - 1) as nat),
            _ => {},
        }
    }
}

proof fn lemma_items_decided(t: Table, items: Seq<Data>, c: Scope, d: nat)
    requires
        standard_only(t),
    ensures
        expand_items(t, items, c, d) is Some,
    decreases d, 0nat, items.len() + 1,
{
    if items.len() > 0 {
        lemma_items_decided(t, items.drop_last(), c, d);
        if let Data::Str(s) = items.last() {
            lemma_expand_decided(t, s, c, d);
        }
    }
}

proof fn lemma_markup_decided(
    t: Table,
    name: Seq<char>,
    a: Seq<(Seq<char>, Seq<char>)>,
    ch: Seq<Expr>,
    c: Scope,
    d: nat,
)
    requires
        standard_only(t),
    ensures
        markup(t, name, a, ch, c, d) is Some,
    decreases d, exprs_size(ch), 2nat,
{
    lemma_seq_decided(t, ch, c, d);
}

proof fn lemma_child_decided(t: Table, ch: Seq<Expr>, k: int, c: Scope, d: nat)
    requires
        standard_only(t),
        0 <= k < ch.len(),
    ensures
        eval(t, ch[k], c, d) is Some,
    decreases d, exprs_size(ch), 2nat,
{
    lemma_exprs_size_elem(ch, k);
    law_standard_handlers_decide(t, ch[k], c, d);
}

proof fn lemma_rest_decided(t: Table, ch: Seq<Expr>, k: int, c: Scope, d: nat)
    requires
        standard_only(t),
        0 <= k <= ch.len(),
    ensures
        eval_seq(t, ch.skip(k), c, d) is Some,
    decreases d, exprs_size(ch), 2nat,
{
    lemma_exprs_size_skip(ch, k);
    lemma_seq_decided(t, ch.skip(k), c, d);
}

proof fn lemma_builtin_decided(
    t: Table,
    b: Builtin,
    a: Seq<(Seq<char>, Seq<char>)>,
    ch: Seq<Expr>,
    c: Scope,
    d: nat,
)
    requires
        standard_only(t),
    ensures
        builtin(t, b, a, ch, c, d) is Some,
    decreases d, exprs_size(ch), 6nat,
{
    match b {
        Builtin::Html => lemma_markup_decided(t, word_html(), a, ch, c, d),
        Builtin::IsSet => {},
        Builtin::If => {
            if ch.len() > 0 {
                lemma_child_decided(t, ch, 0, c, d);
                if ch.len() > 1 {
                    lemma_child_decided(t, ch, 1, c, d);
                }
                if ch.len() > 2 {
                    lemma_child_decided(t, ch, 2, c, d);
                }
            }
        },
        Builtin::Switch => {
            if ch.len() > 0 {
                lemma_child_decided(t, ch, 0, c, d);
                if let Some(Ok(v)) = eval(t, ch[0], c, d) {
                    lemma_rest_decided(t, ch, 1, bind(c, switch_key(), Data::Str(text_of(v))), d);
                }
            }
        },
        Builtin::Case => {
            if ch.len() > 0 {
                lemma_rest_decided(t, ch, 1, c, d);
            }
        },
        Builtin::Get => {
            if ch.len() > 0 {
                lemma_child_decided(t, ch, 0, c, d);
                if ch.len() > 1 {
                    lemma_child_decided(t, ch, 1, c, d);
                }
            }
        },
        Builtin::Cmp(_) => lemma_operands_decided(t, ch, c, d),
        Builtin::Math(_) => lemma_operands_decided(t, ch, c, d),
        Builtin::For => lemma_for_decided(t, ch, c, d),
    }
}

proof fn lemma_operands_decided(t: Table, ch: Seq<Expr>, c: Scope, d: nat)
    requires
        standard_only(t),
    ensures
        cmp_operand(t, ch, 0, c, d) is Some,
        cmp_operand(t, ch, 1, c, d) is Some,
        math_operand(t, ch, 0, c, d) is Some,
        math_operand(t, ch, 1, c, d) is Some,
    decreases d, exprs_size(ch), 4nat,
{
    if ch.len() > 0 {
        lemma_child_decided(t, ch, 0, c, d);
    }
    if ch.len() > 1 {
        lemma_child_decided(t, ch, 1, c, d);
    }
}

proof fn lemma_range_decided(t: Table, rch: Seq<Expr>, c: Scope, d: nat)
    requires
        standard_only(t),
    ensures
        range_of(t, rch, c, d) is Some,
    decreases d, exprs_size(rch), 3nat,
{
    if rch.len() >= 2 {
        lemma_child_decided(t, rch, 0, c, d);
        lemma_child_decided(t, rch, 1, c, d);
        if rch.len() > 2 {
            lemma_child_decided(t, rch, 2, c, d);
        }
    }
}

proof fn lemma_for_items_decided(t: Table, items: Seq<Data>, b: Binder, body: Seq<Expr>, c: Scope, d: nat)
    requires
        standard_only(t),
    ensures
        for_items(t, items, b, body, c, d) is Some,
    decreases d, exprs_size(body), items.len() + 2,
{
    if items.len() > 0 {
        lemma_for_items_decided(t, items.drop_last(), b, body, c, d);
        lemma_seq_decided(t, body, bind_element(c, b, items.len() - 1, items.last()), d);
    }
}

proof fn lemma_for_entries_decided(
    t: Table,
    es: Seq<(Seq<char>, Data)>,
    kn: Seq<char>,
    vn: Seq<char>,
    body: Seq<Expr>,
    c: Scope,
    d: nat,
)
    requires
        standard_only(t),
    ensures
        for_entries(t, es, kn, vn, body, c, d) is Some,
    decreases d, exprs_size(body), es.len() + 2,
{
    if es.len() > 0 {
        lemma_for_entries_decided(t, es.drop_last(), kn, vn, body, c, d);
        lemma_seq_decided(t, body, bind_entry(c, kn, vn, es.last()), d);
    }
}

proof fn lemma_for_decided(t: Table, ch: Seq<Expr>, c: Scope, d: nat)
    requires
        standard_only(t),
    ensures
        for_of(t, ch, c, d) is Some,
    decreases d, exprs_size(ch), 5nat,
{
    let p = in_position(ch);
    if p >= 0 && p + 1 < ch.len() {
        match ch[p + 1] {
            Expr::Tag(_, _, rch) => {
                lemma_exprs_size_elem(ch, p + 1);
                lemma_range_decided(t, rch, c, d);
            },
            _ => {},
        }
        lemma_exprs_size_skip(ch, p + 2);
        if p >= 1 {
            lemma_child_decided(t, ch, p - 1, c, d);
        }
        if p >= 2 {
            lemma_child_decided(t, ch, p - 2, c, d);
        }
        if let Some(Ok(it)) = iterable_of(t, ch, p, c, d) {
            match it {
                Data::List(items) => {
                    if let Some(Ok(b)) = binder_of(t, ch, p - 1, c, d) {
                        lemma_for_items_decided(t, items, b, ch.skip(p + 2), c, d);
                    }
                },
                Data::Obj(es) => {
                    if let (Some(Ok(kn)), Some(Ok(vn))) = (name_of(t, ch, p - 2, c, d), name_of(t, ch, p - 1, c, d)) {
                        lemma_for_entries_decided(t, es, kn, vn, ch.skip(p + 2), c, d);
                    }
                },
                _ => {},
            }
        }
    }
}

/// A renderer built with the standard handlers alone always decides: its
/// evaluation contracts then fix every result.
pub proof fn law_standard_renderer_decides(e: Expr, c: Scope, d: nat)
    ensures
        eval(standard_table(), e, c, d) is Some,
{
    let t = standard_table();
    assert(standard_only(t)) by {
        assert forall|i: int| 0 <= i < t.len() implies (#[trigger] t[i]).1 is Some by {
            assert(t.len() == 18);
        }
    }
    law_standard_handlers_decide(t, e, c, d);
}

/// The text of an element is its opening tag, the text of its children and
/// its closing tag, whatever produced the children; without children it is
/// one self-closing tag.
pub proof fn law_element_text(name: Seq<char>, a: Seq<(Seq<char>, Seq<char>)>, vs: Seq<Val>)
    ensures
        text_of(element(name, a, Some(vs))) == open_tag(name, a) + texts(vs) + close_tag(name),
        text_of(element(name, a, None)) == empty_tag(name, a),
{
    let l0 = Seq::<Val>::empty();
    let l1 = l0.push(Val::Str(open_tag(name, a)));
    let l2 = l1.push(Val::List(vs));
    let l3 = l2.push(Val::Str(close_tag(name)));
    assert(l1.drop_last() =~= l0);
    assert(l2.drop_last() =~= l1);
    assert(l3.drop_last() =~= l2);
    assert(texts(l0) == Seq::<char>::empty());
    assert(l1.last() == Val::Str(open_tag(name, a)));
    assert(text_of(Val::Str(open_tag(name, a))) == open_tag(name, a));
    assert(texts(l1) == texts(l0) + text_of(l1.last()));
    assert(texts(l1) =~= open_tag(name, a));
    assert(l2.last() == Val::List(vs));
    assert(text_of(Val::List(vs)) == texts(vs));
    assert(texts(l2) == texts(l1) + text_of(l2.last()));
    assert(texts(l2) =~= open_tag(name, a) + texts(vs));
    assert(l3.last() == Val::Str(close_tag(name)));
    assert(texts(l3) == texts(l2) + text_of(l3.last()));
    assert(texts(l3) =~= open_tag(name, a) + texts(vs) + close_tag(name));
    assert(l3 =~= seq![Val::Str(open_tag(name, a)), Val::List(vs), Val::Str(close_tag(name))]);
    let e = Seq::<Val>::empty().push(Val::Str(empty_tag(name, a)));
    assert(e.drop_last() =~= Seq::<Val>::empty());
    assert(e.last() == Val::Str(empty_tag(name, a)));
    assert(texts(e) == texts(e.drop_last()) + text_of(e.last()));
    assert(texts(e) =~= empty_tag(name, a));
    assert(e =~= seq![Val::Str(empty_tag(name, a))]);
}

} // verus!
