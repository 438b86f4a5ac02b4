use vstd::prelude::*;
use crate::context::{ContextValue, RenderContext, Data, values_view};
use crate::template::{
    Template, TemplateAttribute, TemplateExprNode, Expr, exprs_of, node_size, exprs_size,
    attrs_size, attrs_view, attr_view, lemma_attrs_size_elem, lemma_exprs_size_elem,
    lemma_nodes_view,
};
use crate::value::{RenderValue, Val, text_of, texts, rvs_view, data_to_val, finalize_into};
use crate::semantics::{
    Builtin, CmpOp, MathOp, ErrorKind, Table, Scope, Outcome, Outcomes, dispatch, eval, eval_seq,
    eval_attrs, expand, expand_items, markup, walk, first_dot, lemma_first_dot, attr_text, open_tag,
    empty_tag, close_tag, word_html, element,
};
use crate::builtins::call_builtin;

verus! {

/// How deep variable expansion may nest (templates held in variables, list
/// elements that name variables) before evaluation fails.
pub const MAX_DEPTH: u64 = 64;

/// An evaluated attribute: name and value.
#[derive(Debug, Clone)]
pub struct Attribute(pub String, pub String);

/// Evaluated attributes, in the order they were written.
#[derive(Debug, Clone)]
pub struct Attributes(pub Vec<Attribute>);

impl View for Attributes {
    type V = Seq<(Seq<char>, Seq<char>)>;

    open spec fn view(&self) -> Seq<(Seq<char>, Seq<char>)> {
        Seq::new(self.0.len() as nat, |i: int| (self.0[i].0@, self.0[i].1@))
    }
}

/// Index of the first attribute named `k`, or -1.
pub open spec fn attr_index(a: Seq<(Seq<char>, Seq<char>)>, k: Seq<char>) -> int
    decreases a.len(),
{
    if a.len() == 0 {
        -1
    } else if attr_index(a.drop_last(), k) >= 0 {
        attr_index(a.drop_last(), k)
    } else if a.last().0 == k {
        a.len() - 1
    } else {
        -1
    }
}

pub proof fn lemma_attr_index(a: Seq<(Seq<char>, Seq<char>)>, k: Seq<char>)
    ensures
        -1 <= attr_index(a, k) < a.len(),
        attr_index(a, k) >= 0 ==> a[attr_index(a, k)].0 == k,
        forall|j: int| 0 <= j < a.len() && j < attr_index(a, k) ==> a[j].0 != k,
        attr_index(a, k) < 0 ==> forall|j: int| 0 <= j < a.len() ==> a[j].0 != k,
    decreases a.len(),
{
    if a.len() > 0 {
        lemma_attr_index(a.drop_last(), k);
        assert forall|j: int| 0 <= j < a.len() - 1 implies a[j] == a.drop_last()[j] by {}
    }
}

/// Whether two strings hold the same characters.
pub fn same_text(a: &str, b: &str) -> (r: bool)
    ensures
        r == (a@ == b@),
{
    let n = a.unicode_len();
    if n != b.unicode_len() {
        return false;
    }
    let mut i: usize = 0;
    while i < n
        invariant
            i <= n,
            n == a@.len(),
            n == b@.len(),
            forall|j: int| 0 <= j < i ==> a@[j] == b@[j],
        decreases n - i,
    {
        if a.get_char(i) != b.get_char(i) {
            return false;
        }
        i += 1;
    }
    assert(a@ =~= b@);
    true
}

impl Attributes {
    pub fn new(attrs: Vec<Attribute>) -> (r: Attributes)
        ensures
            r.0@ == attrs@,
    {
        Attributes(attrs)
    }

    pub fn push(&mut self, attr: Attribute)
        ensures
            final(self)@ == old(self)@.push((attr.0@, attr.1@)),
    {
        self.0.push(attr);
        assert(self@ =~= old(self)@.push((attr.0@, attr.1@)));
    }

    /// The value of the first attribute with that name.
    pub fn get(&self, name: &str) -> (r: Option<&String>)
        ensures
            attr_index(self@, name@) < 0 ==> r is None,
            attr_index(self@, name@) >= 0 ==> (r matches Some(v) && v@ == self@[attr_index(
                self@,
                name@,
            )].1),
    {
        proof {
            lemma_attr_index(self@, name@);
        }
        let mut i: usize = 0;
        while i < self.0.len()
            invariant
                i <= self.0.len(),
                self@.len() == self.0.len(),
                forall|j: int| 0 <= j < i ==> self@[j].0 != name@,
                -1 <= attr_index(self@, name@) < self@.len(),
                attr_index(self@, name@) >= 0 ==> self@[attr_index(self@, name@)].0 == name@,
                forall|j: int| 0 <= j < self@.len() && j < attr_index(self@, name@) ==> self@[j].0 != name@,
                attr_index(self@, name@) < 0 ==> forall|j: int| 0 <= j < self@.len() ==> self@[j].0 != name@,
            decreases self.0.len() - i,
        {
            if same_text(self.0[i].0.as_str(), name) {
                assert(self@[i as int].0 == name@);
                return Some(&self.0[i].1);
            }
            i += 1;
        }
        None
    }
}

/// A failed render: a message and the nodes it concerns.
#[derive(Debug)]
pub enum RenderError {
    IsSet(String, Vec<TemplateExprNode>),
    Cmp(String, Vec<TemplateExprNode>),
    If(String, Vec<TemplateExprNode>),
    Case(String, Vec<TemplateExprNode>),
    Switch(String, Vec<TemplateExprNode>),
    For(String, Vec<TemplateExprNode>),
    Get(String, Vec<TemplateExprNode>),
    Math(String, Vec<TemplateExprNode>),
    /// A caller-supplied handler failed: its name, a message, the nodes.
    UserDefined(String, String, Vec<TemplateExprNode>),
    /// Variable expansion nested deeper than the depth limit.
    Depth(String),
}

impl RenderError {
    pub open spec fn kind(&self) -> ErrorKind {
        match self {
            RenderError::IsSet(..) => ErrorKind::IsSet,
            RenderError::Cmp(..) => ErrorKind::Cmp,
            RenderError::If(..) => ErrorKind::If,
            RenderError::Case(..) => ErrorKind::Case,
            RenderError::Switch(..) => ErrorKind::Switch,
            RenderError::For(..) => ErrorKind::For,
            RenderError::Get(..) => ErrorKind::Get,
            RenderError::Math(..) => ErrorKind::Math,
            RenderError::UserDefined(..) => ErrorKind::UserDefined,
            RenderError::Depth(..) => ErrorKind::Depth,
        }
    }

    /// An error of the given kind about the given nodes.
    pub fn about(kind: ErrorKind, msg: &str, nodes: &[TemplateExprNode]) -> (r: RenderError)
        ensures
            r.kind() == kind,
    {
        let m = msg.to_string();
        let mut v: Vec<TemplateExprNode> = Vec::new();
        let mut i: usize = 0;
        while i < nodes.len()
            invariant
                i <= nodes.len(),
            decreases nodes.len() - i,
        {
            v.push(nodes[i].copy());
            i += 1;
        }
        match kind {
            ErrorKind::IsSet => RenderError::IsSet(m, v),
            ErrorKind::Cmp => RenderError::Cmp(m, v),
            ErrorKind::If => RenderError::If(m, v),
            ErrorKind::Case => RenderError::Case(m, v),
            ErrorKind::Switch => RenderError::Switch(m, v),
            ErrorKind::For => RenderError::For(m, v),
            ErrorKind::Get => RenderError::Get(m, v),
            ErrorKind::Math => RenderError::Math(m, v),
            ErrorKind::UserDefined => RenderError::UserDefined(String::new(), m, v),
            ErrorKind::Depth => RenderError::Depth(m),
        }
    }
}

/// The result of an evaluation agrees with its outcome.
pub open spec fn agrees(r: Result<RenderValue, RenderError>, o: Outcome) -> bool {
    match o {
        None => true,
        Some(Ok(v)) => r matches Ok(x) && x@ == v,
        Some(Err(k)) => r matches Err(e) && e.kind() == k,
    }
}

pub open spec fn agrees_all(r: Result<Vec<RenderValue>, RenderError>, o: Outcomes) -> bool {
    match o {
        None => true,
        Some(Ok(vs)) => r matches Ok(x) && rvs_view(x) == vs,
        Some(Err(k)) => r matches Err(e) && e.kind() == k,
    }
}

/// A handler that callers supply for tags of their own. It receives the
/// evaluated attributes and the unevaluated children, and may evaluate them
/// through the renderer.
pub trait TagHandler: Sized {
    fn handle(
        &self,
        attrs: Attributes,
        children: &[TemplateExprNode],
        renderer: &Renderer<Self>,
        context: &RenderContext,
    ) -> Result<RenderValue, RenderError>;
}

/// The handler of renderers that have no handlers of their own.
#[derive(Debug)]
pub struct NoHandler;

impl TagHandler for NoHandler {
    fn handle(
        &self,
        attrs: Attributes,
        children: &[TemplateExprNode],
        renderer: &Renderer<Self>,
        context: &RenderContext,
    ) -> Result<RenderValue, RenderError> {
        Err(RenderError::about(ErrorKind::UserDefined, "no handler", children))
    }
}

pub enum Handler<H> {
    Builtin(Builtin),
    User(H),
}

pub open spec fn table_of<H>(f: Seq<(String, Handler<H>)>) -> Table {
    Seq::new(
        f.len(),
        |i: int|
            (
                f[i].0@,
                match f[i].1 {
                    Handler::Builtin(b) => Some(b),
                    Handler::User(_) => None,
                },
            ),
    )
}

/// The standard dispatch table.
pub open spec fn standard_table() -> Table {
    Seq::empty()
        .push((word_html(), Some(Builtin::Html)))
        .push((seq!['i', 's', '-', 's', 'e', 't'], Some(Builtin::IsSet)))
        .push((seq!['i', 'f'], Some(Builtin::If)))
        .push((seq!['s', 'w', 'i', 't', 'c', 'h'], Some(Builtin::Switch)))
        .push((seq!['c', 'a', 's', 'e'], Some(Builtin::Case)))
        .push((seq!['f', 'o', 'r'], Some(Builtin::For)))
        .push((seq!['g', 'e', 't'], Some(Builtin::Get)))
        .push((seq!['e', 'q'], Some(Builtin::Cmp(CmpOp::Eq))))
        .push((seq!['l', 't'], Some(Builtin::Cmp(CmpOp::Lt))))
        .push((seq!['g', 't'], Some(Builtin::Cmp(CmpOp::Gt))))
        .push((seq!['l', 't', 'e'], Some(Builtin::Cmp(CmpOp::Lte))))
        .push((seq!['g', 't', 'e'], Some(Builtin::Cmp(CmpOp::Gte))))
        .push((seq!['n', 'e'], Some(Builtin::Cmp(CmpOp::Ne))))
        .push((seq!['+'], Some(Builtin::Math(MathOp::Add))))
        .push((seq!['-'], Some(Builtin::Math(MathOp::Sub))))
        .push((seq!['*'], Some(Builtin::Math(MathOp::Mul))))
        .push((seq!['/'], Some(Builtin::Math(MathOp::Div))))
        .push((seq!['%'], Some(Builtin::Math(MathOp::Rem))))
}

/// In the standard table every standard name reaches its own handler, so the
/// laws that ask for a handler under a name hold of a renderer built with the
/// standard handlers alone.
pub proof fn law_standard_names()
    ensures
        dispatch(standard_table(), word_html()) == Some(Some(Builtin::Html)),
        dispatch(standard_table(), seq!['i', 's', '-', 's', 'e', 't']) == Some(Some(Builtin::IsSet)),
        dispatch(standard_table(), seq!['i', 'f']) == Some(Some(Builtin::If)),
        dispatch(standard_table(), seq!['s', 'w', 'i', 't', 'c', 'h']) == Some(Some(Builtin::Switch)),
        dispatch(standard_table(), seq!['c', 'a', 's', 'e']) == Some(Some(Builtin::Case)),
        dispatch(standard_table(), seq!['f', 'o', 'r']) == Some(Some(Builtin::For)),
        dispatch(standard_table(), seq!['g', 'e', 't']) == Some(Some(Builtin::Get)),
{
    reveal_with_fuel(dispatch, 19);
    let t = standard_table();
    assert(t.len() == 18);
    assert(t[17].0 =~= seq!['%']);
}

fn add_builtin<H>(f: &mut Vec<(String, Handler<H>)>, name: &str, b: Builtin)
    ensures
        table_of(final(f)@) == table_of(old(f)@).push((name@, Some(b))),
{
    f.push((name.to_string(), Handler::Builtin(b)));
    assert(table_of(f@) =~= table_of(old(f)@).push((name@, Some(b))));
}

/// The standard handlers, made afresh for each builder.
#[verifier::rlimit(50)]
pub fn standard_issue_functions<H>() -> (r: Vec<(String, Handler<H>)>)
    ensures
        table_of(r@) == standard_table(),
{
    let mut f: Vec<(String, Handler<H>)> = Vec::new();
    assert(table_of(f@) =~= Seq::empty());
    proof {
        reveal_strlit("html");
        reveal_strlit("is-set");
        reveal_strlit("if");
        reveal_strlit("switch");
        reveal_strlit("case");
        reveal_strlit("for");
        reveal_strlit("get");
        reveal_strlit("eq");
        reveal_strlit("lt");
        reveal_strlit("gt");
        reveal_strlit("lte");
        reveal_strlit("gte");
        reveal_strlit("ne");
        reveal_strlit("+");
        reveal_strlit("-");
        reveal_strlit("*");
        reveal_strlit("/");
        reveal_strlit("%");
    }
    assert("html"@ == seq!['h', 't', 'm', 'l']);
    assert("is-set"@ == seq!['i', 's', '-', 's', 'e', 't']);
    assert("if"@ == seq!['i', 'f']);
    assert("switch"@ == seq!['s', 'w', 'i', 't', 'c', 'h']);
    assert("case"@ == seq!['c', 'a', 's', 'e']);
    assert("for"@ == seq!['f', 'o', 'r']);
    assert("get"@ == seq!['g', 'e', 't']);
    assert("eq"@ == seq!['e', 'q']);
    assert("lt"@ == seq!['l', 't']);
    assert("gt"@ == seq!['g', 't']);
    assert("lte"@ == seq!['l', 't', 'e']);
    assert("gte"@ == seq!['g', 't', 'e']);
    assert("ne"@ == seq!['n', 'e']);
    assert("+"@ == seq!['+']);
    assert("-"@ == seq!['-']);
    assert("*"@ == seq!['*']);
    assert("/"@ == seq!['/']);
    assert("%"@ == seq!['%']);
    add_builtin(&mut f, "html", Builtin::Html);
    add_builtin(&mut f, "is-set", Builtin::IsSet);
    add_builtin(&mut f, "if", Builtin::If);
    add_builtin(&mut f, "switch", Builtin::Switch);
    add_builtin(&mut f, "case", Builtin::Case);
    add_builtin(&mut f, "for", Builtin::For);
    add_builtin(&mut f, "get", Builtin::Get);
    add_builtin(&mut f, "eq", Builtin::Cmp(CmpOp::Eq));
    add_builtin(&mut f, "lt", Builtin::Cmp(CmpOp::Lt));
    add_builtin(&mut f, "gt", Builtin::Cmp(CmpOp::Gt));
    add_builtin(&mut f, "lte", Builtin::Cmp(CmpOp::Lte));
    add_builtin(&mut f, "gte", Builtin::Cmp(CmpOp::Gte));
    add_builtin(&mut f, "ne", Builtin::Cmp(CmpOp::Ne));
    add_builtin(&mut f, "+", Builtin::Math(MathOp::Add));
    add_builtin(&mut f, "-", Builtin::Math(MathOp::Sub));
    add_builtin(&mut f, "*", Builtin::Math(MathOp::Mul));
    add_builtin(&mut f, "/", Builtin::Math(MathOp::Div));
    add_builtin(&mut f, "%", Builtin::Math(MathOp::Rem));
    f
}

/// Evaluates templates against contexts, dispatching tags to handlers.
pub struct Renderer<H> {
    pub(crate) functions: Vec<(String, Handler<H>)>,
}

/// Collects handlers before the set becomes fixed.
pub struct RendererBuilder<H> {
    pub(crate) functions: Vec<(String, Handler<H>)>,
}

impl<H: TagHandler> RendererBuilder<H> {
    pub closed spec fn table(&self) -> Table {
        table_of(self.functions@)
    }

    fn new() -> (r: Self)
        ensures
            r.table() == standard_table(),
    {
        RendererBuilder { functions: standard_issue_functions() }
    }

    /// Registers a handler under a tag name; it hides any handler of that name.
    pub fn function(self, name: &str, func: H) -> (r: Self)
        ensures
            r.table() == self.table().push((name@, None)),
    {
        let mut f = self.functions;
        f.push((name.to_string(), Handler::User(func)));
        assert(table_of(f@) =~= self.table().push((name@, None)));
        RendererBuilder { functions: f }
    }

    pub fn build(self) -> (r: Renderer<H>)
        ensures
            r.table() == self.table(),
    {
        Renderer { functions: self.functions }
    }
}

impl<H: TagHandler> Renderer<H> {
    pub closed spec fn table(&self) -> Table {
        table_of(self.functions@)
    }

    /// A builder seeded with the standard handlers.
    pub fn builder() -> (r: RendererBuilder<H>)
        ensures
            r.table() == standard_table(),
    {
        RendererBuilder::new()
    }

    /// The handler registered last under a name.
    fn find(&self, name: &String) -> (r: Option<&Handler<H>>)
        ensures
            match dispatch(self.table(), name@) {
                None => r is None,
                Some(None) => r matches Some(Handler::User(_)),
                Some(Some(b)) => r matches Some(Handler::Builtin(x)) && x == b,
            },
    {
        let ghost t = self.table();
        let mut i: usize = self.functions.len();
        assert(t.take(i as int) =~= t);
        while i > 0
            invariant
                i <= self.functions.len(),
                t == self.table(),
                dispatch(t, name@) == dispatch(t.take(i as int), name@),
            decreases i,
        {
            assert(t.take(i as int).drop_last() =~= t.take(i - 1));
            if same_text(self.functions[i - 1].0.as_str(), name.as_str()) {
                return Some(&self.functions[i - 1].1);
            }
            i -= 1;
        }
        None
    }

    pub fn evaluate(&self, expr: &TemplateExprNode, context: &RenderContext) -> (r: Result<
        RenderValue,
        RenderError,
    >)
        ensures
            agrees(r, eval(self.table(), expr@, context@, MAX_DEPTH as nat)),
    {
        self.eval_node(expr, context, MAX_DEPTH)
    }

    /// Evaluates nodes in order into a list.
    pub fn evaluate_multiple(&self, expr: &[TemplateExprNode], context: &RenderContext) -> (r: Result<
        RenderValue,
        RenderError,
    >)
        ensures
            agrees(
                r,
                match eval_seq(self.table(), exprs_of(expr@), context@, MAX_DEPTH as nat) {
                    None => None,
                    Some(Err(k)) => Some(Err(k)),
                    Some(Ok(vs)) => Some(Ok(Val::List(vs))),
                },
            ),
    {
        assert(exprs_of(expr@).skip(0) =~= exprs_of(expr@));
        match self.eval_nodes(expr, 0, context, MAX_DEPTH) {
            Ok(v) => Ok(RenderValue::List(v)),
            Err(e) => Err(e),
        }
    }

    /// Evaluates each attribute to a key and a value string.
    pub fn evaluate_attrs(&self, attrs: &Vec<TemplateAttribute>, context: &RenderContext) -> (r: Result<
        Attributes,
        RenderError,
    >)
        ensures
            match eval_attrs(self.table(), attrs_view(*attrs), context@, MAX_DEPTH as nat) {
                None => true,
                Some(Ok(a)) => r matches Ok(x) && x@ == a,
                Some(Err(k)) => r matches Err(e) && e.kind() == k,
            },
    {
        self.eval_attributes(attrs, context, MAX_DEPTH)
    }

    /// Evaluates the template and finalizes the result to text.
    pub fn render(&self, template: &Template, context: &RenderContext) -> (r: Result<
        String,
        RenderError,
    >)
        ensures
            match eval(self.table(), template.expr@, context@, MAX_DEPTH as nat) {
                None => true,
                Some(Ok(v)) => r matches Ok(s) && s@ == text_of(v),
                Some(Err(k)) => r matches Err(e) && e.kind() == k,
            },
    {
        self.render_at(template, context, MAX_DEPTH)
    }

    pub(crate) fn render_at(&self, template: &Template, context: &RenderContext, d: u64) -> (r: Result<
        String,
        RenderError,
    >)
        ensures
            match eval(self.table(), template.expr@, context@, d as nat) {
                None => true,
                Some(Ok(v)) => r matches Ok(s) && s@ == text_of(v),
                Some(Err(k)) => r matches Err(e) && e.kind() == k,
            },
        decreases d, node_size(template.expr@), 1nat,
    {
        let v = self.eval_node(&template.expr, context, d)?;
        let mut out = String::new();
        finalize_into(&v, &mut out);
        assert(out@ =~= text_of(v@));
        Ok(out)
    }

    pub(crate) fn eval_node(&self, e: &TemplateExprNode, c: &RenderContext, d: u64) -> (r: Result<
        RenderValue,
        RenderError,
    >)
        ensures
            agrees(r, eval(self.table(), e@, c@, d as nat)),
        decreases d, node_size(e@), 0nat,
    {
        match e {
            TemplateExprNode::Identifier(s) => self.expand_variable(s, c, d),
            TemplateExprNode::Integer(i) => Ok(RenderValue::Integer(*i)),
            TemplateExprNode::Tag(tag) => {
                proof {
                    lemma_nodes_view(tag.children);
                    assert(exprs_of(tag.children@).skip(0) =~= exprs_of(tag.children@));
                }
                let a = self.eval_attributes(&tag.attrs, c, d)?;
                match self.find(&tag.tag) {
                    None => self.basic_html_tag(tag.tag.as_str(), &a, tag.children.as_slice(), c, d),
                    Some(Handler::User(h)) => h.handle(a, tag.children.as_slice(), self, c),
                    Some(Handler::Builtin(b)) => call_builtin(self, *b, a, tag.children.as_slice(), c, d),
                }
            },
        }
    }

    /// Evaluates `s[start..]` in order.
    pub(crate) fn eval_nodes(&self, s: &[TemplateExprNode], start: usize, c: &RenderContext, d: u64) -> (r: Result<
        Vec<RenderValue>,
        RenderError,
    >)
        requires
            start <= s@.len(),
        ensures
            agrees_all(r, eval_seq(self.table(), exprs_of(s@).skip(start as int), c@, d as nat)),
        decreases d, exprs_size(exprs_of(s@).skip(start as int)), 1nat,
    {
        let ghost t = self.table();
        let ghost all = exprs_of(s@).skip(start as int);
        let mut out: Vec<RenderValue> = Vec::new();
        let mut i: usize = start;
        assert(all.take(0) =~= Seq::<Expr>::empty());
        assert(rvs_view(out) =~= Seq::<Val>::empty());
        while i < s.len()
            invariant
                start <= i <= s@.len(),
                t == self.table(),
                all == exprs_of(s@).skip(start as int),
                match eval_seq(t, all.take(i - start), c@, d as nat) {
                    None => true,
                    Some(Ok(vs)) => rvs_view(out) == vs,
                    Some(Err(_)) => false,
                },
            decreases s@.len() - i,
        {
            let ghost k: int = i - start;
            assert(all.take(k + 1).drop_last() =~= all.take(k));
            assert(all.take(k + 1).last() == s@[i as int]@);
            proof {
                lemma_exprs_size_elem(all, k);
            }
            let v = match self.eval_node(&s[i], c, d) {
                Ok(v) => v,
                Err(e) => {
                    proof {
                        lemma_eval_seq_prefix(t, all, c@, d as nat, k + 1);
                    }
                    return Err(e);
                },
            };
            out.push(v);
            proof {
                if let Some(Ok(vs)) = eval_seq(t, all.take(k), c@, d as nat) {
                    assert(rvs_view(out) =~= vs.push(v@));
                }
            }
            i += 1;
        }
        assert(all.take(i - start) =~= all);
        Ok(out)
    }

    pub(crate) fn eval_attributes(&self, a: &Vec<TemplateAttribute>, c: &RenderContext, d: u64) -> (r: Result<
        Attributes,
        RenderError,
    >)
        ensures
            match eval_attrs(self.table(), attrs_view(*a), c@, d as nat) {
                None => true,
                Some(Ok(x)) => r matches Ok(y) && y@ == x,
                Some(Err(k)) => r matches Err(e) && e.kind() == k,
            },
        decreases d, attrs_size(attrs_view(*a)), 0nat,
    {
        let ghost t = self.table();
        let ghost all = attrs_view(*a);
        let mut out: Vec<Attribute> = Vec::new();
        let mut i: usize = 0;
        assert(all.take(0) =~= Seq::<(Expr, Seq<Expr>)>::empty());
        assert(Attributes(out)@ =~= Seq::<(Seq<char>, Seq<char>)>::empty());
        while i < a.len()
            invariant
                i <= a.len(),
                t == self.table(),
                all == attrs_view(*a),
                match eval_attrs(t, all.take(i as int), c@, d as nat) {
                    None => true,
                    Some(Ok(xs)) => Attributes(out)@ == xs,
                    Some(Err(_)) => false,
                },
            decreases a.len() - i,
        {
            let ghost k: int = i as int;
            assert(all.take(k + 1).drop_last() =~= all.take(k));
            assert(all.take(k + 1).last() == attr_view(a[k]));
            proof {
                lemma_attrs_size_elem(all, k);
                lemma_nodes_view(a[k].1);
                assert(exprs_of(a[k].1@).skip(0) =~= exprs_of(a[k].1@));
            }
            let kv = match self.eval_node(&a[i].0, c, d) {
                Ok(v) => v,
                Err(e) => {
                    proof {
                        lemma_eval_attrs_prefix(t, all, c@, d as nat, k + 1);
                    }
                    return Err(e);
                },
            };
            let vs = match self.eval_nodes(a[i].1.as_slice(), 0, c, d) {
                Ok(v) => v,
                Err(e) => {
                    proof {
                        lemma_eval_attrs_prefix(t, all, c@, d as nat, k + 1);
                    }
                    return Err(e);
                },
            };
            let mut key = String::new();
            finalize_into(&kv, &mut key);
            let mut value = String::new();
            let lv = RenderValue::List(vs);
            finalize_into(&lv, &mut value);
            assert(key@ =~= text_of(kv@));
            assert(value@ =~= texts(rvs_view(vs)));
            out.push(Attribute(key, value));
            proof {
                if let Some(Ok(xs)) = eval_attrs(t, all.take(k), c@, d as nat) {
                    assert(Attributes(out)@ =~= xs.push((key@, value@)));
                }
            }
            i += 1;
        }
        assert(all.take(i as int) =~= all);
        Ok(Attributes(out))
    }
}

impl<H: TagHandler> Renderer<H> {
    /// Resolves an identifier: text without `$` is itself; `$a.b` walks
    /// objects; `$a` is looked up, with list elements expanded again and
    /// templates rendered in the current context; an unbound `$a` stays as
    /// written.
    pub(crate) fn expand_variable(&self, s: &String, c: &RenderContext, d: u64) -> (r: Result<
        RenderValue,
        RenderError,
    >)
        ensures
            agrees(r, expand(self.table(), s@, c@, d as nat)),
        decreases d, 0nat, 0nat,
    {
        let st = s.as_str();
        let n = st.unicode_len();
        if !(n > 0 && st.get_char(0) == '$') {
            return Ok(RenderValue::String(s.clone()));
        }
        let rest = st.substring_char(1, n);
        assert(rest@ =~= s@.drop_first());
        let dot = first_dot_in(rest);
        if dot < rest.unicode_len() {
            return Ok(walk_path(c, rest, s));
        }
        match c.get(rest) {
            None => Ok(RenderValue::String(s.clone())),
            Some(ContextValue::List(items)) => {
                if d == 0 {
                    return Err(RenderError::Depth("variable expansion is nested too deeply".to_string()));
                }
                let vs = self.expand_items(items, c, d - 1)?;
                Ok(RenderValue::List(vs))
            },
            Some(ContextValue::Template(tm)) => {
                if d == 0 {
                    return Err(RenderError::Depth("variable expansion is nested too deeply".to_string()));
                }
                let text = self.render_at(tm, c, d - 1)?;
                Ok(RenderValue::String(text))
            },
            Some(x) => Ok(to_render_value(x)),
        }
    }

    pub(crate) fn expand_items(&self, items: &Vec<ContextValue>, c: &RenderContext, d: u64) -> (r: Result<
        Vec<RenderValue>,
        RenderError,
    >)
        ensures
            agrees_all(r, expand_items(self.table(), values_view(*items), c@, d as nat)),
        decreases d, 0nat, items@.len() + 1,
    {
        let ghost t = self.table();
        let ghost all = values_view(*items);
        let mut out: Vec<RenderValue> = Vec::new();
        let mut i: usize = 0;
        assert(all.take(0) =~= Seq::<Data>::empty());
        assert(rvs_view(out) =~= Seq::<Val>::empty());
        while i < items.len()
            invariant
                i <= items.len(),
                t == self.table(),
                all == values_view(*items),
                match expand_items(t, all.take(i as int), c@, d as nat) {
                    None => true,
                    Some(Ok(vs)) => rvs_view(out) == vs,
                    Some(Err(_)) => false,
                },
            decreases items.len() - i,
        {
            let ghost k: int = i as int;
            assert(all.take(k + 1).drop_last() =~= all.take(k));
            assert(all.take(k + 1).last() == items[k]@);
            let v = match &items[i] {
                ContextValue::String(s) => match self.expand_variable(s, c, d) {
                    Ok(v) => v,
                    Err(e) => {
                        proof {
                            lemma_expand_items_prefix(t, all, c@, d as nat, k + 1);
                        }
                        return Err(e);
                    },
                },
                x => to_render_value(x),
            };
            out.push(v);
            proof {
                if let Some(Ok(vs)) = expand_items(t, all.take(k), c@, d as nat) {
                    assert(rvs_view(out) =~= vs.push(v@));
                }
            }
            i += 1;
        }
        assert(all.take(i as int) =~= all);
        Ok(out)
    }

    /// An element with no handler: `<name attrs />` without children, else
    /// the opening tag, the children and the closing tag.
    pub(crate) fn basic_html_tag(
        &self,
        name: &str,
        a: &Attributes,
        ch: &[TemplateExprNode],
        c: &RenderContext,
        d: u64,
    ) -> (r: Result<RenderValue, RenderError>)
        ensures
            agrees(r, markup(self.table(), name@, a@, exprs_of(ch@), c@, d as nat)),
        decreases d, exprs_size(exprs_of(ch@)), 2nat,
    {
        if ch.len() == 0 {
            return Ok(element_value(name, a, None));
        }
        assert(exprs_of(ch@).skip(0) =~= exprs_of(ch@));
        let vs = self.eval_nodes(ch, 0, c, d)?;
        Ok(element_value(name, a, Some(vs)))
    }
}

/// A markup element around given child values, which may come from any
/// source, a caller's handler included: `<name attrs />` where there are no
/// children, else the opening tag, the children and the closing tag.
pub fn element_value(name: &str, a: &Attributes, children: Option<Vec<RenderValue>>) -> (r: RenderValue)
    ensures
        r@ == element(
            name@,
            a@,
            match children {
                None => None,
                Some(v) => Some(rvs_view(v)),
            },
        ),
{
    proof {
        reveal_strlit("<");
        reveal_strlit(">");
        reveal_strlit(" />");
        reveal_strlit("</");
    }
    let mut open = "<".to_string();
    open.append(name);
    append_attr_text(&mut open, a);
    let mut l: Vec<RenderValue> = Vec::new();
    match children {
        None => {
            open.append(" />");
            assert(open@ =~= empty_tag(name@, a@));
            l.push(RenderValue::String(open));
            assert(rvs_view(l) =~= seq![Val::Str(empty_tag(name@, a@))]);
        },
        Some(vs) => {
            open.append(">");
            assert(open@ =~= open_tag(name@, a@));
            let mut close = "</".to_string();
            close.append(name);
            close.append(">");
            assert(close@ =~= close_tag(name@));
            let ghost vv = rvs_view(vs);
            l.push(RenderValue::String(open));
            l.push(RenderValue::List(vs));
            l.push(RenderValue::String(close));
            assert(rvs_view(l) =~= seq![Val::Str(open_tag(name@, a@)), Val::List(vv), Val::Str(close_tag(name@))]);
        },
    }
    RenderValue::List(l)
}

/// Appends ` key="value"` for each attribute.
fn append_attr_text(out: &mut String, a: &Attributes)
    ensures
        final(out)@ == old(out)@ + attr_text(a@),
{
    proof {
        reveal_strlit(" ");
        reveal_strlit("=");
    }
    let ghost start = out@;
    let mut i: usize = 0;
    while i < a.0.len()
        invariant
            i <= a.0.len(),
            a@.len() == a.0.len(),
            out@ == start + attr_text(a@.take(i as int)),
        decreases a.0.len() - i,
    {
        assert(a@.take(i + 1).drop_last() =~= a@.take(i as int));
        assert(a@.take(i + 1).last() == (a.0[i as int].0@, a.0[i as int].1@));
        let ghost before = out@;
        proof {
            reveal_strlit(" ");
            reveal_strlit("=");
            reveal_strlit("\"");
        }
        out.append(" ");
        out.append(a.0[i].0.as_str());
        out.append("=");
        out.append("\"");
        out.append(a.0[i].1.as_str());
        out.append("\"");
        assert(out@ =~= before + seq![' '] + a.0[i as int].0@ + seq!['=', '"'] + a.0[i as int].1@ + seq!['"']);
        i += 1;
        assert(out@ =~= start + attr_text(a@.take(i as int)));
    }
    assert(a@.take(i as int) =~= a@);
}

/// Position of the first `.`, or the length where there is none.
fn first_dot_in(s: &str) -> (r: usize)
    ensures
        r == first_dot(s@),
{
    proof {
        lemma_first_dot(s@);
    }
    let n = s.unicode_len();
    let mut i: usize = 0;
    while i < n
        invariant
            i <= n,
            n == s@.len(),
            forall|j: int| 0 <= j < i ==> s@[j] != '.',
            0 <= first_dot(s@) <= s@.len(),
            first_dot(s@) < s@.len() ==> s@[first_dot(s@)] == '.',
            forall|j: int| 0 <= j < first_dot(s@) ==> s@[j] != '.',
        decreases n - i,
    {
        if s.get_char(i) == '.' {
            return i;
        }
        i += 1;
    }
    i
}

/// Follows a dotted path through nested objects.
fn walk_path(c: &RenderContext, rest: &str, whole: &String) -> (r: RenderValue)
    ensures
        r@ == walk(c@, rest@, whole@),
    decreases rest@.len(),
{
    proof {
        lemma_first_dot(rest@);
    }
    let n = rest.unicode_len();
    let i = first_dot_in(rest);
    let seg = rest.substring_char(0, i);
    assert(seg@ =~= rest@.take(i as int));
    match c.get(seg) {
        None => RenderValue::Boolean(false),
        Some(ContextValue::Object(o)) => {
            if i >= n {
                RenderValue::String(whole.clone())
            } else {
                let next = rest.substring_char(i + 1, n);
                assert(next@ =~= rest@.skip(i + 1));
                walk_path(o, next, whole)
            }
        },
        Some(x) => to_render_value(x),
    }
}

/// Caller data as an evaluation result.
pub fn to_render_value(x: &ContextValue) -> (r: RenderValue)
    ensures
        r@ == data_to_val(x@),
    decreases x,
{
    match x {
        ContextValue::Integer(i) => RenderValue::Integer(*i),
        ContextValue::Boolean(b) => RenderValue::Boolean(*b),
        ContextValue::String(s) => RenderValue::String(s.clone()),
        ContextValue::List(l) => RenderValue::List(to_render_values(l)),
        ContextValue::Object(o) => RenderValue::Object(to_render_members(&o.entries)),
        ContextValue::Template(t) => RenderValue::Template(t.copy()),
    }
}

fn to_render_values(l: &Vec<ContextValue>) -> (r: Vec<RenderValue>)
    ensures
        Val::List(rvs_view(r)) == data_to_val(Data::List(values_view(*l))),
    decreases l,
{
    let mut out: Vec<RenderValue> = Vec::new();
    let mut i: usize = 0;
    while i < l.len()
        invariant
            i <= l.len(),
            out.len() == i,
            forall|j: int| 0 <= j < i ==> (#[trigger] out[j])@ == data_to_val(l[j]@),
        decreases l.len() - i,
    {
        out.push(to_render_value(&l[i]));
        i += 1;
    }
    assert(rvs_view(out) =~= data_to_val(Data::List(values_view(*l)))->List_0);
    out
}

fn to_render_members(l: &Vec<(String, ContextValue)>) -> (r: Vec<(String, RenderValue)>)
    ensures
        Val::Obj(crate::value::members_view(r)) == data_to_val(Data::Obj(crate::context::entries_view(*l))),
    decreases l,
{
    let mut out: Vec<(String, RenderValue)> = Vec::new();
    let mut i: usize = 0;
    while i < l.len()
        invariant
            i <= l.len(),
            out.len() == i,
            forall|j: int| 0 <= j < i ==> (#[trigger] out[j]).0@ == l[j].0@ && out[j].1@ == data_to_val(l[j].1@),
        decreases l.len() - i,
    {
        out.push((l[i].0.clone(), to_render_value(&l[i].1)));
        i += 1;
    }
    assert(crate::value::members_view(out) =~= data_to_val(Data::Obj(crate::context::entries_view(*l))
    )->Obj_0);
    out
}

impl Default for Renderer<NoHandler> {
    /// A renderer with the standard handlers only.
    fn default() -> (r: Renderer<NoHandler>)
        ensures
            r.table() == standard_table(),
    {
        Renderer::<NoHandler>::builder().build()
    }
}

pub proof fn lemma_expand_items_prefix(t: Table, s: Seq<Data>, c: Scope, d: nat, k: int)
    requires
        0 <= k <= s.len(),
        !(expand_items(t, s.take(k), c, d) matches Some(Ok(_))),
    ensures
        expand_items(t, s, c, d) == expand_items(t, s.take(k), c, d),
    decreases s.len(),
{
    if k == s.len() {
        assert(s.take(k) =~= s);
    } else {
        assert(s.drop_last().take(k) =~= s.take(k));
        lemma_expand_items_prefix(t, s.drop_last(), c, d, k);
    }
}

pub proof fn lemma_eval_seq_prefix(t: Table, s: Seq<Expr>, c: Scope, d: nat, k: int)
    requires
        0 <= k <= s.len(),
        !(eval_seq(t, s.take(k), c, d) matches Some(Ok(_))),
    ensures
        eval_seq(t, s, c, d) == eval_seq(t, s.take(k), c, d),
    decreases s.len(),
{
    if k == s.len() {
        assert(s.take(k) =~= s);
    } else {
        assert(s.drop_last().take(k) =~= s.take(k));
        lemma_eval_seq_prefix(t, s.drop_last(), c, d, k);
    }
}

pub proof fn lemma_eval_attrs_prefix(t: Table, s: Seq<(Expr, Seq<Expr>)>, c: Scope, d: nat, k: int)
    requires
        0 <= k <= s.len(),
        !(eval_attrs(t, s.take(k), c, d) matches Some(Ok(_))),
    ensures
        eval_attrs(t, s, c, d) == eval_attrs(t, s.take(k), c, d),
    decreases s.len(),
{
    if k == s.len() {
        assert(s.take(k) =~= s);
    } else {
        assert(s.drop_last().take(k) =~= s.take(k));
        lemma_eval_attrs_prefix(t, s.drop_last(), c, d, k);
    }
}

} // verus!
