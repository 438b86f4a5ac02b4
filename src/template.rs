use vstd::prelude::*;

verus! {

#[verifier::external_type_specification]
pub struct ExAtom(sexp::Atom);

#[verifier::external_type_specification]
pub struct ExSexp(sexp::Sexp);

#[verifier::external_type_specification]
#[verifier::external_body]
pub struct ExSexpError(sexp::Error);

/// What the s-expression reader makes of a text: the tree it reads, or `None`
/// where the text holds no single well-formed s-expression.
pub uninterp spec fn sexp_read(text: Seq<char>) -> Option<sexp::Sexp>;

/// Whitespace that the s-expression reader skips around an expression: the
/// characters with the Unicode `White_Space` property (`char::is_whitespace`).
pub open spec fn is_blank(c: char) -> bool {
    let u = c as u32;
    (0x9 <= u <= 0xD) || u == 0x20 || u == 0x85 || u == 0xA0 || u == 0x1680 || (0x2000 <= u
        <= 0x200A) || u == 0x2028 || u == 0x2029 || u == 0x202F || u == 0x205F || u == 0x3000
}

pub open spec fn all_blank(s: Seq<char>) -> bool {
    forall|i: int| 0 <= i < s.len() ==> is_blank(#[trigger] s[i])
}

/// Relies on `sexp::parse`: it reads one s-expression from the text, its result
/// depends on the text alone, and it skips whitespace before and after the
/// expression (`zspace` runs at both ends of `parse_sexp`).
#[verifier::external_body]
fn read_sexp(text: &str) -> (r: Result<sexp::Sexp, Box<sexp::Error>>)
    ensures
        r is Ok <==> sexp_read(text@) is Some,
        r matches Ok(s) ==> sexp_read(text@) == Some(s),
        r matches Ok(s) ==> forall|pre: Seq<char>, post: Seq<char>|
            all_blank(pre) && all_blank(post) ==> #[trigger] sexp_read(pre + text@ + post) == Some(
                s,
            ),
{
    sexp::parse(text)
}

/// The shape of a template expression, as the evaluator sees it.
pub enum Expr {
    Ident(Seq<char>),
    Int(i64),
    /// Tag name, attributes as (key expression, value expressions), children.
    Tag(Seq<char>, Seq<(Expr, Seq<Expr>)>, Seq<Expr>),
}

#[derive(Debug)]
pub struct TemplateAttribute(pub TemplateExprNode, pub Vec<TemplateExprNode>);

#[derive(Debug)]
pub struct TemplateTag {
    pub tag: String,
    pub attrs: Vec<TemplateAttribute>,
    pub children: Vec<TemplateExprNode>,
}

#[derive(Debug)]
pub enum TemplateExprNode {
    Identifier(String),
    Integer(i64),
    Tag(TemplateTag),
}

pub open spec fn nodes_view(v: Vec<TemplateExprNode>) -> Seq<Expr>
    decreases v,
{
    Seq::new(v.len() as nat, |i: int| if 0 <= i < v.len() { node_view(v[i]) } else { Expr::Int(0) })
}

pub open spec fn attr_view(a: TemplateAttribute) -> (Expr, Seq<Expr>)
    decreases a,
{
    (node_view(a.0), nodes_view(a.1))
}

pub open spec fn attrs_view(v: Vec<TemplateAttribute>) -> Seq<(Expr, Seq<Expr>)>
    decreases v,
{
    Seq::new(
        v.len() as nat,
        |i: int| if 0 <= i < v.len() { attr_view(v[i]) } else { (Expr::Int(0), Seq::empty()) },
    )
}

pub open spec fn node_view(n: TemplateExprNode) -> Expr
    decreases n,
{
    match n {
        TemplateExprNode::Identifier(s) => Expr::Ident(s@),
        TemplateExprNode::Integer(i) => Expr::Int(i),
        TemplateExprNode::Tag(t) => Expr::Tag(
            t.tag@,
            attrs_view(t.attrs),
            nodes_view(t.children),
        ),
    }
}

impl View for TemplateExprNode {
    type V = Expr;

    open spec fn view(&self) -> Expr {
        node_view(*self)
    }
}

pub open spec fn node_size(e: Expr) -> nat
    decreases e,
{
    match e {
        Expr::Tag(_, attrs, children) => 1 + attrs_size(attrs) + exprs_size(children),
        _ => 1,
    }
}

pub open spec fn exprs_size(s: Seq<Expr>) -> nat
    decreases s,
{
    if s.len() == 0 {
        0
    } else {
        exprs_size(s.drop_last()) + node_size(s.last())
    }
}

pub open spec fn attrs_size(s: Seq<(Expr, Seq<Expr>)>) -> nat
    decreases s,
{
    if s.len() == 0 {
        0
    } else {
        attrs_size(s.drop_last()) + 1 + node_size(s.last().0) + exprs_size(s.last().1)
    }
}

pub proof fn lemma_exprs_size_elem(s: Seq<Expr>, k: int)
    requires
        0 <= k < s.len(),
    ensures
        node_size(s[k]) <= exprs_size(s),
    decreases s.len(),
{
    if k < s.len() - 1 {
        lemma_exprs_size_elem(s.drop_last(), k);
    }
}

pub proof fn lemma_attrs_size_elem(s: Seq<(Expr, Seq<Expr>)>, k: int)
    requires
        0 <= k < s.len(),
    ensures
        1 + node_size(s[k].0) + exprs_size(s[k].1) <= attrs_size(s),
    decreases s.len(),
{
    if k < s.len() - 1 {
        lemma_attrs_size_elem(s.drop_last(), k);
    }
}

/// The views of a slice of nodes.
pub open spec fn exprs_of(s: Seq<TemplateExprNode>) -> Seq<Expr> {
    Seq::new(s.len(), |i: int| s[i]@)
}

pub proof fn lemma_nodes_view(v: Vec<TemplateExprNode>)
    ensures
        nodes_view(v) == exprs_of(v@),
{
    assert(nodes_view(v) =~= exprs_of(v@));
}

/// Dropping `k` leading nodes removes at least `k` from the size.
pub proof fn lemma_exprs_size_skip(s: Seq<Expr>, k: int)
    requires
        0 <= k <= s.len(),
    ensures
        exprs_size(s.skip(k)) + k <= exprs_size(s),
    decreases s.len(),
{
    if k == s.len() {
        assert(s.skip(k).len() == 0);
        lemma_exprs_size_len(s);
    } else {
        lemma_exprs_size_skip(s.drop_last(), k);
        assert(s.skip(k).drop_last() =~= s.drop_last().skip(k));
        assert(s.skip(k).last() == s.last());
    }
}

pub proof fn lemma_exprs_size_len(s: Seq<Expr>)
    ensures
        exprs_size(s) >= s.len(),
    decreases s.len(),
{
    if s.len() > 0 {
        lemma_exprs_size_len(s.drop_last());
        assert(node_size(s.last()) >= 1);
    }
}

/// Copies a sequence of nodes, element by element.
pub fn copy_nodes(v: &Vec<TemplateExprNode>) -> (r: Vec<TemplateExprNode>)
    ensures
        nodes_view(r) == nodes_view(*v),
    decreases v,
{
    let mut r: Vec<TemplateExprNode> = Vec::new();
    let mut i: usize = 0;
    while i < v.len()
        invariant
            i <= v.len(),
            r.len() == i,
            forall|j: int| 0 <= j < i ==> node_view(#[trigger] r[j]) == node_view(v[j]),
        decreases v.len() - i,
    {
        r.push(v[i].copy());
        i += 1;
    }
    assert(nodes_view(r) =~= nodes_view(*v));
    r
}

/// Copies a sequence of attributes, element by element.
pub fn copy_attrs(v: &Vec<TemplateAttribute>) -> (r: Vec<TemplateAttribute>)
    ensures
        attrs_view(r) == attrs_view(*v),
    decreases v,
{
    let mut r: Vec<TemplateAttribute> = Vec::new();
    let mut i: usize = 0;
    while i < v.len()
        invariant
            i <= v.len(),
            r.len() == i,
            forall|j: int| 0 <= j < i ==> attr_view(#[trigger] r[j]) == attr_view(v[j]),
        decreases v.len() - i,
    {
        r.push(v[i].copy());
        i += 1;
    }
    assert(attrs_view(r) =~= attrs_view(*v));
    r
}

impl TemplateAttribute {
    pub fn copy(&self) -> (r: TemplateAttribute)
        ensures
            attr_view(r) == attr_view(*self),
        decreases self,
    {
        TemplateAttribute(self.0.copy(), copy_nodes(&self.1))
    }
}

impl TemplateExprNode {
    /// A deep copy of the node.
    pub fn copy(&self) -> (r: TemplateExprNode)
        ensures
            r@ == self@,
        decreases self,
    {
        match self {
            TemplateExprNode::Identifier(s) => TemplateExprNode::Identifier(s.clone()),
            TemplateExprNode::Integer(i) => TemplateExprNode::Integer(*i),
            TemplateExprNode::Tag(t) => {
                let r = TemplateExprNode::Tag(TemplateTag {
                    tag: t.tag.clone(),
                    attrs: copy_attrs(&t.attrs),
                    children: copy_nodes(&t.children),
                });
                r
            },
        }
    }

    pub fn as_identifier(&self) -> (r: Option<&String>)
        ensures
            match self@ {
                Expr::Ident(s) => r matches Some(x) && x@ == s,
                _ => r is None,
            },
    {
        match self {
            TemplateExprNode::Identifier(s) => Some(s),
            _ => None,
        }
    }

    pub fn as_integer(&self) -> (r: Option<i64>)
        ensures
            match self@ {
                Expr::Int(i) => r == Some(i),
                _ => r is None,
            },
    {
        match self {
            TemplateExprNode::Integer(i) => Some(*i),
            _ => None,
        }
    }
}


/// Why a well-formed s-expression is not a template.
#[derive(Debug, Clone, Copy, PartialEq, Eq, Structural)]
pub enum ParseExprError {
    /// An atom that is neither a symbol nor an integer.
    NotAnAtom,
    /// A list that is empty or does not start with a symbol.
    NotAList,
    /// An entry of an `@` block that is not a list of two elements.
    NotAnAttribute,
    /// An entry of an `@` block with fewer than two elements.
    AttributeMissingElement,
}

pub open spec fn is_symbol(s: sexp::Sexp) -> bool {
    s matches sexp::Sexp::Atom(sexp::Atom::S(_))
}

/// A list whose first element is the symbol `@`.
pub open spec fn is_attr_block(s: sexp::Sexp) -> bool {
    match s {
        sexp::Sexp::List(l) => l.len() > 0 && (l[0] matches sexp::Sexp::Atom(sexp::Atom::S(x))
            && x@ == seq!['@']),
        _ => false,
    }
}

/// The template expression that an s-expression stands for.
pub open spec fn read_expr(s: sexp::Sexp) -> Result<Expr, ParseExprError>
    decreases s,
{
    match s {
        sexp::Sexp::Atom(sexp::Atom::S(x)) => Ok(Expr::Ident(x@)),
        sexp::Sexp::Atom(sexp::Atom::I(i)) => Ok(Expr::Int(i)),
        sexp::Sexp::Atom(_) => Err(ParseExprError::NotAnAtom),
        sexp::Sexp::List(l) => {
            if l.len() == 0 {
                Err(ParseExprError::NotAList)
            } else {
                match l[0] {
                    sexp::Sexp::Atom(sexp::Atom::S(name)) => {
                        let has_attrs = l.len() > 1 && is_attr_block(l[1]);
                        let start: int = if has_attrs { 2 } else { 1 };
                        let attrs = if has_attrs {
                            match l[1] {
                                sexp::Sexp::List(b) => {
                                    proof {
                                        assert(decreases_to!(l@ => l@[1]));
                                    }
                                    read_attrs(b@.subrange(1, b.len() as int))
                                },
                                _ => Ok(Seq::empty()),
                            }
                        } else {
                            Ok(Seq::empty())
                        };
                        match attrs {
                            Err(e) => Err(e),
                            Ok(a) => match read_exprs(l@.subrange(start, l.len() as int)) {
                                Err(e) => Err(e),
                                Ok(c) => Ok(Expr::Tag(name@, a, c)),
                            },
                        }
                    },
                    _ => Err(ParseExprError::NotAList),
                }
            }
        },
    }
}

/// The expressions of a sequence of s-expressions; the leftmost failure wins.
pub open spec fn read_exprs(s: Seq<sexp::Sexp>) -> Result<Seq<Expr>, ParseExprError>
    decreases s,
{
    if s.len() == 0 {
        Ok(Seq::empty())
    } else {
        match read_exprs(s.drop_last()) {
            Err(e) => Err(e),
            Ok(xs) => match read_expr(s.last()) {
                Err(e) => Err(e),
                Ok(x) => Ok(xs.push(x)),
            },
        }
    }
}

/// One entry of an `@` block: a list `(key value)`.
pub open spec fn read_attr(s: sexp::Sexp) -> Result<(Expr, Seq<Expr>), ParseExprError>
    decreases s,
{
    match s {
        sexp::Sexp::List(p) => {
            if p.len() < 2 {
                Err(ParseExprError::AttributeMissingElement)
            } else if p.len() > 2 {
                Err(ParseExprError::NotAnAttribute)
            } else {
                match read_expr(p[0]) {
                    Err(e) => Err(e),
                    Ok(k) => match read_expr(p[1]) {
                        Err(e) => Err(e),
                        Ok(v) => Ok((k, seq![v])),
                    },
                }
            }
        },
        _ => Err(ParseExprError::NotAnAttribute),
    }
}

/// The entries of an `@` block after the `@`; the leftmost failure wins.
pub open spec fn read_attrs(s: Seq<sexp::Sexp>) -> Result<Seq<(Expr, Seq<Expr>)>, ParseExprError>
    decreases s,
{
    if s.len() == 0 {
        Ok(Seq::empty())
    } else {
        match read_attrs(s.drop_last()) {
            Err(e) => Err(e),
            Ok(xs) => match read_attr(s.last()) {
                Err(e) => Err(e),
                Ok(x) => Ok(xs.push(x)),
            },
        }
    }
}


proof fn lemma_exprs_failure_stays(s: Seq<sexp::Sexp>, k: int)
    requires
        0 <= k <= s.len(),
        read_exprs(s.take(k)) is Err,
    ensures
        read_exprs(s) == read_exprs(s.take(k)),
    decreases s.len(),
{
    if k == s.len() {
        assert(s.take(k) =~= s);
    } else {
        assert(s.drop_last().take(k) =~= s.take(k));
        lemma_exprs_failure_stays(s.drop_last(), k);
    }
}

proof fn lemma_attrs_failure_stays(s: Seq<sexp::Sexp>, k: int)
    requires
        0 <= k <= s.len(),
        read_attrs(s.take(k)) is Err,
    ensures
        read_attrs(s) == read_attrs(s.take(k)),
    decreases s.len(),
{
    if k == s.len() {
        assert(s.take(k) =~= s);
    } else {
        assert(s.drop_last().take(k) =~= s.take(k));
        lemma_attrs_failure_stays(s.drop_last(), k);
    }
}

fn is_at_sign(x: &String) -> (r: bool)
    ensures
        r == (x@ == seq!['@']),
{
    let s = x.as_str();
    if s.unicode_len() == 1 {
        let c = s.get_char(0);
        if c == '@' {
            assert(s@ =~= seq!['@']);
            true
        } else {
            assert(s@[0] != seq!['@'][0]);
            false
        }
    } else {
        false
    }
}

fn parse_attr(s: &sexp::Sexp) -> (r: Result<TemplateAttribute, ParseExprError>)
    ensures
        match read_attr(*s) {
            Ok(a) => r matches Ok(x) && attr_view(x) == a,
            Err(e) => r == Err::<TemplateAttribute, _>(e),
        },
    decreases s,
{
    match s {
        sexp::Sexp::List(p) => {
            if p.len() < 2 {
                Err(ParseExprError::AttributeMissingElement)
            } else if p.len() > 2 {
                Err(ParseExprError::NotAnAttribute)
            } else {
                let k = parse_expr(&p[0])?;
                let v = parse_expr(&p[1])?;
                let mut vs: Vec<TemplateExprNode> = Vec::new();
                vs.push(v);
                let r = TemplateAttribute(k, vs);
                assert(nodes_view(r.1) =~= seq![node_view(r.1[0])]);
                Ok(r)
            }
        },
        _ => Err(ParseExprError::NotAnAttribute),
    }
}

fn parse_attrs(b: &Vec<sexp::Sexp>) -> (r: Result<Vec<TemplateAttribute>, ParseExprError>)
    requires
        b.len() >= 1,
    ensures
        match read_attrs(b@.subrange(1, b.len() as int)) {
            Ok(a) => r matches Ok(x) && attrs_view(x) == a,
            Err(e) => r == Err::<Vec<TemplateAttribute>, _>(e),
        },
    decreases b,
{
    let mut out: Vec<TemplateAttribute> = Vec::new();
    let mut i: usize = 1;
    let ghost whole = b@.subrange(1, b.len() as int);
    assert(attrs_view(out) =~= Seq::empty());
    assert(b@.subrange(1, 1).len() == 0);
    while i < b.len()
        invariant
            1 <= i <= b.len(),
            whole == b@.subrange(1, b.len() as int),
            read_attrs(b@.subrange(1, i as int)) == Ok::<_, ParseExprError>(attrs_view(out)),
        decreases b.len() - i,
    {
        assert(b@.subrange(1, i + 1).drop_last() =~= b@.subrange(1, i as int));
        let a = match parse_attr(&b[i]) {
            Ok(a) => a,
            Err(e) => {
                proof {
                    assert(whole.take(i - 1 + 1) =~= b@.subrange(1, i + 1));
                    lemma_attrs_failure_stays(whole, i - 1 + 1);
                }
                return Err(e);
            },
        };
        out.push(a);
        assert(attrs_view(out) =~= read_attrs(b@.subrange(1, i + 1))->Ok_0);
        i += 1;
    }
    Ok(out)
}

fn parse_exprs(l: &Vec<sexp::Sexp>, start: usize) -> (r: Result<Vec<TemplateExprNode>, ParseExprError>)
    requires
        1 <= start <= l.len(),
    ensures
        match read_exprs(l@.subrange(start as int, l.len() as int)) {
            Ok(c) => r matches Ok(x) && nodes_view(x) == c,
            Err(e) => r == Err::<Vec<TemplateExprNode>, _>(e),
        },
    decreases l,
{
    let mut out: Vec<TemplateExprNode> = Vec::new();
    let mut i: usize = start;
    let ghost whole = l@.subrange(start as int, l.len() as int);
    assert(nodes_view(out) =~= Seq::empty());
    assert(l@.subrange(start as int, start as int).len() == 0);
    while i < l.len()
        invariant
            start <= i <= l.len(),
            whole == l@.subrange(start as int, l.len() as int),
            read_exprs(l@.subrange(start as int, i as int)) == Ok::<_, ParseExprError>(nodes_view(out)),
        decreases l.len() - i,
    {
        assert(l@.subrange(start as int, i + 1).drop_last() =~= l@.subrange(start as int, i as int));
        let e = match parse_expr(&l[i]) {
            Ok(e) => e,
            Err(e) => {
                proof {
                    assert(whole.take(i - start + 1) =~= l@.subrange(start as int, i + 1));
                    lemma_exprs_failure_stays(whole, i - start + 1);
                }
                return Err(e);
            },
        };
        out.push(e);
        assert(nodes_view(out) =~= read_exprs(l@.subrange(start as int, i + 1))->Ok_0);
        i += 1;
    }
    Ok(out)
}

/// Builds the template expression that an s-expression stands for.
pub fn parse_expr(s: &sexp::Sexp) -> (r: Result<TemplateExprNode, ParseExprError>)
    ensures
        match read_expr(*s) {
            Ok(e) => r matches Ok(x) && x@ == e,
            Err(e) => r == Err::<TemplateExprNode, _>(e),
        },
    decreases s,
{
    match s {
        sexp::Sexp::Atom(sexp::Atom::S(x)) => Ok(TemplateExprNode::Identifier(x.clone())),
        sexp::Sexp::Atom(sexp::Atom::I(i)) => Ok(TemplateExprNode::Integer(*i)),
        sexp::Sexp::Atom(_) => Err(ParseExprError::NotAnAtom),
        sexp::Sexp::List(l) => {
            if l.len() == 0 {
                return Err(ParseExprError::NotAList);
            }
            let name = match &l[0] {
                sexp::Sexp::Atom(sexp::Atom::S(name)) => name.clone(),
                _ => {
                    return Err(ParseExprError::NotAList);
                },
            };
            let mut attrs: Vec<TemplateAttribute> = Vec::new();
            assert(attrs_view(attrs) =~= Seq::empty());
            let mut start: usize = 1;
            if l.len() > 1 {
                match &l[1] {
                    sexp::Sexp::List(b) => {
                        if b.len() > 0 {
                            let is_block = match &b[0] {
                                sexp::Sexp::Atom(sexp::Atom::S(x)) => is_at_sign(x),
                                _ => false,
                            };
                            if is_block {
                                attrs = parse_attrs(b)?;
                                start = 2;
                            }
                        }
                    },
                    _ => {},
                }
            }
            let children = parse_exprs(l, start)?;
            Ok(TemplateExprNode::Tag(TemplateTag { tag: name, attrs, children }))
        },
    }
}


impl Clone for TemplateExprNode {
    /// A deep copy, as `copy`.
    fn clone(&self) -> (r: TemplateExprNode) {
        self.copy()
    }
}

impl Clone for TemplateTag {
    /// A deep copy of the tag.
    fn clone(&self) -> (r: TemplateTag) {
        TemplateTag {
            tag: self.tag.clone(),
            attrs: copy_attrs(&self.attrs),
            children: copy_nodes(&self.children),
        }
    }
}

impl Clone for TemplateAttribute {
    /// A deep copy, as `copy`.
    fn clone(&self) -> (r: TemplateAttribute) {
        self.copy()
    }
}

/// Why a text is not a template.
#[derive(Debug)]
pub enum TemplateError {
    NoFile,
    InvalidFile,
    /// The text is not one well-formed s-expression; the reader's error and the text.
    ParseError(Box<sexp::Error>, String),
    ParseExprError(ParseExprError),
}

/// What reading a text as a template gives: `None` where the text is not one
/// s-expression, else the outcome of turning that s-expression into a template.
pub open spec fn template_reading(text: Seq<char>) -> Option<Result<Expr, ParseExprError>> {
    match sexp_read(text) {
        None => None,
        Some(s) => Some(read_expr(s)),
    }
}

/// A parsed template: one root expression, read-only once built.
#[derive(Debug)]
pub struct Template {
    pub expr: TemplateExprNode,
}

impl Template {
    pub fn new(expr: TemplateExprNode) -> (r: Template)
        ensures
            r.expr@ == expr@,
    {
        Template { expr }
    }

    /// A deep copy of the template.
    pub fn copy(&self) -> (r: Template)
        ensures
            r.expr@ == self.expr@,
    {
        Template { expr: self.expr.copy() }
    }

    /// Reads a template from its source text. Whitespace around the
    /// expression does not change what is read.
    pub fn from_str(text: &str) -> (r: Result<Template, TemplateError>)
        ensures
            match template_reading(text@) {
                None => r matches Err(TemplateError::ParseError(_, _)),
                Some(Ok(e)) => r matches Ok(t) && t.expr@ == e,
                Some(Err(k)) => r matches Err(TemplateError::ParseExprError(x)) && x == k,
            },
            template_reading(text@) is Some ==> forall|pre: Seq<char>, post: Seq<char>|
                all_blank(pre) && all_blank(post) ==> #[trigger] template_reading(pre + text@ + post)
                    == template_reading(text@),
    {
        match read_sexp(text) {
            Err(err) => Err(TemplateError::ParseError(err, text.to_string())),
            Ok(s) => match parse_expr(&s) {
                Ok(expr) => Ok(Template { expr }),
                Err(k) => Err(TemplateError::ParseExprError(k)),
            },
        }
    }
}

impl Clone for Template {
    /// A deep copy, as `copy`.
    fn clone(&self) -> (r: Template) {
        self.copy()
    }
}

} // verus!
