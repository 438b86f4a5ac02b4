use sato::{
    Attribute, Attributes, ContextValue, NoHandler, ParseExprError, RenderContext, RenderError,
    RenderValue, Renderer, TagHandler, Template, TemplateError, TemplateExprNode,
};

fn text(s: &str) -> ContextValue {
    ContextValue::String(s.to_string())
}

fn standard() -> Renderer<NoHandler> {
    Renderer::<NoHandler>::builder().build()
}

fn try_render(expr: &str, context: &RenderContext) -> Result<String, RenderError> {
    let template = Template::from_str(expr).unwrap();
    standard().render(&template, context)
}

fn render(expr: &str, context: &RenderContext) -> String {
    try_render(expr, context).unwrap()
}

fn empty() -> RenderContext {
    RenderContext::default()
}

#[test]
fn scenario_title_page() {
    assert_eq!(
        render(r#"(html (head (title "hi")))"#, &empty()),
        "<!doctype html5><html><head><title>hi</title></head></html>"
    );
}

#[test]
fn scenario_unset_title() {
    let html = render(r#"(html (body (if (is-set $title) (title $title) (title "not set"))))"#, &empty());
    assert_eq!(html, "<!doctype html5><html><body><title>not set</title></body></html>");
}

#[test]
fn scenario_range_divs() {
    let html = render(r#"(html (body (for i in (range 0 3) (div $i))))"#, &empty());
    assert_eq!(html, "<!doctype html5><html><body><div>0</div><div>1</div><div>2</div></body></html>");
}

#[test]
fn scenario_get_second() {
    let context = RenderContext::builder()
        .insert("a", ContextValue::List(vec![text("x"), text("y"), text("z")]))
        .build();
    assert_eq!(render(r#"(html (body (get $a 1)))"#, &context), "<!doctype html5><html><body>y</body></html>");
}

#[test]
fn scenario_nested_arithmetic() {
    assert_eq!(render(r#"(html (body (+ (* 2 3) 1)))"#, &empty()), "<!doctype html5><html><body>7</body></html>");
}

#[test]
fn arithmetic_examples() {
    assert_eq!(render("(+ 2 3)", &empty()), "5");
    assert_eq!(render("(* 3 4)", &empty()), "12");
    assert_eq!(render("(/ 7 2)", &empty()), "3");
    assert_eq!(render("(% 7 2)", &empty()), "1");
    assert_eq!(render("(- 2 3)", &empty()), "-1");
}

#[test]
fn division_truncates_toward_zero() {
    assert_eq!(render("(/ -7 2)", &empty()), "-3");
    assert_eq!(render("(% -7 2)", &empty()), "-1");
}

#[test]
fn arithmetic_wraps() {
    assert_eq!(render("(+ 9223372036854775807 1)", &empty()), "-9223372036854775808");
    assert_eq!(render("(/ -9223372036854775808 -1)", &empty()), "-9223372036854775808");
    assert_eq!(render("(% -9223372036854775808 -1)", &empty()), "0");
}

#[test]
fn division_by_zero_fails() {
    assert!(matches!(try_render("(/ 1 0)", &empty()), Err(RenderError::Math(..))));
    assert!(matches!(try_render("(% 1 0)", &empty()), Err(RenderError::Math(..))));
}

#[test]
fn non_integer_operand_fails() {
    assert!(matches!(try_render("(+ a 1)", &empty()), Err(RenderError::Math(..))));
    assert!(matches!(try_render("(+ 1)", &empty()), Err(RenderError::Math(..))));
}

#[test]
fn surrounding_whitespace_is_ignored() {
    let a = Template::from_str("(div (p hello))").unwrap();
    let b = Template::from_str(" \n\t(div (p hello))\r\n  ").unwrap();
    let r = standard();
    assert_eq!(r.render(&a, &empty()).unwrap(), r.render(&b, &empty()).unwrap());
    assert_eq!(r.render(&b, &empty()).unwrap(), "<div><p>hello</p></div>");
    let u = Template::from_str("\u{a0}\u{c}(div (p hello))\u{3000}\u{2028}").unwrap();
    assert_eq!(r.render(&u, &empty()).unwrap(), "<div><p>hello</p></div>");
}

#[test]
fn unbound_variable_renders_literally() {
    assert_eq!(render("(p $nope)", &empty()), "<p>$nope</p>");
    let context = RenderContext::builder().insert("other", text("x")).build();
    assert_eq!(render("(p $nope)", &context), "<p>$nope</p>");
}

#[test]
fn is_set_ignores_value_kind() {
    let context = RenderContext::builder()
        .insert("i", ContextValue::Integer(0))
        .insert("b", ContextValue::Boolean(false))
        .insert("l", ContextValue::List(vec![]))
        .insert("s", text(""))
        .build();
    assert_eq!(render("(p (is-set $i) (is-set $b) (is-set $l) (is-set $s) (is-set $x))", &context), "<p>truetruetruetruefalse</p>");
}

#[test]
fn is_set_needs_identifier() {
    assert!(matches!(try_render("(is-set 1)", &empty()), Err(RenderError::IsSet(..))));
}

#[test]
fn if_truthiness() {
    let context = RenderContext::builder()
        .insert("f", ContextValue::Boolean(false))
        .insert("t", ContextValue::Boolean(true))
        .insert("e", text(""))
        .build();
    assert_eq!(render("(if 0 yes no)", &context), "no");
    assert_eq!(render("(if $f yes no)", &context), "no");
    assert_eq!(render("(if $e yes no)", &context), "no");
    assert_eq!(render("(if $t yes no)", &context), "yes");
    assert_eq!(render("(if 5 yes no)", &context), "yes");
    assert_eq!(render("(if word yes no)", &context), "yes");
    assert_eq!(render("(p (if 0 yes))", &context), "<p></p>");
}

#[test]
fn if_errors() {
    assert!(matches!(try_render("(if)", &empty()), Err(RenderError::If(..))));
    assert!(matches!(try_render("(if 1)", &empty()), Err(RenderError::If(..))));
}

#[test]
fn range_with_step() {
    assert_eq!(render("(p (for i in (range 0 10 3) $i))", &empty()), "<p>0369</p>");
    assert_eq!(render("(p (for i in (range 5 5) $i))", &empty()), "<p></p>");
    assert_eq!(render("(p (for i in (range 5 2) $i))", &empty()), "<p></p>");
    assert_eq!(render("(p (for i in (range -2 2) $i))", &empty()), "<p>-2-101</p>");
}

#[test]
fn range_needs_positive_step() {
    assert!(matches!(try_render("(p (for i in (range 0 3 0) $i))", &empty()), Err(RenderError::For(..))));
    assert!(matches!(try_render("(p (for i in (range 0) $i))", &empty()), Err(RenderError::For(..))));
}

#[test]
fn object_iteration_follows_key_order() {
    let obj = RenderContext::builder()
        .insert("b", text("2"))
        .insert("a", text("1"))
        .insert("b", text("3"))
        .build();
    let context = RenderContext::builder().insert("o", ContextValue::Object(obj)).build();
    assert_eq!(render("(p (for k v in $o (i $k $v)))", &context), "<p><i>a1</i><i>b3</i></p>");
}

#[test]
fn switch_emits_only_matching_case() {
    let context = RenderContext::builder().insert("x", text("two")).build();
    assert_eq!(render("(p (switch $x (case one a) (case two b) (case three c)))", &context), "<p>b</p>");
    assert_eq!(render("(p (switch $x (case one a) (case three c)))", &context), "<p></p>");
}

#[test]
fn switch_binds_integer_discriminant_as_text() {
    assert_eq!(render("(p (switch (+ 1 1) (case 2 two) (case two word)))", &empty()), "<p></p>");
    assert_eq!(render("(p (switch (+ 1 1) (case x no)))", &empty()), "<p></p>");
}

#[test]
fn case_outside_switch_fails() {
    assert!(matches!(try_render("(case a b)", &empty()), Err(RenderError::Case(..))));
    assert!(matches!(try_render("(switch)", &empty()), Err(RenderError::Switch(..))));
}

#[test]
fn dotted_path_rules() {
    let inner = RenderContext::builder().insert("b", text("deep")).build();
    let context = RenderContext::builder()
        .insert("a", ContextValue::Object(inner))
        .insert("s", text("flat"))
        .build();
    assert_eq!(render("(p $a.b)", &context), "<p>deep</p>");
    assert_eq!(render("(p $a.missing)", &context), "<p>false</p>");
    assert_eq!(render("(p $s.more.parts)", &context), "<p>flat</p>");
    assert_eq!(render("(p $a)", &context), "<p>deep</p>");
}

#[test]
fn get_out_of_bounds_fails() {
    let context = RenderContext::builder()
        .insert("a", ContextValue::List(vec![text("x"), text("y"), text("z")]))
        .build();
    assert_eq!(render("(get $a 2)", &context), "z");
    assert!(matches!(try_render("(get $a 3)", &context), Err(RenderError::Get(..))));
    assert!(matches!(try_render("(get $a -1)", &context), Err(RenderError::Get(..))));
    assert!(matches!(try_render("(get 1 1)", &context), Err(RenderError::Get(..))));
}

#[test]
fn for_errors() {
    let context = RenderContext::builder().insert("n", ContextValue::Integer(3)).build();
    assert!(matches!(try_render("(for i $n (p))", &context), Err(RenderError::For(..))));
    assert!(matches!(try_render("(for i in $n (p))", &context), Err(RenderError::For(..))));
    assert!(matches!(try_render("(for i in $missing (p))", &context), Err(RenderError::For(..))));
}

#[test]
fn comparisons() {
    let context = RenderContext::builder()
        .insert("l1", ContextValue::List(vec![ContextValue::Integer(1), ContextValue::Integer(2)]))
        .insert("l2", ContextValue::List(vec![ContextValue::Integer(1), ContextValue::Integer(3)]))
        .build();
    assert_eq!(render("(p (eq 1 1) (lt a b) (gt 3 2) (lte 2 2) (gte 1 2))", &context), "<p>truetruetruetruefalse</p>");
    assert_eq!(render("(p (eq 1 a) (ne 1 a) (lt 1 a))", &context), "<p>falsetruefalse</p>");
    assert_eq!(render("(p (lt $l1 $l2) (eq $l1 $l1))", &context), "<p>truetrue</p>");
    assert!(matches!(try_render("(eq 1)", &context), Err(RenderError::Cmp(..))));
}

#[test]
fn template_variable_renders_in_current_context() {
    let sub = Template::from_str("(b $x)").unwrap();
    let context = RenderContext::builder()
        .insert("t", ContextValue::Template(sub))
        .insert("x", text("hi"))
        .build();
    assert_eq!(render("(p $t)", &context), "<p><b>hi</b></p>");
}

#[test]
fn self_referential_template_hits_depth_limit() {
    let sub = Template::from_str("(b $t)").unwrap();
    let context = RenderContext::builder().insert("t", ContextValue::Template(sub)).build();
    assert!(matches!(try_render("(p $t)", &context), Err(RenderError::Depth(..))));
    let looping = RenderContext::builder().insert("l", ContextValue::List(vec![text("$l")])).build();
    assert!(matches!(try_render("(p $l)", &looping), Err(RenderError::Depth(..))));
}

#[test]
fn parse_errors() {
    assert!(matches!(Template::from_str("(a 1.5)"), Err(TemplateError::ParseExprError(ParseExprError::NotAnAtom))));
    assert!(matches!(Template::from_str("(1 a)"), Err(TemplateError::ParseExprError(ParseExprError::NotAList))));
    assert!(matches!(Template::from_str("()"), Err(TemplateError::ParseExprError(ParseExprError::NotAList))));
    assert!(matches!(Template::from_str("(a (@ b))"), Err(TemplateError::ParseExprError(ParseExprError::NotAnAttribute))));
    assert!(matches!(Template::from_str("(a (@ (b c d)))"), Err(TemplateError::ParseExprError(ParseExprError::NotAnAttribute))));
    assert!(matches!(Template::from_str("(a (@ (b)))"), Err(TemplateError::ParseExprError(ParseExprError::AttributeMissingElement))));
    assert!(matches!(Template::from_str("(a"), Err(TemplateError::ParseError(..))));
    assert!(matches!(Template::from_str("(a) b"), Err(TemplateError::ParseError(..))));
}

#[test]
fn parse_shapes() {
    let t = Template::from_str("(a (@ (k v)) x 7)").unwrap();
    match &t.expr {
        TemplateExprNode::Tag(tag) => {
            assert_eq!(tag.tag, "a");
            assert_eq!(tag.attrs.len(), 1);
            assert_eq!(tag.children.len(), 2);
            assert_eq!(tag.children[0].as_identifier().map(|s| s.as_str()), Some("x"));
            assert_eq!(tag.children[1].as_integer(), Some(7));
        },
        _ => panic!("not a tag"),
    }
}

#[test]
fn attributes_lookup() {
    let mut a = Attributes::new(vec![Attribute("k".to_string(), "v".to_string())]);
    a.push(Attribute("k".to_string(), "w".to_string()));
    a.push(Attribute("j".to_string(), "x".to_string()));
    assert_eq!(a.get("k").map(|s| s.as_str()), Some("v"));
    assert_eq!(a.get("j").map(|s| s.as_str()), Some("x"));
    assert_eq!(a.get("z"), None);
}

#[test]
fn values_finalize() {
    assert_eq!(RenderValue::Integer(-42).finalize(), "-42");
    assert_eq!(RenderValue::Integer(i64::MIN).finalize(), "-9223372036854775808");
    assert_eq!(RenderValue::Boolean(false).finalize(), "false");
    assert_eq!(RenderValue::Empty.finalize(), "");
    let l = RenderValue::List(vec![RenderValue::String("a".to_string()), RenderValue::Integer(10)]);
    assert_eq!(l.as_string(), None);
    match l.join() {
        RenderValue::String(s) => assert_eq!(s, "a10"),
        _ => panic!("not joined"),
    }
    assert_eq!(RenderValue::Integer(3).as_int(), Some(3));
    let o = RenderValue::Object(vec![("k".to_string(), RenderValue::Boolean(true))]);
    assert_eq!(o.finalize(), "true");
}

#[test]
fn insert_strips_one_sigil() {
    let mut c = RenderContext::default();
    c.insert("$x", text("1"));
    c.insert("$$y", text("2"));
    assert!(c.get("x").is_some());
    assert!(c.get("$x").is_some());
    assert!(c.get("y").is_none());
    assert!(c.get("$$y").is_some());
    c.insert("x", text("3"));
    assert_eq!(c.entries.len(), 2);
    match c.get("x") {
        Some(ContextValue::String(s)) => assert_eq!(s, "3"),
        _ => panic!("missing"),
    }
}

struct Hello;

impl TagHandler for Hello {
    fn handle(&self, _: Attributes, _: &[TemplateExprNode], _: &Renderer<Self>, _: &RenderContext) -> Result<RenderValue, RenderError> {
        Ok(RenderValue::String("hello there".to_string()))
    }
}

#[test]
fn handler_overrides_builtin() {
    let renderer = Renderer::builder().function("if", Hello).build();
    let t = Template::from_str("(p (if 1 a b))").unwrap();
    assert_eq!(renderer.render(&t, &empty()).unwrap(), "<p>hello there</p>");
}

#[test]
fn evaluate_and_attributes() {
    let r = standard();
    let t = Template::from_str("(a (@ (k (+ 1 2)) (x y)))").unwrap();
    match &t.expr {
        TemplateExprNode::Tag(tag) => {
            let attrs = r.evaluate_attrs(&tag.attrs, &empty()).unwrap();
            assert_eq!(attrs.get("k").map(|s| s.as_str()), Some("3"));
            assert_eq!(attrs.get("x").map(|s| s.as_str()), Some("y"));
        },
        _ => panic!("not a tag"),
    }
    let n = Template::from_str("(* 6 7)").unwrap();
    assert_eq!(r.evaluate(&n.expr, &empty()).unwrap().as_int(), Some(42));
}

#[test]
fn nested_failures_take_the_builtin_kind() {
    assert!(matches!(try_render("(+ (get) 1)", &empty()), Err(RenderError::Math(..))));
    assert!(matches!(try_render("(* 2 (if))", &empty()), Err(RenderError::Math(..))));
    assert!(matches!(try_render("(eq 1 (get))", &empty()), Err(RenderError::Cmp(..))));
    assert!(matches!(try_render("(eq (get) 1)", &empty()), Err(RenderError::Cmp(..))));
    assert!(matches!(try_render("(p (for i in (range (+) 3) $i))", &empty()), Err(RenderError::For(..))));
    assert!(matches!(try_render("(p (for i in (range 0 (get)) $i))", &empty()), Err(RenderError::For(..))));
    assert!(matches!(try_render("(p (for i in (range 0 3 (if)) $i))", &empty()), Err(RenderError::For(..))));
    assert!(matches!(try_render("(p (for in (range (+) 3) x))", &empty()), Err(RenderError::For(..))));
    assert!(matches!(try_render("(p (for in (range 0 3) x))", &empty()), Err(RenderError::For(..))));
}

#[test]
fn context_entries_are_held_in_key_order() {
    let c = RenderContext::builder()
        .insert("pear", text("1"))
        .insert("apple", text("2"))
        .insert("zoo", text("3"))
        .insert("$banana", text("4"))
        .insert("apple", text("5"))
        .build();
    let keys: Vec<&str> = c.entries.iter().map(|e| e.0.as_str()).collect();
    assert_eq!(keys, vec!["apple", "banana", "pear", "zoo"]);
    match c.get("apple") {
        Some(ContextValue::String(s)) => assert_eq!(s, "5"),
        _ => panic!("missing"),
    }
}

#[test]
fn values_clone_compare_and_convert() {
    let c = RenderContext::builder().insert("a", ContextValue::from(3i64)).build();
    let d = c.clone();
    assert_eq!(d.entries.len(), 1);
    assert!(ContextValue::from(3i64) == ContextValue::Integer(3));
    assert!(ContextValue::from(true) != ContextValue::Integer(1));
    assert!(ContextValue::from("a".to_string()) < ContextValue::from("b".to_string()));
    assert!(ContextValue::from(vec![ContextValue::Integer(1)]) < ContextValue::from(vec![ContextValue::Integer(2)]));
    assert!(ContextValue::Object(c.clone()) != ContextValue::Object(c));
    let v = RenderValue::from(vec![RenderValue::from(7i64), RenderValue::from(false)]);
    assert_eq!(v.clone().finalize(), "7false");
    let t = Template::from_str("(a b)").unwrap();
    assert_eq!(standard().render(&t.clone(), &empty()).unwrap(), "<a>b</a>");
}
