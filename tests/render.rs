use sato::{
    Attributes, ContextValue, NoHandler, RenderContext, RenderError, RenderValue, Renderer,
    TagHandler, Template, TemplateExprNode,
};

fn text(s: &str) -> ContextValue {
    ContextValue::String(s.to_string())
}

fn texts(xs: &[&str]) -> ContextValue {
    ContextValue::List(xs.iter().map(|x| text(x)).collect())
}

fn standard() -> Renderer<NoHandler> {
    Renderer::<NoHandler>::builder().build()
}

fn render_with<H: TagHandler>(renderer: &Renderer<H>, expr: &str, context: &RenderContext) -> String {
    let template = Template::from_str(expr).unwrap();
    renderer.render(&template, context).unwrap()
}

fn render(expr: &str, context: &RenderContext) -> String {
    render_with(&standard(), expr, context)
}

#[test]
fn test_no_builtins() {
    let html = render(r#"(head (title "test title"))"#, &RenderContext::default());
    assert_eq!(html, "<head><title>test title</title></head>")
}

#[test]
fn test_basic_render() {
    let html = render(r#"(html (head (title "test title")))"#, &RenderContext::default());
    assert_eq!(html, "<!doctype html5><html><head><title>test title</title></head></html>")
}

#[test]
fn test_attributes() {
    let html = render(r#"(html (head (@ (asdf qwer) (zxc asd))(title "test title")))"#, &RenderContext::default());
    assert_eq!(html, r#"<!doctype html5><html><head asdf="qwer" zxc="asd"><title>test title</title></head></html>"#)
}

#[test]
fn test_attributes_on_empty_tag() {
    let html = render(r#"(html (body (@ (asdf qwer))))"#, &RenderContext::default());
    assert_eq!(html, r#"<!doctype html5><html><body asdf="qwer" /></html>"#)
}

#[test]
fn test_basic_substitution() {
    let context = RenderContext::builder().insert("title", text("some sort of title")).build();
    let html = render(r#"(html (head (title $title)))"#, &context);
    assert_eq!(html, r#"<!doctype html5><html><head><title>some sort of title</title></head></html>"#)
}

#[test]
fn test_vec_substitution() {
    let context = RenderContext::builder()
        .insert("asdf", text("qwer"))
        .insert("vec", texts(&["this", "that", "$asdf"]))
        .build();
    let html = render(r#"(html (div $vec))"#, &context);
    assert_eq!(html, r#"<!doctype html5><html><div>thisthatqwer</div></html>"#)
}

#[test]
fn test_if_is_set() {
    let context = RenderContext::builder().insert("title", text("some sort of title")).build();
    let html = render(r#"(html (head (if (is-set $title) (title $title) (title "not set"))))"#, &context);
    assert_eq!(html, r#"<!doctype html5><html><head><title>some sort of title</title></head></html>"#)
}

#[test]
fn test_if_not_is_set() {
    let context = RenderContext::builder().insert("title2", text("some sort of title")).build();
    let html = render(r#"(html (head (if (is-set $title) (title $title) (title "not set"))))"#, &context);
    assert_eq!(html, r#"<!doctype html5><html><head><title>not set</title></head></html>"#)
}

#[test]
fn test_array_iteration() {
    let context = RenderContext::builder().insert("asdf", texts(&["qaz", "wsx", "edc"])).build();
    let html = render(r#"(html (body (for i in $asdf (div "iter " $i))))"#, &context);
    assert_eq!(html, r#"<!doctype html5><html><body><div>iter qaz</div><div>iter wsx</div><div>iter edc</div></body></html>"#)
}

#[test]
fn test_range_iteration() {
    let html = render(r#"(html (body (for i in (range 0 3) (div "iter " $i))))"#, &RenderContext::default());
    assert_eq!(html, r#"<!doctype html5><html><body><div>iter 0</div><div>iter 1</div><div>iter 2</div></body></html>"#)
}

#[test]
fn test_array_index_iteration() {
    let context = RenderContext::builder().insert("asdf", texts(&["qaz", "wsx", "edc"])).build();
    let html = render(r#"(html (body (for (enumerate k i) in $asdf (div $k ": iter " $i))))"#, &context);
    assert_eq!(html, r#"<!doctype html5><html><body><div>0: iter qaz</div><div>1: iter wsx</div><div>2: iter edc</div></body></html>"#)
}

#[test]
fn test_object_iteration() {
    let internal_obj = RenderContext::builder().insert("as", text("df")).insert("qw", text("er")).build();
    let context = RenderContext::builder().insert("asdf", ContextValue::Object(internal_obj)).build();
    let html = render(r#"(html (body (for k v in $asdf (div "key " $k ", value " $v))))"#, &context);
    assert_eq!(html, r#"<!doctype html5><html><body><div>key as, value df</div><div>key qw, value er</div></body></html>"#)
}

#[test]
fn test_object_access() {
    let internal_obj = RenderContext::builder().insert("as", text("df")).build();
    let context = RenderContext::builder().insert("asdf", ContextValue::Object(internal_obj)).build();
    let html = render(r#"(html (body $asdf.as))"#, &context);
    assert_eq!(html, r#"<!doctype html5><html><body>df</body></html>"#)
}

#[test]
fn test_deep_object_access() {
    let nested3_obj = RenderContext::builder().insert("er", text("look at this nested thing")).build();
    let nested2_obj = RenderContext::builder().insert("qw", ContextValue::Object(nested3_obj)).build();
    let nested1_obj = RenderContext::builder().insert("df", ContextValue::Object(nested2_obj)).build();
    let nested0_obj = RenderContext::builder().insert("as", ContextValue::Object(nested1_obj)).build();
    let context = RenderContext::builder().insert("nested_object", ContextValue::Object(nested0_obj)).build();
    let html = render(r#"(html (body $nested_object.as.df.qw.er))"#, &context);
    assert_eq!(html, r#"<!doctype html5><html><body>look at this nested thing</body></html>"#)
}

#[test]
fn test_variable_in_attributes() {
    let context = RenderContext::builder().insert("qwer", text("zxcv")).build();
    let html = render(r#"(html (head (@ (asdf $qwer) (zxc asd))(title "test title")))"#, &context);
    assert_eq!(html, r#"<!doctype html5><html><head asdf="zxcv" zxc="asd"><title>test title</title></head></html>"#)
}

#[test]
fn test_object_variable_in_attributes() {
    let obj1 = RenderContext::builder().insert("er", text("cv")).insert("zx", text("hj")).build();
    let obj2 = RenderContext::builder().insert("er", text("df")).insert("zx", text("nm")).build();
    let context = RenderContext::builder()
        .insert("as", ContextValue::List(vec![ContextValue::Object(obj1), ContextValue::Object(obj2)]))
        .build();
    let html = render(r#"(html (for qw in $as (div (@ (class $qw.er)) $qw.zx)))"#, &context);
    assert_eq!(html, r#"<!doctype html5><html><div class="cv">hj</div><div class="df">nm</div></html>"#)
}

#[test]
fn test_case() {
    let context = RenderContext::builder().insert("blah", text("zxcv")).build();
    let html = render(r#"(html (div (switch $blah (case asdf qwer) (case zxcv (div what else)) (case hjkl nm))))"#, &context);
    assert_eq!(html, r#"<!doctype html5><html><div><div>whatelse</div></div></html>"#)
}

struct Hello;

impl TagHandler for Hello {
    fn handle(&self, _: Attributes, _: &[TemplateExprNode], _: &Renderer<Self>, _: &RenderContext) -> Result<RenderValue, RenderError> {
        Ok(RenderValue::String("hello there".to_string()))
    }
}

#[test]
fn test_custom_closure() {
    let renderer = Renderer::builder().function("blah", Hello).build();
    let html = render_with(&renderer, r#"(html (div (blah something or other)))"#, &RenderContext::default());
    assert_eq!(html, r#"<!doctype html5><html><div>hello there</div></html>"#)
}

#[test]
fn test_custom_function() {
    let renderer = Renderer::builder().function("blarg", Hello).build();
    let html = render_with(&renderer, r#"(html (div (blarg something or other)))"#, &RenderContext::default());
    assert_eq!(html, r#"<!doctype html5><html><div>hello there</div></html>"#)
}

struct AttrLister;

impl TagHandler for AttrLister {
    fn handle(&self, attrs: Attributes, _: &[TemplateExprNode], _: &Renderer<Self>, _: &RenderContext) -> Result<RenderValue, RenderError> {
        let mut output: Vec<RenderValue> = Vec::new();
        for attr in attrs.0.iter() {
            output.push(RenderValue::String("[".to_string()));
            output.push(RenderValue::String(attr.0.clone()));
            output.push(RenderValue::String(" = ".to_string()));
            output.push(RenderValue::String(attr.1.clone()));
            output.push(RenderValue::String("] ".to_string()));
        }
        Ok(RenderValue::List(output))
    }
}

#[test]
fn test_using_attrs_in_closure() {
    let renderer = Renderer::builder().function("blah", AttrLister).build();
    let html = render_with(&renderer, r#"(html (div (blah (@ (this is) (the attr)) something or other)))"#, &RenderContext::default());
    assert_eq!(html, r#"<!doctype html5><html><div>[this = is] [the = attr] </div></html>"#)
}

struct Wrapper;

impl TagHandler for Wrapper {
    fn handle(&self, _: Attributes, expr: &[TemplateExprNode], renderer: &Renderer<Self>, context: &RenderContext) -> Result<RenderValue, RenderError> {
        let mut output: Vec<RenderValue> = Vec::new();
        output.push(RenderValue::String("<blah>".to_string()));
        output.push(renderer.evaluate_multiple(expr, context)?);
        output.push(RenderValue::String("</blah>".to_string()));
        Ok(RenderValue::List(output))
    }
}

#[test]
fn test_more_html_in_closure() {
    let renderer = Renderer::builder().function("blah", Wrapper).build();
    let html = render_with(&renderer, r#"(html (div (blah (span hello))))"#, &RenderContext::default());
    assert_eq!(html, r#"<!doctype html5><html><div><blah><span>hello</span></blah></div></html>"#)
}

struct SubRender(Template);

impl TagHandler for SubRender {
    fn handle(&self, _: Attributes, _: &[TemplateExprNode], renderer: &Renderer<Self>, _: &RenderContext) -> Result<RenderValue, RenderError> {
        let mut output: Vec<RenderValue> = Vec::new();
        output.push(RenderValue::String("<blah>".to_string()));
        let suboutput = renderer.render(&self.0, &RenderContext::default())?;
        output.push(RenderValue::String(suboutput));
        output.push(RenderValue::String("</blah>".to_string()));
        Ok(RenderValue::List(output))
    }
}

#[test]
fn test_renderer_in_closure() {
    let subtemplate = Template::from_str(r#"(sub str)"#).unwrap();
    let renderer = Renderer::builder().function("blah", SubRender(subtemplate)).build();
    let html = render_with(&renderer, r#"(html (div (blah (span hello))))"#, &RenderContext::default());
    assert_eq!(html, r#"<!doctype html5><html><div><blah><sub>str</sub></blah></div></html>"#)
}

struct ContextReader;

impl TagHandler for ContextReader {
    fn handle(&self, _: Attributes, _: &[TemplateExprNode], _: &Renderer<Self>, context: &RenderContext) -> Result<RenderValue, RenderError> {
        let s = match context.get("blah").unwrap() {
            ContextValue::String(s) => s.clone(),
            _ => panic!("not a str"),
        };
        let output = vec![
            RenderValue::String("<blah>".to_string()),
            RenderValue::String(s),
            RenderValue::String("</blah>".to_string()),
        ];
        Ok(RenderValue::List(output))
    }
}

#[test]
fn test_context_in_closure() {
    let renderer = Renderer::builder().function("blah", ContextReader).build();
    let context = RenderContext::builder().insert("blah", text("zxcv")).build();
    let html = render_with(&renderer, r#"(html (div (blah (span hello))))"#, &context);
    assert_eq!(html, r#"<!doctype html5><html><div><blah>zxcv</blah></div></html>"#)
}

struct Everything(Template);

impl TagHandler for Everything {
    fn handle(&self, attr: Attributes, expr: &[TemplateExprNode], renderer: &Renderer<Self>, context: &RenderContext) -> Result<RenderValue, RenderError> {
        let mut output: Vec<RenderValue> = Vec::new();
        output.push(RenderValue::String("<blah>".to_string()));
        let mut subcontext = RenderContext::default();
        subcontext.insert("content", text(attr.get("something").unwrap()));
        let suboutput = renderer.render(&self.0, &subcontext)?;
        output.push(RenderValue::String(suboutput));
        output.push(renderer.evaluate_multiple(expr, context)?);
        let s = match context.get("blah").unwrap() {
            ContextValue::String(s) => s.clone(),
            _ => panic!("not a str"),
        };
        output.push(RenderValue::String(s));
        output.push(RenderValue::String("</blah>".to_string()));
        Ok(RenderValue::List(output))
    }
}

#[test]
fn test_closure_with_everything() {
    let subtemplate = Template::from_str(r#"(sub $content)"#).unwrap();
    let renderer = Renderer::builder().function("blah", Everything(subtemplate)).build();
    let context = RenderContext::builder().insert("blah", text("zxcv")).build();
    let html = render_with(&renderer, r#"(html (div (blah (@ (something extra)) (span hello))))"#, &context);
    assert_eq!(html, r#"<!doctype html5><html><div><blah><sub>extra</sub><span>hello</span>zxcv</blah></div></html>"#)
}

#[test]
fn test_math_op_mod() {
    let html = render(r#"(html (body (for i in (range 0 5) (if (eq (% $i 2) 0) (div $i)))))"#, &RenderContext::builder().build());
    assert_eq!(html, r#"<!doctype html5><html><body><div>0</div><div>2</div><div>4</div></body></html>"#)
}

#[test]
fn test_variable_range_iteration() {
    let context = RenderContext::builder()
        .insert("a", ContextValue::Integer(4))
        .insert("b", ContextValue::Integer(7))
        .build();
    let html = render(r#"(html (body (for i in (range $a $b) (div "iter " $i))))"#, &context);
    assert_eq!(html, r#"<!doctype html5><html><body><div>iter 4</div><div>iter 5</div><div>iter 6</div></body></html>"#)
}

#[test]
fn test_math_ops() {
    let context = RenderContext::builder()
        .insert("a", ContextValue::Integer(4))
        .insert("b", ContextValue::Integer(7))
        .insert("c", ContextValue::Integer(12))
        .build();
    let html = render(r#"(html (body (+ (/ (* $b (- $c (+ 2 3))) $c) (+ $b $c))))"#, &context);
    assert_eq!(html, r#"<!doctype html5><html><body>23</body></html>"#)
}

#[test]
fn test_math_ops_in_attributes() {
    let context = RenderContext::builder()
        .insert("a", ContextValue::Integer(4))
        .insert("b", ContextValue::Integer(7))
        .build();
    let html = render(r#"(html (body (@ (blah (+ 2 3)) (asdf (* $a $b)))))"#, &context);
    assert_eq!(html, r#"<!doctype html5><html><body blah="5" asdf="28" /></html>"#)
}

#[test]
fn test_math_ops_in_for_range() {
    let context = RenderContext::builder()
        .insert("a", ContextValue::Integer(4))
        .insert("b", ContextValue::Integer(7))
        .build();
    let html = render(r#"(html (body (for i in (range (- $b $a) (+ $b 1)) (div "iter " $i))))"#, &context);
    assert_eq!(html, r#"<!doctype html5><html><body><div>iter 3</div><div>iter 4</div><div>iter 5</div><div>iter 6</div><div>iter 7</div></body></html>"#)
}

#[test]
fn test_get_from_array() {
    let context = RenderContext::builder().insert("a", texts(&["asd", "qwe", "zxc"])).build();
    let html = render(r#"(html (body (get $a 0) (get $a 2)))"#, &context);
    assert_eq!(html, r#"<!doctype html5><html><body>asdzxc</body></html>"#)
}

#[test]
fn test_get_from_object() {
    let internal_obj = RenderContext::builder()
        .insert("as", text("df"))
        .insert("qw", text("er"))
        .insert("zx", text("cv"))
        .build();
    let context = RenderContext::builder().insert("asdf", ContextValue::Object(internal_obj)).build();
    let html = render(r#"(html (body (get $asdf as) (get $asdf zx)))"#, &context);
    assert_eq!(html, r#"<!doctype html5><html><body>dfcv</body></html>"#)
}

#[test]
fn test_nested_gets_from_array() {
    let subvec = texts(&["blah", "123", "this"]);
    let v = ContextValue::List(vec![text("asd"), text("qwe"), subvec, text("zxc")]);
    let context = RenderContext::builder().insert("a", v).build();
    let html = render(r#"(html (body (get (get $a 2) 0)))"#, &context);
    assert_eq!(html, r#"<!doctype html5><html><body>blah</body></html>"#)
}

#[test]
fn test_multi_type_vec() {
    let v = ContextValue::List(vec![text("blah"), ContextValue::Integer(123), text("this"), ContextValue::Boolean(true)]);
    let context = RenderContext::builder().insert("a", v).build();
    let html = render(r#"(html (body $a))"#, &context);
    assert_eq!(html, r#"<!doctype html5><html><body>blah123thistrue</body></html>"#)
}
