use vstd::prelude::*;
use crate::context::Data;
use crate::template::{Expr, Template};

verus! {

/// An evaluation result, as the contracts see it.
pub enum Val {
    Str(Seq<char>),
    Int(i64),
    Bool(bool),
    List(Seq<Val>),
    Obj(Seq<(Seq<char>, Val)>),
    Tmpl(Expr),
    Empty,
}

/// What evaluating a node gives.
#[derive(Debug)]
pub enum RenderValue {
    String(String),
    Integer(i64),
    Boolean(bool),
    List(Vec<RenderValue>),
    /// Members in the order of the object they were made from.
    Object(Vec<(String, RenderValue)>),
    Template(Template),
    Empty,
}

pub open spec fn rv_view(v: RenderValue) -> Val
    decreases v,
{
    match v {
        RenderValue::String(s) => Val::Str(s@),
        RenderValue::Integer(i) => Val::Int(i),
        RenderValue::Boolean(b) => Val::Bool(b),
        RenderValue::List(l) => Val::List(rvs_view(l)),
        RenderValue::Object(o) => Val::Obj(members_view(o)),
        RenderValue::Template(t) => Val::Tmpl(t.expr@),
        RenderValue::Empty => Val::Empty,
    }
}

pub open spec fn rvs_view(v: Vec<RenderValue>) -> Seq<Val>
    decreases v,
{
    Seq::new(v.len() as nat, |i: int| if 0 <= i < v.len() { rv_view(v[i]) } else { Val::Empty })
}

pub open spec fn members_view(v: Vec<(String, RenderValue)>) -> Seq<(Seq<char>, Val)>
    decreases v,
{
    Seq::new(
        v.len() as nat,
        |i: int| if 0 <= i < v.len() { (v[i].0@, rv_view(v[i].1)) } else { (Seq::empty(), Val::Empty) },
    )
}

impl View for RenderValue {
    type V = Val;

    open spec fn view(&self) -> Val {
        rv_view(*self)
    }
}

pub open spec fn digit_char(d: nat) -> char {
    if d == 0 { '0' }
    else if d == 1 { '1' }
    else if d == 2 { '2' }
    else if d == 3 { '3' }
    else if d == 4 { '4' }
    else if d == 5 { '5' }
    else if d == 6 { '6' }
    else if d == 7 { '7' }
    else if d == 8 { '8' }
    else { '9' }
}

/// Decimal digits of a natural number, most significant first.
pub open spec fn digits(n: nat) -> Seq<char>
    decreases n,
{
    if n < 10 {
        seq![digit_char(n)]
    } else {
        digits(n / 10).push(digit_char(n % 10))
    }
}

/// The canonical decimal form of an integer.
pub open spec fn decimal(i: int) -> Seq<char> {
    if i < 0 {
        seq!['-'] + digits((-i) as nat)
    } else {
        digits(i as nat)
    }
}

pub open spec fn bool_text(b: bool) -> Seq<char> {
    if b {
        seq!['t', 'r', 'u', 'e']
    } else {
        seq!['f', 'a', 'l', 's', 'e']
    }
}

/// The text a value finalizes to.
pub open spec fn text_of(v: Val) -> Seq<char>
    decreases v,
{
    match v {
        Val::Str(s) => s,
        Val::Int(i) => decimal(i as int),
        Val::Bool(b) => bool_text(b),
        Val::List(l) => texts(l),
        Val::Obj(o) => member_texts(o),
        Val::Tmpl(_) => Seq::empty(),
        Val::Empty => Seq::empty(),
    }
}

/// The texts of a sequence of values, concatenated in order.
pub open spec fn texts(l: Seq<Val>) -> Seq<char>
    decreases l,
{
    if l.len() == 0 {
        Seq::empty()
    } else {
        texts(l.drop_last()) + text_of(l.last())
    }
}

/// The texts of an object's members, concatenated in the order they are held.
pub open spec fn member_texts(o: Seq<(Seq<char>, Val)>) -> Seq<char>
    decreases o,
{
    if o.len() == 0 {
        Seq::empty()
    } else {
        proof {
            assert(decreases_to!(o => o.last()));
        }
        member_texts(o.drop_last()) + text_of(o.last().1)
    }
}

/// The evaluator's view of caller data.
pub open spec fn data_to_val(d: Data) -> Val
    decreases d,
{
    match d {
        Data::Int(i) => Val::Int(i),
        Data::Bool(b) => Val::Bool(b),
        Data::Str(s) => Val::Str(s),
        Data::List(l) => Val::List(
            Seq::new(l.len(), |i: int| if 0 <= i < l.len() { data_to_val(l[i]) } else { Val::Empty }),
        ),
        Data::Obj(o) => Val::Obj(
            Seq::new(
                o.len(),
                |i: int|
                    if 0 <= i < o.len() {
                        proof {
                            assert(decreases_to!(o => o[i]));
                        }
                        (o[i].0, data_to_val(o[i].1))
                    } else {
                        (Seq::empty(), Val::Empty)
                    },
            ),
        ),
        Data::Tmpl(e) => Val::Tmpl(e),
    }
}

/// A value turned back into caller data; `Empty` becomes the empty string.
pub open spec fn val_to_data(v: Val) -> Data
    decreases v,
{
    match v {
        Val::Str(s) => Data::Str(s),
        Val::Int(i) => Data::Int(i),
        Val::Bool(b) => Data::Bool(b),
        Val::List(l) => Data::List(
            Seq::new(l.len(), |i: int| if 0 <= i < l.len() { val_to_data(l[i]) } else { Data::Int(0) }),
        ),
        Val::Obj(o) => Data::Obj(
            Seq::new(
                o.len(),
                |i: int|
                    if 0 <= i < o.len() {
                        proof {
                            assert(decreases_to!(o => o[i]));
                        }
                        (o[i].0, val_to_data(o[i].1))
                    } else {
                        (Seq::empty(), Data::Int(0))
                    },
            ),
        ),
        Val::Tmpl(e) => Data::Tmpl(e),
        Val::Empty => Data::Str(Seq::empty()),
    }
}

fn digit_str(d: u64) -> (r: &'static str)
    requires
        d < 10,
    ensures
        r@ == seq![digit_char(d as nat)],
{
    proof {
        reveal_strlit("0");
        reveal_strlit("1");
        reveal_strlit("2");
        reveal_strlit("3");
        reveal_strlit("4");
        reveal_strlit("5");
        reveal_strlit("6");
        reveal_strlit("7");
        reveal_strlit("8");
        reveal_strlit("9");
    }
    if d == 0 { "0" }
    else if d == 1 { "1" }
    else if d == 2 { "2" }
    else if d == 3 { "3" }
    else if d == 4 { "4" }
    else if d == 5 { "5" }
    else if d == 6 { "6" }
    else if d == 7 { "7" }
    else if d == 8 { "8" }
    else { "9" }
}

fn digits_of(n: u64) -> (r: String)
    ensures
        r@ == digits(n as nat),
    decreases n,
{
    if n < 10 {
        digit_str(n).to_string()
    } else {
        let mut s = digits_of(n / 10);
        s.append(digit_str(n % 10));
        s
    }
}

/// The canonical decimal form of an integer.
pub fn decimal_text(i: i64) -> (r: String)
    ensures
        r@ == decimal(i as int),
{
    if i < 0 {
        let m: u64 = if i == i64::MIN {
            9223372036854775808u64
        } else {
            (-i) as u64
        };
        let mut s = "-".to_string();
        proof {
            reveal_strlit("-");
        }
        let d = digits_of(m);
        s.append(d.as_str());
        s
    } else {
        digits_of(i as u64)
    }
}

/// Appends the finalized text of a value to `out`.
pub fn finalize_into(v: &RenderValue, out: &mut String)
    ensures
        final(out)@ == old(out)@ + text_of(v@),
    decreases v,
{
    match v {
        RenderValue::String(s) => {
            out.append(s.as_str());
        },
        RenderValue::Integer(i) => {
            let d = decimal_text(*i);
            out.append(d.as_str());
        },
        RenderValue::Boolean(b) => {
            proof {
                reveal_strlit("true");
                reveal_strlit("false");
            }
            if *b {
                out.append("true");
            } else {
                out.append("false");
            }
        },
        RenderValue::List(l) => {
            finalize_list(l, out);
        },
        RenderValue::Object(o) => {
            finalize_members(o, out);
        },
        RenderValue::Template(_) => {
            assert(out@ =~= out@ + text_of(v@));
        },
        RenderValue::Empty => {
            assert(out@ =~= out@ + text_of(v@));
        },
    }
}

fn finalize_list(l: &Vec<RenderValue>, out: &mut String)
    ensures
        final(out)@ == old(out)@ + texts(rvs_view(*l)),
    decreases l,
{
    let ghost start = out@;
    let mut i: usize = 0;
    while i < l.len()
        invariant
            i <= l.len(),
            out@ == start + texts(rvs_view(*l).take(i as int)),
        decreases l.len() - i,
    {
        assert(rvs_view(*l).take(i + 1).drop_last() =~= rvs_view(*l).take(i as int));
        finalize_into(&l[i], out);
        i += 1;
        assert(out@ =~= start + texts(rvs_view(*l).take(i as int)));
    }
    assert(rvs_view(*l).take(i as int) =~= rvs_view(*l));
}

fn finalize_members(o: &Vec<(String, RenderValue)>, out: &mut String)
    ensures
        final(out)@ == old(out)@ + member_texts(members_view(*o)),
    decreases o,
{
    let ghost start = out@;
    let mut i: usize = 0;
    while i < o.len()
        invariant
            i <= o.len(),
            out@ == start + member_texts(members_view(*o).take(i as int)),
        decreases o.len() - i,
    {
        assert(members_view(*o).take(i + 1).drop_last() =~= members_view(*o).take(i as int));
        finalize_into(&o[i].1, out);
        i += 1;
        assert(out@ =~= start + member_texts(members_view(*o).take(i as int)));
    }
    assert(members_view(*o).take(i as int) =~= members_view(*o));
}

fn copy_values(v: &Vec<RenderValue>) -> (r: Vec<RenderValue>)
    ensures
        rvs_view(r) == rvs_view(*v),
    decreases v,
{
    let mut r: Vec<RenderValue> = Vec::new();
    let mut i: usize = 0;
    while i < v.len()
        invariant
            i <= v.len(),
            r.len() == i,
            forall|j: int| 0 <= j < i ==> (#[trigger] r[j])@ == v[j]@,
        decreases v.len() - i,
    {
        r.push(v[i].copy());
        i += 1;
    }
    assert(rvs_view(r) =~= rvs_view(*v));
    r
}

fn copy_members(v: &Vec<(String, RenderValue)>) -> (r: Vec<(String, RenderValue)>)
    ensures
        members_view(r) == members_view(*v),
    decreases v,
{
    let mut r: Vec<(String, RenderValue)> = Vec::new();
    let mut i: usize = 0;
    while i < v.len()
        invariant
            i <= v.len(),
            r.len() == i,
            forall|j: int| 0 <= j < i ==> (#[trigger] r[j]).0@ == v[j].0@ && r[j].1@ == v[j].1@,
        decreases v.len() - i,
    {
        r.push((v[i].0.clone(), v[i].1.copy()));
        i += 1;
    }
    assert(members_view(r) =~= members_view(*v));
    r
}

impl From<i64> for RenderValue {
    fn from(x: i64) -> (r: RenderValue) {
        RenderValue::Integer(x)
    }
}

impl vstd::std_specs::convert::FromSpecImpl<i64> for RenderValue {
    open spec fn obeys_from_spec() -> bool {
        true
    }

    open spec fn from_spec(x: i64) -> RenderValue {
        RenderValue::Integer(x)
    }
}

impl From<bool> for RenderValue {
    fn from(x: bool) -> (r: RenderValue) {
        RenderValue::Boolean(x)
    }
}

impl vstd::std_specs::convert::FromSpecImpl<bool> for RenderValue {
    open spec fn obeys_from_spec() -> bool {
        true
    }

    open spec fn from_spec(x: bool) -> RenderValue {
        RenderValue::Boolean(x)
    }
}

impl From<String> for RenderValue {
    fn from(x: String) -> (r: RenderValue) {
        RenderValue::String(x)
    }
}

impl vstd::std_specs::convert::FromSpecImpl<String> for RenderValue {
    open spec fn obeys_from_spec() -> bool {
        true
    }

    open spec fn from_spec(x: String) -> RenderValue {
        RenderValue::String(x)
    }
}

impl From<Vec<RenderValue>> for RenderValue {
    fn from(x: Vec<RenderValue>) -> (r: RenderValue) {
        RenderValue::List(x)
    }
}

impl vstd::std_specs::convert::FromSpecImpl<Vec<RenderValue>> for RenderValue {
    open spec fn obeys_from_spec() -> bool {
        true
    }

    open spec fn from_spec(x: Vec<RenderValue>) -> RenderValue {
        RenderValue::List(x)
    }
}

impl Clone for RenderValue {
    /// A deep copy, as `copy`.
    fn clone(&self) -> (r: RenderValue) {
        self.copy()
    }
}

impl RenderValue {
    /// A deep copy of the value.
    pub fn copy(&self) -> (r: RenderValue)
        ensures
            r@ == self@,
        decreases self,
    {
        match self {
            RenderValue::String(s) => RenderValue::String(s.clone()),
            RenderValue::Integer(i) => RenderValue::Integer(*i),
            RenderValue::Boolean(b) => RenderValue::Boolean(*b),
            RenderValue::List(l) => RenderValue::List(copy_values(l)),
            RenderValue::Object(o) => RenderValue::Object(copy_members(o)),
            RenderValue::Template(t) => RenderValue::Template(t.copy()),
            RenderValue::Empty => RenderValue::Empty,
        }
    }

    /// The text of the value: strings as they are, integers in decimal,
    /// `true`/`false`, lists and objects as the concatenation of their parts.
    pub fn finalize(self) -> (r: String)
        ensures
            r@ == text_of(self@),
    {
        let mut out = String::new();
        finalize_into(&self, &mut out);
        assert(out@ =~= text_of(self@));
        out
    }

    /// Lists and objects become the string of their text; other values stay as they are.
    pub fn join(&self) -> (r: RenderValue)
        ensures
            r@ == match self@ {
                Val::List(_) => Val::Str(text_of(self@)),
                Val::Obj(_) => Val::Str(text_of(self@)),
                v => v,
            },
    {
        match self {
            RenderValue::String(s) => RenderValue::String(s.clone()),
            RenderValue::Integer(i) => RenderValue::Integer(*i),
            RenderValue::Boolean(b) => RenderValue::Boolean(*b),
            RenderValue::Template(t) => RenderValue::Template(t.copy()),
            RenderValue::Empty => RenderValue::Empty,
            _ => {
                let mut out = String::new();
                finalize_into(self, &mut out);
                assert(out@ =~= text_of(self@));
                RenderValue::String(out)
            },
        }
    }

    pub fn as_string(&self) -> (r: Option<&String>)
        ensures
            match self@ {
                Val::Str(s) => r matches Some(x) && x@ == s,
                _ => r is None,
            },
    {
        match self {
            RenderValue::String(s) => Some(s),
            _ => None,
        }
    }

    pub fn as_int(&self) -> (r: Option<i64>)
        ensures
            match self@ {
                Val::Int(i) => r == Some(i),
                _ => r is None,
            },
    {
        match self {
            RenderValue::Integer(i) => Some(*i),
            _ => None,
        }
    }
}

} // verus!
