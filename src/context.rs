use vstd::prelude::*;
use core::cmp::Ordering;
use crate::template::{Expr, Template};
use crate::semantics::cmp_chars;

verus! {

/// The value of a context entry, as the evaluator sees it.
pub enum Data {
    Int(i64),
    Bool(bool),
    Str(Seq<char>),
    List(Seq<Data>),
    Obj(Seq<(Seq<char>, Data)>),
    Tmpl(Expr),
}

/// Caller-supplied data.
#[derive(Debug)]
pub enum ContextValue {
    Integer(i64),
    Boolean(bool),
    String(String),
    List(Vec<ContextValue>),
    Object(RenderContext),
    Template(Template),
}

/// An ordered map from names to values. Its entries are held in key order
/// (`keys_sorted`), which `new` establishes and `insert` keeps; so each key
/// occurs at most once, and iterating an object visits its keys in order.
#[derive(Debug)]
pub struct RenderContext {
    pub entries: Vec<(String, ContextValue)>,
}

pub open spec fn value_view(v: ContextValue) -> Data
    decreases v,
{
    match v {
        ContextValue::Integer(i) => Data::Int(i),
        ContextValue::Boolean(b) => Data::Bool(b),
        ContextValue::String(s) => Data::Str(s@),
        ContextValue::List(l) => Data::List(values_view(l)),
        ContextValue::Object(c) => Data::Obj(entries_view(c.entries)),
        ContextValue::Template(t) => Data::Tmpl(t.expr@),
    }
}

pub open spec fn values_view(v: Vec<ContextValue>) -> Seq<Data>
    decreases v,
{
    Seq::new(v.len() as nat, |i: int| if 0 <= i < v.len() { value_view(v[i]) } else { Data::Int(0) })
}

pub open spec fn entries_view(v: Vec<(String, ContextValue)>) -> Seq<(Seq<char>, Data)>
    decreases v,
{
    Seq::new(
        v.len() as nat,
        |i: int| if 0 <= i < v.len() { (v[i].0@, value_view(v[i].1)) } else { (Seq::empty(), Data::Int(0)) },
    )
}

impl View for ContextValue {
    type V = Data;

    open spec fn view(&self) -> Data {
        value_view(*self)
    }
}

impl View for RenderContext {
    type V = Seq<(Seq<char>, Data)>;

    open spec fn view(&self) -> Seq<(Seq<char>, Data)> {
        entries_view(self.entries)
    }
}

/// A key with one leading `$` removed, if it has one.
pub open spec fn strip_sigil(k: Seq<char>) -> Seq<char> {
    if k.len() > 0 && k[0] == '$' {
        k.drop_first()
    } else {
        k
    }
}

/// Index of the entry with key `k`, or -1 where there is none.
pub open spec fn key_index(s: Seq<(Seq<char>, Data)>, k: Seq<char>) -> int
    decreases s.len(),
{
    if s.len() == 0 {
        -1
    } else if s[0].0 == k {
        0
    } else {
        let j = key_index(s.drop_first(), k);
        if j < 0 {
            -1
        } else {
            j + 1
        }
    }
}

/// The value stored under `k`.
pub open spec fn lookup(s: Seq<(Seq<char>, Data)>, k: Seq<char>) -> Option<Data> {
    let i = key_index(s, k);
    if 0 <= i < s.len() {
        Some(s[i].1)
    } else {
        None
    }
}

/// Position at which `k` belongs: the first entry whose key does not sort
/// before `k`.
pub open spec fn insert_pos(s: Seq<(Seq<char>, Data)>, k: Seq<char>) -> int
    decreases s.len(),
{
    if s.len() == 0 {
        0
    } else if cmp_chars(s[0].0, k) != Ordering::Less {
        0
    } else {
        1 + insert_pos(s.drop_first(), k)
    }
}

/// Keys strictly increasing: the order in which a context holds its entries.
pub open spec fn keys_sorted(s: Seq<(Seq<char>, Data)>) -> bool {
    forall|i: int, j: int|
        0 <= i < j < s.len() ==> cmp_chars(#[trigger] s[i].0, #[trigger] s[j].0) == Ordering::Less
}

/// `s` with `k` bound to `v`: the entry of `k` is replaced in place, or a new
/// entry goes where its key belongs in key order.
pub open spec fn bind(s: Seq<(Seq<char>, Data)>, k: Seq<char>, v: Data) -> Seq<(Seq<char>, Data)> {
    let p = insert_pos(s, k);
    if p < s.len() && s[p].0 == k {
        s.update(p, (k, v))
    } else {
        s.insert(p, (k, v))
    }
}

pub proof fn lemma_cmp_refl(a: Seq<char>)
    ensures
        cmp_chars(a, a) == Ordering::Equal,
    decreases a.len(),
{
    if a.len() > 0 {
        lemma_cmp_refl(a.drop_first());
    }
}

pub proof fn lemma_cmp_equal(a: Seq<char>, b: Seq<char>)
    requires
        cmp_chars(a, b) == Ordering::Equal,
    ensures
        a == b,
    decreases a.len(),
{
    if a.len() > 0 && b.len() > 0 {
        lemma_cmp_equal(a.drop_first(), b.drop_first());
        assert forall|i: int| 0 <= i < a.len() implies a[i] == b[i] by {
            if i > 0 {
                assert(a[i] == a.drop_first()[i - 1]);
                assert(b[i] == b.drop_first()[i - 1]);
            }
        }
        assert(a =~= b);
    }
}

pub proof fn lemma_cmp_flip(a: Seq<char>, b: Seq<char>)
    ensures
        cmp_chars(a, b) == Ordering::Less <==> cmp_chars(b, a) == Ordering::Greater,
        cmp_chars(a, b) == Ordering::Greater <==> cmp_chars(b, a) == Ordering::Less,
    decreases a.len(),
{
    if a.len() > 0 && b.len() > 0 {
        vstd::utf8::char_u32_cast(a[0], a[0] as u32);
        vstd::utf8::char_u32_cast(b[0], b[0] as u32);
        lemma_cmp_flip(a.drop_first(), b.drop_first());
    }
}

pub proof fn lemma_cmp_trans(a: Seq<char>, b: Seq<char>, c: Seq<char>)
    requires
        cmp_chars(a, b) == Ordering::Less,
        cmp_chars(b, c) == Ordering::Less,
    ensures
        cmp_chars(a, c) == Ordering::Less,
    decreases a.len(),
{
    if a.len() > 0 && b.len() > 0 && c.len() > 0 {
        if a[0] == b[0] && b[0] == c[0] {
            lemma_cmp_trans(a.drop_first(), b.drop_first(), c.drop_first());
        }
    }
}

pub proof fn lemma_insert_pos(s: Seq<(Seq<char>, Data)>, k: Seq<char>)
    ensures
        0 <= insert_pos(s, k) <= s.len(),
        forall|j: int| 0 <= j < insert_pos(s, k) ==> cmp_chars(#[trigger] s[j].0, k) == Ordering::Less,
        insert_pos(s, k) < s.len() ==> cmp_chars(s[insert_pos(s, k)].0, k) != Ordering::Less,
    decreases s.len(),
{
    if s.len() > 0 && cmp_chars(s[0].0, k) == Ordering::Less {
        lemma_insert_pos(s.drop_first(), k);
        assert forall|j: int| 1 <= j < insert_pos(s, k) implies cmp_chars(#[trigger] s[j].0, k)
            == Ordering::Less by {
            assert(s[j] == s.drop_first()[j - 1]);
        }
    }
}

/// Binding keeps the keys in order.
pub proof fn lemma_bind_sorted(s: Seq<(Seq<char>, Data)>, k: Seq<char>, v: Data)
    requires
        keys_sorted(s),
    ensures
        keys_sorted(bind(s, k, v)),
{
    let p = insert_pos(s, k);
    let t = bind(s, k, v);
    lemma_insert_pos(s, k);
    if p < s.len() && s[p].0 == k {
        assert forall|i: int, j: int| 0 <= i < j < t.len() implies cmp_chars(
            #[trigger] t[i].0,
            #[trigger] t[j].0,
        ) == Ordering::Less by {
            assert(t[i].0 == s[i].0);
            assert(t[j].0 == s[j].0);
        }
    } else {
        if p < s.len() {
            if cmp_chars(s[p].0, k) == Ordering::Equal {
                lemma_cmp_equal(s[p].0, k);
            }
            lemma_cmp_flip(s[p].0, k);
        }
        assert forall|i: int, j: int| 0 <= i < j < t.len() implies cmp_chars(
            #[trigger] t[i].0,
            #[trigger] t[j].0,
        ) == Ordering::Less by {
            if j < p {
                assert(t[i] == s[i] && t[j] == s[j]);
            } else if j == p {
                assert(t[i] == s[i]);
            } else if i == p {
                assert(t[j] == s[j - 1]);
                if j - 1 > p {
                    lemma_cmp_trans(k, s[p].0, s[j - 1].0);
                }
            } else if i < p {
                assert(t[i] == s[i] && t[j] == s[j - 1]);
                if j - 1 > p || p < s.len() {
                    if j - 1 >= p {
                        if j - 1 > p {
                            lemma_cmp_trans(k, s[p].0, s[j - 1].0);
                        }
                        lemma_cmp_trans(s[i].0, k, s[j - 1].0);
                    }
                }
            } else {
                assert(t[i] == s[i - 1] && t[j] == s[j - 1]);
            }
        }
    }
}

pub proof fn lemma_key_index(s: Seq<(Seq<char>, Data)>, k: Seq<char>)
    ensures
        -1 <= key_index(s, k) < s.len(),
        0 <= key_index(s, k) ==> s[key_index(s, k)].0 == k,
        0 <= key_index(s, k) ==> forall|j: int| 0 <= j < key_index(s, k) ==> s[j].0 != k,
        key_index(s, k) < 0 ==> forall|j: int| 0 <= j < s.len() ==> s[j].0 != k,
    decreases s.len(),
{
    if s.len() > 0 && s[0].0 != k {
        lemma_key_index(s.drop_first(), k);
        assert forall|j: int| 1 <= j < s.len() implies s[j] == s.drop_first()[j - 1] by {}
    }
}

/// Binding a key and then looking it up gives the bound value; other keys keep theirs.
pub proof fn lemma_lookup_bind(s: Seq<(Seq<char>, Data)>, k: Seq<char>, v: Data, q: Seq<char>)
    ensures
        lookup(bind(s, k, v), q) == if q == k {
            Some(v)
        } else {
            lookup(s, q)
        },
{
    let p = insert_pos(s, k);
    let t = bind(s, k, v);
    lemma_insert_pos(s, k);
    lemma_cmp_refl(k);
    lemma_key_index(s, q);
    lemma_key_index(t, q);
    let a = key_index(s, q);
    let b = key_index(t, q);
    assert(forall|j: int| 0 <= j < p ==> #[trigger] s[j].0 != k);
    if p < s.len() && s[p].0 == k {
        assert(forall|j: int| 0 <= j < s.len() ==> #[trigger] t[j].0 == s[j].0);
        if a >= 0 && b >= 0 {
            if a < b {
                assert(t[a].0 == q);
            } else if b < a {
                assert(s[b].0 == q);
            }
        } else if a >= 0 {
            assert(t[a].0 == q);
        } else if b >= 0 {
            assert(s[b].0 == q);
        }
        assert(a == b);
        if q == k {
            assert(b == p);
        }
    } else {
        assert(t[p] == (k, v));
        assert(forall|j: int| 0 <= j < p ==> #[trigger] t[j] == s[j]);
        assert(forall|j: int| p < j < t.len() ==> #[trigger] t[j] == s[j - 1]);
        if q == k {
            if b < p {
                assert(t[b].0 == s[b].0);
            }
            assert(b == p);
        } else {
            // Positions in `t` past `p` are those of `s` moved up by one.
            let a2 = if a >= 0 && a >= p { a + 1 } else { a };
            if a >= 0 {
                assert(t[a2].0 == q);
            }
            if b >= 0 {
                assert(b != p);
                let bs = if b > p { b - 1 } else { b };
                assert(s[bs].0 == q);
                if a >= 0 {
                    if a2 < b {
                        assert(t[a2].0 == q);
                    }
                    if b < a2 {
                        assert(s[bs].0 == q);
                        assert(bs < a);
                    }
                }
                assert(a >= 0);
                assert(a2 == b);
                assert(t[b].1 == s[a].1);
            } else {
                if a >= 0 {
                    assert(t[a2].0 == q);
                }
                assert(a < 0);
            }
        }
    }
}

fn same_key(a: &String, b: &String) -> (r: bool)
    ensures
        r == (a@ == b@),
{
    match compare_text(a.as_str(), b.as_str()) {
        Ordering::Equal => {
            proof {
                lemma_cmp_equal(a@, b@);
            }
            true
        },
        _ => {
            proof {
                lemma_cmp_refl(a@);
            }
            false
        },
    }
}

/// Compares two strings by code point, lexicographically.
pub fn compare_text(a: &str, b: &str) -> (r: Ordering)
    ensures
        r == cmp_chars(a@, b@),
{
    let n = a.unicode_len();
    let m = b.unicode_len();
    let mut i: usize = 0;
    assert(a@.skip(0) =~= a@);
    assert(b@.skip(0) =~= b@);
    while i < n && i < m
        invariant
            i <= n,
            i <= m,
            n == a@.len(),
            m == b@.len(),
            cmp_chars(a@, b@) == cmp_chars(a@.skip(i as int), b@.skip(i as int)),
        decreases n - i,
    {
        let x = a.get_char(i);
        let y = b.get_char(i);
        assert(a@.skip(i as int)[0] == x);
        assert(b@.skip(i as int)[0] == y);
        assert(a@.skip(i as int).drop_first() =~= a@.skip(i + 1));
        assert(b@.skip(i as int).drop_first() =~= b@.skip(i + 1));
        if x != y {
            if (x as u32) < (y as u32) {
                return Ordering::Less;
            }
            return Ordering::Greater;
        }
        i += 1;
    }
    if i < n {
        Ordering::Greater
    } else if i < m {
        Ordering::Less
    } else {
        Ordering::Equal
    }
}


/// Removes one leading `$` from a key.
pub fn strip_key(key: &str) -> (r: String)
    ensures
        r@ == strip_sigil(key@),
{
    let n = key.unicode_len();
    if n > 0 && key.get_char(0) == '$' {
        let rest = key.substring_char(1, n);
        assert(rest@ =~= key@.drop_first());
        rest.to_string()
    } else {
        key.to_string()
    }
}

impl ContextValue {
    /// A deep copy of the value.
    pub fn copy(&self) -> (r: ContextValue)
        ensures
            r@ == self@,
        decreases self,
    {
        match self {
            ContextValue::Integer(i) => ContextValue::Integer(*i),
            ContextValue::Boolean(b) => ContextValue::Boolean(*b),
            ContextValue::String(s) => ContextValue::String(s.clone()),
            ContextValue::List(l) => ContextValue::List(copy_values(l)),
            ContextValue::Object(c) => ContextValue::Object(RenderContext { entries: copy_entries(&c.entries) }),
            ContextValue::Template(t) => ContextValue::Template(t.copy()),
        }
    }
}

pub fn copy_values(v: &Vec<ContextValue>) -> (r: Vec<ContextValue>)
    ensures
        values_view(r) == values_view(*v),
    decreases v,
{
    let mut r: Vec<ContextValue> = Vec::new();
    let mut i: usize = 0;
    while i < v.len()
        invariant
            i <= v.len(),
            r.len() == i,
            forall|j: int| 0 <= j < i ==> value_view(#[trigger] r[j]) == value_view(v[j]),
        decreases v.len() - i,
    {
        r.push(v[i].copy());
        i += 1;
    }
    assert(values_view(r) =~= values_view(*v));
    r
}

pub fn copy_entries(v: &Vec<(String, ContextValue)>) -> (r: Vec<(String, ContextValue)>)
    ensures
        entries_view(r) == entries_view(*v),
    decreases v,
{
    let mut r: Vec<(String, ContextValue)> = Vec::new();
    let mut i: usize = 0;
    while i < v.len()
        invariant
            i <= v.len(),
            r.len() == i,
            forall|j: int|
                0 <= j < i ==> (#[trigger] r[j]).0@ == v[j].0@ && value_view(r[j].1) == value_view(
                    v[j].1,
                ),
        decreases v.len() - i,
    {
        r.push((v[i].0.clone(), v[i].1.copy()));
        i += 1;
    }
    assert(entries_view(r) =~= entries_view(*v));
    r
}

impl RenderContext {
    pub fn new() -> (r: RenderContext)
        ensures
            r@ == Seq::<(Seq<char>, Data)>::empty(),
            keys_sorted(r@),
    {
        let r = RenderContext { entries: Vec::new() };
        assert(r@ =~= Seq::empty());
        r
    }

    pub fn builder() -> (r: RenderContextBuilder)
        ensures
            r.0@ == Seq::<(Seq<char>, Data)>::empty(),
    {
        RenderContextBuilder(RenderContext::new())
    }

    /// A deep copy of the context: later bindings in the copy leave `self` as it is.
    pub fn copy(&self) -> (r: RenderContext)
        ensures
            r@ == self@,
    {
        RenderContext { entries: copy_entries(&self.entries) }
    }

    fn position(&self, key: &String) -> (r: Option<usize>)
        ensures
            key_index(self@, key@) >= 0 ==> r == Some(key_index(self@, key@) as usize),
            key_index(self@, key@) < 0 ==> r is None,
            r matches Some(i) ==> i < self.entries.len(),
            self@.len() == self.entries.len(),
            -1 <= key_index(self@, key@) < self@.len(),
    {
        proof {
            lemma_key_index(self@, key@);
        }
        let mut i: usize = 0;
        while i < self.entries.len()
            invariant
                i <= self.entries.len(),
                self@.len() == self.entries.len(),
                forall|j: int| 0 <= j < i ==> self@[j].0 != key@,
                -1 <= key_index(self@, key@) < self@.len(),
                0 <= key_index(self@, key@) ==> self@[key_index(self@, key@)].0 == key@,
                0 <= key_index(self@, key@) ==> forall|j: int|
                    0 <= j < key_index(self@, key@) ==> self@[j].0 != key@,
                key_index(self@, key@) < 0 ==> forall|j: int| 0 <= j < self@.len() ==> self@[j].0 != key@,
            decreases self.entries.len() - i,
        {
            if self.entries[i].0 == *key {
                assert(self@[i as int].0 == key@);
                return Some(i);
            }
            assert(self@[i as int].0 != key@);
            i += 1;
        }
        None
    }

    /// Binds a value under a key, with one leading `$` removed from the key.
    pub fn insert(&mut self, key: &str, value: ContextValue)
        ensures
            final(self)@ == bind(old(self)@, strip_sigil(key@), value@),
            keys_sorted(old(self)@) ==> keys_sorted(final(self)@),
    {
        let k = strip_key(key);
        let ghost v = value@;
        let ghost s = self@;
        proof {
            lemma_insert_pos(s, k@);
            if keys_sorted(s) {
                lemma_bind_sorted(s, k@, v);
            }
        }
        let mut i: usize = 0;
        loop
            invariant
                i <= self.entries.len(),
                s == self@,
                s.len() == self.entries.len(),
                forall|j: int| 0 <= j < i ==> cmp_chars(#[trigger] s[j].0, k@) == Ordering::Less,
                0 <= insert_pos(s, k@) <= s.len(),
                forall|j: int| 0 <= j < insert_pos(s, k@) ==> cmp_chars(#[trigger] s[j].0, k@) == Ordering::Less,
                insert_pos(s, k@) < s.len() ==> cmp_chars(s[insert_pos(s, k@)].0, k@) != Ordering::Less,
            ensures
                i <= self.entries.len(),
                s == self@,
                forall|j: int| 0 <= j < i ==> cmp_chars(#[trigger] s[j].0, k@) == Ordering::Less,
                i == self.entries.len() || cmp_chars(s[i as int].0, k@) != Ordering::Less,
            decreases self.entries.len() - i,
        {
            if i >= self.entries.len() {
                break;
            }
            let o = compare_text(self.entries[i].0.as_str(), k.as_str());
            assert(s[i as int].0 == self.entries[i as int].0@);
            match o {
                Ordering::Less => {},
                _ => {
                    break;
                },
            }
            i += 1;
        }
        assert(i == insert_pos(s, k@)) by {
            let p = insert_pos(s, k@);
            if p < i {
                assert(cmp_chars(s[p].0, k@) == Ordering::Less);
            }
            if p > i {
                assert(cmp_chars(s[i as int].0, k@) == Ordering::Less);
            }
        }
        if i < self.entries.len() && same_key(&self.entries[i].0, &k) {
            assert(s[i as int].0 == k@);
            self.entries[i] = (k, value);
            assert forall|j: int| 0 <= j < self@.len() implies #[trigger] self@[j] == bind(
                s,
                strip_sigil(key@),
                v,
            )[j] by {
                if j != i {
                    assert(self.entries[j] == old(self).entries[j]);
                }
            }
            assert(self@ =~= bind(s, strip_sigil(key@), v));
        } else {
            proof {
                if i < s.len() {
                    assert(s[i as int].0 != k@);
                }
            }
            let ghost kk = k@;
            self.entries.insert(i, (k, value));
            assert forall|j: int| 0 <= j < self@.len() implies #[trigger] self@[j] == bind(
                s,
                strip_sigil(key@),
                v,
            )[j] by {
                if j < i {
                    assert(self.entries[j] == old(self).entries[j]);
                } else if j > i {
                    assert(self.entries[j] == old(self).entries[j - 1]);
                }
            }
            assert(self@ =~= bind(s, strip_sigil(key@), v));
        }
    }

    /// The value under a key, with one leading `$` removed from the key.
    pub fn get(&self, key: &str) -> (r: Option<&ContextValue>)
        ensures
            match lookup(self@, strip_sigil(key@)) {
                None => r is None,
                Some(d) => r matches Some(v) && v@ == d,
            },
    {
        let k = strip_key(key);
        match self.position(&k) {
            Some(i) => {
                assert(self@[i as int].1 == self.entries[i as int].1@);
                Some(&self.entries[i].1)
            },
            None => None,
        }
    }
}

/// Builds a context one entry at a time.
pub struct RenderContextBuilder(pub RenderContext);

impl RenderContextBuilder {
    pub fn insert(self, key: &str, value: ContextValue) -> (r: RenderContextBuilder)
        ensures
            r.0@ == bind(self.0@, strip_sigil(key@), value@),
            keys_sorted(self.0@) ==> keys_sorted(r.0@),
    {
        let mut c = self.0;
        c.insert(key, value);
        RenderContextBuilder(c)
    }

    pub fn build(self) -> (r: RenderContext)
        ensures
            r@ == self.0@,
    {
        self.0
    }
}


impl Clone for RenderContext {
    /// A deep copy, as `copy`.
    fn clone(&self) -> (r: RenderContext) {
        self.copy()
    }
}

impl Clone for ContextValue {
    /// A deep copy, as `copy`.
    fn clone(&self) -> (r: ContextValue) {
        self.copy()
    }
}

impl From<i64> for ContextValue {
    fn from(x: i64) -> (r: ContextValue) {
        ContextValue::Integer(x)
    }
}

impl vstd::std_specs::convert::FromSpecImpl<i64> for ContextValue {
    open spec fn obeys_from_spec() -> bool {
        true
    }

    open spec fn from_spec(x: i64) -> ContextValue {
        ContextValue::Integer(x)
    }
}

impl From<bool> for ContextValue {
    fn from(x: bool) -> (r: ContextValue) {
        ContextValue::Boolean(x)
    }
}

impl vstd::std_specs::convert::FromSpecImpl<bool> for ContextValue {
    open spec fn obeys_from_spec() -> bool {
        true
    }

    open spec fn from_spec(x: bool) -> ContextValue {
        ContextValue::Boolean(x)
    }
}

impl From<String> for ContextValue {
    fn from(x: String) -> (r: ContextValue) {
        ContextValue::String(x)
    }
}

impl vstd::std_specs::convert::FromSpecImpl<String> for ContextValue {
    open spec fn obeys_from_spec() -> bool {
        true
    }

    open spec fn from_spec(x: String) -> ContextValue {
        ContextValue::String(x)
    }
}

impl From<Vec<ContextValue>> for ContextValue {
    fn from(x: Vec<ContextValue>) -> (r: ContextValue) {
        ContextValue::List(x)
    }
}

impl vstd::std_specs::convert::FromSpecImpl<Vec<ContextValue>> for ContextValue {
    open spec fn obeys_from_spec() -> bool {
        true
    }

    open spec fn from_spec(x: Vec<ContextValue>) -> ContextValue {
        ContextValue::List(x)
    }
}

impl From<RenderContext> for ContextValue {
    fn from(x: RenderContext) -> (r: ContextValue) {
        ContextValue::Object(x)
    }
}

impl vstd::std_specs::convert::FromSpecImpl<RenderContext> for ContextValue {
    open spec fn obeys_from_spec() -> bool {
        true
    }

    open spec fn from_spec(x: RenderContext) -> ContextValue {
        ContextValue::Object(x)
    }
}

impl From<Template> for ContextValue {
    fn from(x: Template) -> (r: ContextValue) {
        ContextValue::Template(x)
    }
}

impl vstd::std_specs::convert::FromSpecImpl<Template> for ContextValue {
    open spec fn obeys_from_spec() -> bool {
        true
    }

    open spec fn from_spec(x: Template) -> ContextValue {
        ContextValue::Template(x)
    }
}

impl Default for RenderContext {
    fn default() -> (r: RenderContext)
        ensures
            r@ == Seq::<(Seq<char>, Data)>::empty(),
    {
        RenderContext::new()
    }
}

} // verus!
