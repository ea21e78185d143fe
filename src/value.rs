//! Values that graph attributes and variables hold, and references to nodes.
use vstd::prelude::*;
use crate::attributes::{lemma_name_lt_total, lemma_name_lt_transitive, name_lt, str_lt};

verus! {

/// A reference to a graph node: a position in the graph's node arena.
#[derive(Clone, Copy, Debug, PartialEq, Eq, Hash, PartialOrd, Ord, Structural)]
pub struct GraphNodeRef(pub u32);

impl GraphNodeRef {
    /// Returns the index of the graph node that this reference refers to.
    pub fn index(self) -> (r: usize)
        ensures
            r == self.0,
    {
        self.0 as usize
    }
}

/// A reference to a syntax node that a graph has seen: its numeric identity, its kind, and
/// the zero-based row and column where it starts.
#[derive(Clone, Debug, PartialEq, Eq, Hash, PartialOrd, Ord)]
pub struct SyntaxNodeRef {
    pub index: u32,
    pub kind: String,
    pub row: usize,
    pub column: usize,
}

impl SyntaxNodeRef {
    /// The numeric identity of the syntax node.
    pub fn index(&self) -> (r: u32)
        ensures
            r == self.index,
    {
        self.index
    }

    /// The kind label of the syntax node.
    pub fn kind(&self) -> (r: &str)
        ensures
            r@ == self.kind@,
    {
        self.kind.as_str()
    }

    /// The zero-based row where the syntax node starts.
    pub fn row(&self) -> (r: usize)
        ensures
            r == self.row,
    {
        self.row
    }

    /// The zero-based column where the syntax node starts.
    pub fn column(&self) -> (r: usize)
        ensures
            r == self.column,
    {
        self.column
    }

    /// A copy of this reference, equal in every field.
    pub fn duplicate(&self) -> (r: SyntaxNodeRef)
        ensures
            r.index == self.index,
            r.kind@ == self.kind@,
            r.row == self.row,
            r.column == self.column,
    {
        SyntaxNodeRef {
            index: self.index,
            kind: self.kind.clone(),
            row: self.row,
            column: self.column,
        }
    }
}

/// The value of an attribute or a variable.
#[derive(Debug, PartialEq, Eq, Hash, PartialOrd, Ord)]
pub enum Value {
    Null,
    Boolean(bool),
    Integer(u32),
    String(String),
    List(Vec<Value>),
    ValueSet(Vec<Value>),
    SyntaxNode(SyntaxNodeRef),
    GraphNode(GraphNodeRef),
}

/// An error raised while executing graph statements and expressions.
#[derive(Debug)]
pub enum ExecutionError {
    ExpectedBoolean(String),
    ExpectedInteger(String),
    ExpectedString(String),
    ExpectedList(String),
    ExpectedGraphNode(String),
    ExpectedSyntaxNode(String),
    UndefinedVariable(String),
    DuplicateVariable(String),
    CannotAssignImmutableVariable(String),
    UndefinedGraphNode(String),
    DuplicateAttribute(String),
    UnknownFunction(String),
    FunctionFailed(String, String),
    InvalidPattern(String),
}

/// The decimal digits of `n`, most significant first.
pub open spec fn decimal(n: nat) -> Seq<char>
    decreases n,
{
    if n < 10 {
        seq![(n + 48) as char]
    } else {
        decimal(n / 10) + seq![((n % 10) + 48) as char]
    }
}

/// What `{:?}` writes for a string: the string quoted, with its special characters escaped.
pub uninterp spec fn debug_quoted(s: Seq<char>) -> Seq<char>;

/// The display text of a value: `#null`, `#true`, `#false`, decimal integers, quoted strings,
/// `[a, b]` for lists, `{a, b}` for sets, and bracketed descriptions of node references.
pub open spec fn display_of(v: Value) -> Seq<char>
    decreases v, 0nat,
{
    match v {
        Value::Null => "#null"@,
        Value::Boolean(b) => if b {
            "#true"@
        } else {
            "#false"@
        },
        Value::Integer(n) => decimal(n as nat),
        Value::String(s) => debug_quoted(s@),
        Value::List(items) => "["@ + joined(items, items@.len()) + "]"@,
        Value::ValueSet(items) => "{"@ + joined(items, items@.len()) + "}"@,
        Value::SyntaxNode(n) => "[syntax node "@ + n.kind@ + " ("@ + decimal((n.row + 1) as nat) + ", "@
            + decimal((n.column + 1) as nat) + ")]"@,
        Value::GraphNode(g) => "[graph node "@ + decimal(g.0 as nat) + "]"@,
    }
}

/// The display texts of the first `n` items, separated by `, `.
pub open spec fn joined(items: Vec<Value>, n: nat) -> Seq<char>
    decreases items, n,
{
    if n == 0 || n > items@.len() {
        Seq::empty()
    } else if n == 1 {
        display_of(items@[0])
    } else {
        joined(items, (n - 1) as nat) + ", "@ + display_of(items@[n - 1])
    }
}

/// The text that `print` writes for a value: a string as it is, anything else as displayed.
pub open spec fn print_text(v: Value) -> Seq<char> {
    match v {
        Value::String(s) => s@,
        _ => display_of(v),
    }
}

/// The print texts of the first `n` values, one after the other.
pub open spec fn joined_plain(vs: Seq<Value>, n: nat) -> Seq<char>
    decreases n,
{
    if n == 0 || n > vs.len() {
        Seq::empty()
    } else {
        joined_plain(vs, (n - 1) as nat) + print_text(vs[n - 1])
    }
}

/// The text that a coercion error reports for a value it did not expect.
pub open spec fn got_text(v: Value) -> Seq<char> {
    "got "@ + display_of(v)
}

/// Relies on `u128`'s `Display`: the decimal digits of the number.
#[verifier::external_body]
pub(crate) fn decimal_text(n: u128) -> (r: String)
    ensures
        r@ == decimal(n as nat),
{
    n.to_string()
}

/// Relies on `str`'s `Debug`: the string quoted and escaped.
#[verifier::external_body]
fn quoted_text(s: &str) -> (r: String)
    ensures
        r@ == debug_quoted(s@),
{
    format!("{:?}", s)
}

impl Value {
    /// The display text of this value.
    pub fn display(&self) -> (r: String)
        ensures
            r@ == display_of(*self),
        decreases self,
    {
        match self {
            Value::Null => {
                proof { reveal_strlit("#null"); }
                let r = String::from_str("#null");
                r
            },
            Value::Boolean(b) => {
                if *b {
                    String::from_str("#true")
                } else {
                    String::from_str("#false")
                }
            },
            Value::Integer(n) => decimal_text(*n as u128),
            Value::String(s) => quoted_text(s.as_str()),
            Value::List(items) => {
                let mut r = String::from_str("[");
                let body = display_items(items);
                r.append(body.as_str());
                r.append("]");
                r
            },
            Value::ValueSet(items) => {
                let mut r = String::from_str("{");
                let body = display_items(items);
                r.append(body.as_str());
                r.append("}");
                r
            },
            Value::SyntaxNode(n) => {
                let mut r = String::from_str("[syntax node ");
                r.append(n.kind.as_str());
                r.append(" (");
                let row = decimal_text(n.row as u128 + 1);
                r.append(row.as_str());
                r.append(", ");
                let column = decimal_text(n.column as u128 + 1);
                r.append(column.as_str());
                r.append(")]");
                r
            },
            Value::GraphNode(g) => {
                let mut r = String::from_str("[graph node ");
                let t = decimal_text(g.0 as u128);
                r.append(t.as_str());
                r.append("]");
                r
            },
        }
    }
}

/// The display texts of the items, separated by `, `.
fn display_items(items: &Vec<Value>) -> (r: String)
    ensures
        r@ == joined(*items, items@.len()),
    decreases items, 0nat,
{
    let mut r = String::new();
    let mut i: usize = 0;
    while i < items.len()
        invariant
            i <= items@.len(),
            r@ == joined(*items, i as nat),
        decreases items@.len() - i,
    {
        if i > 0 {
            r.append(", ");
        }
        let t = items[i].display();
        r.append(t.as_str());
        i = i + 1;
    }
    r
}

/// The text of a coercion error for an unexpected value.
pub fn got(v: &Value) -> (r: String)
    ensures
        r@ == got_text(*v),
{
    let mut r = String::from_str("got ");
    let t = v.display();
    r.append(t.as_str());
    r
}

impl Value {
    /// Whether this value is null.
    pub fn is_null(&self) -> (r: bool)
        ensures
            r == (*self is Null),
    {
        match self {
            Value::Null => true,
            _ => false,
        }
    }

    /// Coerces this value into a boolean, or reports what it is instead.
    pub fn into_boolean(self) -> (r: Result<bool, ExecutionError>)
        ensures
            self is Boolean ==> r == Ok::<bool, ExecutionError>(self->Boolean_0),
            !(self is Boolean) ==> (r matches Err(ExecutionError::ExpectedBoolean(m)) && m@ == got_text(self)),
    {
        match self {
            Value::Boolean(value) => Ok(value),
            _ => Err(ExecutionError::ExpectedBoolean(got(&self))),
        }
    }

    /// Coerces this value into a boolean, or reports what it is instead.
    pub fn as_boolean(&self) -> (r: Result<bool, ExecutionError>)
        ensures
            *self is Boolean ==> r == Ok::<bool, ExecutionError>(self->Boolean_0),
            !(*self is Boolean) ==> (r matches Err(ExecutionError::ExpectedBoolean(m)) && m@ == got_text(*self)),
    {
        match self {
            Value::Boolean(value) => Ok(*value),
            _ => Err(ExecutionError::ExpectedBoolean(got(&self))),
        }
    }

    /// Coerces this value into an integer, or reports what it is instead.
    pub fn into_integer(self) -> (r: Result<u32, ExecutionError>)
        ensures
            self is Integer ==> r == Ok::<u32, ExecutionError>(self->Integer_0),
            !(self is Integer) ==> (r matches Err(ExecutionError::ExpectedInteger(m)) && m@ == got_text(self)),
    {
        match self {
            Value::Integer(value) => Ok(value),
            _ => Err(ExecutionError::ExpectedInteger(got(&self))),
        }
    }

    /// Coerces this value into an integer, or reports what it is instead.
    pub fn as_integer(&self) -> (r: Result<u32, ExecutionError>)
        ensures
            *self is Integer ==> r == Ok::<u32, ExecutionError>(self->Integer_0),
            !(*self is Integer) ==> (r matches Err(ExecutionError::ExpectedInteger(m)) && m@ == got_text(*self)),
    {
        match self {
            Value::Integer(value) => Ok(*value),
            _ => Err(ExecutionError::ExpectedInteger(got(&self))),
        }
    }

    /// Coerces this value into a graph node reference, or reports what it is instead.
    pub fn into_graph_node_ref(self) -> (r: Result<GraphNodeRef, ExecutionError>)
        ensures
            self is GraphNode ==> r == Ok::<GraphNodeRef, ExecutionError>(self->GraphNode_0),
            !(self is GraphNode) ==> (r matches Err(ExecutionError::ExpectedGraphNode(m)) && m@ == got_text(self)),
    {
        match self {
            Value::GraphNode(value) => Ok(value),
            _ => Err(ExecutionError::ExpectedGraphNode(got(&self))),
        }
    }

    /// Coerces this value into a graph node reference, or reports what it is instead.
    pub fn as_graph_node_ref(&self) -> (r: Result<GraphNodeRef, ExecutionError>)
        ensures
            *self is GraphNode ==> r == Ok::<GraphNodeRef, ExecutionError>(self->GraphNode_0),
            !(*self is GraphNode) ==> (r matches Err(ExecutionError::ExpectedGraphNode(m)) && m@ == got_text(*self)),
    {
        match self {
            Value::GraphNode(value) => Ok(*value),
            _ => Err(ExecutionError::ExpectedGraphNode(got(&self))),
        }
    }

    /// Coerces this value into a string, or reports what it is instead.
    pub fn into_string(self) -> (r: Result<String, ExecutionError>)
        ensures
            self is String ==> (r matches Ok(s) && s == self->String_0),
            !(self is String) ==> (r matches Err(ExecutionError::ExpectedString(m)) && m@ == got_text(self)),
    {
        match self {
            Value::String(value) => Ok(value),
            _ => Err(ExecutionError::ExpectedString(got(&self))),
        }
    }

    /// Borrows this value as a string, or reports what it is instead.
    pub fn as_str(&self) -> (r: Result<&str, ExecutionError>)
        ensures
            *self is String ==> (r matches Ok(s) && s@ == self->String_0@),
            !(*self is String) ==> (r matches Err(ExecutionError::ExpectedString(m)) && m@ == got_text(*self)),
    {
        match self {
            Value::String(value) => Ok(value.as_str()),
            _ => Err(ExecutionError::ExpectedString(got(self))),
        }
    }

    /// Coerces this value into a list, or reports what it is instead.
    pub fn into_list(self) -> (r: Result<Vec<Value>, ExecutionError>)
        ensures
            self is List ==> (r matches Ok(items) && items == self->List_0),
            !(self is List) ==> (r matches Err(ExecutionError::ExpectedList(m)) && m@ == got_text(self)),
    {
        match self {
            Value::List(values) => Ok(values),
            _ => Err(ExecutionError::ExpectedList(got(&self))),
        }
    }

    /// Borrows this value as a list, or reports what it is instead.
    pub fn as_list(&self) -> (r: Result<&Vec<Value>, ExecutionError>)
        ensures
            *self is List ==> (r matches Ok(items) && *items == self->List_0),
            !(*self is List) ==> (r matches Err(ExecutionError::ExpectedList(m)) && m@ == got_text(*self)),
    {
        match self {
            Value::List(values) => Ok(values),
            _ => Err(ExecutionError::ExpectedList(got(self))),
        }
    }

    /// Coerces this value into a syntax node reference, or reports what it is instead.
    pub fn into_syntax_node_ref(self) -> (r: Result<SyntaxNodeRef, ExecutionError>)
        ensures
            self is SyntaxNode ==> (r matches Ok(n) && n == self->SyntaxNode_0),
            !(self is SyntaxNode) ==> (r matches Err(ExecutionError::ExpectedSyntaxNode(m)) && m@ == got_text(self)),
    {
        match self {
            Value::SyntaxNode(node) => Ok(node),
            _ => Err(ExecutionError::ExpectedSyntaxNode(got(&self))),
        }
    }

    /// Copies out the syntax node reference that this value holds, or reports what it is instead.
    pub fn as_syntax_node_ref(&self) -> (r: Result<SyntaxNodeRef, ExecutionError>)
        ensures
            *self is SyntaxNode ==> (r matches Ok(n) && n.index == self->SyntaxNode_0.index
                && n.kind@ == self->SyntaxNode_0.kind@ && n.row == self->SyntaxNode_0.row
                && n.column == self->SyntaxNode_0.column),
            !(*self is SyntaxNode) ==> (r matches Err(ExecutionError::ExpectedSyntaxNode(m)) && m@ == got_text(*self)),
    {
        match self {
            Value::SyntaxNode(node) => Ok(node.duplicate()),
            _ => Err(ExecutionError::ExpectedSyntaxNode(got(self))),
        }
    }
}

/// Whether two values are equal: of the same variant, with equal contents; strings by their
/// characters, lists and sets item by item in order.
pub open spec fn same_value(a: Value, b: Value) -> bool
    decreases a, 0nat,
{
    match a {
        Value::Null => b is Null,
        Value::Boolean(x) => b is Boolean && b->Boolean_0 == x,
        Value::Integer(x) => b is Integer && b->Integer_0 == x,
        Value::String(x) => b is String && b->String_0@ == x@,
        Value::List(x) => b is List && x@.len() == b->List_0@.len() && same_items(x, b->List_0, x@.len()),
        Value::ValueSet(x) => b is ValueSet && x@.len() == b->ValueSet_0@.len() && same_items(x, b->ValueSet_0, x@.len()),
        Value::SyntaxNode(x) => b is SyntaxNode && x.index == b->SyntaxNode_0.index && x.kind@ == b->SyntaxNode_0.kind@
            && x.row == b->SyntaxNode_0.row && x.column == b->SyntaxNode_0.column,
        Value::GraphNode(x) => b is GraphNode && b->GraphNode_0 == x,
    }
}

/// Whether the first `n` items of `x` and `y` are pairwise equal values.
pub open spec fn same_items(x: Vec<Value>, y: Vec<Value>, n: nat) -> bool
    decreases x, n,
{
    if n == 0 || n > x@.len() || n > y@.len() {
        n == 0
    } else {
        same_items(x, y, (n - 1) as nat) && same_value(x@[n - 1], y@[n - 1])
    }
}

/// Whether `a` and `b` are equal values.
pub fn values_equal(a: &Value, b: &Value) -> (r: bool)
    ensures
        r == same_value(*a, *b),
    decreases a,
{
    match (a, b) {
        (Value::Null, Value::Null) => true,
        (Value::Boolean(x), Value::Boolean(y)) => *x == *y,
        (Value::Integer(x), Value::Integer(y)) => *x == *y,
        (Value::String(x), Value::String(y)) => crate::attributes::str_eq(x.as_str(), y.as_str()),
        (Value::List(x), Value::List(y)) => x.len() == y.len() && items_equal(x, y),
        (Value::ValueSet(x), Value::ValueSet(y)) => x.len() == y.len() && items_equal(x, y),
        (Value::SyntaxNode(x), Value::SyntaxNode(y)) => x.index == y.index && crate::attributes::str_eq(
            x.kind.as_str(), y.kind.as_str()) && x.row == y.row && x.column == y.column,
        (Value::GraphNode(x), Value::GraphNode(y)) => x.0 == y.0,
        _ => false,
    }
}

/// Whether the equally long `x` and `y` hold equal values, position by position.
fn items_equal(x: &Vec<Value>, y: &Vec<Value>) -> (r: bool)
    requires
        x@.len() == y@.len(),
    ensures
        r == same_items(*x, *y, x@.len()),
    decreases x, 0nat,
{
    let mut i: usize = 0;
    while i < x.len()
        invariant
            x@.len() == y@.len(),
            i <= x@.len(),
            same_items(*x, *y, i as nat),
        decreases x@.len() - i,
    {
        if !values_equal(&x[i], &y[i]) {
            proof {
                if same_items(*x, *y, x@.len()) {
                    lemma_same_items_prefix(*x, *y, i as nat + 1, x@.len());
                }
            }
            return false;
        }
        i = i + 1;
    }
    true
}

/// Items equal up to `m` are equal up to every `n` below it.
proof fn lemma_same_items_prefix(x: Vec<Value>, y: Vec<Value>, n: nat, m: nat)
    requires
        n <= m,
        same_items(x, y, m),
    ensures
        same_items(x, y, n),
    decreases m - n,
{
    if n < m {
        lemma_same_items_prefix(x, y, n, (m - 1) as nat);
    }
}

/// Whether `out` holds the items of `input`: every item of `input` equals some item of `out`,
/// and every item of `out` is an item of `input`.
pub open spec fn set_items(input: Seq<Value>, out: Seq<Value>) -> bool {
    covers(input, out) && drawn_from(input, out)
}

/// Whether no two items of `s` are equal values.
pub open spec fn distinct_values(s: Seq<Value>) -> bool {
    forall|i: int, j: int| 0 <= i < j < s.len() ==> !same_value(#[trigger] s[i], #[trigger] s[j])
}

/// Whether each item of `s` comes strictly before the next in the order of values.
pub open spec fn ascending(s: Seq<Value>) -> bool {
    forall|i: int| 0 <= i < s.len() - 1 ==> value_lt(#[trigger] s[i], s[i + 1])
}

/// The value of a set literal: its items in the order of values, each equal item kept once.
pub fn set_of(items: Vec<Value>) -> (r: Value)
    ensures
        r is ValueSet,
        distinct_values(r->ValueSet_0@),
        forall|i: int, j: int| 0 <= i < j < r->ValueSet_0@.len() ==> value_lt(
            #[trigger] r->ValueSet_0@[i], #[trigger] r->ValueSet_0@[j]),
        set_items(items@, r->ValueSet_0@),
{
    let ghost input = items@;
    let n = items.len();
    let mut pending = items;
    let mut rest: Vec<Value> = Vec::new();
    while pending.len() > 0
        invariant
            pending@ == input.subrange(0, pending@.len() as int),
            rest@.len() + pending@.len() == input.len(),
            forall|k: int| 0 <= k < rest@.len() ==> rest@[k] == input[input.len() - 1 - k],
        decreases pending@.len(),
    {
        let x = pending.pop().unwrap();
        rest.push(x);
        proof {
            assert(pending@ =~= input.subrange(0, pending@.len() as int));
        }
    }
    let ghost rev = rest@;
    let mut out: Vec<Value> = Vec::new();
    let mut done: usize = 0;
    assert(input.subrange(0, 0) =~= Seq::<Value>::empty());
    while rest.len() > 0
        invariant
            rev.len() == input.len(),
            n == input.len(),
            forall|k: int| 0 <= k < rev.len() ==> rev[k] == input[input.len() - 1 - k],
            done + rest@.len() == input.len(),
            rest@ == rev.subrange(0, rest@.len() as int),
            distinct_values(out@),
            ascending(out@),
            set_items(input.subrange(0, done as int), out@),
        decreases rest@.len(),
    {
        let ghost pre = input.subrange(0, done as int);
        let x = rest.pop().unwrap();
        proof {
            assert(x == input[done as int]);
            assert(input.subrange(0, done + 1) =~= pre.push(x));
        }
        insert_value(&mut out, x, Ghost(pre));
        proof {
            assert(rest@ =~= rev.subrange(0, rest@.len() as int));
        }
        done = done + 1;
    }
    assert(input.subrange(0, done as int) =~= input);
    proof {
        lemma_ascending_increasing(out@);
    }
    Value::ValueSet(out)
}

/// Adds `x` to the distinct, ascending values `out` that hold the items `pre`, unless an equal
/// value is there already.
fn insert_value(out: &mut Vec<Value>, x: Value, Ghost(pre): Ghost<Seq<Value>>)
    requires
        distinct_values(old(out)@),
        ascending(old(out)@),
        set_items(pre, old(out)@),
    ensures
        distinct_values(final(out)@),
        ascending(final(out)@),
        set_items(pre.push(x), final(out)@),
{
    let ghost o = out@;
    let mut k: usize = 0;
    let mut found = false;
    while k < out.len() && !found
        invariant
            out@ == o,
            k <= o.len(),
            !found ==> forall|j: int| 0 <= j < k ==> !same_value(#[trigger] o[j], x),
            found ==> k >= 1 && same_value(o[k as int - 1], x),
        decreases o.len() - k,
    {
        if values_equal(&out[k], &x) {
            found = true;
        }
        k = k + 1;
    }
    if found {
        proof {
            lemma_extend_covers(pre, o, o, x, k as int - 1);
            lemma_extend_drawn(pre, o, o, x);
        }
        return;
    }
    let mut p: usize = 0;
    while p < out.len() && compare_values(&out[p], &x) < 0
        invariant
            out@ == o,
            p <= o.len(),
            forall|j: int| 0 <= j < p ==> value_lt(#[trigger] o[j], x),
        decreases o.len() - p,
    {
        p = p + 1;
    }
    let ghost xv = x;
    out.insert(p, x);
    proof {
        assert(out@ == o.insert(p as int, xv));
        assert forall|j: int| 0 <= j < o.len() implies !same_value(xv, #[trigger] o[j]) && !same_value(o[j], xv) by {
            lemma_cmp_value(o[j], xv);
            lemma_cmp_value(xv, o[j]);
        }
        if p < o.len() {
            lemma_cmp_value(o[p as int], xv);
        }
        lemma_insert_keeps_order(o, xv, p as int);
        lemma_insert_keeps_items(pre, o, xv, p as int);
    }
}

proof fn lemma_insert_keeps_order(o: Seq<Value>, x: Value, p: int)
    requires
        0 <= p <= o.len(),
        ascending(o),
        distinct_values(o),
        forall|j: int| 0 <= j < p ==> value_lt(#[trigger] o[j], x),
        p < o.len() ==> value_lt(x, o[p]),
        forall|j: int| 0 <= j < o.len() ==> !same_value(x, #[trigger] o[j]) && !same_value(o[j], x),
    ensures
        ascending(o.insert(p, x)),
        distinct_values(o.insert(p, x)),
{
    let f = o.insert(p, x);
    assert forall|i: int| 0 <= i < f.len() - 1 implies value_lt(#[trigger] f[i], f[i + 1]) by {
        if i + 1 < p {
            assert(f[i] == o[i] && f[i + 1] == o[i + 1]);
        } else if i + 1 == p {
            assert(f[i] == o[i] && f[i + 1] == x);
        } else if i == p {
            assert(f[i + 1] == o[i]);
        } else {
            assert(f[i] == o[i - 1] && f[i + 1] == o[i]);
        }
    }
    assert forall|i: int, j: int| 0 <= i < j < f.len() implies !same_value(#[trigger] f[i], #[trigger] f[j]) by {
        if j < p {
            assert(f[i] == o[i] && f[j] == o[j]);
        } else if j == p {
            assert(f[i] == o[i]);
        } else if i < p {
            assert(f[i] == o[i] && f[j] == o[j - 1]);
        } else if i == p {
            assert(f[j] == o[j - 1]);
        } else {
            assert(f[i] == o[i - 1] && f[j] == o[j - 1]);
        }
    }
}

proof fn lemma_insert_keeps_items(pre: Seq<Value>, o: Seq<Value>, x: Value, p: int)
    requires
        0 <= p <= o.len(),
        set_items(pre, o),
    ensures
        set_items(pre.push(x), o.insert(p, x)),
{
    let f = o.insert(p, x);
    let post = pre.push(x);
    lemma_same_value_reflexive(x);
    assert forall|i: int| 0 <= i < post.len() implies has_equal(f, #[trigger] post[i]) by {
        if i < pre.len() {
            assert(post[i] == pre[i]);
            assert(has_equal(o, pre[i]));
            let j = choose|j: int| 0 <= j < o.len() && same_value(o[j], pre[i]);
            if j < p {
                assert(f[j] == o[j]);
                assert(same_value(f[j], post[i]));
            } else {
                assert(f[j + 1] == o[j]);
                assert(same_value(f[j + 1], post[i]));
            }
        } else {
            assert(f[p] == post[i]);
            assert(same_value(f[p], post[i]));
        }
    }
    assert forall|j: int| 0 <= j < f.len() implies post.contains(#[trigger] f[j]) by {
        if j == p {
            assert(f[j] == post[pre.len() as int]);
        } else {
            let jj = if j < p { j } else { j - 1 };
            assert(f[j] == o[jj]);
            assert(pre.contains(o[jj]));
            let i = choose|i: int| 0 <= i < pre.len() && pre[i] == o[jj];
            assert(post[i] == pre[i]);
        }
    }
    assert(drawn_from(post, f));
    assert(covers(post, f));
}

/// Whether every item of `input` equals some item of `out`.
pub open spec fn covers(input: Seq<Value>, out: Seq<Value>) -> bool {
    forall|i: int| 0 <= i < input.len() ==> has_equal(out, #[trigger] input[i])
}

/// Whether some item of `s` equals `v`.
pub open spec fn has_equal(s: Seq<Value>, v: Value) -> bool {
    exists|j: int| 0 <= j < s.len() && same_value(s[j], v)
}

/// Whether every item of `out` is an item of `input`.
pub open spec fn drawn_from(input: Seq<Value>, out: Seq<Value>) -> bool {
    forall|j: int| 0 <= j < out.len() ==> input.contains(#[trigger] out[j])
}

/// Adding `x` to the input of a set keeps `out` its set when `out` extends `old_out` by `x` at
/// most, and holds a value equal to `x`.
proof fn lemma_extend_set_items(pre: Seq<Value>, old_out: Seq<Value>, out: Seq<Value>, x: Value, w: int)
    requires
        set_items(pre, old_out),
        old_out.len() <= out.len() <= old_out.len() + 1,
        forall|j: int| 0 <= j < old_out.len() ==> out[j] == old_out[j],
        out.len() > old_out.len() ==> out[old_out.len() as int] == x,
        0 <= w < out.len(),
        same_value(out[w], x),
    ensures
        set_items(pre.push(x), out),
{
    lemma_extend_covers(pre, old_out, out, x, w);
    lemma_extend_drawn(pre, old_out, out, x);
}

proof fn lemma_extend_covers(pre: Seq<Value>, old_out: Seq<Value>, out: Seq<Value>, x: Value, w: int)
    requires
        covers(pre, old_out),
        old_out.len() <= out.len(),
        forall|j: int| 0 <= j < old_out.len() ==> out[j] == old_out[j],
        0 <= w < out.len(),
        same_value(out[w], x),
    ensures
        covers(pre.push(x), out),
{
    let post = pre.push(x);
    assert forall|i: int| #![trigger post[i]] 0 <= i < post.len() implies exists|j: int| #![trigger out[j]] 0 <= j < out.len() && same_value(out[j], post[i]) by {
        if i < pre.len() {
            assert(post[i] == pre[i]);
            let j = choose|j: int| 0 <= j < old_out.len() && same_value(old_out[j], pre[i]);
            assert(out[j] == old_out[j]);
        } else {
            assert(post[i] == x);
        }
    }
}

proof fn lemma_extend_drawn(pre: Seq<Value>, old_out: Seq<Value>, out: Seq<Value>, x: Value)
    requires
        drawn_from(pre, old_out),
        old_out.len() <= out.len() <= old_out.len() + 1,
        forall|j: int| 0 <= j < old_out.len() ==> out[j] == old_out[j],
        out.len() > old_out.len() ==> out[old_out.len() as int] == x,
    ensures
        drawn_from(pre.push(x), out),
{
    let post = pre.push(x);
    assert forall|j: int| 0 <= j < out.len() implies post.contains(#[trigger] out[j]) by {
        if j < old_out.len() {
            assert(pre.contains(old_out[j]));
            let i = choose|i: int| 0 <= i < pre.len() && pre[i] == old_out[j];
            assert(post[i] == pre[i]);
        } else {
            assert(out[j] == post[pre.len() as int]);
        }
    }
}

/// Every value equals itself.
pub proof fn lemma_same_value_reflexive(v: Value)
    ensures
        same_value(v, v),
    decreases v, 0nat,
{
    match v {
        Value::List(x) => lemma_same_items_reflexive(x, x@.len()),
        Value::ValueSet(x) => lemma_same_items_reflexive(x, x@.len()),
        _ => {},
    }
}

/// Every list of values equals itself, item by item.
proof fn lemma_same_items_reflexive(x: Vec<Value>, n: nat)
    requires
        n <= x@.len(),
    ensures
        same_items(x, x, n),
    decreases x, n,
{
    if n > 0 {
        lemma_same_items_reflexive(x, (n - 1) as nat);
        lemma_same_value_reflexive(x@[n - 1]);
    }
}

impl From<bool> for Value {
    fn from(value: bool) -> (r: Value) {
        Value::Boolean(value)
    }
}

impl vstd::std_specs::convert::FromSpecImpl<bool> for Value {
    open spec fn obeys_from_spec() -> bool {
        true
    }

    open spec fn from_spec(value: bool) -> Value {
        Value::Boolean(value)
    }
}

impl From<u32> for Value {
    fn from(value: u32) -> (r: Value) {
        Value::Integer(value)
    }
}

impl vstd::std_specs::convert::FromSpecImpl<u32> for Value {
    open spec fn obeys_from_spec() -> bool {
        true
    }

    open spec fn from_spec(value: u32) -> Value {
        Value::Integer(value)
    }
}

impl From<String> for Value {
    fn from(value: String) -> (r: Value) {
        Value::String(value)
    }
}

impl vstd::std_specs::convert::FromSpecImpl<String> for Value {
    open spec fn obeys_from_spec() -> bool {
        true
    }

    open spec fn from_spec(value: String) -> Value {
        Value::String(value)
    }
}

impl From<Vec<Value>> for Value {
    fn from(value: Vec<Value>) -> (r: Value) {
        Value::List(value)
    }
}

impl vstd::std_specs::convert::FromSpecImpl<Vec<Value>> for Value {
    open spec fn obeys_from_spec() -> bool {
        true
    }

    open spec fn from_spec(value: Vec<Value>) -> Value {
        Value::List(value)
    }
}

impl From<GraphNodeRef> for Value {
    fn from(value: GraphNodeRef) -> (r: Value) {
        Value::GraphNode(value)
    }
}

impl vstd::std_specs::convert::FromSpecImpl<GraphNodeRef> for Value {
    open spec fn obeys_from_spec() -> bool {
        true
    }

    open spec fn from_spec(value: GraphNodeRef) -> Value {
        Value::GraphNode(value)
    }
}

impl From<SyntaxNodeRef> for Value {
    fn from(value: SyntaxNodeRef) -> (r: Value) {
        Value::SyntaxNode(value)
    }
}

impl vstd::std_specs::convert::FromSpecImpl<SyntaxNodeRef> for Value {
    open spec fn obeys_from_spec() -> bool {
        true
    }

    open spec fn from_spec(value: SyntaxNodeRef) -> Value {
        Value::SyntaxNode(value)
    }
}

impl GraphNodeRef {
    /// The display text of this reference: `[graph node i]`.
    pub fn display(self) -> (r: String)
        ensures
            r@ == display_of(Value::GraphNode(self)),
    {
        Value::GraphNode(self).display()
    }
}

impl SyntaxNodeRef {
    /// The display text of this reference: its kind and its one-based start position.
    pub fn display(&self) -> (r: String)
        ensures
            r@ == display_of(Value::SyntaxNode(*self)),
    {
        let mut r = String::from_str("[syntax node ");
        r.append(self.kind.as_str());
        r.append(" (");
        let row = decimal_text(self.row as u128 + 1);
        r.append(row.as_str());
        r.append(", ");
        let column = decimal_text(self.column as u128 + 1);
        r.append(column.as_str());
        r.append(")]");
        r
    }
}

impl Value {
    /// A copy of this value, equal to it.
    pub fn duplicate(&self) -> (r: Value)
        ensures
            same_value(r, *self),
        decreases self,
    {
        match self {
            Value::Null => Value::Null,
            Value::Boolean(b) => Value::Boolean(*b),
            Value::Integer(n) => Value::Integer(*n),
            Value::String(s) => Value::String(s.clone()),
            Value::List(items) => Value::List(duplicate_items(items)),
            Value::ValueSet(items) => Value::ValueSet(duplicate_items(items)),
            Value::SyntaxNode(n) => Value::SyntaxNode(n.duplicate()),
            Value::GraphNode(g) => Value::GraphNode(*g),
        }
    }
}

/// Copies of the items, each equal to the item at its position.
fn duplicate_items(items: &Vec<Value>) -> (r: Vec<Value>)
    ensures
        r@.len() == items@.len(),
        same_items(r, *items, r@.len()),
    decreases items, 0nat,
{
    let mut r: Vec<Value> = Vec::new();
    let mut i: usize = 0;
    while i < items.len()
        invariant
            i <= items@.len(),
            r@.len() == i,
            forall|k: int| 0 <= k < i ==> same_value(#[trigger] r@[k], items@[k]),
        decreases items@.len() - i,
    {
        let c = items[i].duplicate();
        r.push(c);
        i = i + 1;
    }
    proof {
        lemma_same_items_from_pointwise(r, *items, r@.len());
    }
    r
}

/// Items equal position by position are equal as sequences of values.
proof fn lemma_same_items_from_pointwise(x: Vec<Value>, y: Vec<Value>, n: nat)
    requires
        n <= x@.len(),
        n <= y@.len(),
        forall|k: int| 0 <= k < n ==> same_value(#[trigger] x@[k], y@[k]),
    ensures
        same_items(x, y, n),
    decreases n,
{
    if n > 0 {
        lemma_same_items_from_pointwise(x, y, (n - 1) as nat);
    }
}

/// The position of a value's variant in the declaration of `Value`.
pub open spec fn rank(v: Value) -> int {
    match v {
        Value::Null => 0,
        Value::Boolean(_) => 1,
        Value::Integer(_) => 2,
        Value::String(_) => 3,
        Value::List(_) => 4,
        Value::ValueSet(_) => 5,
        Value::SyntaxNode(_) => 6,
        Value::GraphNode(_) => 7,
    }
}

/// The three-way comparison of two integers: -1, 0 or 1.
pub open spec fn cmp_int(x: int, y: int) -> int {
    if x < y {
        -1
    } else if y < x {
        1
    } else {
        0
    }
}

/// The three-way comparison of two strings, byte by byte.
pub open spec fn cmp_text(x: Seq<char>, y: Seq<char>) -> int {
    if name_lt(x, y) {
        -1
    } else if name_lt(y, x) {
        1
    } else {
        0
    }
}

/// The order of values: by variant in declaration order, then by contents; strings byte by
/// byte, lists and sets item by item, node references field by field.  It is -1, 0 or 1.
pub open spec fn cmp_value(a: Value, b: Value) -> int
    decreases a, 0nat,
{
    if rank(a) != rank(b) {
        cmp_int(rank(a), rank(b))
    } else {
        match a {
            Value::Null => 0,
            Value::Boolean(x) => cmp_int(if x { 1int } else { 0int }, if b->Boolean_0 { 1int } else { 0int }),
            Value::Integer(x) => cmp_int(x as int, b->Integer_0 as int),
            Value::String(x) => cmp_text(x@, b->String_0@),
            Value::List(x) => cmp_items(x, b->List_0, 0),
            Value::ValueSet(x) => cmp_items(x, b->ValueSet_0, 0),
            Value::SyntaxNode(x) => {
                let y = b->SyntaxNode_0;
                if x.index != y.index {
                    cmp_int(x.index as int, y.index as int)
                } else if cmp_text(x.kind@, y.kind@) != 0 {
                    cmp_text(x.kind@, y.kind@)
                } else if x.row != y.row {
                    cmp_int(x.row as int, y.row as int)
                } else {
                    cmp_int(x.column as int, y.column as int)
                }
            },
            Value::GraphNode(x) => cmp_int(x.0 as int, b->GraphNode_0.0 as int),
        }
    }
}

/// The lexicographic comparison of the items of `x` and `y` from position `i` on.
pub open spec fn cmp_items(x: Vec<Value>, y: Vec<Value>, i: nat) -> int
    decreases x, x@.len() - i,
{
    if i >= x@.len() {
        if i < y@.len() {
            -1
        } else {
            0
        }
    } else if i >= y@.len() {
        1
    } else if cmp_value(x@[i as int], y@[i as int]) != 0 {
        cmp_value(x@[i as int], y@[i as int])
    } else {
        cmp_items(x, y, i + 1)
    }
}

/// Whether `a` comes strictly before `b` in the order of values.
pub open spec fn value_lt(a: Value, b: Value) -> bool {
    cmp_value(a, b) < 0
}

/// Comparing two strings, byte by byte.
fn compare_text(x: &str, y: &str) -> (r: i8)
    ensures
        r as int == cmp_text(x@, y@),
{
    if str_lt(x, y) {
        -1
    } else if str_lt(y, x) {
        1
    } else {
        0
    }
}

/// The order of two values: -1 when `a` comes first, 1 when `b` does, 0 when they are equal.
pub fn compare_values(a: &Value, b: &Value) -> (r: i8)
    ensures
        r as int == cmp_value(*a, *b),
    decreases a,
{
    let ra = rank_of(a);
    let rb = rank_of(b);
    if ra != rb {
        return if ra < rb { -1 } else { 1 };
    }
    match (a, b) {
        (Value::Null, Value::Null) => 0,
        (Value::Boolean(x), Value::Boolean(y)) => if *x == *y { 0 } else if !*x { -1 } else { 1 },
        (Value::Integer(x), Value::Integer(y)) => if *x < *y { -1 } else if *y < *x { 1 } else { 0 },
        (Value::String(x), Value::String(y)) => compare_text(x.as_str(), y.as_str()),
        (Value::List(x), Value::List(y)) => compare_items(x, y),
        (Value::ValueSet(x), Value::ValueSet(y)) => compare_items(x, y),
        (Value::SyntaxNode(x), Value::SyntaxNode(y)) => {
            if x.index != y.index {
                if x.index < y.index { -1 } else { 1 }
            } else {
                let k = compare_text(x.kind.as_str(), y.kind.as_str());
                if k != 0 {
                    k
                } else if x.row != y.row {
                    if x.row < y.row { -1 } else { 1 }
                } else if x.column < y.column {
                    -1
                } else if y.column < x.column {
                    1
                } else {
                    0
                }
            }
        },
        (Value::GraphNode(x), Value::GraphNode(y)) => if x.0 < y.0 { -1 } else if y.0 < x.0 { 1 } else { 0 },
        _ => 0,
    }
}

fn rank_of(v: &Value) -> (r: u8)
    ensures
        r as int == rank(*v),
{
    match v {
        Value::Null => 0,
        Value::Boolean(_) => 1,
        Value::Integer(_) => 2,
        Value::String(_) => 3,
        Value::List(_) => 4,
        Value::ValueSet(_) => 5,
        Value::SyntaxNode(_) => 6,
        Value::GraphNode(_) => 7,
    }
}

/// The lexicographic order of two lists of values.
fn compare_items(x: &Vec<Value>, y: &Vec<Value>) -> (r: i8)
    ensures
        r as int == cmp_items(*x, *y, 0),
    decreases x, 0nat,
{
    let mut i: usize = 0;
    while i < x.len() && i < y.len()
        invariant
            i <= x@.len(),
            i <= y@.len(),
            cmp_items(*x, *y, 0) == cmp_items(*x, *y, i as nat),
        decreases x@.len() - i,
    {
        let c = compare_values(&x[i], &y[i]);
        if c != 0 {
            return c;
        }
        i = i + 1;
    }
    if i < x.len() {
        1
    } else if i < y.len() {
        -1
    } else {
        0
    }
}

/// The order is antisymmetric, and it puts two values level exactly when they are equal.
pub proof fn lemma_cmp_value(a: Value, b: Value)
    ensures
        cmp_value(b, a) == -cmp_value(a, b),
        cmp_value(a, b) == 0 <==> same_value(a, b),
        -1 <= cmp_value(a, b) <= 1,
    decreases a, 0nat,
{
    if rank(a) == rank(b) {
        match a {
            Value::String(x) => {
                lemma_name_lt_total(x@, b->String_0@);
                lemma_name_lt_order2(x@, b->String_0@);
            },
            Value::List(x) => {
                lemma_cmp_items(x, b->List_0, 0);
                if x@.len() == b->List_0@.len() {
                    lemma_same_items_iff(x, b->List_0);
                }
            },
            Value::ValueSet(x) => {
                lemma_cmp_items(x, b->ValueSet_0, 0);
                if x@.len() == b->ValueSet_0@.len() {
                    lemma_same_items_iff(x, b->ValueSet_0);
                }
            },
            Value::SyntaxNode(x) => {
                let y = b->SyntaxNode_0;
                lemma_name_lt_total(x.kind@, y.kind@);
                lemma_name_lt_order2(x.kind@, y.kind@);
            },
            _ => {},
        }
    }
}

/// Equally long item lists are equal exactly when their items are, position by position.
proof fn lemma_same_items_iff(x: Vec<Value>, y: Vec<Value>)
    requires
        x@.len() == y@.len(),
    ensures
        same_items(x, y, x@.len()) <==> forall|k: int| 0 <= k < x@.len() ==> same_value(#[trigger] x@[k], y@[k]),
{
    if forall|k: int| 0 <= k < x@.len() ==> same_value(#[trigger] x@[k], y@[k]) {
        lemma_same_items_from_pointwise(x, y, x@.len());
    }
    if same_items(x, y, x@.len()) {
        assert forall|k: int| 0 <= k < x@.len() implies same_value(#[trigger] x@[k], y@[k]) by {
            lemma_same_items_prefix(x, y, (k + 1) as nat, x@.len());
        }
    }
}

/// Two names are never each before the other.
proof fn lemma_name_lt_order2(x: Seq<char>, y: Seq<char>)
    ensures
        !(name_lt(x, y) && name_lt(y, x)),
{
    if name_lt(x, y) && name_lt(y, x) {
        lemma_name_lt_transitive(x, y, x);
        lemma_name_lt_total(x, x);
    }
}

/// The lexicographic order of item lists is antisymmetric, and level exactly on equal lists.
proof fn lemma_cmp_items(x: Vec<Value>, y: Vec<Value>, i: nat)
    requires
        i <= x@.len(),
    ensures
        cmp_items(y, x, i) == -cmp_items(x, y, i),
        -1 <= cmp_items(x, y, i) <= 1,
        x@.len() == y@.len() ==> (cmp_items(x, y, i) == 0 <==> forall|k: int| i <= k < x@.len() ==> same_value(
            #[trigger] x@[k], y@[k])),
        x@.len() != y@.len() && i <= y@.len() ==> cmp_items(x, y, i) != 0,
    decreases x, x@.len() - i,
{
    if i < x@.len() && i < y@.len() {
        lemma_cmp_value(x@[i as int], y@[i as int]);
        lemma_cmp_items(x, y, i + 1);
    }
}

/// Whether the order of values is transitive, read as "at most", on every arrangement of
/// `a`, `b` and `c`.
pub open spec fn le_transitive3(a: Value, b: Value, c: Value) -> bool {
    &&& (cmp_value(a, b) <= 0 && cmp_value(b, c) <= 0 ==> cmp_value(a, c) <= 0)
    &&& (cmp_value(a, c) <= 0 && cmp_value(c, b) <= 0 ==> cmp_value(a, b) <= 0)
    &&& (cmp_value(b, a) <= 0 && cmp_value(a, c) <= 0 ==> cmp_value(b, c) <= 0)
    &&& (cmp_value(b, c) <= 0 && cmp_value(c, a) <= 0 ==> cmp_value(b, a) <= 0)
    &&& (cmp_value(c, a) <= 0 && cmp_value(a, b) <= 0 ==> cmp_value(c, b) <= 0)
    &&& (cmp_value(c, b) <= 0 && cmp_value(b, a) <= 0 ==> cmp_value(c, a) <= 0)
}

/// The same for item lists compared from position `i` on.
pub open spec fn items_le_transitive3(x: Vec<Value>, y: Vec<Value>, z: Vec<Value>, i: nat) -> bool {
    &&& (cmp_items(x, y, i) <= 0 && cmp_items(y, z, i) <= 0 ==> cmp_items(x, z, i) <= 0)
    &&& (cmp_items(x, z, i) <= 0 && cmp_items(z, y, i) <= 0 ==> cmp_items(x, y, i) <= 0)
    &&& (cmp_items(y, x, i) <= 0 && cmp_items(x, z, i) <= 0 ==> cmp_items(y, z, i) <= 0)
    &&& (cmp_items(y, z, i) <= 0 && cmp_items(z, x, i) <= 0 ==> cmp_items(y, x, i) <= 0)
    &&& (cmp_items(z, x, i) <= 0 && cmp_items(x, y, i) <= 0 ==> cmp_items(z, y, i) <= 0)
    &&& (cmp_items(z, y, i) <= 0 && cmp_items(y, x, i) <= 0 ==> cmp_items(z, x, i) <= 0)
}

proof fn lemma_text_order(x: Seq<char>, y: Seq<char>, z: Seq<char>)
    ensures
        cmp_text(x, y) == 0 <==> x == y,
        cmp_text(x, y) == -cmp_text(y, x),
        cmp_text(x, y) <= 0 && cmp_text(y, z) <= 0 ==> cmp_text(x, z) <= 0,
        cmp_text(x, y) < 0 && cmp_text(y, z) <= 0 ==> cmp_text(x, z) < 0,
        cmp_text(x, y) <= 0 && cmp_text(y, z) < 0 ==> cmp_text(x, z) < 0,
{
    lemma_name_lt_total(x, y);
    lemma_name_lt_total(y, z);
    lemma_name_lt_total(x, z);
    lemma_name_lt_total(x, x);
    lemma_name_lt_order2(x, y);
    lemma_name_lt_order2(y, z);
    lemma_name_lt_order2(x, z);
    if name_lt(x, y) && name_lt(y, z) {
        lemma_name_lt_transitive(x, y, z);
    }
}

/// The order of values is transitive.
pub proof fn lemma_cmp_transitive(a: Value, b: Value, c: Value)
    ensures
        le_transitive3(a, b, c),
    decreases a, 0nat,
{
    lemma_cmp_value(a, b);
    lemma_cmp_value(b, c);
    lemma_cmp_value(a, c);
    if rank(a) == rank(b) && rank(b) == rank(c) {
        match a {
            Value::String(x) => {
                let y = b->String_0@;
                let z = c->String_0@;
                lemma_text_order(x@, y, z);
                lemma_text_order(x@, z, y);
                lemma_text_order(y, x@, z);
                lemma_text_order(y, z, x@);
                lemma_text_order(z, x@, y);
                lemma_text_order(z, y, x@);
            },
            Value::List(x) => lemma_items_transitive(x, b->List_0, c->List_0, 0),
            Value::ValueSet(x) => lemma_items_transitive(x, b->ValueSet_0, c->ValueSet_0, 0),
            Value::SyntaxNode(x) => {
                let y = b->SyntaxNode_0;
                let z = c->SyntaxNode_0;
                lemma_text_order(x.kind@, y.kind@, z.kind@);
                lemma_text_order(x.kind@, z.kind@, y.kind@);
                lemma_text_order(y.kind@, x.kind@, z.kind@);
                lemma_text_order(y.kind@, z.kind@, x.kind@);
                lemma_text_order(z.kind@, x.kind@, y.kind@);
                lemma_text_order(z.kind@, y.kind@, x.kind@);
            },
            _ => {},
        }
    }
}

proof fn lemma_items_transitive(x: Vec<Value>, y: Vec<Value>, z: Vec<Value>, i: nat)
    requires
        i <= x@.len(),
    ensures
        items_le_transitive3(x, y, z, i),
    decreases x, x@.len() - i,
{
    lemma_cmp_items(x, y, i);
    lemma_cmp_items(x, z, i);
    if i <= y@.len() {
        lemma_cmp_items(y, z, i);
    }
    if i < x@.len() && i < y@.len() && i < z@.len() {
        let (a, b, c) = (x@[i as int], y@[i as int], z@[i as int]);
        lemma_cmp_transitive(a, b, c);
        lemma_cmp_value(a, b);
        lemma_cmp_value(b, c);
        lemma_cmp_value(a, c);
        lemma_items_transitive(x, y, z, i + 1);
    }
}

/// The strict order of values is transitive.
pub proof fn lemma_value_lt_transitive(a: Value, b: Value, c: Value)
    requires
        value_lt(a, b),
        value_lt(b, c),
    ensures
        value_lt(a, c),
{
    lemma_cmp_transitive(a, b, c);
    lemma_cmp_value(a, c);
    lemma_cmp_value(b, c);
}

/// Values that each come before the next are strictly increasing throughout.
pub proof fn lemma_ascending_increasing(s: Seq<Value>)
    requires
        ascending(s),
    ensures
        forall|i: int, j: int| 0 <= i < j < s.len() ==> value_lt(#[trigger] s[i], #[trigger] s[j]),
{
    assert forall|i: int, j: int| 0 <= i < j < s.len() implies value_lt(#[trigger] s[i], #[trigger] s[j]) by {
        lemma_ascending_from(s, i, j);
    }
}

proof fn lemma_ascending_from(s: Seq<Value>, i: int, j: int)
    requires
        ascending(s),
        0 <= i < j < s.len(),
    ensures
        value_lt(s[i], s[j]),
    decreases j - i,
{
    if j > i + 1 {
        lemma_ascending_from(s, i, j - 1);
        assert(value_lt(s[j - 1], s[j]));
        lemma_value_lt_transitive(s[i], s[j - 1], s[j]);
    }
}

} // verus!
