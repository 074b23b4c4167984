//! How values are shown: in disassembly, in stack snapshots and by `print`.

use vstd::prelude::*;
use vstd::string::*;
use crate::value::{Closure, Function, FunctionKind, FunctionKindView, FunctionView, Value, ValueView, lemma_views, views};

verus! {

/// Whether the caller's rendering of numbers is the function `shown`:
/// whatever it returns for a 64-bit pattern is the text that `shown` gives.
pub open spec fn renders<R: Fn(u64) -> String>(
    render: &R,
    shown: spec_fn(u64) -> Seq<char>,
) -> bool {
    forall|bits: u64, text: String| #[trigger]
        call_ensures(render, (bits,), text) ==> text@ == shown(bits)
}

/// How a function is shown: `<fun NAME>`, and `<script>` for the script.
pub open spec fn function_text(function: FunctionView) -> Seq<char> {
    match function.kind {
        FunctionKindView::Function { name } => "<fun "@ + name + ">"@,
        FunctionKindView::Script => "<script>"@,
    }
}

/// How a value is shown: a number as `shown` gives it, a boolean as `true`
/// or `false`, nil as `nil`, a string between double quotes, a function or a
/// closure as its function.
pub open spec fn value_text(value: ValueView, shown: spec_fn(u64) -> Seq<char>) -> Seq<char> {
    match value {
        ValueView::Number(bits) => shown(bits),
        ValueView::Bool(v) => if v {
            "true"@
        } else {
            "false"@
        },
        ValueView::Nil => "nil"@,
        ValueView::String(v) => "\""@ + v + "\""@,
        ValueView::Function(v) => function_text(v),
        ValueView::Closure(v) => function_text(v.function),
    }
}

/// The values of a stack, separated by a comma and a space.
pub open spec fn list_items(values: Seq<ValueView>, shown: spec_fn(u64) -> Seq<char>) -> Seq<char>
    decreases values.len(),
{
    if values.len() == 0 {
        Seq::empty()
    } else if values.len() == 1 {
        value_text(values[0], shown)
    } else {
        list_items(values.drop_last(), shown) + ", "@ + value_text(values.last(), shown)
    }
}

/// How a stack is shown: its values between square brackets.
pub open spec fn list_text(values: Seq<ValueView>, shown: spec_fn(u64) -> Seq<char>) -> Seq<char> {
    "["@ + list_items(values, shown) + "]"@
}

impl Function {
    /// How the function is shown.
    pub fn debug(&self) -> (r: String)
        ensures
            r@ == function_text(self@),
    {
        match &self.kind {
            FunctionKind::Function { name } => {
                let mut r = "<fun ".to_owned();
                r.append(name.as_str());
                r.append(">");
                r
            },
            FunctionKind::Script => "<script>".to_owned(),
        }
    }
}

impl Closure {
    /// How the closure is shown: as its function.
    pub fn debug(&self) -> (r: String)
        ensures
            r@ == function_text(self@.function),
    {
        self.function.debug()
    }
}

impl Value {
    /// How the value is shown. `render` gives the text of a number from its
    /// 64-bit pattern.
    pub fn debug<R: Fn(u64) -> String>(&self, render: &R) -> (r: String)
        requires
            forall|bits: u64| call_requires(render, (bits,)),
        ensures
            forall|shown: spec_fn(u64) -> Seq<char>| #[trigger]
                renders(render, shown) ==> r@ == value_text(self@, shown),
    {
        match self {
            Value::Number(bits) => render(*bits),
            Value::Bool(v) => if *v {
                "true".to_owned()
            } else {
                "false".to_owned()
            },
            Value::Nil => "nil".to_owned(),
            Value::String(v) => {
                let mut r = "\"".to_owned();
                r.append(v.as_str());
                r.append("\"");
                r
            },
            Value::Function(v) => v.debug(),
            Value::Closure(v) => v.debug(),
        }
    }
}

/// How a stack is shown.
pub fn debug_values<R: Fn(u64) -> String>(values: &Vec<Value>, render: &R) -> (r: String)
    requires
        forall|bits: u64| call_requires(render, (bits,)),
    ensures
        forall|shown: spec_fn(u64) -> Seq<char>| #[trigger]
            renders(render, shown) ==> r@ == list_text(views(values@), shown),
{
    let mut r = "[".to_owned();
    let mut i: usize = 0;
    proof {
        lemma_views(values@);
        assert(views(values@).take(0) =~= Seq::empty());
        assert forall|shown: spec_fn(u64) -> Seq<char>| #[trigger]
            renders(render, shown) implies r@ == "["@ + list_items(
            views(values@).take(0),
            shown,
        ) by {
            assert("["@ + Seq::<char>::empty() =~= "["@);
        }
    }
    while i < values.len()
        invariant
            i <= values.len(),
            views(values@).len() == values.len(),
            forall|j: int| 0 <= j < values.len() ==> #[trigger] views(values@)[j] == values[j]@,
            forall|bits: u64| call_requires(render, (bits,)),
            forall|shown: spec_fn(u64) -> Seq<char>| #[trigger]
                renders(render, shown) ==> r@ == "["@ + list_items(
                    views(values@).take(i as int),
                    shown,
                ),
        decreases values.len() - i,
    {
        let ghost before = r@;
        if i > 0 {
            r.append(", ");
        }
        let item = values[i].debug(render);
        r.append(item.as_str());
        proof {
            let done = views(values@).take(i as int);
            let more = views(values@).take(i + 1);
            assert(more.drop_last() =~= done);
            assert(more.last() == values[i as int]@);
            assert forall|shown: spec_fn(u64) -> Seq<char>| #[trigger]
                renders(render, shown) implies r@ == "["@ + list_items(more, shown) by {
                assert(item@ == value_text(values[i as int]@, shown));
                if i == 0 {
                    assert(list_items(done, shown) =~= Seq::empty());
                    assert(more[0] == values[i as int]@);
                    assert(r@ =~= "["@ + list_items(more, shown));
                } else {
                    assert(r@ =~= "["@ + list_items(more, shown));
                }
            }
        }
        i += 1;
    }
    proof {
        assert(views(values@).take(i as int) =~= views(values@));
    }
    r.append("]");
    r
}

} // verus!
