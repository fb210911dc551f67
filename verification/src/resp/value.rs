//! RESP values and their mathematical view.

use vstd::prelude::*;

verus! {

/// Any RESP datum.
#[derive(Debug, PartialEq, Eq)]
pub enum Value {
    /// Short status text.
    SimpleString(String),
    /// An error message, sent distinctly from a simple string.
    Error(String),
    /// A signed 64-bit number.
    Integer(i64),
    /// A length-prefixed text.
    BulkString(String),
    /// The absence of a value.
    Null,
    /// An ordered sequence of values.
    Array(Vec<Value>),
}

/// The mathematical content of a [`Value`]: texts as character sequences,
/// arrays as sequences of views.
pub enum ValueView {
    SimpleString(Seq<char>),
    Error(Seq<char>),
    Integer(i64),
    BulkString(Seq<char>),
    Null,
    Array(Seq<ValueView>),
}

impl View for Value {
    type V = ValueView;

    open spec fn view(&self) -> ValueView
        decreases self,
    {
        match self {
            Value::SimpleString(s) => ValueView::SimpleString(s@),
            Value::Error(s) => ValueView::Error(s@),
            Value::Integer(i) => ValueView::Integer(*i),
            Value::BulkString(s) => ValueView::BulkString(s@),
            Value::Null => ValueView::Null,
            Value::Array(items) => ValueView::Array(first_views(items@, items@.len())),
        }
    }
}

/// The views of the first `count` of `items`, in order.
pub open spec fn first_views(items: Seq<Value>, count: nat) -> Seq<ValueView>
    decreases items, count,
{
    if 0 < count <= items.len() {
        first_views(items, (count - 1) as nat).push(items[count - 1]@)
    } else {
        Seq::empty()
    }
}

/// The views of a run of values, in order.
pub open spec fn views(items: Seq<Value>) -> Seq<ValueView> {
    first_views(items, items.len())
}

/// `first_views` maps the first `count` items to their views, one for one.
pub proof fn lemma_first_views(items: Seq<Value>, count: nat)
    requires
        count <= items.len(),
    ensures
        first_views(items, count).len() == count,
        forall|i: int| 0 <= i < count ==> #[trigger] first_views(items, count)[i] == items[i]@,
    decreases count,
{
    if count > 0 {
        lemma_first_views(items, (count - 1) as nat);
        assert(first_views(items, count) == first_views(items, (count - 1) as nat).push(
            items[count - 1]@,
        ));
    } else {
        assert(first_views(items, count) == Seq::<ValueView>::empty());
    }
}

/// The views of a run with one more value at its end.
pub proof fn lemma_views_push(items: Seq<Value>, last: Value)
    ensures
        views(items.push(last)) == views(items).push(last@),
{
    let longer = items.push(last);
    lemma_first_views(longer, longer.len());
    lemma_first_views(items, items.len());
    assert(views(longer) =~= views(items).push(last@));
}

} // verus!
