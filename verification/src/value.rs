use vstd::prelude::*;

use crate::ast::Var;

verus! {

/// A variable's content: a single integer, or an ordered stack of integers
/// whose top is the last element. All arithmetic wraps around the 64-bit
/// signed range.
#[derive(Debug, Clone, PartialEq, Eq, PartialOrd, Ord, Hash)]
pub enum Value {
    Num(i64),
    Stack(Vec<i64>),
}

/// The mathematical shape of a `Value`: as `Value`, with `Seq` for `Vec`.
#[verifier::ext_equal]
pub ghost enum ValueV {
    Num(i64),
    Stack(Seq<i64>),
}

impl View for Value {
    type V = ValueV;

    open spec fn view(&self) -> ValueV {
        match self {
            Value::Num(n) => ValueV::Num(*n),
            Value::Stack(s) => ValueV::Stack(s@),
        }
    }
}

/// Reduce an unbounded integer into the 64-bit signed range by wrapping.
pub open spec fn wrap64(x: int) -> i64 {
    vstd::wrapping::i64_specs::signed_crop(x)
}

/// What `num` returns: the scalar itself, or the top of the stack, or 0 for
/// an empty stack.
pub open spec fn read_of(v: ValueV) -> i64 {
    match v {
        ValueV::Num(n) => n,
        ValueV::Stack(s) => if s.len() == 0 {
            0
        } else {
            s.last()
        },
    }
}

/// What `inc` leaves behind: the delta is added in place; an empty stack
/// first gains a single 0 element.
pub open spec fn inc_of(v: ValueV, delta: i64) -> ValueV {
    match v {
        ValueV::Num(n) => ValueV::Num(wrap64(n + delta)),
        ValueV::Stack(s) => if s.len() == 0 {
            ValueV::Stack(seq![delta])
        } else {
            ValueV::Stack(s.update(s.len() - 1, wrap64(s.last() + delta)))
        },
    }
}

/// What `set` leaves behind: the scalar, or the top of the stack, is
/// replaced; an empty stack gains the value as its sole element.
pub open spec fn set_of(v: ValueV, val: i64) -> ValueV {
    match v {
        ValueV::Num(_) => ValueV::Num(val),
        ValueV::Stack(s) => if s.len() == 0 {
            ValueV::Stack(seq![val])
        } else {
            ValueV::Stack(s.update(s.len() - 1, val))
        },
    }
}

/// What `set_stack` leaves behind. A scalar `s` becomes a stack of
/// `max(delta, 0)` copies of `s`. A stack grows by `delta` zero elements when
/// `delta > 0`, shrinks by up to `-delta` elements when `delta < 0` (its
/// length floors at 0), and is untouched when `delta == 0`.
pub open spec fn resize_of(v: ValueV, delta: i64) -> ValueV {
    match v {
        ValueV::Num(n) => ValueV::Stack(Seq::new(if delta >= 0 { delta as nat } else { 0 }, |i| n)),
        ValueV::Stack(s) => if delta >= 0 {
            ValueV::Stack(s + Seq::new(delta as nat, |i| 0i64))
        } else {
            ValueV::Stack(s.take(if s.len() + delta >= 0 { (s.len() + delta) as int } else { 0 }))
        },
    }
}

impl Value {
    /// The integer reading of this value.
    pub fn num(&self) -> (r: i64)
        ensures
            r == read_of(self@),
    {
        match self {
            Value::Num(n) => *n,
            Value::Stack(s) => if s.len() == 0 {
                0
            } else {
                s[s.len() - 1]
            },
        }
    }

    /// Add `count` in place; an empty stack first gains a 0 element.
    pub fn inc(&mut self, count: i64)
        ensures
            final(self)@ == inc_of(old(self)@, count),
    {
        match self {
            Value::Num(n) => {
                *n = n.wrapping_add(count);
            },
            Value::Stack(items) => {
                if items.len() == 0 {
                    items.push(0);
                }
                let i: usize = items.len() - 1;
                let cur: i64 = items[i];
                items.set(i, cur.wrapping_add(count));
                proof {
                    if old(self)@->Stack_0.len() == 0 {
                        assert(items@ =~= seq![count]);
                    }
                }
            },
        }
    }

    /// Overwrite the scalar, or the top of the stack; an empty stack gains
    /// `count` as its sole element.
    pub fn set(&mut self, count: i64)
        ensures
            final(self)@ == set_of(old(self)@, count),
    {
        match self {
            Value::Num(n) => {
                *n = count;
            },
            Value::Stack(items) => {
                if items.len() == 0 {
                    items.push(count);
                    proof {
                        assert(items@ =~= seq![count]);
                    }
                } else {
                    let i: usize = items.len() - 1;
                    items.set(i, count);
                }
            },
        }
    }

    /// Turn a scalar into a stack, or resize a stack, by `count`.
    pub fn set_stack(&mut self, count: i64)
        ensures
            final(self)@ == resize_of(old(self)@, count),
    {
        match self {
            Value::Num(n) => {
                let fill: i64 = *n;
                let mut items: Vec<i64> = Vec::new();
                let mut i: i64 = 0;
                let target: i64 = if count >= 0 {
                    count
                } else {
                    0
                };
                while i < target
                    invariant
                        0 <= i <= target,
                        target == if count >= 0 { count as int } else { 0 },
                        items@.len() == i as int,
                        forall|j: int| 0 <= j < i ==> items@[j] == fill,
                    decreases target - i,
                {
                    items.push(fill);
                    i = i + 1;
                }
                proof {
                    assert(items@ =~= Seq::new(
                        if count >= 0 {
                            count as nat
                        } else {
                            0
                        },
                        |j| fill,
                    ));
                }
                *self = Value::Stack(items);
            },
            Value::Stack(items) => {
                if count >= 0 {
                    let ghost orig = items@;
                    let mut i: i64 = 0;
                    while i < count
                        invariant
                            0 <= i <= count,
                            items@.len() == orig.len() + i,
                            items@.subrange(0, orig.len() as int) =~= orig,
                            forall|j: int| orig.len() <= j < items@.len() ==> items@[j] == 0i64,
                        decreases count - i,
                    {
                        items.push(0);
                        i = i + 1;
                    }
                    proof {
                        assert(items@ =~= orig + Seq::new(count as nat, |j| 0i64));
                    }
                } else {
                    let ghost orig = items@;
                    let mut i: i64 = count;
                    while i < 0 && items.len() > 0
                        invariant
                            count <= i <= 0,
                            items@ =~= orig.take(
                                if orig.len() - (i - count) >= 0 {
                                    orig.len() - (i - count)
                                } else {
                                    0
                                },
                            ),
                        decreases 0 - i,
                    {
                        let _ = items.pop();
                        i = i + 1;
                    }
                    proof {
                        assert(items@ =~= orig.take(
                            if orig.len() + count >= 0 {
                                (orig.len() + count) as int
                            } else {
                                0
                            },
                        ));
                    }
                }
            },
        }
    }
}

/// Incrementing an empty stack pushes a 0 first: the result is a
/// one-element stack holding exactly the delta.
pub proof fn lemma_inc_empty_stack(delta: i64)
    ensures
        inc_of(ValueV::Stack(Seq::empty()), delta) == ValueV::Stack(seq![delta]),
{
}

/// Resizing by 0 is idempotent: a second resize by 0 changes nothing, and
/// on a value that already is a stack even the first changes nothing.
pub proof fn lemma_resize_zero_idempotent(v: ValueV)
    ensures
        resize_of(resize_of(v, 0), 0) == resize_of(v, 0),
        v is Stack ==> resize_of(v, 0) == v,
{
    match v {
        ValueV::Num(n) => {
            assert(resize_of(v, 0)->Stack_0 =~= Seq::<i64>::empty());
            assert(resize_of(resize_of(v, 0), 0)->Stack_0 =~= Seq::<i64>::empty());
        },
        ValueV::Stack(s) => {
            assert(resize_of(v, 0)->Stack_0 =~= s);
            assert(resize_of(resize_of(v, 0), 0)->Stack_0 =~= s);
        },
    }
}

impl From<i64> for Value {
    /// A scalar from its integer.
    fn from(v: i64) -> (r: Self) {
        Value::Num(v)
    }
}

impl vstd::std_specs::convert::FromSpecImpl<i64> for Value {
    open spec fn obeys_from_spec() -> bool {
        true
    }

    open spec fn from_spec(v: i64) -> Value {
        Value::Num(v)
    }
}

impl From<Vec<i64>> for Value {
    /// A stack from its elements.
    fn from(v: Vec<i64>) -> (r: Self) {
        Value::Stack(v)
    }
}

impl vstd::std_specs::convert::FromSpecImpl<Vec<i64>> for Value {
    open spec fn obeys_from_spec() -> bool {
        true
    }

    open spec fn from_spec(v: Vec<i64>) -> Value {
        Value::Stack(v)
    }
}

impl Default for Value {
    /// A variable never referenced before reads as the scalar 0.
    fn default() -> (r: Self)
        ensures
            r@ == ValueV::Num(0),
    {
        Value::Num(0)
    }
}

/// Duplicate a value; the copy has the same view.
pub fn dup_value(v: &Value) -> (r: Value)
    ensures
        r@ == v@,
{
    match v {
        Value::Num(n) => Value::Num(*n),
        Value::Stack(s) => {
            let mut out: Vec<i64> = Vec::new();
            let mut i: usize = 0;
            while i < s.len()
                invariant
                    i <= s.len(),
                    out@ =~= s@.subrange(0, i as int),
                decreases s@.len() - i,
            {
                out.push(s[i]);
                i = i + 1;
            }
            proof {
                assert(out@ =~= s@);
            }
            Value::Stack(out)
        },
    }
}

} // verus!
