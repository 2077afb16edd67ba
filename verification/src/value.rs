use crate::arithmetic::{answers, ask, write_out, writes, NumOp, Task, TaskView};
use crate::error::{ErrorView, GlassError};
use crate::interpreter::InterpreterResult;
use crate::number;
use crate::text::same_text;
use vstd::prelude::*;
use vstd::string::*;
use vstd::utf8::*;

verus! {

/// A value that evaluation produces.
#[derive(Debug)]
pub enum Value {
    /// A binary64 number, as its bit pattern.
    Num(u64),
    Str(String),
    Bool(bool),
    List(Vec<Value>),
    Dict(Dict),
    /// The value of what has no value.
    Void,
}

/// A mapping from texts to values, held as a list of entries in which no
/// key stands twice. The order of the entries means nothing.
#[derive(Debug)]
pub struct Dict {
    entries: Vec<(String, Value)>,
}

/// A value as the contracts speak of it: texts are sequences of
/// characters, lists are sequences, dictionaries are maps.
pub enum ValueView {
    Num(u64),
    Str(Seq<char>),
    Bool(bool),
    List(Seq<ValueView>),
    Dict(Map<Seq<char>, ValueView>),
    Void,
}

/// The views of a list of values.
pub open spec fn models(items: Seq<Value>) -> Seq<ValueView>
    decreases items,
{
    if items.len() == 0 {
        Seq::empty()
    } else {
        models(items.drop_last()).push(items.last().model())
    }
}

/// The map that a list of entries stands for; where a key stands twice,
/// the later entry counts.
pub open spec fn entries_model(entries: Seq<(String, Value)>) -> Map<Seq<char>, ValueView>
    decreases entries,
{
    if entries.len() == 0 {
        Map::empty()
    } else {
        entries_model(entries.drop_last()).insert(entries.last().0@, entries.last().1.model())
    }
}

impl Value {
    /// The value as the contracts speak of it.
    pub open spec fn model(&self) -> ValueView
        decreases self,
    {
        match self {
            Value::Num(bits) => ValueView::Num(*bits),
            Value::Str(text) => ValueView::Str(text@),
            Value::Bool(b) => ValueView::Bool(*b),
            Value::List(items) => ValueView::List(models(items@)),
            Value::Dict(dict) => ValueView::Dict(dict.model()),
            Value::Void => ValueView::Void,
        }
    }
}

impl View for Value {
    type V = ValueView;

    open spec fn view(&self) -> ValueView {
        self.model()
    }
}

impl Dict {
    /// The map that the dictionary stands for.
    pub closed spec fn model(&self) -> Map<Seq<char>, ValueView>
        decreases self,
    {
        entries_model(self.entries@)
    }

    #[verifier::type_invariant]
    spec fn distinct(self) -> bool {
        distinct_keys(self.entries@)
    }
}

impl View for Dict {
    type V = Map<Seq<char>, ValueView>;

    open spec fn view(&self) -> Map<Seq<char>, ValueView> {
        self.model()
    }
}

/// No key stands twice in the entries.
pub open spec fn distinct_keys(entries: Seq<(String, Value)>) -> bool {
    forall|i: int, j: int|
        0 <= i < j < entries.len() ==> (#[trigger] entries[i]).0@ != (#[trigger] entries[j]).0@
}

/// The views of a list are the views of its items, in order.
pub proof fn lemma_models(items: Seq<Value>)
    ensures
        models(items).len() == items.len(),
        forall|i: int| 0 <= i < items.len() ==> (#[trigger] models(items)[i]) == items[i].model(),
    decreases items.len(),
{
    if items.len() > 0 {
        lemma_models(items.drop_last());
    }
}

/// The views of two lists in a row are the views of the first, then those of the second.
pub proof fn lemma_models_concat(a: Seq<Value>, b: Seq<Value>)
    ensures
        models(a + b) == models(a) + models(b),
{
    lemma_models(a);
    lemma_models(b);
    lemma_models(a + b);
}

/// The map of a list of entries holds the keys of the entries and no others.
pub proof fn lemma_entries_domain(entries: Seq<(String, Value)>, key: Seq<char>)
    ensures
        entries_model(entries).dom().finite(),
        entries_model(entries).dom().contains(key) <==> exists|i: int|
            0 <= i < entries.len() && (#[trigger] entries[i]).0@ == key,
    decreases entries.len(),
{
    if entries.len() > 0 {
        let front = entries.drop_last();
        lemma_entries_domain(front, key);
        if entries_model(front).dom().contains(key) {
            let i = choose|i: int| 0 <= i < front.len() && (#[trigger] front[i]).0@ == key;
        }
        if exists|i: int| 0 <= i < entries.len() && (#[trigger] entries[i]).0@ == key {
            let i = choose|i: int| 0 <= i < entries.len() && (#[trigger] entries[i]).0@ == key;
            if i < entries.len() - 1 {
                assert(front[i].0@ == key);
            }
        }
    }
}

/// Where no key stands twice, the map gives each key the value of its entry.
pub proof fn lemma_entries_value(entries: Seq<(String, Value)>, i: int)
    requires
        distinct_keys(entries),
        0 <= i < entries.len(),
    ensures
        entries_model(entries).dom().contains(entries[i].0@),
        entries_model(entries)[entries[i].0@] == entries[i].1.model(),
    decreases entries.len(),
{
    let front = entries.drop_last();
    if i < entries.len() - 1 {
        lemma_entries_value(front, i);
    }
}

/// Where no key stands twice, the first entry counts like any other: the
/// map holds its key with its value, and the rest as the other entries give it.
pub proof fn lemma_entries_first(entries: Seq<(String, Value)>, key: Seq<char>)
    requires
        distinct_keys(entries),
        entries.len() > 0,
    ensures
        entries_model(entries).dom().contains(key) == (key == entries[0].0@ || entries_model(
            entries.drop_first(),
        ).dom().contains(key)),
        entries_model(entries).dom().contains(key) ==> entries_model(entries)[key] == (if key
            == entries[0].0@ {
            entries[0].1.model()
        } else {
            entries_model(entries.drop_first())[key]
        }),
{
    let rest = entries.drop_first();
    lemma_entries_domain(entries, key);
    lemma_entries_domain(rest, key);
    assert(distinct_keys(rest)) by {
        assert forall|i: int, j: int| 0 <= i < j < rest.len() implies (#[trigger] rest[i]).0@ != (
        #[trigger] rest[j]).0@ by {}
    }
    if entries_model(rest).dom().contains(key) {
        let x = choose|x: int| 0 <= x < rest.len() && (#[trigger] rest[x]).0@ == key;
    }
    if entries_model(entries).dom().contains(key) {
        let x = choose|x: int| 0 <= x < entries.len() && (#[trigger] entries[x]).0@ == key;
        lemma_entries_value(entries, x);
        if x > 0 {
            lemma_entries_value(rest, x - 1);
        }
    }
}

impl Dict {
    /// The dictionary without entries.
    pub fn new() -> (dict: Dict)
        ensures
            dict@ == Map::<Seq<char>, ValueView>::empty(),
    {
        Dict { entries: Vec::new() }
    }

    /// Every dictionary has finitely many keys.
    pub proof fn lemma_finite(&self)
        ensures
            self@.dom().finite(),
    {
        lemma_entries_domain(self.entries@, Seq::empty());
    }

    /// The value that stands under `key`, if one does.
    pub fn get(&self, key: &str) -> (found: Option<&Value>)
        ensures
            match found {
                Some(value) => self@.dom().contains(key@) && self@[key@] == value@,
                None => !self@.dom().contains(key@),
            },
    {
        proof {
            use_type_invariant(self);
        }
        let mut i: usize = 0;
        while i < self.entries.len()
            invariant
                distinct_keys(self.entries@),
                i <= self.entries.len(),
                forall|j: int| 0 <= j < i ==> (#[trigger] self.entries@[j]).0@ != key@,
            decreases self.entries.len() - i,
        {
            if same_text(self.entries[i].0.as_str(), key) {
                proof {
                    lemma_entries_value(self.entries@, i as int);
                }
                return Some(&self.entries[i].1);
            }
            i += 1;
        }
        proof {
            lemma_entries_domain(self.entries@, key@);
        }
        None
    }

    /// Puts `value` under `key`, in place of what stood there.
    pub fn insert(&mut self, key: String, value: Value)
        ensures
            final(self)@ == old(self)@.insert(key@, value@),
    {
        let mut taken = Dict::new();
        std::mem::swap(self, &mut taken);
        proof {
            use_type_invariant(&taken);
        }
        let Dict { entries: mut entries } = taken;
        let ghost before = entries@;
        let mut i: usize = 0;
        let mut found = false;
        while i < entries.len() && !found
            invariant
                entries@ == before,
                distinct_keys(before),
                i <= entries.len(),
                found ==> i < entries.len() && entries@[i as int].0@ == key@,
                forall|j: int| 0 <= j < i ==> (#[trigger] entries@[j]).0@ != key@,
            decreases entries.len() - i + (if found { 0int } else { 1int }),
        {
            if same_text(entries[i].0.as_str(), key.as_str()) {
                found = true;
            } else {
                i += 1;
            }
        }
        if found {
            entries.set(i, (key, value));
            proof {
                let after = entries@;
                assert(distinct_keys(after)) by {
                    assert forall|a: int, b: int| 0 <= a < b < after.len() implies after[a].0@
                        != after[b].0@ by {}
                }
                assert(entries_model(after) =~= entries_model(before).insert(key@, value@)) by {
                    assert forall|k: Seq<char>|
                        entries_model(after).dom().contains(k) <==> #[trigger] entries_model(
                            before,
                        ).insert(key@, value@).dom().contains(k) by {
                        lemma_entries_domain(after, k);
                        lemma_entries_domain(before, k);
                        if entries_model(after).dom().contains(k) {
                            let x = choose|x: int|
                                0 <= x < after.len() && (#[trigger] after[x]).0@ == k;
                        }
                        if entries_model(before).dom().contains(k) {
                            let x = choose|x: int|
                                0 <= x < before.len() && (#[trigger] before[x]).0@ == k;
                            assert(after[x].0@ == k);
                        }
                    }
                    assert forall|k: Seq<char>| #[trigger]
                        entries_model(after).dom().contains(k) implies entries_model(after)[k]
                        == entries_model(before).insert(key@, value@)[k] by {
                        lemma_entries_domain(after, k);
                        let x = choose|x: int|
                            0 <= x < after.len() && (#[trigger] after[x]).0@ == k;
                        lemma_entries_value(after, x);
                        if x != i {
                            lemma_entries_value(before, x);
                        }
                    }
                }
            }
        } else {
            entries.push((key, value));
            proof {
                let after = entries@;
                assert(after.drop_last() =~= before);
            }
        }
        *self = Dict { entries };
    }

    /// Takes every entry of `other` in; where both hold a key, the value
    /// of `other` stays.
    pub fn extend(&mut self, other: Dict)
        ensures
            final(self)@ == old(self)@.union_prefer_right(other@),
    {
        proof {
            use_type_invariant(&other);
        }
        let ghost all = other.entries@;
        let ghost start = self@;
        let ghost target = other@;
        let Dict { entries: mut rest } = other;
        loop
            invariant
                start == old(self)@,
                target == other@,
                target == entries_model(all),
                distinct_keys(all),
                rest@.len() <= all.len(),
                rest@ == all.subrange(0, rest@.len() as int),
                self@ == start.union_prefer_right(
                    entries_model(all.subrange(rest@.len() as int, all.len() as int)),
                ),
            decreases rest@.len(),
        {
            let ghost n = rest@.len() as int;
            match rest.pop() {
                Some((key, value)) => {
                    let ghost done = all.subrange(n, all.len() as int);
                    let ghost more = all.subrange(n - 1, all.len() as int);
                    proof {
                        assert(done =~= more.drop_first());
                        let lhs = start.union_prefer_right(entries_model(done)).insert(
                            key@,
                            value@,
                        );
                        let rhs = start.union_prefer_right(entries_model(more));
                        assert forall|k: Seq<char>| #[trigger]
                            lhs.dom().contains(k) == rhs.dom().contains(k) by {
                            lemma_entries_first(more, k);
                        }
                        assert forall|k: Seq<char>| lhs.dom().contains(k) implies #[trigger] lhs[k]
                            == rhs[k] by {
                            lemma_entries_first(more, k);
                        }
                    }
                    self.insert(key, value);
                },
                None => {
                    assert(all.subrange(0, all.len() as int) =~= all);
                    return ;
                },
            }
        }
    }
}

/// How a type is named in a message.
pub open spec fn kind_name(value: ValueView) -> Seq<char> {
    match value {
        ValueView::Num(_) => "number"@,
        ValueView::Str(_) => "string"@,
        ValueView::Bool(_) => "boolean"@,
        ValueView::List(_) => "list"@,
        ValueView::Dict(_) => "dictionary"@,
        ValueView::Void => "void"@,
    }
}

/// The error of a binary operator on a pair of types that it is not defined for.
pub open spec fn mismatch(sign: Seq<char>, a: ValueView, b: ValueView) -> ErrorView {
    ErrorView::InvalidOperation { operation: sign, left: kind_name(a), right: kind_name(b) }
}

/// The error of a unary operator on a type that it is not defined for.
pub open spec fn unfit(sign: Seq<char>, a: ValueView) -> ErrorView {
    ErrorView::InvalidUnaryOperation { operation: sign, operand: kind_name(a) }
}

/// The outcome of an operator, as the contracts speak of it.
pub open spec fn result_view(result: InterpreterResult) -> Result<ValueView, ErrorView> {
    match result {
        Ok(value) => Ok(value@),
        Err(error) => Err(error@),
    }
}

/// Structural equality. Values of different types are unequal; numbers are
/// equal as IEEE says, so a NaN equals nothing, itself included; lists are
/// equal item by item, dictionaries key by key.
pub open spec fn equals(a: ValueView, b: ValueView) -> bool
    decreases a,
{
    match (a, b) {
        (ValueView::Num(x), ValueView::Num(y)) => number::same(x, y),
        (ValueView::Str(x), ValueView::Str(y)) => x == y,
        (ValueView::Bool(x), ValueView::Bool(y)) => x == y,
        (ValueView::List(x), ValueView::List(y)) => x.len() == y.len() && forall|i: int|
            0 <= i < x.len() ==> equals(#[trigger] x[i], y[i]),
        (ValueView::Dict(x), ValueView::Dict(y)) => x.dom().finite() && x.dom() == y.dom()
            && forall|k: Seq<char>| x.dom().contains(k) ==> equals(#[trigger] x[k], y[k]),
        (ValueView::Void, ValueView::Void) => true,
        _ => false,
    }
}

/// `text`, `n` times in a row.
pub open spec fn repeated(text: Seq<char>, n: nat) -> Seq<char>
    decreases n,
{
    if n == 0 {
        Seq::empty()
    } else {
        repeated(text, (n - 1) as nat) + text
    }
}

/// The outcome of an operator that is defined on two numbers alone and
/// gives a number: the answer of `num`.
pub open spec fn on_numbers<N: Fn(Task) -> u64>(
    op: NumOp,
    sign: Seq<char>,
    a: ValueView,
    b: ValueView,
    num: N,
    out: Result<ValueView, ErrorView>,
) -> bool {
    match (a, b) {
        (ValueView::Num(x), ValueView::Num(y)) => out matches Ok(ValueView::Num(z)) && answers(
            num,
            TaskView::Binary(op, x, y),
            z,
        ),
        _ => out == Err::<ValueView, ErrorView>(mismatch(sign, a, b)),
    }
}

/// The outcome of `+`: the sum of two numbers; two texts, or a text and a
/// number written out, in a row; two lists in a row; two dictionaries in
/// one, with the right one's value where both hold a key.
pub open spec fn sum<N: Fn(Task) -> u64, S: Fn(u64) -> String>(
    a: ValueView,
    b: ValueView,
    num: N,
    show: S,
    out: Result<ValueView, ErrorView>,
) -> bool {
    match (a, b) {
        (ValueView::Num(x), ValueView::Num(y)) => out matches Ok(ValueView::Num(z)) && answers(
            num,
            TaskView::Binary(NumOp::Add, x, y),
            z,
        ),
        (ValueView::Str(x), ValueView::Str(y)) => out == Ok::<ValueView, ErrorView>(
            ValueView::Str(x + y),
        ),
        (ValueView::List(x), ValueView::List(y)) => out == Ok::<ValueView, ErrorView>(
            ValueView::List(x + y),
        ),
        (ValueView::Str(x), ValueView::Num(y)) => exists|written: Seq<char>| #[trigger]
            writes(show, y, written) && out == Ok::<ValueView, ErrorView>(
                ValueView::Str(x + written),
            ),
        (ValueView::Num(x), ValueView::Str(y)) => exists|written: Seq<char>| #[trigger]
            writes(show, x, written) && out == Ok::<ValueView, ErrorView>(
                ValueView::Str(written + y),
            ),
        (ValueView::Dict(x), ValueView::Dict(y)) => out == Ok::<ValueView, ErrorView>(
            ValueView::Dict(x.union_prefer_right(y)),
        ),
        _ => out == Err::<ValueView, ErrorView>(mismatch("+"@, a, b)),
    }
}

/// A text, as often as the whole part of a number says. Where the result
/// would be longer than a text can be, the outcome is an unknown error.
pub open spec fn repetition(text: Seq<char>, bits: u64) -> Result<ValueView, ErrorView> {
    if encode_utf8(text).len() * number::count(bits) <= usize::MAX {
        Ok(ValueView::Str(repeated(text, number::count(bits) as nat)))
    } else {
        Err(ErrorView::UnknownError { error_message: "capacity overflow"@ })
    }
}

/// The outcome of `*`: the product of two numbers, or a text repeated.
pub open spec fn product<N: Fn(Task) -> u64>(
    a: ValueView,
    b: ValueView,
    num: N,
    out: Result<ValueView, ErrorView>,
) -> bool {
    match (a, b) {
        (ValueView::Num(x), ValueView::Num(y)) => out matches Ok(ValueView::Num(z)) && answers(
            num,
            TaskView::Binary(NumOp::Mul, x, y),
            z,
        ),
        (ValueView::Str(x), ValueView::Num(y)) => out == repetition(x, y),
        (ValueView::Num(x), ValueView::Str(y)) => out == repetition(y, x),
        _ => out == Err::<ValueView, ErrorView>(mismatch("*"@, a, b)),
    }
}

/// The outcome of an order comparison: defined on two numbers alone.
pub open spec fn ordered(
    sign: Seq<char>,
    a: ValueView,
    b: ValueView,
    holds: spec_fn(u64, u64) -> bool,
) -> Result<ValueView, ErrorView> {
    match (a, b) {
        (ValueView::Num(x), ValueView::Num(y)) => Ok(ValueView::Bool(holds(x, y))),
        _ => Err(mismatch(sign, a, b)),
    }
}

/// The outcome of `and` and `or`: defined on two booleans alone.
pub open spec fn joined(
    sign: Seq<char>,
    a: ValueView,
    b: ValueView,
    holds: spec_fn(bool, bool) -> bool,
) -> Result<ValueView, ErrorView> {
    match (a, b) {
        (ValueView::Bool(x), ValueView::Bool(y)) => Ok(ValueView::Bool(holds(x, y))),
        _ => Err(mismatch(sign, a, b)),
    }
}

/// The outcome of `not`: defined on a boolean alone.
pub open spec fn inverted(a: ValueView) -> Result<ValueView, ErrorView> {
    match a {
        ValueView::Bool(x) => Ok(ValueView::Bool(!x)),
        _ => Err(unfit("not"@, a)),
    }
}

/// The outcome of unary `-`: defined on a number alone.
pub open spec fn negated(a: ValueView) -> Result<ValueView, ErrorView> {
    match a {
        ValueView::Num(x) => Ok(ValueView::Num(number::opposite(x))),
        _ => Err(unfit("-"@, a)),
    }
}

/// Nothing, however often repeated, is nothing.
proof fn lemma_repeated_empty(n: nat)
    ensures
        repeated(Seq::empty(), n) =~= Seq::<char>::empty(),
    decreases n,
{
    if n > 0 {
        lemma_repeated_empty((n - 1) as nat);
    }
}

/// The error of the operator `sign` on the types of `a` and `b`.
fn invalid(sign: &str, a: &Value, b: &Value) -> (error: GlassError)
    ensures
        error@ == mismatch(sign@, a@, b@),
{
    GlassError::InvalidOperation {
        operation: sign.to_owned(),
        left: a.get_type(),
        right: b.get_type(),
    }
}

/// `text`, as often as the whole part of the number `bits` says.
fn repeat_text(text: String, bits: u64) -> (result: InterpreterResult)
    ensures
        result_view(result) == repetition(text@, bits),
{
    broadcast use vstd::utf8::group_utf8_lib;

    let count = number::truncate(bits);
    let len = text.as_str().as_bytes().len();
    if len.checked_mul(count).is_none() {
        return Err(GlassError::UnknownError { error_message: "capacity overflow".to_owned() });
    }
    if len == 0 {
        proof {
            assert(decode_utf8(encode_utf8(text@)) == text@);
            lemma_repeated_empty(count as nat);
        }
        return Ok(Value::Str(text));
    }
    let mut out = String::new();
    let mut i: usize = 0;
    while i < count
        invariant
            i <= count,
            out@ == repeated(text@, i as nat),
        decreases count - i,
    {
        out.append(text.as_str());
        i += 1;
    }
    Ok(Value::Str(out))
}

/// Whether two values are equal.
pub fn same_value(a: &Value, b: &Value) -> (same: bool)
    ensures
        same == equals(a@, b@),
    decreases a,
{
    match (a, b) {
        (Value::Num(x), Value::Num(y)) => number::equal(*x, *y),
        (Value::Str(x), Value::Str(y)) => same_text(x.as_str(), y.as_str()),
        (Value::Bool(x), Value::Bool(y)) => *x == *y,
        (Value::List(x), Value::List(y)) => {
            proof {
                lemma_models(x@);
                lemma_models(y@);
            }
            if x.len() != y.len() {
                return false;
            }
            let mut i: usize = 0;
            while i < x.len()
                invariant
                    i <= x.len(),
                    x.len() == y.len(),
                    *a == Value::List(*x),
                    *b == Value::List(*y),
                    forall|j: int| 0 <= j < i ==> equals(#[trigger] x@[j].model(), y@[j].model()),
                decreases x.len() - i,
            {
                proof {
                    assert(a->List_0 == *x);
                }
                if !same_value(&x[i], &y[i]) {
                    proof {
                        lemma_models(x@);
                        lemma_models(y@);
                        assert(!equals(models(x@)[i as int], models(y@)[i as int]));
                    }
                    return false;
                }
                i += 1;
            }
            proof {
                lemma_models(x@);
                lemma_models(y@);
            }
            true
        },
        (Value::Dict(x), Value::Dict(y)) => {
            proof {
                x.lemma_finite();
                use_type_invariant(x);
                use_type_invariant(y);
            }
            let mut i: usize = 0;
            while i < x.entries.len()
                invariant
                    i <= x.entries.len(),
                    *a == Value::Dict(*x),
                    *b == Value::Dict(*y),
                    distinct_keys(x.entries@),
                    forall|j: int|
                        0 <= j < i ==> y@.dom().contains((#[trigger] x.entries@[j]).0@) && equals(
                            x.entries@[j].1.model(),
                            y@[x.entries@[j].0@],
                        ),
                decreases x.entries.len() - i,
            {
                proof {
                    lemma_entries_value(x.entries@, i as int);
                    assert(a->Dict_0 == *x);
                }
                let same = match y.get(x.entries[i].0.as_str()) {
                    Some(other) => same_value(&x.entries[i].1, other),
                    None => false,
                };
                if !same {
                    return false;
                }
                i += 1;
            }
            let mut k: usize = 0;
            while k < y.entries.len()
                invariant
                    k <= y.entries.len(),
                    *a == Value::Dict(*x),
                    *b == Value::Dict(*y),
                    forall|j: int|
                        0 <= j < k ==> x@.dom().contains((#[trigger] y.entries@[j]).0@),
                decreases y.entries.len() - k,
            {
                if x.get(y.entries[k].0.as_str()).is_none() {
                    proof {
                        lemma_entries_domain(y.entries@, y.entries@[k as int].0@);
                    }
                    return false;
                }
                k += 1;
            }
            proof {
                assert forall|key: Seq<char>| x@.dom().contains(key) == y@.dom().contains(
                    key,
                ) by {
                    lemma_entries_domain(x.entries@, key);
                    lemma_entries_domain(y.entries@, key);
                }
                assert(x@.dom() =~= y@.dom());
                assert forall|key: Seq<char>| x@.dom().contains(key) implies equals(
                    #[trigger] x@[key],
                    y@[key],
                ) by {
                    lemma_entries_domain(x.entries@, key);
                    let j = choose|j: int|
                        0 <= j < x.entries@.len() && (#[trigger] x.entries@[j]).0@ == key;
                    lemma_entries_value(x.entries@, j);
                }
            }
            true
        },
        (Value::Void, Value::Void) => true,
        _ => false,
    }
}

impl Value {
    /// The name of the value's type.
    fn get_type(&self) -> (name: String)
        ensures
            name@ == kind_name(self@),
    {
        match self {
            Value::Num(_) => "number".to_owned(),
            Value::Str(_) => "string".to_owned(),
            Value::Bool(_) => "boolean".to_owned(),
            Value::List(_) => "list".to_owned(),
            Value::Dict(_) => "dictionary".to_owned(),
            Value::Void => "void".to_owned(),
        }
    }

    /// An operator that is defined on two numbers alone and gives a number.
    fn arithmetic<N: Fn(Task) -> u64>(self, other: Value, op: NumOp, sign: &str, num: &N) -> (result:
        InterpreterResult)
        requires
            forall|task: Task| call_requires(*num, (task,)),
        ensures
            on_numbers(op, sign@, self@, other@, *num, result_view(result)),
    {
        match (self, other) {
            (Value::Num(a), Value::Num(b)) => Ok(Value::Num(ask(num, Task::Binary(op, a, b)))),
            (a, b) => Err(invalid(sign, &a, &b)),
        }
    }

    /// `**`: a number to the power of a number.
    pub fn pow<N: Fn(Task) -> u64>(self, other: Value, num: &N) -> (result: InterpreterResult)
        requires
            forall|task: Task| call_requires(*num, (task,)),
        ensures
            on_numbers(NumOp::Pow, "**"@, self@, other@, *num, result_view(result)),
    {
        self.arithmetic(other, NumOp::Pow, "**", num)
    }

    /// `and` of two booleans.
    pub fn and(self, other: Value) -> (result: InterpreterResult)
        ensures
            result_view(result) == joined("and"@, self@, other@, |x: bool, y: bool| x && y),
    {
        match (self, other) {
            (Value::Bool(a), Value::Bool(b)) => Ok(Value::Bool(a && b)),
            (a, b) => Err(invalid("and", &a, &b)),
        }
    }

    /// `or` of two booleans.
    pub fn or(self, other: Value) -> (result: InterpreterResult)
        ensures
            result_view(result) == joined("or"@, self@, other@, |x: bool, y: bool| x || y),
    {
        match (self, other) {
            (Value::Bool(a), Value::Bool(b)) => Ok(Value::Bool(a || b)),
            (a, b) => Err(invalid("or", &a, &b)),
        }
    }

    /// `+`: see `sum`.
    pub fn add<N: Fn(Task) -> u64, S: Fn(u64) -> String>(
        self,
        other: Value,
        num: &N,
        show: &S,
    ) -> (result: InterpreterResult)
        requires
            forall|task: Task| call_requires(*num, (task,)),
            forall|bits: u64| call_requires(*show, (bits,)),
        ensures
            sum(self@, other@, *num, *show, result_view(result)),
    {
        match (self, other) {
            (Value::Num(a), Value::Num(b)) => Ok(
                Value::Num(ask(num, Task::Binary(NumOp::Add, a, b))),
            ),
            (Value::Str(a), Value::Str(b)) => Ok(Value::Str(a.concat(b.as_str()))),
            (Value::List(mut a), Value::List(mut b)) => {
                proof {
                    lemma_models_concat(a@, b@);
                }
                a.append(&mut b);
                Ok(Value::List(a))
            },
            (Value::Str(a), Value::Num(b)) => {
                let written = write_out(show, b);
                Ok(Value::Str(a.concat(written.as_str())))
            },
            (Value::Num(a), Value::Str(b)) => {
                let written = write_out(show, a);
                Ok(Value::Str(written.concat(b.as_str())))
            },
            (Value::Dict(mut a), Value::Dict(b)) => {
                a.extend(b);
                Ok(Value::Dict(a))
            },
            (a, b) => Err(invalid("+", &a, &b)),
        }
    }

    /// `-`: the difference of two numbers.
    pub fn sub<N: Fn(Task) -> u64>(self, other: Value, num: &N) -> (result: InterpreterResult)
        requires
            forall|task: Task| call_requires(*num, (task,)),
        ensures
            on_numbers(NumOp::Sub, "-"@, self@, other@, *num, result_view(result)),
    {
        self.arithmetic(other, NumOp::Sub, "-", num)
    }

    /// `*`: see `product`.
    pub fn mul<N: Fn(Task) -> u64>(self, other: Value, num: &N) -> (result: InterpreterResult)
        requires
            forall|task: Task| call_requires(*num, (task,)),
        ensures
            product(self@, other@, *num, result_view(result)),
    {
        match (self, other) {
            (Value::Num(a), Value::Num(b)) => Ok(
                Value::Num(ask(num, Task::Binary(NumOp::Mul, a, b))),
            ),
            (Value::Str(a), Value::Num(b)) => repeat_text(a, b),
            (Value::Num(b), Value::Str(a)) => repeat_text(a, b),
            (a, b) => Err(invalid("*", &a, &b)),
        }
    }

    /// `/`: the quotient of two numbers.
    pub fn div<N: Fn(Task) -> u64>(self, other: Value, num: &N) -> (result: InterpreterResult)
        requires
            forall|task: Task| call_requires(*num, (task,)),
        ensures
            on_numbers(NumOp::Div, "/"@, self@, other@, *num, result_view(result)),
    {
        self.arithmetic(other, NumOp::Div, "/", num)
    }

    /// `%`: the remainder of two numbers.
    pub fn rem<N: Fn(Task) -> u64>(self, other: Value, num: &N) -> (result: InterpreterResult)
        requires
            forall|task: Task| call_requires(*num, (task,)),
        ensures
            on_numbers(NumOp::Rem, "%"@, self@, other@, *num, result_view(result)),
    {
        self.arithmetic(other, NumOp::Rem, "%", num)
    }

    /// `==`: whether two values are equal; never an error.
    pub fn eq(self, other: Value) -> (result: InterpreterResult)
        ensures
            result_view(result) == Ok::<ValueView, ErrorView>(
                ValueView::Bool(equals(self@, other@)),
            ),
    {
        Ok(Value::Bool(same_value(&self, &other)))
    }

    /// `!=`: whether two values are unequal; never an error.
    pub fn ne(self, other: Value) -> (result: InterpreterResult)
        ensures
            result_view(result) == Ok::<ValueView, ErrorView>(
                ValueView::Bool(!equals(self@, other@)),
            ),
    {
        Ok(Value::Bool(!same_value(&self, &other)))
    }

    /// `<` on two numbers.
    pub fn lt(self, other: Value) -> (result: InterpreterResult)
        ensures
            result_view(result) == ordered(
                "<"@,
                self@,
                other@,
                |x: u64, y: u64| number::below(x, y),
            ),
    {
        match (self, other) {
            (Value::Num(a), Value::Num(b)) => Ok(Value::Bool(number::less(a, b))),
            (a, b) => Err(invalid("<", &a, &b)),
        }
    }

    /// `<=` on two numbers.
    pub fn le(self, other: Value) -> (result: InterpreterResult)
        ensures
            result_view(result) == ordered(
                "<="@,
                self@,
                other@,
                |x: u64, y: u64| number::below(x, y) || number::same(x, y),
            ),
    {
        match (self, other) {
            (Value::Num(a), Value::Num(b)) => Ok(Value::Bool(number::less_or_equal(a, b))),
            (a, b) => Err(invalid("<=", &a, &b)),
        }
    }

    /// `>` on two numbers.
    pub fn gt(self, other: Value) -> (result: InterpreterResult)
        ensures
            result_view(result) == ordered(
                ">"@,
                self@,
                other@,
                |x: u64, y: u64| number::below(y, x),
            ),
    {
        match (self, other) {
            (Value::Num(a), Value::Num(b)) => Ok(Value::Bool(number::less(b, a))),
            (a, b) => Err(invalid(">", &a, &b)),
        }
    }

    /// `>=` on two numbers.
    pub fn ge(self, other: Value) -> (result: InterpreterResult)
        ensures
            result_view(result) == ordered(
                ">="@,
                self@,
                other@,
                |x: u64, y: u64| number::below(y, x) || number::same(x, y),
            ),
    {
        match (self, other) {
            (Value::Num(a), Value::Num(b)) => Ok(Value::Bool(number::less_or_equal(b, a))),
            (a, b) => Err(invalid(">=", &a, &b)),
        }
    }

    /// `not` of a boolean.
    pub fn not(self) -> (result: InterpreterResult)
        ensures
            result_view(result) == inverted(self@),
    {
        match self {
            Value::Bool(a) => Ok(Value::Bool(!a)),
            a => Err(
                GlassError::InvalidUnaryOperation {
                    operation: "not".to_owned(),
                    operand: a.get_type(),
                },
            ),
        }
    }

    /// Unary `-` of a number.
    pub fn neg(self) -> (result: InterpreterResult)
        ensures
            result_view(result) == negated(self@),
    {
        match self {
            Value::Num(a) => Ok(Value::Num(number::negate(a))),
            a => Err(
                GlassError::InvalidUnaryOperation {
                    operation: "-".to_owned(),
                    operand: a.get_type(),
                },
            ),
        }
    }
}

} // verus!
