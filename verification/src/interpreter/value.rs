//! Values of the tree-walking interpreter and the operators between them.
use crate::interpreter::lexer::Op;
use crate::numbers::{i64_decimal, int_decimal, parse_i64, parse_i64_spec};
use crate::text::{chars_of, is_literal, string_of};
use vstd::prelude::*;

verus! {

/// A runtime value.
#[derive(Debug, Clone, PartialEq, Eq)]
pub enum Value {
    String(String),
    Number(i64),
    Bool(bool),
    Null,
}

pub enum ValueV {
    String(Seq<char>),
    Number(i64),
    Bool(bool),
    Null,
}

impl View for Value {
    type V = ValueV;

    open spec fn view(&self) -> ValueV {
        match self {
            Value::String(s) => ValueV::String(s@),
            Value::Number(n) => ValueV::Number(*n),
            Value::Bool(b) => ValueV::Bool(*b),
            Value::Null => ValueV::Null,
        }
    }
}

/// Converts `v` to the variant of `target`. Casting to `Null` is not
/// defined.
pub open spec fn cast_spec(v: ValueV, target: ValueV) -> ValueV
    recommends
        !(target is Null),
{
    match target {
        ValueV::Bool(_) => match v {
            ValueV::Bool(_) => v,
            ValueV::Number(n) => ValueV::Bool(n > 0),
            ValueV::Null => ValueV::Bool(false),
            ValueV::String(s) => ValueV::Bool(s == "true"@),
        },
        ValueV::String(_) => ValueV::String(to_string_spec(v)),
        _ => ValueV::Number(to_number_spec(v)),
    }
}

/// Truth of a value: a positive number, `true`, or the string `"true"`.
pub open spec fn to_bool_spec(v: ValueV) -> bool {
    match v {
        ValueV::Bool(b) => b,
        ValueV::Number(n) => n > 0,
        ValueV::Null => false,
        ValueV::String(s) => s == "true"@,
    }
}

/// The number of a value; a string that does not parse counts as zero.
pub open spec fn to_number_spec(v: ValueV) -> i64 {
    match v {
        ValueV::Number(n) => n,
        ValueV::String(s) => match parse_i64_spec(s) {
            Some(n) => n,
            None => 0,
        },
        ValueV::Bool(b) => if b {
            1
        } else {
            0
        },
        ValueV::Null => 0,
    }
}

/// The text of a value.
pub open spec fn to_string_spec(v: ValueV) -> Seq<char> {
    match v {
        ValueV::String(s) => s,
        ValueV::Bool(b) => if b {
            "true"@
        } else {
            "false"@
        },
        ValueV::Number(n) => int_decimal(n as int),
        ValueV::Null => Seq::empty(),
    }
}

impl Value {
    /// Converts `self` to the variant of `vtype`, which must not be `Null`.
    pub fn cast(&self, vtype: Value) -> (r: Value)
        requires
            !(vtype is Null),
        ensures
            r@ == cast_spec(self@, vtype@),
    {
        match vtype {
            Value::Bool(_) => Value::Bool(self.to_bool()),
            Value::String(_) => Value::String(self.to_string()),
            _ => Value::Number(self.to_number()),
        }
    }

    pub fn to_bool(&self) -> (r: bool)
        ensures
            r == to_bool_spec(self@),
    {
        match self {
            Value::Bool(b) => *b,
            Value::Number(n) => *n > 0,
            Value::Null => false,
            Value::String(s) => {
                let c = chars_of(s.as_str());
                is_literal(&c, "true")
            },
        }
    }

    pub fn to_number(&self) -> (r: i64)
        ensures
            r == to_number_spec(self@),
    {
        match self {
            Value::Number(n) => *n,
            Value::String(s) => {
                let c = chars_of(s.as_str());
                match parse_i64(&c) {
                    Some(n) => n,
                    None => 0,
                }
            },
            Value::Bool(b) => if *b {
                1
            } else {
                0
            },
            Value::Null => 0,
        }
    }

    pub fn to_string(&self) -> (r: String)
        ensures
            r@ == to_string_spec(self@),
    {
        match self {
            Value::String(s) => s.clone(),
            Value::Bool(b) => if *b {
                String::from_str("true")
            } else {
                String::from_str("false")
            },
            Value::Number(n) => {
                let d = i64_decimal(*n);
                string_of(&d)
            },
            Value::Null => String::new(),
        }
    }
}

/// Why an operator could not be applied.
#[derive(Debug, Clone, Copy, PartialEq, Eq, Structural)]
pub enum ValueError {
    /// The result does not fit in an `i64`.
    Overflow,
    /// Division by zero.
    DivisionByZero,
}

pub open spec fn in_i64(v: int) -> bool {
    i64::MIN <= v && v <= i64::MAX
}

/// `b` to the power `e`.
pub open spec fn ipow(b: int, e: nat) -> int
    decreases e,
{
    if e == 0 {
        1
    } else {
        b * ipow(b, (e - 1) as nat)
    }
}

pub open spec fn checked(v: int) -> Result<ValueV, ValueError> {
    if in_i64(v) {
        Ok(ValueV::Number(v as i64))
    } else {
        Err(ValueError::Overflow)
    }
}

/// The result of `buffer <op> v`. Arithmetic works on the numbers of both
/// sides; `!` looks at the right side only; `==` compares the values
/// themselves and `!=` their truth.
pub open spec fn apply_spec(op: Op, buffer: ValueV, v: ValueV) -> Result<ValueV, ValueError> {
    let a = to_number_spec(buffer) as int;
    let b = to_number_spec(v) as int;
    match op {
        Op::Not => Ok(ValueV::Bool(!to_bool_spec(v))),
        Op::Or => Ok(ValueV::Bool(to_bool_spec(buffer) || to_bool_spec(v))),
        Op::And => Ok(ValueV::Bool(to_bool_spec(buffer) && to_bool_spec(v))),
        Op::EqualTo => Ok(ValueV::Bool(buffer == v)),
        Op::NotEqualTo => Ok(ValueV::Bool(to_bool_spec(buffer) != to_bool_spec(v))),
        Op::GreaterThan => Ok(ValueV::Bool(a > b)),
        Op::GreaterThanOrEqualTo => Ok(ValueV::Bool(a >= b)),
        Op::LessThan => Ok(ValueV::Bool(a < b)),
        Op::LessThanOrEqualTo => Ok(ValueV::Bool(a <= b)),
        Op::Plus => checked(a + b),
        Op::Minus => checked(a - b),
        Op::Multiply => checked(a * b),
        Op::Divide => if b == 0 {
            Err(ValueError::DivisionByZero)
        } else {
            checked(crate::script::trunc_div(a, b))
        },
        Op::Power => checked(ipow(a, (b % 4294967296) as nat)),
    }
}

/// A copy of a value.
pub fn copy_value(v: &Value) -> (r: Value)
    ensures
        r@ == v@,
{
    match v {
        Value::String(s) => Value::String(s.clone()),
        Value::Number(n) => Value::Number(*n),
        Value::Bool(b) => Value::Bool(*b),
        Value::Null => Value::Null,
    }
}

/// Whether two values are equal (same variant, same content).
pub fn values_equal(a: &Value, b: &Value) -> (r: bool)
    ensures
        r == (a@ == b@),
{
    match (a, b) {
        (Value::String(x), Value::String(y)) => *x == *y,
        (Value::Number(x), Value::Number(y)) => *x == *y,
        (Value::Bool(x), Value::Bool(y)) => *x == *y,
        (Value::Null, Value::Null) => true,
        _ => false,
    }
}

pub open spec fn abs(x: int) -> int {
    if x < 0 {
        -x
    } else {
        x
    }
}

proof fn lemma_ipow_abs_mono(b: int, e: nat)
    requires
        b >= 1 || b <= -1,
    ensures
        ipow(b, e + 1) == b * ipow(b, e),
        abs(ipow(b, e + 1)) >= abs(ipow(b, e)),
        (b >= 2 || b <= -2) ==> abs(ipow(b, e + 1)) >= 2 * abs(ipow(b, e)),
{
    let p = ipow(b, e);
    assert(ipow(b, e + 1) == b * p);
    assert(abs(b * p) == abs(b) * abs(p)) by (nonlinear_arith);
    assert(abs(b) * abs(p) >= abs(p)) by (nonlinear_arith)
        requires
            abs(b) >= 1,
            abs(p) >= 0,
    ;
    if b >= 2 || b <= -2 {
        assert(abs(b) * abs(p) >= 2 * abs(p)) by (nonlinear_arith)
            requires
                abs(b) >= 2,
                abs(p) >= 0,
        ;
    }
}

proof fn lemma_ipow_abs_grows(b: int, k: nat, e: nat)
    requires
        b >= 2 || b <= -2,
        k < e,
    ensures
        abs(ipow(b, e)) >= 2 * abs(ipow(b, k)),
    decreases e - k,
{
    lemma_ipow_abs_mono(b, k);
    if k + 1 < e {
        lemma_ipow_abs_grows(b, k + 1, e);
    }
}

proof fn lemma_ipow_small(b: int, e: nat)
    ensures
        b == 0 ==> ipow(b, e) == (if e == 0 {
            1int
        } else {
            0int
        }),
        b == 1 ==> ipow(b, e) == 1,
        b == -1 ==> ipow(b, e) == (if e % 2 == 0 {
            1int
        } else {
            -1int
        }),
    decreases e,
{
    if e > 0 {
        lemma_ipow_small(b, (e - 1) as nat);
    }
}

/// `i64::pow`, or `None` where it overflows.
pub fn checked_pow(base: i64, exp: u32) -> (r: Option<i64>)
    ensures
        match r {
            Some(x) => x as int == ipow(base as int, exp as nat),
            None => !in_i64(ipow(base as int, exp as nat)),
        },
{
    proof {
        lemma_ipow_small(base as int, exp as nat);
    }
    if base == 0 {
        return if exp == 0 {
            Some(1)
        } else {
            Some(0)
        };
    }
    if base == 1 {
        return Some(1);
    }
    if base == -1 {
        return if exp % 2 == 0 {
            Some(1)
        } else {
            Some(-1)
        };
    }
    let mut acc: i64 = 1;
    let mut i: u32 = 0;
    while i < exp
        invariant
            i <= exp,
            base >= 2 || base <= -2,
            acc as int == ipow(base as int, i as nat),
        decreases exp - i,
    {
        let x: i128 = acc as i128;
        let y: i128 = base as i128;
        assert(-9223372036854775808 * 9223372036854775808 <= x * y <= 9223372036854775808
            * 9223372036854775808) by (nonlinear_arith)
            requires
                -9223372036854775808 <= x <= 9223372036854775807,
                -9223372036854775808 <= y <= 9223372036854775807,
        ;
        let p: i128 = x * y;
        proof {
            lemma_ipow_abs_mono(base as int, i as nat);
        }
        if p > 9223372036854775807i128 || p < -9223372036854775808i128 {
            proof {
                if i + 1 < exp {
                    lemma_ipow_abs_grows(base as int, (i + 1) as nat, exp as nat);
                }
            }
            return None;
        }
        acc = p as i64;
        i = i + 1;
    }
    Some(acc)
}

fn number_result(v: i128) -> (r: Result<Value, ValueError>)
    ensures
        match r {
            Ok(x) => checked(v as int) == Ok::<ValueV, ValueError>(x@),
            Err(e) => checked(v as int) == Err::<ValueV, ValueError>(e),
        },
{
    if v > 9223372036854775807i128 || v < -9223372036854775808i128 {
        Err(ValueError::Overflow)
    } else {
        Ok(Value::Number(v as i64))
    }
}

/// The low 32 bits of `b`, which is what `b as u32` keeps.
fn low_word(b: i64) -> (e: u32)
    ensures
        e as int == (b as int) % 4294967296,
{
    if b >= 0 {
        let r: i64 = b % 4294967296;
        r as u32
    } else {
        let t: i128 = -(b as i128);
        let r: i128 = t % 4294967296;
        proof {
            let bi = b as int;
            let ti = t as int;
            let m = 4294967296int;
            assert(ti == -bi);
            assert(r == ti % m);
            assert(r == 0 ==> bi % m == 0) by (nonlinear_arith)
                requires
                    ti == -bi,
                    r == ti % m,
                    m == 4294967296int,
            ;
            assert(r != 0 ==> bi % m == m - r) by (nonlinear_arith)
                requires
                    ti == -bi,
                    r == ti % m,
                    m == 4294967296int,
                    ti > 0,
            ;
        }
        if r == 0 {
            0
        } else {
            (4294967296i128 - r) as u32
        }
    }
}

/// Applies one operator between the value computed so far and the next one.
pub fn apply_op(op: Op, buffer: &Value, v: &Value) -> (r: Result<Value, ValueError>)
    ensures
        match r {
            Ok(x) => apply_spec(op, buffer@, v@) == Ok::<ValueV, ValueError>(x@),
            Err(e) => apply_spec(op, buffer@, v@) == Err::<ValueV, ValueError>(e),
        },
{
    let a = buffer.to_number();
    let b = v.to_number();
    match op {
        Op::Not => Ok(Value::Bool(!v.to_bool())),
        Op::Or => Ok(Value::Bool(buffer.to_bool() || v.to_bool())),
        Op::And => Ok(Value::Bool(buffer.to_bool() && v.to_bool())),
        Op::EqualTo => Ok(Value::Bool(values_equal(buffer, v))),
        Op::NotEqualTo => Ok(Value::Bool(buffer.to_bool() != v.to_bool())),
        Op::GreaterThan => Ok(Value::Bool(a > b)),
        Op::GreaterThanOrEqualTo => Ok(Value::Bool(a >= b)),
        Op::LessThan => Ok(Value::Bool(a < b)),
        Op::LessThanOrEqualTo => Ok(Value::Bool(a <= b)),
        Op::Plus => number_result(a as i128 + b as i128),
        Op::Minus => number_result(a as i128 - b as i128),
        Op::Multiply => {
            let x: i128 = a as i128;
            let y: i128 = b as i128;
            assert(-9223372036854775808 * 9223372036854775808 <= x * y <= 9223372036854775808
                * 9223372036854775808) by (nonlinear_arith)
                requires
                    -9223372036854775808 <= x <= 9223372036854775807,
                    -9223372036854775808 <= y <= 9223372036854775807,
            ;
            number_result(x * y)
        },
        Op::Divide => {
            if b == 0 {
                Err(ValueError::DivisionByZero)
            } else {
                let x: i128 = if a < 0 {
                    -(a as i128)
                } else {
                    a as i128
                };
                let y: i128 = if b < 0 {
                    -(b as i128)
                } else {
                    b as i128
                };
                let q: i128 = x / y;
                assert(q <= x) by (nonlinear_arith)
                    requires
                        x >= 0,
                        y >= 1,
                        q == x / y,
                ;
                let r: i128 = if (a < 0) != (b < 0) {
                    -q
                } else {
                    q
                };
                number_result(r)
            }
        },
        Op::Power => {
            let e: u32 = low_word(b);
            match checked_pow(a, e) {
                Some(x) => Ok(Value::Number(x)),
                None => Err(ValueError::Overflow),
            }
        },
    }
}

/// An evaluated piece of an expression: a value or an operator.
#[derive(Debug)]
pub enum ExpressionVal {
    Value(Value),
    Op(Op),
}

pub enum ExprItem {
    Value(ValueV),
    Op(Op),
}

impl View for ExpressionVal {
    type V = ExprItem;

    open spec fn view(&self) -> ExprItem {
        match self {
            ExpressionVal::Value(v) => ExprItem::Value(v@),
            ExpressionVal::Op(o) => ExprItem::Op(*o),
        }
    }
}

/// The value so far and the current operator after reading `items` on top
/// of `first`. Operators stay in force until the next one; the first
/// operator in force is `!`.
pub open spec fn fold_items(first: ValueV, items: Seq<ExprItem>) -> Result<(ValueV, Op), ValueError>
    decreases items.len(),
{
    if items.len() == 0 {
        Ok((first, Op::Not))
    } else {
        match fold_items(first, items.drop_last()) {
            Err(e) => Err(e),
            Ok((buffer, opr)) => match items.last() {
                ExprItem::Op(o) => Ok((buffer, o)),
                ExprItem::Value(v) => match apply_spec(opr, buffer, v) {
                    Ok(nb) => Ok((nb, opr)),
                    Err(e) => Err(e),
                },
            },
        }
    }
}

/// The value of an expression whose pieces have been evaluated, read
/// strictly left to right without precedence.
pub open spec fn evaluate_values_spec(items: Seq<ExprItem>) -> Result<ValueV, ValueError>
    recommends
        items.len() > 0,
        items[0] is Value,
{
    match fold_items(items[0]->Value_0, items.drop_first()) {
        Ok((v, _)) => Ok(v),
        Err(e) => Err(e),
    }
}

proof fn lemma_fold_items_stops(first: ValueV, items: Seq<ExprItem>, j: int)
    requires
        0 <= j <= items.len(),
        fold_items(first, items.take(j)) is Err,
    ensures
        fold_items(first, items) == fold_items(first, items.take(j)),
    decreases items.len(),
{
    if j < items.len() {
        assert(items.drop_last().take(j) =~= items.take(j));
        lemma_fold_items_stops(first, items.drop_last(), j);
    } else {
        assert(items.take(j) =~= items);
    }
}

/// Evaluates an expression from its evaluated pieces, left to right; the
/// first piece must be a value.
pub fn evaluate_values(vals: Vec<ExpressionVal>) -> (r: Result<Value, ValueError>)
    requires
        vals@.len() > 0,
        vals@[0]@ is Value,
    ensures
        match r {
            Ok(v) => evaluate_values_spec(vals@.map_values(|e: ExpressionVal| e@)) == Ok::<
                ValueV,
                ValueError,
            >(v@),
            Err(e) => evaluate_values_spec(vals@.map_values(|e: ExpressionVal| e@)) == Err::<
                ValueV,
                ValueError,
            >(e),
        },
{
    let ghost items = vals@.map_values(|e: ExpressionVal| e@);
    let ghost rest = items.drop_first();
    let mut buffer = match &vals[0] {
        ExpressionVal::Value(v) => copy_value(v),
        ExpressionVal::Op(_) => {
            assert(false);
            Value::Null
        },
    };
    let mut opr = Op::Not;
    let mut i: usize = 1;
    assert(rest.take(0) =~= Seq::<ExprItem>::empty());
    while i < vals.len()
        invariant
            items == vals@.map_values(|e: ExpressionVal| e@),
            rest == items.drop_first(),
            1 <= i <= vals@.len(),
            fold_items(items[0]->Value_0, rest.take(i - 1)) == Ok::<(ValueV, Op), ValueError>(
                (buffer@, opr),
            ),
        decreases vals@.len() - i,
    {
        assert(rest.take(i as int).drop_last() =~= rest.take(i - 1));
        assert(rest.take(i as int).last() == vals@[i as int]@);
        match &vals[i] {
            ExpressionVal::Op(op) => {
                opr = *op;
            },
            ExpressionVal::Value(v) => {
                match apply_op(opr, &buffer, v) {
                    Ok(nb) => {
                        buffer = nb;
                    },
                    Err(e) => {
                        proof {
                            lemma_fold_items_stops(items[0]->Value_0, rest, i as int);
                        }
                        return Err(e);
                    },
                }
            },
        }
        i = i + 1;
    }
    assert(rest.take(vals@.len() - 1) =~= rest);
    Ok(buffer)
}

/// A number written out as text and read back as a number is unchanged.
pub proof fn law_number_text_round_trip(n: i64)
    ensures
        to_number_spec(ValueV::String(to_string_spec(ValueV::Number(n)))) == n,
{
    crate::numbers::law_decimal_round_trip(n);
}

/// Law: the comparison operators compare the numbers of their two sides,
/// left against right. `a > b` is `b < a` and `a >= b` is `b <= a`; of `<`,
/// `==` of the numbers and `>` exactly one holds; `>=` is the negation of
/// `<` and `<=` that of `>`.
pub proof fn law_comparisons(x: ValueV, y: ValueV)
    ensures
        apply_spec(Op::LessThan, x, y) == Ok::<ValueV, ValueError>(ValueV::Bool(
            to_number_spec(x) < to_number_spec(y),
        )),
        apply_spec(Op::GreaterThan, x, y) == Ok::<ValueV, ValueError>(ValueV::Bool(
            to_number_spec(x) > to_number_spec(y),
        )),
        apply_spec(Op::LessThanOrEqualTo, x, y) == Ok::<ValueV, ValueError>(ValueV::Bool(
            to_number_spec(x) <= to_number_spec(y),
        )),
        apply_spec(Op::GreaterThanOrEqualTo, x, y) == Ok::<ValueV, ValueError>(ValueV::Bool(
            to_number_spec(x) >= to_number_spec(y),
        )),
        apply_spec(Op::GreaterThan, x, y) == apply_spec(Op::LessThan, y, x),
        apply_spec(Op::GreaterThanOrEqualTo, x, y) == apply_spec(Op::LessThanOrEqualTo, y, x),
        apply_spec(Op::GreaterThan, x, y) == Ok::<ValueV, ValueError>(ValueV::Bool(true))
            ==> apply_spec(Op::LessThan, x, y) == Ok::<ValueV, ValueError>(ValueV::Bool(false)),
        to_number_spec(x) < to_number_spec(y) ==> apply_spec(Op::GreaterThan, x, y) == Ok::<
            ValueV,
            ValueError,
        >(ValueV::Bool(false)),
        apply_spec(Op::GreaterThanOrEqualTo, x, y) matches Ok(ValueV::Bool(ge)) && apply_spec(
            Op::LessThan,
            x,
            y,
        ) matches Ok(ValueV::Bool(lt)) && ge == !lt,
        apply_spec(Op::LessThanOrEqualTo, x, y) matches Ok(ValueV::Bool(le)) && apply_spec(
            Op::GreaterThan,
            x,
            y,
        ) matches Ok(ValueV::Bool(gt)) && le == !gt,
{
}

/// Law: the arithmetic operators compute on the numbers of their two sides,
/// left operand first, and fail exactly when the result leaves `i64` (or on
/// a division by zero): `+` and `*` do not depend on the order of their
/// sides, and the difference `x - y` added to `y` gives `x` back.
pub proof fn law_arithmetic(x: ValueV, y: ValueV)
    ensures
        ({
            let a = to_number_spec(x) as int;
            let b = to_number_spec(y) as int;
            &&& in_i64(a + b) ==> apply_spec(Op::Plus, x, y) == Ok::<ValueV, ValueError>(
                ValueV::Number((a + b) as i64),
            )
            &&& !in_i64(a + b) ==> apply_spec(Op::Plus, x, y) == Err::<ValueV, ValueError>(
                ValueError::Overflow,
            )
            &&& in_i64(a - b) ==> apply_spec(Op::Minus, x, y) == Ok::<ValueV, ValueError>(
                ValueV::Number((a - b) as i64),
            )
            &&& apply_spec(Op::Minus, x, y) matches Ok(ValueV::Number(d)) ==> d + b == a
            &&& in_i64(a * b) ==> apply_spec(Op::Multiply, x, y) == Ok::<ValueV, ValueError>(
                ValueV::Number((a * b) as i64),
            )
            &&& apply_spec(Op::Plus, x, y) == apply_spec(Op::Plus, y, x)
            &&& apply_spec(Op::Multiply, x, y) == apply_spec(Op::Multiply, y, x)
            &&& b == 0 ==> apply_spec(Op::Divide, x, y) == Err::<ValueV, ValueError>(
                ValueError::DivisionByZero,
            )
            &&& b != 0 && a % b == 0 && in_i64(a / b) ==> apply_spec(Op::Divide, x, y) == Ok::<
                ValueV,
                ValueError,
            >(ValueV::Number((a / b) as i64))
        }),
{
    let a = to_number_spec(x) as int;
    let b = to_number_spec(y) as int;
    assert(a * b == b * a) by (nonlinear_arith);
    if b != 0 && a % b == 0 {
        crate::script::law_integer_division(a, b);
    }
}

/// Law: the logical operators work on the truth of their sides: `&&` and
/// `||` on both, in either order, `!` on its right side alone.
pub proof fn law_logic(x: ValueV, y: ValueV)
    ensures
        apply_spec(Op::And, x, y) == Ok::<ValueV, ValueError>(ValueV::Bool(
            to_bool_spec(x) && to_bool_spec(y),
        )),
        apply_spec(Op::Or, x, y) == Ok::<ValueV, ValueError>(ValueV::Bool(
            to_bool_spec(x) || to_bool_spec(y),
        )),
        apply_spec(Op::And, x, y) == apply_spec(Op::And, y, x),
        apply_spec(Op::Or, x, y) == apply_spec(Op::Or, y, x),
        apply_spec(Op::Not, x, y) == Ok::<ValueV, ValueError>(ValueV::Bool(!to_bool_spec(y))),
{
}

/// Law: expressions are read strictly left to right. Whatever the pieces
/// so far evaluate to, one more operator and value apply that operator to
/// it and the new value: `a - b - c` is `(a - b) - c`, and `a + b * c` is
/// `(a + b) * c`.
pub proof fn law_left_to_right(items: Seq<ExprItem>, o: Op, w: ValueV)
    requires
        items.len() > 0,
        items[0] is Value,
        evaluate_values_spec(items) is Ok,
    ensures
        evaluate_values_spec(items + seq![ExprItem::Op(o), ExprItem::Value(w)]) == apply_spec(
            o,
            evaluate_values_spec(items)->Ok_0,
            w,
        ),
{
    let all = items + seq![ExprItem::Op(o), ExprItem::Value(w)];
    let rest = all.drop_first();
    assert(all[0] == items[0]);
    assert(rest.drop_last().drop_last() =~= items.drop_first());
    assert(rest.drop_last().last() == ExprItem::Op(o));
    assert(rest.last() == ExprItem::Value(w));
    let first = items[0]->Value_0;
    let (v0, op0) = fold_items(first, items.drop_first())->Ok_0;
    assert(fold_items(first, rest.drop_last()) == Ok::<(ValueV, Op), ValueError>((v0, o)));
    assert(fold_items(first, rest) == match apply_spec(o, v0, w) {
        Ok(nb) => Ok::<(ValueV, Op), ValueError>((nb, o)),
        Err(e) => Err(e),
    });
}

/// Law: how values convert. Truth: a number is true exactly when it is
/// positive, a string exactly when it is `"true"`, `null` never. Numbers:
/// `true` is one and `false` zero, `null` zero, and a boolean's or number's
/// text reads back as the same truth or number. A cast gives the converted
/// value in the target's variant, and casting a value to its own variant
/// keeps it.
pub proof fn law_conversions(v: ValueV, n: i64, b: bool)
    ensures
        to_bool_spec(ValueV::Number(n)) <==> n > 0,
        !to_bool_spec(ValueV::Null),
        to_bool_spec(ValueV::Bool(b)) == b,
        to_number_spec(ValueV::Bool(b)) == (if b { 1i64 } else { 0i64 }),
        to_number_spec(ValueV::Null) == 0,
        to_number_spec(ValueV::Number(n)) == n,
        to_number_spec(ValueV::String(to_string_spec(ValueV::Number(n)))) == n,
        to_bool_spec(ValueV::String(to_string_spec(ValueV::Bool(b)))) == b,
        cast_spec(v, ValueV::Bool(b)) == ValueV::Bool(to_bool_spec(v)),
        cast_spec(v, ValueV::Number(n)) == ValueV::Number(to_number_spec(v)),
        cast_spec(v, ValueV::String(Seq::empty())) == ValueV::String(to_string_spec(v)),
        cast_spec(ValueV::Number(n), ValueV::Number(0)) == ValueV::Number(n),
{
    law_number_text_round_trip(n);
    reveal_strlit("true");
    reveal_strlit("false");
    assert("true"@ != "false"@) by {
        assert("true"@.len() != "false"@.len());
    }
}

} // verus!
