//! The arithmetic operations and the recorded line of text.
//!
//! Each operation validates its domain and computes its result over
//! `u128`; the square root is the floor square root, found by binary
//! search.  A successful calculation is rendered as a line such as
//! `"2 + 5 = 7"` (or `"√5 = 2"` for the unary case), with the decimal
//! rendering verified against a recursive specification.

use vstd::prelude::*;
use vstd::string::StringExecFns;
use crate::store::slice_eq;

verus! {

/// Why a calculation was rejected.
#[derive(Clone, Copy, PartialEq, Eq, Debug)]
pub enum CalcError {
    AddOverflow,
    SubUnderflow,
    MulOverflow,
    DivByZero,
}

impl CalcError {
    /// The text reported for this rejection.
    pub open spec fn spec_message(self) -> Seq<char> {
        match self {
            CalcError::AddOverflow => "Invalid input: The input numbers are too large"@,
            CalcError::SubUnderflow => "Invalid input: The second argument is larger than the first, cannot calculate negative results"@,
            CalcError::MulOverflow => "Invalid input: The multiplication is too large. Cannot calculate results larger than"@,
            CalcError::DivByZero => "Invalid input: Cannot devide by zero!"@,
        }
    }

    pub fn message(&self) -> (r: String)
        ensures
            r@ == self.spec_message(),
    {
        match self {
            CalcError::AddOverflow => String::from_str(
                "Invalid input: The input numbers are too large",
            ),
            CalcError::SubUnderflow => String::from_str(
                "Invalid input: The second argument is larger than the first, cannot calculate negative results",
            ),
            CalcError::MulOverflow => String::from_str(
                "Invalid input: The multiplication is too large. Cannot calculate results larger than",
            ),
            CalcError::DivByZero => String::from_str("Invalid input: Cannot devide by zero!"),
        }
    }
}

/// Addition, rejecting sums beyond the integer width.
pub fn calculate_add(n1: u128, n2: u128) -> (r: Result<u128, CalcError>)
    ensures
        match r {
            Ok(v) => n1 + n2 <= u128::MAX && v == n1 + n2,
            Err(e) => n1 + n2 > u128::MAX && e == CalcError::AddOverflow,
        },
{
    match n1.checked_add(n2) {
        Some(v) => Ok(v),
        None => Err(CalcError::AddOverflow),
    }
}

/// Subtraction, rejecting negative results.
pub fn calculate_sub(n1: u128, n2: u128) -> (r: Result<u128, CalcError>)
    ensures
        match r {
            Ok(v) => n1 >= n2 && v == n1 - n2,
            Err(e) => n1 < n2 && e == CalcError::SubUnderflow,
        },
{
    match n1.checked_sub(n2) {
        Some(v) => Ok(v),
        None => Err(CalcError::SubUnderflow),
    }
}

/// Multiplication, rejecting products beyond the integer width.
pub fn calculate_mul(n1: u128, n2: u128) -> (r: Result<u128, CalcError>)
    ensures
        match r {
            Ok(v) => n1 * n2 <= u128::MAX && v == n1 * n2,
            Err(e) => n1 * n2 > u128::MAX && e == CalcError::MulOverflow,
        },
{
    match n1.checked_mul(n2) {
        Some(v) => Ok(v),
        None => Err(CalcError::MulOverflow),
    }
}

/// Integer division, rounding down, rejecting a zero divisor.
pub fn calculate_div(n1: u128, n2: u128) -> (r: Result<u128, CalcError>)
    ensures
        match r {
            Ok(v) => n2 != 0 && v == n1 / n2,
            Err(e) => n2 == 0 && e == CalcError::DivByZero,
        },
{
    match n1.checked_div(n2) {
        Some(v) => Ok(v),
        None => Err(CalcError::DivByZero),
    }
}

/// The floor square root, by binary search; never fails.  The second
/// argument only pads the common operation shape and is ignored.
pub fn calculate_sqrt(n1: u128, _n2: u128) -> (r: Result<u128, CalcError>)
    ensures
        r is Ok,
        (r->Ok_0) * (r->Ok_0) <= n1,
        (r->Ok_0 + 1) * (r->Ok_0 + 1) > n1,
{
    if n1 == 0 || n1 == 1 {
        proof {
            assert((n1 + 1) * (n1 + 1) > n1) by (nonlinear_arith)
                requires
                    n1 <= 1u128,
            ;
            assert(n1 * n1 <= n1) by (nonlinear_arith)
                requires
                    n1 <= 1u128,
            ;
        }
        return Ok(n1);
    }
    let bound: u128 = 0xffff_ffff_ffff_ffff;
    let mut left: u128 = 0;
    let mut right: u128 = if n1 < bound {
        n1
    } else {
        bound
    };
    proof {
        if n1 < bound {
            assert((n1 + 1) * (n1 + 1) > n1) by (nonlinear_arith)
                requires
                    n1 >= 2u128,
            ;
        } else {
            assert((bound + 1) * (bound + 1) > n1) by (nonlinear_arith)
                requires
                    n1 <= u128::MAX,
                    bound == 0xffff_ffff_ffff_ffffu128,
            ;
        }
    }
    while left < right
        invariant
            left <= right,
            right <= 0xffff_ffff_ffff_ffffu128,
            left * left <= n1,
            (right + 1) * (right + 1) > n1,
        decreases right - left,
    {
        let mid = left + (right - left + 1) / 2;
        proof {
            assert(left < mid && mid <= right);
            assert(mid * mid <= 0xffff_ffff_ffff_ffffu128 * 0xffff_ffff_ffff_ffffu128)
                by (nonlinear_arith)
                requires
                    mid <= 0xffff_ffff_ffff_ffffu128,
            ;
            assert(0xffff_ffff_ffff_ffffu128 * 0xffff_ffff_ffff_ffffu128 < u128::MAX as int + 1);
        }
        let sq = mid * mid;
        if sq <= n1 {
            left = mid;
        } else {
            right = mid - 1;
        }
    }
    Ok(left)
}

// ---------------------------------------------------------------------
// Decimal rendering.
// ---------------------------------------------------------------------

/// The character of one decimal digit.
pub open spec fn digit_char(d: nat) -> char
    recommends
        d < 10,
{
    if d == 0 {
        '0'
    } else if d == 1 {
        '1'
    } else if d == 2 {
        '2'
    } else if d == 3 {
        '3'
    } else if d == 4 {
        '4'
    } else if d == 5 {
        '5'
    } else if d == 6 {
        '6'
    } else if d == 7 {
        '7'
    } else if d == 8 {
        '8'
    } else {
        '9'
    }
}

/// The decimal rendering of a number, most significant digit first.
pub open spec fn dec_chars(n: nat) -> Seq<char>
    decreases n,
{
    if n < 10 {
        seq![digit_char(n)]
    } else {
        dec_chars(n / 10).push(digit_char(n % 10))
    }
}

/// Powers of ten.
pub open spec fn pow10(k: nat) -> nat
    decreases k,
{
    if k == 0 {
        1
    } else {
        10 * pow10((k - 1) as nat)
    }
}

proof fn lemma_pow10_mono(a: nat, b: nat)
    requires
        a <= b,
    ensures
        pow10(a) <= pow10(b),
    decreases b,
{
    if a < b {
        lemma_pow10_mono(a, (b - 1) as nat);
        assert(pow10(b) == 10 * pow10((b - 1) as nat));
    }
}

proof fn lemma_dec_chars_lower(n: nat)
    requires
        n >= 1,
    ensures
        pow10((dec_chars(n).len() - 1) as nat) <= n,
    decreases n,
{
    if n < 10 {
        assert(dec_chars(n).len() == 1);
    } else {
        lemma_dec_chars_lower(n / 10);
        assert(dec_chars(n).len() == dec_chars(n / 10).len() + 1);
        let l = (dec_chars(n / 10).len() - 1) as nat;
        assert(10 * pow10(l) <= 10 * (n / 10));
        assert(10 * (n / 10) <= n);
    }
}

/// Every `u128` renders to at most 39 characters.
#[verifier::rlimit(100)]
pub proof fn lemma_dec_chars_len(n: nat)
    requires
        n <= u128::MAX,
    ensures
        1 <= dec_chars(n).len() <= 39,
{
    assert(dec_chars(n).len() >= 1) by {
        if n >= 10 {
            assert(dec_chars(n).len() == dec_chars(n / 10).len() + 1);
        }
    }
    if n >= 1 && dec_chars(n).len() > 39 {
        lemma_dec_chars_lower(n);
        lemma_pow10_mono(39, (dec_chars(n).len() - 1) as nat);
        assert(pow10(39) <= n);
        assert(pow10(39) > u128::MAX) by {
            reveal_with_fuel(pow10, 41);
        }
    }
}

/// The characters of collected digits, least significant last.
spec fn rev_digit_chars(ds: Seq<u8>) -> Seq<char> {
    Seq::new(ds.len(), |i: int| digit_char(ds[ds.len() - 1 - i] as nat))
}

proof fn lemma_rev_digit_chars_push(ds: Seq<u8>, d: u8)
    ensures
        rev_digit_chars(ds.push(d)) == seq![digit_char(d as nat)] + rev_digit_chars(ds),
{
    assert(rev_digit_chars(ds.push(d)) =~= seq![digit_char(d as nat)] + rev_digit_chars(ds));
}

fn digit_str(d: u8) -> (r: &'static str)
    requires
        d < 10,
    ensures
        r@ == seq![digit_char(d as nat)],
{
    proof {
        reveal_strlit("0");
        reveal_strlit("1");
        reveal_strlit("2");
        reveal_strlit("3");
        reveal_strlit("4");
        reveal_strlit("5");
        reveal_strlit("6");
        reveal_strlit("7");
        reveal_strlit("8");
        reveal_strlit("9");
    }
    let r = match d {
        0 => "0",
        1 => "1",
        2 => "2",
        3 => "3",
        4 => "4",
        5 => "5",
        6 => "6",
        7 => "7",
        8 => "8",
        _ => "9",
    };
    proof {
        assert(r@ =~= seq![digit_char(d as nat)]);
    }
    r
}

/// Renders a number in decimal.
pub fn to_dec_string(n: u128) -> (r: String)
    ensures
        r@ == dec_chars(n as nat),
{
    if n == 0 {
        let s = String::from_str("0");
        proof {
            reveal_strlit("0");
            assert(s@ =~= dec_chars(0));
        }
        return s;
    }
    let mut x: u128 = n;
    let mut digits: Vec<u8> = Vec::new();
    proof {
        assert(dec_chars(n as nat) =~= dec_chars(n as nat) + rev_digit_chars(Seq::<u8>::empty()));
    }
    while x > 0
        invariant
            x > 0 ==> dec_chars(n as nat) == dec_chars(x as nat) + rev_digit_chars(digits@),
            x == 0 ==> dec_chars(n as nat) == rev_digit_chars(digits@) && digits@.len() > 0,
            forall|k: int| 0 <= k < digits@.len() ==> digits@[k] < 10,
        decreases x,
    {
        let ghost digits_old = digits@;
        let ghost x_old = x as nat;
        let d = (x % 10) as u8;
        digits.push(d);
        x = x / 10;
        proof {
            lemma_rev_digit_chars_push(digits_old, d);
            if x_old >= 10 {
                assert(dec_chars(x_old) == dec_chars(x_old / 10).push(digit_char(x_old % 10)));
                assert(dec_chars(x_old / 10).push(digit_char(x_old % 10))
                    + rev_digit_chars(digits_old) =~= dec_chars(x_old / 10) + (seq![
                    digit_char(x_old % 10),
                ] + rev_digit_chars(digits_old)));
            } else {
                assert(dec_chars(x_old) =~= seq![digit_char(x_old % 10)]);
                assert(dec_chars(x_old) + rev_digit_chars(digits_old) =~= seq![
                    digit_char(x_old % 10),
                ] + rev_digit_chars(digits_old));
            }
        }
    }
    let mut s = String::new();
    let len = digits.len();
    for i in 0..len
        invariant
            len == digits@.len(),
            forall|k: int| 0 <= k < digits@.len() ==> digits@[k] < 10,
            dec_chars(n as nat) == rev_digit_chars(digits@),
            s@ == rev_digit_chars(digits@).subrange(0, i as int),
    {
        let d = digits[len - 1 - i];
        s.append(digit_str(d));
        proof {
            assert(s@ =~= rev_digit_chars(digits@).subrange(0, i + 1));
        }
    }
    proof {
        assert(rev_digit_chars(digits@).subrange(0, len as int) =~= rev_digit_chars(digits@));
    }
    s
}

// ---------------------------------------------------------------------
// The recorded line of text.
// ---------------------------------------------------------------------

/// Compares two strings for equality, through their UTF-8 bytes.
pub fn str_eq(a: &str, b: &str) -> (r: bool)
    ensures
        r == (a@ == b@),
{
    let r = slice_eq(a.as_bytes(), b.as_bytes());
    proof {
        if vstd::utf8::encode_utf8(a@) == vstd::utf8::encode_utf8(b@) {
            vstd::utf8::encode_utf8_decode_utf8(a@);
            vstd::utf8::encode_utf8_decode_utf8(b@);
        }
    }
    r
}

/// The recorded line: `"<n1> <op> <n2> = <result>"`, or
/// `"√<n1> = <result>"` for the unary square root.
pub open spec fn calc_string(n1: u128, n2: u128, operation: Seq<char>, result: u128) -> Seq<char> {
    if operation == "√"@ {
        operation + dec_chars(n1 as nat) + " = "@ + dec_chars(result as nat)
    } else {
        dec_chars(n1 as nat) + " "@ + operation + " "@ + dec_chars(n2 as nat) + " = "@
            + dec_chars(result as nat)
    }
}

/// Renders the line recorded for one successful calculation.
pub fn get_calculation_string(n1: u128, n2: u128, operation: &str, result: u128) -> (r: String)
    ensures
        r@ == calc_string(n1, n2, operation@, result),
{
    if str_eq(operation, "√") {
        let mut s = String::from_str(operation);
        let first = to_dec_string(n1);
        s.append(first.as_str());
        s.append(" = ");
        let last = to_dec_string(result);
        s.append(last.as_str());
        proof {
            assert(s@ =~= calc_string(n1, n2, operation@, result));
        }
        s
    } else {
        let mut s = to_dec_string(n1);
        s.append(" ");
        s.append(operation);
        s.append(" ");
        let second = to_dec_string(n2);
        s.append(second.as_str());
        s.append(" = ");
        let last = to_dec_string(result);
        s.append(last.as_str());
        proof {
            assert(s@ =~= calc_string(n1, n2, operation@, result));
        }
        s
    }
}

/// The length of a recorded line is always small: it fits every later
/// size check by a wide margin.
pub proof fn lemma_calc_string_len(n1: u128, n2: u128, operation: Seq<char>, result: u128)
    requires
        operation.len() <= 1,
    ensures
        calc_string(n1, n2, operation, result).len() <= 130,
{
    lemma_dec_chars_len(n1 as nat);
    lemma_dec_chars_len(n2 as nat);
    lemma_dec_chars_len(result as nat);
    reveal_strlit(" = ");
    reveal_strlit(" ");
    reveal_strlit("√");
}

// ---------------------------------------------------------------------
// The operation kind.
// ---------------------------------------------------------------------

/// The closed set of operations, each with its own domain check.
#[derive(Clone, Copy, PartialEq, Eq, Debug)]
pub enum Operation {
    Add,
    Sub,
    Mul,
    Div,
    Sqrt,
}

impl Operation {
    /// The symbol recorded for this operation.
    pub open spec fn spec_symbol(self) -> Seq<char> {
        match self {
            Operation::Add => "+"@,
            Operation::Sub => "-"@,
            Operation::Mul => "*"@,
            Operation::Div => "/"@,
            Operation::Sqrt => "√"@,
        }
    }

    pub fn symbol(&self) -> (r: &'static str)
        ensures
            r@ == self.spec_symbol(),
    {
        match self {
            Operation::Add => "+",
            Operation::Sub => "-",
            Operation::Mul => "*",
            Operation::Div => "/",
            Operation::Sqrt => "√",
        }
    }

    /// The inputs this operation accepts.
    pub open spec fn domain_ok(self, n1: u128, n2: u128) -> bool {
        match self {
            Operation::Add => n1 + n2 <= u128::MAX,
            Operation::Sub => n1 >= n2,
            Operation::Mul => n1 * n2 <= u128::MAX,
            Operation::Div => n2 != 0,
            Operation::Sqrt => true,
        }
    }

    /// The rejection this operation reports outside its domain.
    pub open spec fn fail_error(self) -> CalcError {
        match self {
            Operation::Add => CalcError::AddOverflow,
            Operation::Sub => CalcError::SubUnderflow,
            Operation::Mul => CalcError::MulOverflow,
            Operation::Div => CalcError::DivByZero,
            Operation::Sqrt => CalcError::DivByZero,
        }
    }

    /// What this operation returns on which inputs, exactly.
    pub open spec fn computes(self, n1: u128, n2: u128, r: Result<u128, CalcError>) -> bool {
        match self {
            Operation::Add => match r {
                Ok(v) => n1 + n2 <= u128::MAX && v == n1 + n2,
                Err(e) => n1 + n2 > u128::MAX && e == CalcError::AddOverflow,
            },
            Operation::Sub => match r {
                Ok(v) => n1 >= n2 && v == n1 - n2,
                Err(e) => n1 < n2 && e == CalcError::SubUnderflow,
            },
            Operation::Mul => match r {
                Ok(v) => n1 * n2 <= u128::MAX && v == n1 * n2,
                Err(e) => n1 * n2 > u128::MAX && e == CalcError::MulOverflow,
            },
            Operation::Div => match r {
                Ok(v) => n2 != 0 && v == n1 / n2,
                Err(e) => n2 == 0 && e == CalcError::DivByZero,
            },
            Operation::Sqrt => match r {
                Ok(v) => v * v <= n1 && (v + 1) * (v + 1) > n1,
                Err(_) => false,
            },
        }
    }

    /// Validates and computes this operation.
    pub fn compute(&self, n1: u128, n2: u128) -> (r: Result<u128, CalcError>)
        ensures
            self.computes(n1, n2, r),
    {
        match self {
            Operation::Add => calculate_add(n1, n2),
            Operation::Sub => calculate_sub(n1, n2),
            Operation::Mul => calculate_mul(n1, n2),
            Operation::Div => calculate_div(n1, n2),
            Operation::Sqrt => calculate_sqrt(n1, n2),
        }
    }
}

/// Every operation symbol is a single character.
pub proof fn lemma_symbol_len(op: Operation)
    ensures
        op.spec_symbol().len() == 1,
{
    reveal_strlit("+");
    reveal_strlit("-");
    reveal_strlit("*");
    reveal_strlit("/");
    reveal_strlit("√");
}

} // verus!
