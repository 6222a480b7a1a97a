//! The calculator of the shell: integers and the four operations, from
//! left to right.

use crate::fault::Fault;
use crate::text::{parse_i64, parse_i64_spec, same_text};
use vstd::prelude::*;
use vstd::string::StringExecFns;

verus! {

/// The four operations of the calculator.
#[derive(Debug, Clone, Copy, PartialEq, Eq, Structural)]
pub enum Operator {
    Add,
    Subtract,
    Multiply,
    Divide,
}

/// The operation that a symbol names, if it names one.
pub open spec fn operator_of(symbol: Seq<char>) -> Option<Operator> {
    if symbol == seq!['+'] {
        Some(Operator::Add)
    } else if symbol == seq!['-'] {
        Some(Operator::Subtract)
    } else if symbol == seq!['*'] {
        Some(Operator::Multiply)
    } else if symbol == seq!['/'] {
        Some(Operator::Divide)
    } else {
        None
    }
}

/// The quotient of a division that rounds towards zero.
pub open spec fn quotient(dividend: int, divisor: int) -> int
    recommends
        divisor != 0,
{
    if dividend >= 0 && divisor > 0 {
        dividend / divisor
    } else if dividend < 0 && divisor < 0 {
        (-dividend) / (-divisor)
    } else if dividend < 0 {
        -((-dividend) / divisor)
    } else {
        -(dividend / (-divisor))
    }
}

/// `result` after `operator` was applied to it and the number that
/// `number` stands for.
pub open spec fn apply_spec(result: i64, operator: Operator, number: Seq<char>) -> Result<
    i64,
    Fault,
> {
    match parse_i64_spec(number) {
        None => Err(Fault::InvalidNumber),
        Some(n) => {
            if operator == Operator::Divide && n == 0 {
                Err(Fault::DivisionByZero)
            } else {
                let value = match operator {
                    Operator::Add => result + n,
                    Operator::Subtract => result - n,
                    Operator::Multiply => result * n,
                    Operator::Divide => quotient(result as int, n as int),
                };
                if i64::MIN <= value <= i64::MAX {
                    Ok(value as i64)
                } else {
                    Err(Fault::ArithmeticOverflow)
                }
            }
        },
    }
}

/// What is left of a calculation: `result` so far, the operation that
/// waits for its number, the part of that number read so far, and the
/// symbols to come. Symbols that name no operation are parts of one
/// number; each operation is applied when the next one, or the end, is
/// met.
pub open spec fn calculate_from(
    symbols: Seq<Seq<char>>,
    result: i64,
    operator: Operator,
    number: Seq<char>,
) -> Result<i64, Fault>
    decreases symbols.len(),
{
    if symbols.len() == 0 {
        apply_spec(result, operator, number)
    } else {
        match operator_of(symbols[0]) {
            Some(next) => match apply_spec(result, operator, number) {
                Ok(value) => calculate_from(symbols.skip(1), value, next, Seq::empty()),
                Err(fault) => Err(fault),
            },
            None => calculate_from(symbols.skip(1), result, operator, number.add(symbols[0])),
        }
    }
}

/// The value of a calculation: its numbers and operations from left to
/// right, starting from zero, with no operation before another.
pub open spec fn calculate_spec(symbols: Seq<Seq<char>>) -> Result<i64, Fault> {
    calculate_from(symbols, 0, Operator::Add, Seq::empty())
}

/// A calculation, symbol by symbol.
pub struct Calculator {
    symbols: Vec<String>,
}

impl Calculator {
    /// The symbols of the calculation.
    pub closed spec fn symbols(&self) -> Seq<Seq<char>> {
        self.symbols.deep_view()
    }

    pub fn new(symbols: Vec<String>) -> (calculator: Calculator)
        ensures
            calculator.symbols() == symbols.deep_view(),
    {
        Calculator { symbols }
    }

    /// The operation that `symbol` names.
    fn operator(symbol: &str) -> (operator: Option<Operator>)
        ensures
            operator == operator_of(symbol@),
    {
        proof {
            reveal_strlit("+");
            reveal_strlit("-");
            reveal_strlit("*");
            reveal_strlit("/");
            assert("+"@ =~= seq!['+']);
            assert("-"@ =~= seq!['-']);
            assert("*"@ =~= seq!['*']);
            assert("/"@ =~= seq!['/']);
        }
        if same_text(symbol, "+") {
            Some(Operator::Add)
        } else if same_text(symbol, "-") {
            Some(Operator::Subtract)
        } else if same_text(symbol, "*") {
            Some(Operator::Multiply)
        } else if same_text(symbol, "/") {
            Some(Operator::Divide)
        } else {
            None
        }
    }

    /// Applies `operator` to `result` and the number that `number` holds.
    fn apply(result: i64, operator: Operator, number: &str) -> (value: Result<i64, Fault>)
        ensures
            value == apply_spec(result, operator, number@),
    {
        let n = match parse_i64(number) {
            Some(n) => n,
            None => {
                return Err(Fault::InvalidNumber);
            },
        };
        let value = match operator {
            Operator::Add => result.checked_add(n),
            Operator::Subtract => result.checked_sub(n),
            Operator::Multiply => result.checked_mul(n),
            Operator::Divide => {
                if n == 0 {
                    return Err(Fault::DivisionByZero);
                }
                result.checked_div(n)
            },
        };
        match value {
            Some(v) => Ok(v),
            None => Err(Fault::ArithmeticOverflow),
        }
    }

    /// The value of the calculation, or the reason why it has none.
    pub fn checked_calculate(&self) -> (value: Result<i64, Fault>)
        ensures
            value == calculate_spec(self.symbols()),
    {
        let mut result: i64 = 0;
        let mut current_operator = Operator::Add;
        let mut current_number = String::from_str("");
        proof {
            reveal_strlit("");
            assert(current_number@ =~= Seq::<char>::empty());
            assert(self.symbols().skip(0) =~= self.symbols());
        }
        let mut i: usize = 0;
        while i < self.symbols.len()
            invariant
                i <= self.symbols.len(),
                self.symbols().len() == self.symbols.len(),
                calculate_spec(self.symbols()) == calculate_from(
                    self.symbols().skip(i as int),
                    result,
                    current_operator,
                    current_number@,
                ),
            decreases self.symbols.len() - i,
        {
            let symbol = &self.symbols[i];
            proof {
                let rest = self.symbols().skip(i as int);
                assert(rest[0] == symbol@);
                assert(rest.skip(1) =~= self.symbols().skip(i + 1));
            }
            match Self::operator(symbol.as_str()) {
                Some(next) => {
                    match Self::apply(result, current_operator, current_number.as_str()) {
                        Ok(value) => {
                            result = value;
                        },
                        Err(fault) => {
                            return Err(fault);
                        },
                    }
                    current_operator = next;
                    current_number = String::from_str("");
                    proof {
                        reveal_strlit("");
                        assert(current_number@ =~= Seq::<char>::empty());
                    }
                },
                None => {
                    current_number.append(symbol.as_str());
                },
            }
            i += 1;
        }
        Self::apply(result, current_operator, current_number.as_str())
    }

    /// The value of the calculation.
    pub fn calculate(&self) -> (value: i64)
        requires
            calculate_spec(self.symbols()) is Ok,
        ensures
            Ok::<i64, Fault>(value) == calculate_spec(self.symbols()),
    {
        match self.checked_calculate() {
            Ok(value) => value,
            Err(_) => 0,
        }
    }
}

} // verus!
