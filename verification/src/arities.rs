//! The text behind the macros that implement handler and route-tuple support
//! for every arity up to a configured maximum.

use vstd::prelude::*;
use crate::text::{push_str, push_decimal, string_of, utf8_bytes, decimal};
use crate::values::integer_text;
use vstd::utf8::encode_utf8;

verus! {

/// One token handed to such a macro: a literal, by its source text, or any
/// other token.
pub enum MacroToken {
    Literal(String),
    Other,
}

pub open spec fn expected_integer_message() -> Seq<char> {
    "expected one positive decimal integer"@
}

/// The maximum arity that `tokens` ask for: exactly one literal token, a
/// decimal integer that fits a `usize`, and not zero.
pub open spec fn maximum_outcome(tokens: Seq<MacroToken>) -> Result<int, Seq<char>> {
    if tokens.len() == 0 || tokens[0] is Other || tokens.len() > 1 {
        Err(expected_integer_message())
    } else {
        match integer_text(encode_utf8(tokens[0]->Literal_0@), false) {
            Some(v) => if v > usize::MAX {
                Err(expected_integer_message())
            } else if v == 0 {
                Err("handler arity must be greater than zero"@)
            } else {
                Ok(v)
            },
            None => Err(expected_integer_message()),
        }
    }
}

/// Reads the maximum arity from the macro's input.
pub fn parse_maximum(tokens: &Vec<MacroToken>) -> (r: Result<usize, String>)
    ensures
        match maximum_outcome(tokens@) {
            Ok(v) => r matches Ok(n) && n as int == v,
            Err(m) => r matches Err(e) && e@ == m,
        },
{
    if tokens.len() != 1 {
        return Err(expected_integer());
    }
    let literal = match &tokens[0] {
        MacroToken::Literal(text) => text,
        MacroToken::Other => {
            return Err(expected_integer());
        },
    };
    let bytes = utf8_bytes(literal.as_str());
    let parsed = crate::values::parse_integer(bytes.as_slice(), false, 0, usize::MAX as u128);
    proof {
        crate::values::lemma_unsigned_text(bytes@);
    }
    match parsed {
        Some((_, value)) => {
            if value == 0 {
                let mut m: Vec<char> = Vec::new();
                push_str(&mut m, "handler arity must be greater than zero");
                return Err(string_of(m.as_slice()));
            }
            Ok(value as usize)
        },
        None => Err(expected_integer()),
    }
}

fn expected_integer() -> (r: String)
    ensures
        r@ == expected_integer_message(),
{
    let mut m: Vec<char> = Vec::new();
    push_str(&mut m, "expected one positive decimal integer");
    string_of(m.as_slice())
}

/// `(Ai,ai)`: the type and the name of argument `i`.
pub open spec fn argument_text(i: nat) -> Seq<char> {
    "(A"@ + decimal(i) + ",a"@ + decimal(i) + ")"@
}

/// The first `n` arguments, separated by commas.
pub open spec fn arguments_text(n: nat) -> Seq<char>
    decreases n,
{
    if n == 0 {
        Seq::empty()
    } else if n == 1 {
        argument_text(0)
    } else {
        arguments_text((n - 1) as nat) + ","@ + argument_text((n - 1) as nat)
    }
}

/// The invocation that implements handlers of `arity` arguments: the
/// leading arguments in brackets, then the last one.
pub open spec fn handler_text(arity: nat) -> Seq<char> {
    "impl_handler!(["@ + arguments_text((arity - 1) as nat) + "];"@ + argument_text((arity - 1) as nat) + ");"@
}

/// The handler invocations for arities `1..=n`, in order.
pub open spec fn handlers_text(n: nat) -> Seq<char>
    decreases n,
{
    if n == 0 {
        Seq::empty()
    } else {
        handlers_text((n - 1) as nat) + handler_text(n)
    }
}

/// `R1,R2,..,Rn`.
pub open spec fn route_names_text(n: nat) -> Seq<char>
    decreases n,
{
    if n <= 1 {
        "R1"@
    } else {
        route_names_text((n - 1) as nat) + ",R"@ + decimal(n)
    }
}

/// The invocation that implements routes for tuples of `arity` elements.
pub open spec fn route_tuple_text(arity: nat) -> Seq<char> {
    "impl_route_tuple!("@ + route_names_text(arity) + ");"@
}

/// The route-tuple invocations for arities `1..=n`, in order.
pub open spec fn route_tuples_text(n: nat) -> Seq<char>
    decreases n,
{
    if n == 0 {
        Seq::empty()
    } else {
        route_tuples_text((n - 1) as nat) + route_tuple_text(n)
    }
}

fn push_argument(out: &mut Vec<char>, i: usize)
    ensures
        final(out)@ == old(out)@ + argument_text(i as nat),
{
    push_str(out, "(A");
    push_decimal(out, i as u128);
    push_str(out, ",a");
    push_decimal(out, i as u128);
    push_str(out, ")");
    assert(out@ =~= old(out)@ + argument_text(i as nat));
}

/// Appends the invocation that implements handlers of `arity` arguments.
pub fn handler_invocation(out: &mut Vec<char>, arity: usize)
    requires
        arity >= 1,
    ensures
        final(out)@ == old(out)@ + handler_text(arity as nat),
{
    let ghost start = out@;
    push_str(out, "impl_handler!([");
    let ghost head = out@;
    let mut index: usize = 0;
    while index < arity - 1
        invariant
            index <= arity - 1,
            arity >= 1,
            out@ == head + arguments_text(index as nat),
        decreases arity - 1 - index,
    {
        if index > 0 {
            push_str(out, ",");
        }
        push_argument(out, index);
        proof {
            reveal_strlit(",");
            if index == 0 {
                assert(arguments_text(1) == argument_text(0));
                assert(arguments_text(0) =~= Seq::<char>::empty());
            }
        }
        assert(out@ =~= head + arguments_text((index + 1) as nat));
        index += 1;
    }
    push_str(out, "];");
    push_argument(out, arity - 1);
    push_str(out, ");");
    assert(out@ =~= start + handler_text(arity as nat));
}

/// The handler invocations for every arity up to the maximum the input
/// names.
pub fn expand(tokens: &Vec<MacroToken>) -> (r: Result<String, String>)
    ensures
        match maximum_outcome(tokens@) {
            Ok(v) => r matches Ok(s) && s@ == handlers_text(v as nat),
            Err(m) => r matches Err(e) && e@ == m,
        },
{
    let maximum = match parse_maximum(tokens) {
        Ok(m) => m,
        Err(e) => {
            return Err(e);
        },
    };
    let mut output: Vec<char> = Vec::new();
    let mut arity: usize = 0;
    assert(output@ =~= handlers_text(0));
    while arity < maximum
        invariant
            arity <= maximum,
            output@ == handlers_text(arity as nat),
        decreases maximum - arity,
    {
        handler_invocation(&mut output, arity + 1);
        assert(output@ == handlers_text((arity + 1) as nat));
        arity += 1;
    }
    Ok(string_of(output.as_slice()))
}

/// Appends the invocation that implements routes for tuples of `arity`
/// elements.
fn route_tuple_invocation(out: &mut Vec<char>, arity: usize)
    requires
        arity >= 1,
    ensures
        final(out)@ == old(out)@ + route_tuple_text(arity as nat),
{
    let ghost start = out@;
    push_str(out, "impl_route_tuple!(");
    let ghost head = out@;
    let mut index: usize = 0;
    while index < arity
        invariant
            index <= arity,
            out@ == head + if index == 0 { Seq::<char>::empty() } else { route_names_text(index as nat) },
        decreases arity - index,
    {
        if index > 0 {
            push_str(out, ",");
        }
        push_str(out, "R");
        push_decimal(out, (index + 1) as u128);
        proof {
            reveal_strlit(",");
            reveal_strlit("R");
            reveal_strlit("R1");
            reveal_strlit(",R");
            if index == 0 {
                assert(decimal(1) =~= seq!['1']);
            }
        }
        assert(out@ =~= head + route_names_text((index + 1) as nat));
        index += 1;
    }
    push_str(out, ");");
    assert(out@ =~= start + route_tuple_text(arity as nat));
}

/// The route-tuple invocations for every arity up to the maximum the input
/// names.
pub fn expand_routes(tokens: &Vec<MacroToken>) -> (r: Result<String, String>)
    ensures
        match maximum_outcome(tokens@) {
            Ok(v) => r matches Ok(s) && s@ == route_tuples_text(v as nat),
            Err(m) => r matches Err(e) && e@ == m,
        },
{
    let maximum = match parse_maximum(tokens) {
        Ok(m) => m,
        Err(e) => {
            return Err(e);
        },
    };
    let mut output: Vec<char> = Vec::new();
    let mut arity: usize = 0;
    assert(output@ =~= route_tuples_text(0));
    while arity < maximum
        invariant
            arity <= maximum,
            output@ == route_tuples_text(arity as nat),
        decreases maximum - arity,
    {
        route_tuple_invocation(&mut output, arity + 1);
        assert(output@ == route_tuples_text((arity + 1) as nat));
        arity += 1;
    }
    Ok(string_of(output.as_slice()))
}

} // verus!
