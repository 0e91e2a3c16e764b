//! The s-expression bus: each line is one s-expression, read with the
//! `lexpr` crate, whose head is the event and whose tail is the data.
use vstd::prelude::*;
use crate::text::chars_of;

verus! {

/// An s-expression as `lexpr` reads it, one variant per kind of value.
/// A floating-point number is kept as `Float` alone, without its value.
#[derive(Debug, PartialEq)]
pub enum Sexp {
    /// The special `#nil` value.
    Nil,
    /// The empty list.
    Null,
    Bool(bool),
    /// A non-negative integer.
    PosInt(u64),
    /// A negative integer.
    NegInt(i64),
    Float,
    Char(char),
    Str(String),
    Sym(String),
    Keyword(String),
    Bytes(Vec<u8>),
    Cons(Box<Sexp>, Box<Sexp>),
    Vector(Vec<Sexp>),
}

/// The s-expression that `lexpr::from_str` reads from `line`, or `None`
/// where it reports an error.
pub uninterp spec fn lexpr_parse(line: Seq<char>) -> Option<Sexp>;

#[verifier::external_type_specification]
#[verifier::external_body]
pub struct ExLexprValue(lexpr::Value);

/// Converts a value that `lexpr` read, one variant at a time; the atoms
/// other than numbers and bytes go through `sexp_from_atom`.
///
/// Trusted: only `parse_sexp` calls it, and that contract covers both.
#[verifier::external_body]
fn sexp_from_value(v: &lexpr::Value) -> Sexp {
    match v {
        lexpr::Value::Cons(c) => Sexp::Cons(Box::new(sexp_from_value(c.car())), Box::new(sexp_from_value(c.cdr()))),
        lexpr::Value::Vector(vs) => Sexp::Vector(vs.iter().map(sexp_from_value).collect()),
        lexpr::Value::Number(n) => match (n.as_u64(), n.as_i64()) {
            (Some(u), _) => Sexp::PosInt(u),
            (None, Some(i)) => Sexp::NegInt(i),
            (None, None) => Sexp::Float,
        },
        lexpr::Value::Bytes(b) => Sexp::Bytes(b.to_vec()),
        _ => sexp_from_atom(v),
    }
}

/// Converts the remaining atoms of `lexpr`, one variant at a time.
///
/// Trusted: only `sexp_from_value` calls it.
#[verifier::external_body]
fn sexp_from_atom(v: &lexpr::Value) -> Sexp {
    match v {
        lexpr::Value::Nil => Sexp::Nil,
        lexpr::Value::Null => Sexp::Null,
        lexpr::Value::Bool(b) => Sexp::Bool(*b),
        lexpr::Value::Char(c) => Sexp::Char(*c),
        lexpr::Value::String(s) => Sexp::Str(s.to_string()),
        lexpr::Value::Symbol(s) => Sexp::Sym(s.to_string()),
        lexpr::Value::Keyword(s) => Sexp::Keyword(s.to_string()),
        _ => sexp_from_value(v),
    }
}

/// `lexpr::from_str`, with the value it reads converted.
///
/// Trusted: the parser is a function of the line alone and its result is
/// named `lexpr_parse`; its grammar is not stated.
#[verifier::external_body]
fn parse_sexp(line: &str) -> (r: Option<Sexp>)
    ensures
        r == lexpr_parse(line@),
{
    match lexpr::from_str(line) {
        Ok(v) => Some(sexp_from_value(&v)),
        Err(_) => None,
    }
}

/// Why a bus line gives no message.
#[derive(PartialEq, Eq, Structural, Clone, Copy, Debug)]
pub enum LineError {
    /// The line is not an s-expression.
    Unreadable,
    /// The s-expression is not a pair.
    NotPair,
}

/// The event and the data of a bus line: the head and the tail of the pair
/// that the line holds.
pub fn bus_message(line: &str) -> (r: Result<(Sexp, Sexp), LineError>)
    ensures
        r == match lexpr_parse(line@) {
            Some(Sexp::Cons(car, cdr)) => Ok((*car, *cdr)),
            Some(_) => Err(LineError::NotPair),
            None => Err(LineError::Unreadable),
        },
{
    match parse_sexp(line) {
        Some(Sexp::Cons(car, cdr)) => Ok((*car, *cdr)),
        Some(_) => Err(LineError::NotPair),
        None => Err(LineError::Unreadable),
    }
}

/// Element `i` of a chain of pairs: the head after `i` steps along the
/// tails, while the tails are pairs.
pub open spec fn cons_item(s: Sexp, i: nat) -> Option<Sexp>
    decreases s,
{
    match s {
        Sexp::Cons(car, cdr) => if i == 0 {
            Some(*car)
        } else {
            match *cdr {
                Sexp::Cons(_, _) => cons_item(*cdr, (i - 1) as nat),
                _ => None,
            }
        },
        _ => None,
    }
}

/// Element `i` of a list or a vector, as `lexpr::Value::get` finds it.
pub open spec fn sexp_item(s: Sexp, i: nat) -> Option<Sexp> {
    match s {
        Sexp::Vector(v) => if i < v.len() {
            Some(v[i as int])
        } else {
            None
        },
        Sexp::Cons(_, _) => cons_item(s, i),
        _ => None,
    }
}

/// Element `i` of a list or a vector, as `lexpr::Value::get` finds it.
pub fn item(data: &Sexp, i: usize) -> (r: Option<&Sexp>)
    ensures
        match sexp_item(*data, i as nat) {
            Some(v) => r matches Some(x) && *x == v,
            None => r is None,
        },
{
    match data {
        Sexp::Vector(v) => {
            if i < v.len() {
                Some(&v[i])
            } else {
                None
            }
        },
        Sexp::Cons(_, _) => {
            let mut cur = data;
            let mut k: usize = 0;
            while k < i
                invariant
                    k <= i,
                    data is Cons,
                    cur is Cons,
                    cons_item(*data, i as nat) == cons_item(*cur, (i - k) as nat),
                decreases i - k,
            {
                match cur {
                    Sexp::Cons(_, cdr) => {
                        match &**cdr {
                            Sexp::Cons(_, _) => {
                                cur = &**cdr;
                            },
                            _ => {
                                assert(cons_item(*cur, (i - k) as nat) is None);
                                return None;
                            },
                        }
                    },
                    _ => return None,
                }
                k = k + 1;
            }
            match cur {
                Sexp::Cons(car, _) => Some(&**car),
                _ => None,
            }
        },
        _ => None,
    }
}

/// The string at position `i` of a message's data, where there is one.
pub fn string_field(data: &Sexp, i: usize) -> (r: Option<String>)
    ensures
        match sexp_item(*data, i as nat) {
            Some(Sexp::Str(s)) => r matches Some(t) && t@ == s@,
            _ => r is None,
        },
{
    match item(data, i) {
        Some(Sexp::Str(s)) => Some(s.clone()),
        _ => None,
    }
}

/// Whether `s` is the proper list of the symbols `words`.
pub open spec fn is_symbol_list(s: Sexp, words: Seq<Seq<char>>) -> bool
    decreases words.len(),
{
    if words.len() == 0 {
        s is Null
    } else {
        match s {
            Sexp::Cons(car, cdr) => (match *car {
                Sexp::Sym(n) => n@ == words[0],
                _ => false,
            }) && is_symbol_list(*cdr, words.drop_first()),
            _ => false,
        }
    }
}

fn str_eq(a: &str, b: &str) -> (r: bool)
    ensures
        r == (a@ == b@),
{
    let x = chars_of(a);
    let y = chars_of(b);
    if x.len() != y.len() {
        return false;
    }
    let mut k: usize = 0;
    while k < x.len()
        invariant
            x@ == a@,
            y@ == b@,
            x@.len() == y@.len(),
            k <= x@.len(),
            forall|j: int| 0 <= j < k ==> x@[j] == y@[j],
        decreases x@.len() - k,
    {
        if x[k] != y[k] {
            return false;
        }
        k = k + 1;
    }
    assert(x@ =~= y@);
    true
}

/// Whether `event` is the list of the symbols `words`, such as
/// `(avatar text)`.
pub fn is_event(event: &Sexp, words: &[&str]) -> (b: bool)
    ensures
        b == is_symbol_list(*event, words@.map_values(|w: &str| w@)),
{
    let ghost ws = words@.map_values(|w: &str| w@);
    assert(ws.skip(0) =~= ws);
    let mut cur = event;
    let mut k: usize = 0;
    while k < words.len()
        invariant
            k <= words@.len(),
            ws == words@.map_values(|w: &str| w@),
            is_symbol_list(*event, ws) == is_symbol_list(*cur, ws.skip(k as int)),
        decreases words@.len() - k,
    {
        let ghost rest = ws.skip(k as int);
        assert(rest.drop_first() =~= ws.skip(k + 1));
        assert(rest[0] == words@[k as int]@);
        match cur {
            Sexp::Cons(car, cdr) => {
                let same = match &**car {
                    Sexp::Sym(n) => str_eq(n.as_str(), words[k]),
                    _ => false,
                };
                if !same {
                    return false;
                }
                cur = &**cdr;
            },
            _ => return false,
        }
        k = k + 1;
    }
    assert(ws.skip(k as int).len() == 0);
    match cur {
        Sexp::Null => true,
        _ => false,
    }
}

} // verus!
