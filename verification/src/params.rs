//! Request-parameter parsing: booleans, limits, years, sort orders.

use vstd::prelude::*;

use crate::error::EngineError;
use crate::text::{
    all_digits, chars_eq_str, chars_to_string, digits_to_i64, digits_val_of, lower_chars, lower_of,
    str_chars, str_eq, trim_chars, trim_of,
};

verus! {

/// The boolean a token denotes, if any: `1/true/yes/y/on` and
/// `0/false/no/n/off` after trimming and lower-casing.
pub open spec fn bool_token(t: Seq<char>) -> Option<bool> {
    if t == "1"@ || t == "true"@ || t == "yes"@ || t == "y"@ || t == "on"@ {
        Some(true)
    } else if t == "0"@ || t == "false"@ || t == "no"@ || t == "n"@ || t == "off"@ {
        Some(false)
    } else {
        None
    }
}

pub open spec fn norm_token(s: Seq<char>) -> Seq<char> {
    lower_of(trim_of(s))
}

fn exec_bool_token(t: &Vec<char>) -> (r: Option<bool>)
    ensures
        r == bool_token(t@),
{
    if chars_eq_str(t, "1") || chars_eq_str(t, "true") || chars_eq_str(t, "yes") || chars_eq_str(
        t,
        "y",
    ) || chars_eq_str(t, "on") {
        Some(true)
    } else if chars_eq_str(t, "0") || chars_eq_str(t, "false") || chars_eq_str(t, "no")
        || chars_eq_str(t, "n") || chars_eq_str(t, "off") {
        Some(false)
    } else {
        None
    }
}

/// Parse an optional boolean parameter; blank or absent text reads as the
/// default, an unknown token is a validation error.
pub fn parse_bool_param(raw: Option<&str>, default: bool) -> (r: Result<bool, EngineError>)
    ensures
        ({
            let t = norm_token(
                match raw {
                    Some(s) => s@,
                    None => Seq::<char>::empty(),
                },
            );
            if t.len() == 0 {
                r == Ok::<bool, EngineError>(default)
            } else {
                match bool_token(t) {
                    Some(b) => r == Ok::<bool, EngineError>(b),
                    None => r == Err::<bool, EngineError>(EngineError::Validation),
                }
            }
        }),
{
    let base: &str = match raw {
        Some(s) => s,
        None => "",
    };
    let cs = str_chars(base);
    proof {
        if raw is None {
            reveal_strlit("");
            assert(cs@ =~= Seq::<char>::empty());
        }
    }
    let t = lower_chars(&trim_chars(&cs));
    if t.len() == 0 {
        return Ok(default);
    }
    match exec_bool_token(&t) {
        Some(b) => Ok(b),
        None => Err(EngineError::Validation),
    }
}

/// The same boolean grammar, under the rules-management name.
pub fn parse_boolish(raw: Option<&str>, default: bool) -> (r: Result<bool, EngineError>)
    ensures
        ({
            let t = norm_token(
                match raw {
                    Some(s) => s@,
                    None => Seq::<char>::empty(),
                },
            );
            if t.len() == 0 {
                r == Ok::<bool, EngineError>(default)
            } else {
                match bool_token(t) {
                    Some(b) => r == Ok::<bool, EngineError>(b),
                    None => r == Err::<bool, EngineError>(EngineError::Validation),
                }
            }
        }),
{
    parse_bool_param(raw, default)
}

/// Whether text reads as an affirmative flag (`1/true/yes/y/on`).
pub fn boolish_text(s: &str) -> (r: bool)
    ensures
        r == (bool_token(norm_token(s@)) == Some(true)),
{
    let cs = str_chars(s);
    let t = lower_chars(&trim_chars(&cs));
    match exec_bool_token(&t) {
        Some(b) => b,
        None => false,
    }
}

/// Whether a stored rule is enabled: the affirmative-flag grammar.
pub fn parse_enabled_flag(raw: &str) -> (r: bool)
    ensures
        r == (bool_token(norm_token(raw@)) == Some(true)),
{
    boolish_text(raw)
}

/// Whether a command-line flag occurs among the arguments.
pub fn parse_bool_flag(args: &Vec<String>, flag: &str) -> (r: bool)
    ensures
        r == exists|i: int| 0 <= i < args@.len() && (#[trigger] args@[i])@ == flag@,
{
    let mut i: usize = 0;
    while i < args.len()
        invariant
            i <= args@.len(),
            forall|j: int| 0 <= j < i ==> (#[trigger] args@[j])@ != flag@,
        decreases args@.len() - i,
    {
        if str_eq(args[i].as_str(), flag) {
            return true;
        }
        i += 1;
    }
    false
}

/// Clamp an optional row limit into `[1, max_limit]`, defaulting when
/// absent.
pub fn parse_limit(raw: Option<u32>, default_limit: u32, max_limit: u32) -> (r: u32)
    requires
        max_limit >= 1,
    ensures
        r == ({
            let v = match raw {
                Some(v) => v,
                None => default_limit,
            };
            if v < 1 {
                1u32
            } else if v > max_limit {
                max_limit
            } else {
                v
            }
        }),
{
    let v = match raw {
        Some(v) => v,
        None => default_limit,
    };
    crate::clamp_u32(v, 1, max_limit)
}

/// Clamp an optional catalog limit into `[1, 1000]`, defaulting to 500.
pub fn parse_query_limit(raw: Option<u32>) -> (r: u32)
    ensures
        r == ({
            let v = match raw {
                Some(v) => v,
                None => 500u32,
            };
            if v < 1 {
                1u32
            } else if v > 1000 {
                1000u32
            } else {
                v
            }
        }),
{
    parse_limit(raw, 500, 1000)
}

/// An optional text parameter, trimmed; absent reads as empty.
pub fn parse_optional_text(raw: Option<String>) -> (r: String)
    ensures
        r@ == trim_of(
            match raw {
                Some(s) => s@,
                None => Seq::<char>::empty(),
            },
        ),
{
    let base: String = match raw {
        Some(s) => s,
        None => String::new(),
    };
    let cs = str_chars(base.as_str());
    let t = trim_chars(&cs);
    chars_to_string(&t)
}

/// The signed integer denoted by trimmed text, when it is well formed and
/// below eighteen significant digits.
pub open spec fn int_text_value(s: Seq<char>) -> Option<int> {
    if s.len() == 0 {
        None
    } else {
        let neg = s[0] == '-';
        let ds = if s[0] == '-' || s[0] == '+' {
            s.skip(1)
        } else {
            s
        };
        if ds.len() == 0 || !all_digits(ds) || digits_val_of(ds) >= 1_000_000_000_000_000_000 {
            None
        } else if neg {
            Some(-digits_val_of(ds))
        } else {
            Some(digits_val_of(ds))
        }
    }
}

#[verifier::loop_isolation(false)]
fn parse_int_chars(cs: &Vec<char>) -> (r: Option<i64>)
    ensures
        r is Some <==> int_text_value(cs@) is Some,
        r matches Some(v) ==> int_text_value(cs@) == Some(v as int),
{
    if cs.len() == 0 {
        return None;
    }
    let neg = cs[0] == '-';
    let start: usize = if cs[0] == '-' || cs[0] == '+' {
        1
    } else {
        0
    };
    let ghost ds = if cs@[0] == '-' || cs@[0] == '+' {
        cs@.skip(1)
    } else {
        cs@
    };
    proof {
        assert(ds =~= cs@.subrange(start as int, cs@.len() as int));
    }
    match digits_to_i64(cs, start, cs.len()) {
        Some(v) => {
            if neg {
                Some(-v)
            } else {
                Some(v)
            }
        },
        None => None,
    }
}

/// Parse an optional year parameter: blank reads as the default, and the
/// year must lie in the supported range 2000 through 2100.
pub fn parse_year_param(raw: Option<&str>, default_year: i32) -> (r: Result<i32, EngineError>)
    ensures
        ({
            let t = trim_of(
                match raw {
                    Some(s) => s@,
                    None => Seq::<char>::empty(),
                },
            );
            if t.len() == 0 {
                r == Ok::<i32, EngineError>(default_year)
            } else {
                match int_text_value(t) {
                    Some(v) => if 2000 <= v <= 2100 {
                        r == Ok::<i32, EngineError>(v as i32)
                    } else {
                        r == Err::<i32, EngineError>(EngineError::Validation)
                    },
                    None => r == Err::<i32, EngineError>(EngineError::Validation),
                }
            }
        }),
{
    let base: &str = match raw {
        Some(s) => s,
        None => "",
    };
    let cs = str_chars(base);
    proof {
        if raw is None {
            reveal_strlit("");
            assert(cs@ =~= Seq::<char>::empty());
        }
    }
    let t = trim_chars(&cs);
    if t.len() == 0 {
        return Ok(default_year);
    }
    match parse_int_chars(&t) {
        Some(v) => {
            if 2000 <= v && v <= 2100 {
                Ok(v as i32)
            } else {
                Err(EngineError::Validation)
            }
        },
        None => Err(EngineError::Validation),
    }
}

/// Parse an optional sort-order parameter: blank reads as 1000.
pub fn parse_sort_order(raw: Option<&str>) -> (r: Result<i64, EngineError>)
    ensures
        ({
            let t = trim_of(
                match raw {
                    Some(s) => s@,
                    None => Seq::<char>::empty(),
                },
            );
            if t.len() == 0 {
                r == Ok::<i64, EngineError>(1000i64)
            } else {
                match int_text_value(t) {
                    Some(v) => r == Ok::<i64, EngineError>(v as i64),
                    None => r == Err::<i64, EngineError>(EngineError::Validation),
                }
            }
        }),
{
    let base: &str = match raw {
        Some(s) => s,
        None => "",
    };
    let cs = str_chars(base);
    proof {
        if raw is None {
            reveal_strlit("");
            assert(cs@ =~= Seq::<char>::empty());
        }
    }
    let t = trim_chars(&cs);
    if t.len() == 0 {
        return Ok(1000);
    }
    match parse_int_chars(&t) {
        Some(v) => Ok(v),
        None => Err(EngineError::Validation),
    }
}

} // verus!
