//! Classification of engine failure text, as the health-check and
//! adapter layers consume it.

use vstd::prelude::*;

use crate::error::{insufficient_data_message, no_data_message, validation_message};
use crate::text::str_eq;

verus! {

fn eq_message(msg: &str, lit: &str) -> (r: bool)
    ensures
        r == (msg@ == lit@),
{
    str_eq(msg, lit)
}

/// Whether a failure text is the overview's no-data condition.
pub fn is_wealth_overview_no_data(msg: &str) -> (r: bool)
    ensures
        r == (msg@ == no_data_message()),
{
    eq_message(msg, "no data available in the requested range")
}

/// Whether a failure text means a curve simply lacks usable data — a
/// condition to warn about, not to fail on.
pub fn is_curve_insufficient_data(msg: &str) -> (r: bool)
    ensures
        r == (msg@ == no_data_message() || msg@ == insufficient_data_message()),
{
    eq_message(msg, "no data available in the requested range") || eq_message(
        msg,
        "snapshots in range are insufficient to compute a return",
    )
}

/// Map a failure text onto an adapter error category token.
pub fn classify_error_message(message: &str) -> (r: String)
    ensures
        message@ == validation_message() ==> r@ == "VALIDATION_ERROR"@,
        (message@ == no_data_message() || message@ == insufficient_data_message()) ==> r@
            == "NO_DATA_ERROR"@,
        (message@ != validation_message() && message@ != no_data_message() && message@
            != insufficient_data_message()) ==> r@ == "UNKNOWN_ERROR"@,
{
    proof {
        reveal_strlit("validation error: malformed or missing input");
        reveal_strlit("no data available in the requested range");
        reveal_strlit("snapshots in range are insufficient to compute a return");
        assert(validation_message().len() == 44 && no_data_message().len() == 40
            && insufficient_data_message().len() == 55);
    }
    if eq_message(message, "validation error: malformed or missing input") {
        String::from_str("VALIDATION_ERROR")
    } else if eq_message(message, "no data available in the requested range") || eq_message(
        message,
        "snapshots in range are insufficient to compute a return",
    ) {
        String::from_str("NO_DATA_ERROR")
    } else {
        String::from_str("UNKNOWN_ERROR")
    }
}

} // verus!
