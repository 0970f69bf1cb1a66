//! The window resolver: a named preset or explicit range, clipped to the
//! dates actually observed.
//!
//! `to` is the explicit value clipped to not exceed the latest observed
//! date (failing with `NoData` when the clipped `to` precedes the earliest
//! one). `from` is computed per preset — `ytd` is January 1 of `to`'s year,
//! `1y`/`3y` move back 365/1095 days, `since_inception` is the earliest
//! observation, `custom` requires an explicit `from` — and then clipped to
//! not precede the earliest date. `from` after `to` is a validation error.

use vstd::prelude::*;

use crate::date::{parse_iso_spec, parse_iso_date, days_before_year, year_of_day, Date,
    lemma_year_of_day, lemma_day_number_range};
use crate::error::EngineError;
use crate::text::{chars_eq_str, chars_to_string, lower_chars, lower_of, str_chars, str_eq,
    trim_chars, trim_of};

verus! {

/// A resolved date window. Invariant: `effective_from <= effective_to`,
/// both within the observed `[earliest, latest]` range.
#[derive(Clone, Copy, Debug, PartialEq, Eq, Structural)]
pub struct Window {
    pub requested_from: Date,
    pub effective_from: Date,
    pub effective_to: Date,
    pub latest: Date,
}

pub open spec fn is_preset_token(t: Seq<char>) -> bool {
    t == "ytd"@ || t == "1y"@ || t == "3y"@ || t == "since_inception"@ || t == "custom"@
}

/// The preset text a request resolves to: the trimmed, lower-cased input,
/// or the default where the input is absent or blank.
pub open spec fn chosen_preset_text(raw: Option<Seq<char>>, default: Seq<char>) -> Seq<char> {
    let base = match raw {
        Some(s) => s,
        None => default,
    };
    let t = lower_of(trim_of(base));
    if t.len() == 0 {
        default
    } else {
        t
    }
}

/// Parse a preset token, substituting `default_preset` for an absent or
/// blank value. Unknown tokens are a validation error.
pub fn parse_preset_with_default(raw: Option<&str>, default_preset: &str) -> (r: Result<
    String,
    EngineError,
>)
    ensures
        r matches Ok(p) ==> p@ == chosen_preset_text(
            match raw {
                Some(s) => Some(s@),
                None => None,
            },
            default_preset@,
        ) && is_preset_token(p@),
        r is Err <==> !is_preset_token(
            chosen_preset_text(
                match raw {
                    Some(s) => Some(s@),
                    None => None,
                },
                default_preset@,
            ),
        ),
        r matches Err(e) ==> e == EngineError::Validation,
{
    let base: &str = match raw {
        Some(s) => s,
        None => default_preset,
    };
    let cs = str_chars(base);
    let trimmed = trim_chars(&cs);
    let t = lower_chars(&trimmed);
    if t.len() == 0 {
        let d = str_chars(default_preset);
        if check_preset_chars(&d) {
            Ok(chars_to_string(&d))
        } else {
            Err(EngineError::Validation)
        }
    } else {
        if check_preset_chars(&t) {
            Ok(chars_to_string(&t))
        } else {
            Err(EngineError::Validation)
        }
    }
}

/// Parse a preset token with the engine's standard default of `ytd`.
pub fn parse_preset(raw: Option<&str>) -> (r: Result<String, EngineError>)
    ensures
        r matches Ok(p) ==> p@ == chosen_preset_text(
            match raw {
                Some(s) => Some(s@),
                None => None,
            },
            "ytd"@,
        ) && is_preset_token(p@),
        r is Err <==> !is_preset_token(
            chosen_preset_text(
                match raw {
                    Some(s) => Some(s@),
                    None => None,
                },
                "ytd"@,
            ),
        ),
        r matches Err(e) ==> e == EngineError::Validation,
{
    parse_preset_with_default(raw, "ytd")
}

fn check_preset_chars(t: &Vec<char>) -> (r: bool)
    ensures
        r == is_preset_token(t@),
{
    chars_eq_str(t, "ytd") || chars_eq_str(t, "1y") || chars_eq_str(t, "3y") || chars_eq_str(
        t,
        "since_inception",
    ) || chars_eq_str(t, "custom")
}

/// The requested `from` day for a preset, given the effective `to` day and
/// the earliest observation; `None` means the preset (or its explicit
/// `from` text) is invalid.
pub open spec fn requested_from_spec(
    preset: Seq<char>,
    from_raw: Seq<char>,
    earliest_day: int,
    eff_to_day: int,
) -> Option<int> {
    if preset == "custom"@ {
        parse_iso_spec(from_raw)
    } else if preset == "ytd"@ {
        Some(days_before_year(year_of_day(eff_to_day)))
    } else if preset == "1y"@ {
        Some(
            if eff_to_day - 365 >= 0 {
                eff_to_day - 365
            } else {
                0
            },
        )
    } else if preset == "3y"@ {
        Some(
            if eff_to_day - 1095 >= 0 {
                eff_to_day - 1095
            } else {
                0
            },
        )
    } else if preset == "since_inception"@ {
        Some(earliest_day)
    } else {
        None
    }
}

/// The full window resolution, as one deterministic function of the
/// request text and the observed date bounds.
pub open spec fn resolve_window_spec(
    preset: Seq<char>,
    from_raw: Seq<char>,
    to_raw: Seq<char>,
    earliest: Date,
    latest: Date,
) -> Result<Window, EngineError> {
    if latest.days < earliest.days {
        Err(EngineError::NoData)
    } else {
        let req_to = if trim_of(to_raw).len() == 0 {
            Some(latest.days as int)
        } else {
            parse_iso_spec(to_raw)
        };
        match req_to {
            None => Err(EngineError::Validation),
            Some(rt) => {
                let eff_to = if rt < latest.days {
                    rt
                } else {
                    latest.days as int
                };
                if eff_to < earliest.days {
                    Err(EngineError::NoData)
                } else {
                    match requested_from_spec(preset, from_raw, earliest.days as int, eff_to) {
                        None => Err(EngineError::Validation),
                        Some(rf) => {
                            let eff_from = if rf > earliest.days {
                                rf
                            } else {
                                earliest.days as int
                            };
                            if eff_from > eff_to {
                                Err(EngineError::Validation)
                            } else {
                                Ok(
                                    Window {
                                        requested_from: Date { days: rf as i64 },
                                        effective_from: Date { days: eff_from as i64 },
                                        effective_to: Date { days: eff_to as i64 },
                                        latest,
                                    },
                                )
                            }
                        },
                    }
                }
            },
        }
    }
}

/// Resolve a preset or explicit range into an effective window, clipped to
/// the observed `[earliest, latest]` bounds.
pub fn resolve_window(
    preset: &str,
    from_raw: &str,
    to_raw: &str,
    earliest: Date,
    latest: Date,
) -> (r: Result<Window, EngineError>)
    requires
        earliest.wf(),
        latest.wf(),
    ensures
        r == resolve_window_spec(preset@, from_raw@, to_raw@, earliest, latest),
        r matches Ok(w) ==> w.requested_from.wf() && w.effective_from.wf() && w.effective_to.wf()
            && w.latest == latest && earliest.days <= w.effective_from.days <= w.effective_to.days
            <= latest.days,
{
    if latest.days < earliest.days {
        return Err(EngineError::NoData);
    }
    let to_cs = str_chars(to_raw);
    let to_trimmed = trim_chars(&to_cs);
    let requested_to: Date = if to_trimmed.len() == 0 {
        latest
    } else {
        match parse_iso_date(to_raw) {
            Ok(d) => d,
            Err(e) => {
                return Err(e);
            },
        }
    };
    let effective_to: Date = if requested_to.days < latest.days {
        requested_to
    } else {
        latest
    };
    if effective_to.days < earliest.days {
        return Err(EngineError::NoData);
    }

    let requested_from: Date = if str_eq(preset, "custom") {
        match parse_iso_date(from_raw) {
            Ok(d) => d,
            Err(e) => {
                return Err(e);
            },
        }
    } else if str_eq(preset, "ytd") {
        let y = effective_to.year();
        let jan1 = Date::jan1(y);
        proof {
            lemma_year_of_day(effective_to.days as int);
        }
        jan1
    } else if str_eq(preset, "1y") {
        effective_to.minus_days_clamped(365)
    } else if str_eq(preset, "3y") {
        effective_to.minus_days_clamped(1095)
    } else if str_eq(preset, "since_inception") {
        earliest
    } else {
        return Err(EngineError::Validation);
    };

    let effective_from: Date = if requested_from.days > earliest.days {
        requested_from
    } else {
        earliest
    };
    if effective_from.days > effective_to.days {
        return Err(EngineError::Validation);
    }
    Ok(Window { requested_from, effective_from, effective_to, latest })
}

} // verus!
