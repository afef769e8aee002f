//! Report formatting and the publish decision.
//!
//! On a changed frame with subjects, the dispatcher sends one report to the
//! transport: one line per subject, in registry order, each line of the form
//! `{identity}: Person {identity} - {confidence}%` with the confidence
//! printed to two decimal places. Lines are separated by a newline, with no
//! trailing newline. On a changed frame without subjects only a local notice
//! is due, and an unchanged frame does nothing observable.

use vstd::prelude::*;

use crate::detection::CONF_SCALE;
use crate::tracker::TrackedSubject;

verus! {

/// The character for one decimal digit.
pub open spec fn digit_char(d: int) -> char {
    if d == 0 {
        '0'
    } else if d == 1 {
        '1'
    } else if d == 2 {
        '2'
    } else if d == 3 {
        '3'
    } else if d == 4 {
        '4'
    } else if d == 5 {
        '5'
    } else if d == 6 {
        '6'
    } else if d == 7 {
        '7'
    } else if d == 8 {
        '8'
    } else {
        '9'
    }
}

/// Decimal digits of `n`, most significant first; a lone `0` for zero.
pub open spec fn spec_decimal(n: int) -> Seq<char>
    decreases n,
{
    if n < 10 {
        seq![digit_char(n)]
    } else {
        spec_decimal(n / 10).push(digit_char(n % 10))
    }
}

/// A confidence in hundredths of a percent, printed as a percentage with two
/// decimal places: `9312` prints as `93.12`.
pub open spec fn spec_percent(conf: int) -> Seq<char> {
    spec_decimal(conf / 100) + seq!['.', digit_char((conf % 100) / 10), digit_char(conf % 10)]
}

/// One report line for one subject.
pub open spec fn spec_report_line(s: TrackedSubject) -> Seq<char> {
    spec_decimal(s.identity as int) + ": Person "@ + spec_decimal(s.identity as int) + " - "@
        + spec_percent(s.conf as int) + "%"@
}

/// The report lines for the subjects from index `i` on, joined by newlines.
pub open spec fn spec_report_from(subjects: Seq<TrackedSubject>, i: int) -> Seq<char>
    decreases subjects.len() - i,
{
    if i < 0 || i >= subjects.len() {
        Seq::empty()
    } else if i == subjects.len() - 1 {
        spec_report_line(subjects[i])
    } else {
        spec_report_line(subjects[i]) + "\n"@ + spec_report_from(subjects, i + 1)
    }
}

/// The whole report: one line per subject, in registry order.
pub open spec fn spec_report(subjects: Seq<TrackedSubject>) -> Seq<char> {
    spec_report_from(subjects, 0)
}

/// The single character of one decimal digit.
fn digit_str(d: u64) -> (r: &'static str)
    requires
        d < 10,
    ensures
        r@ == seq![digit_char(d as int)],
{
    match d {
        0 => {
            proof {
                reveal_strlit("0");
                assert("0"@ =~= seq![digit_char(0)]);
            }
            "0"
        },
        1 => {
            proof {
                reveal_strlit("1");
                assert("1"@ =~= seq![digit_char(1)]);
            }
            "1"
        },
        2 => {
            proof {
                reveal_strlit("2");
                assert("2"@ =~= seq![digit_char(2)]);
            }
            "2"
        },
        3 => {
            proof {
                reveal_strlit("3");
                assert("3"@ =~= seq![digit_char(3)]);
            }
            "3"
        },
        4 => {
            proof {
                reveal_strlit("4");
                assert("4"@ =~= seq![digit_char(4)]);
            }
            "4"
        },
        5 => {
            proof {
                reveal_strlit("5");
                assert("5"@ =~= seq![digit_char(5)]);
            }
            "5"
        },
        6 => {
            proof {
                reveal_strlit("6");
                assert("6"@ =~= seq![digit_char(6)]);
            }
            "6"
        },
        7 => {
            proof {
                reveal_strlit("7");
                assert("7"@ =~= seq![digit_char(7)]);
            }
            "7"
        },
        8 => {
            proof {
                reveal_strlit("8");
                assert("8"@ =~= seq![digit_char(8)]);
            }
            "8"
        },
        _ => {
            proof {
                reveal_strlit("9");
                assert("9"@ =~= seq![digit_char(9)]);
            }
            "9"
        },
    }
}

/// `n` in decimal, as the surrounding program prints a bare subject count.
pub fn decimal_string(n: u64) -> (s: String)
    ensures
        s@ == spec_decimal(n as int),
    decreases n,
{
    if n < 10 {
        String::from_str(digit_str(n))
    } else {
        let mut s = decimal_string(n / 10);
        s.append(digit_str(n % 10));
        proof {
            assert(s@ =~= spec_decimal(n as int));
        }
        s
    }
}

/// A confidence as a two-decimal percentage string.
pub fn percent_string(conf: u32) -> (s: String)
    requires
        conf <= CONF_SCALE,
    ensures
        s@ == spec_percent(conf as int),
{
    let whole: u32 = conf / 100;
    let frac: u32 = conf % 100;
    let mut s = decimal_string(whole as u64);
    s.append(".");
    s.append(digit_str((frac / 10) as u64));
    s.append(digit_str((frac % 10) as u64));
    proof {
        reveal_strlit(".");
        assert("."@ =~= seq!['.']);
        assert(s@ =~= spec_percent(conf as int));
    }
    s
}

/// One report line for one subject.
pub fn report_line(s: &TrackedSubject) -> (r: String)
    requires
        s.conf <= CONF_SCALE,
    ensures
        r@ == spec_report_line(*s),
{
    let mut r = decimal_string(s.identity);
    r.append(": Person ");
    let id_again = decimal_string(s.identity);
    r.append(id_again.as_str());
    r.append(" - ");
    let pct = percent_string(s.conf);
    r.append(pct.as_str());
    r.append("%");
    proof {
        assert(r@ =~= spec_report_line(*s));
    }
    r
}

fn report_from(subjects: &Vec<TrackedSubject>, i: usize) -> (r: String)
    requires
        forall|k: int|
            0 <= k < subjects@.len() ==> (#[trigger] subjects@[k]).conf <= CONF_SCALE,
    ensures
        r@ == spec_report_from(subjects@, i as int),
    decreases subjects@.len() - i,
{
    let n = subjects.len();
    if i >= n {
        String::new()
    } else if i == n - 1 {
        report_line(&subjects[i])
    } else {
        let mut r = report_line(&subjects[i]);
        r.append("\n");
        let rest = report_from(subjects, i + 1);
        r.append(rest.as_str());
        proof {
            assert(r@ =~= spec_report_from(subjects@, i as int));
        }
        r
    }
}

/// The report for a changed, non-empty registry: one line per subject, in
/// registry order, lines separated by single newlines.
pub fn build_report(subjects: &Vec<TrackedSubject>) -> (r: String)
    requires
        forall|k: int|
            0 <= k < subjects@.len() ==> (#[trigger] subjects@[k]).conf <= CONF_SCALE,
    ensures
        r@ == spec_report(subjects@),
{
    report_from(subjects, 0)
}

/// What a frame's outcome obliges the dispatcher to do.
pub enum PublishAction {
    /// Hand this payload to the transport, once, without blocking the loop.
    Publish { payload: String },
    /// The scene changed to empty: a local notice only, no transport call.
    EmptyNotice,
    /// No change: nothing observable.
    Silent,
}

/// The change-gated publish decision: a report exactly on a change with a
/// non-empty registry, a local notice on a change to empty, nothing at all
/// when nothing changed.
pub fn decide_publish(changed: bool, subjects: &Vec<TrackedSubject>) -> (a: PublishAction)
    requires
        forall|k: int|
            0 <= k < subjects@.len() ==> (#[trigger] subjects@[k]).conf <= CONF_SCALE,
    ensures
        changed && subjects@.len() > 0 ==> (a matches PublishAction::Publish { payload }
            && payload@ == spec_report(subjects@)),
        changed && subjects@.len() == 0 ==> a == (PublishAction::EmptyNotice),
        !changed ==> a == (PublishAction::Silent),
{
    if changed {
        if subjects.len() > 0 {
            PublishAction::Publish { payload: build_report(subjects) }
        } else {
            PublishAction::EmptyNotice
        }
    } else {
        PublishAction::Silent
    }
}

} // verus!
