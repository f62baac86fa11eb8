//! The lines of a sample log, of as many lines as are asked for.

use crate::numbers::{decimal, digits};
use vstd::prelude::*;

verus! {

/// Line `i` of the sample log, counted from one: mostly information, a warning
/// now and then, and an error more rarely.
pub open spec fn log_text(i: int) -> Seq<char> {
    "Line "@ + digits(i) + if i % 10000 == 0 {
        ": [ERROR] Something went wrong! Code: "@ + digits(i * 3)
    } else if i % 2500 == 0 {
        ": [WARN] High memory usage detected."@
    } else {
        ": [INFO] Application is running smoothly. User session active."@
    }
}

/// Line `i` of the sample log, counted from one.
pub fn log_line(i: usize) -> (line: String)
    ensures
        line@ == log_text(i as int),
{
    let mut line = "Line ".to_owned();
    line.append(decimal(i as u128).as_str());
    if i % 10000 == 0 {
        line.append(": [ERROR] Something went wrong! Code: ");
        line.append(decimal(i as u128 * 3).as_str());
    } else if i % 2500 == 0 {
        line.append(": [WARN] High memory usage detected.");
    } else {
        line.append(": [INFO] Application is running smoothly. User session active.");
    }
    assert(line@ =~= log_text(i as int));
    line
}

/// Every line of the sample log says its number. Each ten thousandth is an error
/// with three times that number as its code, each other one whose number 2500
/// divides a warning, and all the rest are information.
pub proof fn law_sample_log(i: int)
    requires
        0 < i,
    ensures
        ("Line "@ + digits(i) + ": ["@).is_prefix_of(log_text(i)),
        i % 10000 == 0 ==> log_text(i) == "Line "@ + digits(i)
            + ": [ERROR] Something went wrong! Code: "@ + digits(3 * i),
        i % 2500 == 0 && i % 10000 != 0 ==> log_text(i) == "Line "@ + digits(i)
            + ": [WARN] High memory usage detected."@,
        i % 2500 != 0 ==> log_text(i) == "Line "@ + digits(i)
            + ": [INFO] Application is running smoothly. User session active."@,
{
    reveal_strlit(": [");
    reveal_strlit(": [ERROR] Something went wrong! Code: ");
    reveal_strlit(": [WARN] High memory usage detected.");
    reveal_strlit(": [INFO] Application is running smoothly. User session active.");
    let start = "Line "@ + digits(i) + ": ["@;
    assert(start =~= log_text(i).take(start.len() as int));
    assert(i * 3 == 3 * i);
    assert("Line "@ + digits(i) + ": [ERROR] Something went wrong! Code: "@ + digits(3 * i)
        =~= "Line "@ + digits(i) + (": [ERROR] Something went wrong! Code: "@ + digits(3 * i)));
}

} // verus!
