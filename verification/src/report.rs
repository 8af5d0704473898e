//! Lines that the services write to their logs.

use vstd::prelude::*;
use crate::text::owned;

verus! {

/// The trade-log line `"[<time>] <message>\n"`.
pub open spec fn spec_log_entry(time: Seq<char>, message: Seq<char>) -> Seq<char> {
    seq!['['] + time + seq![']', ' '] + message + seq!['\n']
}

/// The line appended to the trade log for `message` at `time`.
pub fn log_entry(time: &str, message: &str) -> (r: String)
    ensures
        r@ == spec_log_entry(time@, message@),
{
    let mut r: String = owned("[");
    r.append(time);
    r.append("] ");
    r.append(message);
    r.append("\n");
    proof {
        reveal_strlit("[");
        reveal_strlit("] ");
        reveal_strlit("\n");
        assert(r@ =~= spec_log_entry(time@, message@));
    }
    r
}

} // verus!
