//! Diagnostic rendering: the line of spaces and carets that, printed under
//! the offending input line, underlines exactly the bytes a range covers.

use crate::annot::Loc;
use vstd::prelude::*;
use vstd::string::StringExecFns;

verus! {

/// `loc.0` spaces followed by `loc.1 - loc.0` carets.
pub open spec fn spec_marker_line(loc: Loc) -> Seq<char> {
    Seq::new(loc.0 as nat, |i: int| ' ') + Seq::new((loc.1 - loc.0) as nat, |i: int| '^')
}

/// The caret line that underlines `loc` when printed beneath the input line:
/// as many spaces as bytes before the range, then one caret per byte of it.
pub fn marker_line(loc: Loc) -> (r: String)
    requires
        loc.wf(),
    ensures
        r@ == spec_marker_line(loc),
{
    let mut s = String::new();
    proof {
        reveal_strlit(" ");
        reveal_strlit("^");
    }
    let mut i: usize = 0;
    while i < loc.0
        invariant
            i <= loc.0,
            s@ =~= Seq::new(i as nat, |j: int| ' '),
            " "@ =~= seq![' '],
            "^"@ =~= seq!['^'],
        decreases loc.0 - i,
    {
        s.append(" ");
        i = i + 1;
        proof {
            assert(s@ =~= Seq::new(i as nat, |j: int| ' '));
        }
    }
    let mut k: usize = 0;
    while k < loc.1 - loc.0
        invariant
            loc.wf(),
            k <= loc.1 - loc.0,
            s@ =~= Seq::new(loc.0 as nat, |j: int| ' ') + Seq::new(k as nat, |j: int| '^'),
            " "@ =~= seq![' '],
            "^"@ =~= seq!['^'],
        decreases loc.1 - loc.0 - k,
    {
        s.append("^");
        k = k + 1;
        proof {
            assert(s@ =~= Seq::new(loc.0 as nat, |j: int| ' ') + Seq::new(k as nat, |j: int| '^'));
        }
    }
    proof {
        assert(s@ =~= spec_marker_line(loc));
    }
    s
}

} // verus!
