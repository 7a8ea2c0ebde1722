use vstd::prelude::*;
use vstd::string::StringExecFns;

verus! {

/// The sequence of `n` spaces.
pub open spec fn spaces(n: nat) -> Seq<char> {
    Seq::new(n, |_i: int| ' ')
}

/// Creates the indentation for nesting level `indent`, `inc` spaces per level.
pub fn padding(indent: usize, inc: usize) -> (r: String)
    requires
        indent * inc <= usize::MAX,
    ensures
        r@ == spaces((indent * inc) as nat),
{
    let size: usize = indent * inc;
    let mut buf = String::new();
    let mut i: usize = 0;
    while i < size
        invariant
            i <= size,
            buf@ == spaces(i as nat),
        decreases size - i,
    {
        buf.append(" ");
        proof {
            reveal_strlit(" ");
        }
        assert(buf@ =~= spaces((i + 1) as nat));
        i = i + 1;
    }
    buf
}

} // verus!
