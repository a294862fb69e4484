//! Search filters, read only to recover the user identifier they ask for.

use vstd::prelude::*;

verus! {

/// A search filter. Only equality tests and the two connectives are looked
/// into; every other kind of node is `Unsupported`.
#[derive(Debug)]
pub enum SearchFilter {
    /// The attribute (first) equals the value (second).
    Equality(String, String),
    /// All of the children.
    And(Vec<SearchFilter>),
    /// Any of the children.
    Or(Vec<SearchFilter>),
    /// Negation, presence, substring, approximate match and anything else.
    Unsupported,
}

/// The text `%`, which stands for "no identifier recovered".
pub open spec fn sentinel() -> Seq<char> {
    seq!['%']
}

/// The identifier a filter asks for: the value of the first equality test on
/// `uid`, in depth-first order from the left, that is not the sentinel; the
/// sentinel where there is none.
pub open spec fn filter_uid(f: SearchFilter) -> Seq<char>
    decreases f, 0nat,
{
    match f {
        SearchFilter::Equality(attr, value) => if attr@ == "uid"@ {
            value@
        } else {
            sentinel()
        },
        SearchFilter::And(children) => children_uid(children, 0),
        SearchFilter::Or(children) => children_uid(children, 0),
        SearchFilter::Unsupported => sentinel(),
    }
}

/// The first identifier other than the sentinel among the children from
/// position `from` on; the sentinel where there is none.
pub open spec fn children_uid(children: Vec<SearchFilter>, from: nat) -> Seq<char>
    decreases children, children.len() - from,
{
    if from >= children.len() {
        sentinel()
    } else {
        let here = filter_uid(children[from as int]);
        if here != sentinel() {
            here
        } else {
            children_uid(children, from + 1)
        }
    }
}

/// Whether a text is the sentinel `%`.
pub fn is_sentinel(s: &String) -> (r: bool)
    ensures
        r == (s@ == sentinel()),
{
    let mark = String::from_str("%");
    proof {
        reveal_strlit("%");
        assert("%"@ =~= sentinel());
    }
    *s == mark
}

/// The first identifier that the children give, from the left.
fn first_child_uid(children: &Vec<SearchFilter>) -> (r: String)
    ensures
        r@ == children_uid(*children, 0),
    decreases children, 1nat,
{
    let mut i: usize = 0;
    while i < children.len()
        invariant
            i <= children.len(),
            children_uid(*children, 0) == children_uid(*children, i as nat),
        decreases children.len() - i,
    {
        let res = recurse_filters(&children[i]);
        if !is_sentinel(&res) {
            return res;
        }
        i += 1;
    }
    let none = String::from_str("%");
    proof {
        reveal_strlit("%");
        assert("%"@ =~= sentinel());
    }
    none
}

/// Recovers the user identifier that a filter asks for, or `%` where it asks
/// for none: the value of an equality test on `uid`; for a connective, the
/// first of its children's answers that is not `%`.
pub fn recurse_filters(fltr: &SearchFilter) -> (r: String)
    ensures
        r@ == filter_uid(*fltr),
    decreases fltr, 2nat,
{
    match fltr {
        SearchFilter::Equality(itm, uname) => {
            let uid = String::from_str("uid");
            if *itm == uid {
                return uname.clone();
            }
        },
        SearchFilter::And(fltrs) => {
            return first_child_uid(fltrs);
        },
        SearchFilter::Or(fltrs) => {
            return first_child_uid(fltrs);
        },
        SearchFilter::Unsupported => {},
    }
    let none = String::from_str("%");
    proof {
        reveal_strlit("%");
        assert("%"@ =~= sentinel());
    }
    none
}

} // verus!
