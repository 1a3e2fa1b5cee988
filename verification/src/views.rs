use vstd::prelude::*;

verus! {

/// The characters a candidate address holds, if one is there.
pub open spec fn opt_str_view(o: Option<String>) -> Option<Seq<char>> {
    match o {
        Some(s) => Some(s@),
        None => None,
    }
}

/// Per-element views of a sequence of optional strings.
pub open spec fn opt_view_seq(s: Seq<Option<String>>) -> Seq<Option<Seq<char>>> {
    s.map_values(|o: Option<String>| opt_str_view(o))
}

} // verus!
