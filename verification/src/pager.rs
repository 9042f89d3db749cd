//! The program that dumps are opened with.

use vstd::prelude::*;

verus! {

/// The pager, given which ones there are: `jless`, else `less`, else none.
pub open spec fn pager_of(jless: bool, less: bool) -> Option<Seq<char>> {
    if jless {
        Some("jless"@)
    } else if less {
        Some("less"@)
    } else {
        None
    }
}

/// The pager, given which ones there are.
pub fn choose_pager(jless: bool, less: bool) -> (pager: Option<&'static str>)
    ensures
        match pager {
            Some(name) => pager_of(jless, less) == Some(name@),
            None => pager_of(jless, less) is None,
        },
{
    if jless {
        Some("jless")
    } else if less {
        Some("less")
    } else {
        None
    }
}

/// The pager, given which ones there are; `cat` where there is none.
pub fn pager_or_cat(jless: bool, less: bool) -> (pager: &'static str)
    ensures
        pager@ == match pager_of(jless, less) {
            Some(name) => name,
            None => "cat"@,
        },
{
    match choose_pager(jless, less) {
        Some(name) => name,
        None => "cat",
    }
}

/// A pager is used only where it is there, `jless` before `less`; without either
/// there is none, and `cat` takes its place in the short list.
pub proof fn law_pagers(jless: bool, less: bool, pager: Option<&'static str>, name: &'static str)
    requires
        call_ensures(choose_pager, (jless, less), pager),
        call_ensures(pager_or_cat, (jless, less), name),
    ensures
        jless ==> pager is Some && pager->0@ == "jless"@ && name@ == "jless"@,
        !jless && less ==> pager is Some && pager->0@ == "less"@ && name@ == "less"@,
        !jless && !less ==> pager is None && name@ == "cat"@,
{
}

} // verus!
