//! Argument handling of the command-line trigger.
use vstd::prelude::*;

use crate::text::str_eq;
use crate::validator::views;

verus! {

/// The arguments that follow the first `--`; none if there is no `--`.
pub open spec fn after_separator(args: Seq<Seq<char>>) -> Seq<Seq<char>> {
    if exists|i: int| 0 <= i < args.len() && args[i] == "--"@ {
        let i = choose|i: int| 0 <= i < args.len() && args[i] == "--"@ && forall|j: int| 0 <= j < i ==> args[j] != "--"@;
        args.subrange(i + 1, args.len() as int)
    } else {
        Seq::empty()
    }
}

fn find_separator(args: &Vec<String>) -> (r: Option<usize>)
    ensures
        r is Some ==> r->Some_0 < args.len() && views(*args)[r->Some_0 as int] == "--"@ && forall|j: int|
            0 <= j < r->Some_0 ==> views(*args)[j] != "--"@,
        r is None ==> forall|j: int| 0 <= j < args.len() ==> views(*args)[j] != "--"@,
{
    let ghost a = views(*args);
    let mut k: usize = 0;
    while k < args.len()
        invariant
            a == views(*args),
            k <= args.len(),
            forall|j: int| 0 <= j < k ==> a[j] != "--"@,
        decreases args.len() - k,
    {
        if str_eq(args[k].as_str(), "--") {
            return Some(k);
        }
        k = k + 1;
    }
    None
}

/// The arguments handed to a command-line operation: the application's name, then the
/// process arguments that follow the first `--`.
pub fn cli_args(args: Vec<String>, name: String) -> (r: Vec<String>)
    ensures
        views(r) == seq![name@] + after_separator(views(args)),
{
    let ghost a = views(args);
    let sep = find_separator(&args);
    proof { reveal_strlit("--"); }
    let mut r: Vec<String> = Vec::new();
    r.push(name);
    if let Some(k) = sep {
        proof {
            let i = choose|i: int| 0 <= i < a.len() && a[i] == "--"@ && forall|j: int| 0 <= j < i ==> a[j] != "--"@;
            assert(i == k as int) by {
                if i < k as int {
                } else if i > k as int {
                }
            }
        }
        let mut args = args;
        let mut rest = args.split_off(k + 1);
        assert(views(rest) =~= a.subrange(k + 1, a.len() as int));
        r.append(&mut rest);
        assert(views(r) =~= seq![name@] + after_separator(a));
    } else {
        assert(views(r) =~= seq![name@] + after_separator(a));
    }
    r
}

} // verus!
