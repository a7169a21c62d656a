//! The arguments of the command line, as they come from the interpreter
//! that proxies for the program.

use vstd::prelude::*;
use vstd::string::StringExecFns;
use crate::text::{has_prefix, starts_with, str_equal};

verus! {

/// The name of the file of a path, without its extension.
///
/// Trusted: `Path::file_stem` of the standard library; what a path is made
/// of depends on the platform, so nothing is claimed of the result.
#[verifier::external_body]
pub(crate) fn file_stem(path: &str) -> Option<String> {
    std::path::Path::new(path).file_stem().and_then(|s| s.to_str()).map(str::to_owned)
}

/// What the filter has kept of the arguments, and whether it skips the
/// argument that comes next.
pub struct Kept {
    pub arguments: Seq<Seq<char>>,
    pub skip_next: bool,
}

/// Whether an argument names the interpreter or the program itself.
pub open spec fn names_program(stem: Option<Seq<char>>) -> bool {
    match stem {
        Some(name) => has_prefix(name, "python"@) || name == "rt"@,
        None => false,
    }
}

/// The arguments after the first `n` were filtered. The first argument is
/// dropped, and so are `-m` and the argument behind it. Before anything else
/// is kept, arguments that name the interpreter or the program are dropped.
/// What is kept stands behind the name of the program.
pub open spec fn filtered(argv: Seq<Seq<char>>, stems: Seq<Option<Seq<char>>>, n: int) -> Kept
    decreases n,
{
    if n <= 0 {
        Kept { arguments: seq!["rt"@], skip_next: false }
    } else {
        let prev = filtered(argv, stems, n - 1);
        if n - 1 == 0 {
            prev
        } else if prev.skip_next {
            Kept { skip_next: false, ..prev }
        } else if argv[n - 1] == "-m"@ {
            Kept { skip_next: true, ..prev }
        } else if prev.arguments.len() == 1 && names_program(stems[n - 1]) {
            prev
        } else {
            Kept { arguments: prev.arguments.push(argv[n - 1]), ..prev }
        }
    }
}

/// The file names as plain values.
pub open spec fn stems_view(stems: Seq<Option<String>>) -> Seq<Option<Seq<char>>> {
    Seq::new(stems.len(), |i: int| crate::spec_tree::text_of(stems[i]))
}

/// Filters the arguments; `stems` gives for each argument the name of its
/// file, where it has one.
pub fn filter_cli_args(argv: &Vec<String>, stems: &Vec<Option<String>>) -> (r: Vec<String>)
    requires
        stems.len() == argv.len(),
    ensures
        r.deep_view() == filtered(argv.deep_view(), stems_view(stems@), argv.len() as int).arguments,
{
    let ghost all = argv.deep_view();
    let ghost names = stems_view(stems@);
    let mut kept: Vec<String> = Vec::new();
    kept.push(String::from_str("rt"));
    assert(kept.deep_view() =~= seq!["rt"@]);
    let mut skip_next = false;
    let mut i: usize = 0;
    while i < argv.len()
        invariant
            i <= argv.len(),
            stems.len() == argv.len(),
            all == argv.deep_view(),
            names == stems_view(stems@),
            kept.len() >= 1,
            (Kept { arguments: kept.deep_view(), skip_next }) == filtered(all, names, i as int),
        decreases argv.len() - i,
    {
        let ghost before = kept.deep_view();
        assert(names[i as int] == crate::spec_tree::text_of(stems[i as int]));
        assert(all[i as int] == argv[i as int]@);
        if i == 0 {
        } else if skip_next {
            skip_next = false;
        } else if str_equal(argv[i].as_str(), "-m") {
            skip_next = true;
        } else {
            let program = kept.len() == 1 && match &stems[i] {
                Some(name) => starts_with(name.as_str(), "python") || str_equal(
                    name.as_str(),
                    "rt",
                ),
                None => false,
            };
            if !program {
                kept.push(argv[i].clone());
                assert(kept.deep_view() =~= before.push(argv[i as int]@));
            }
        }
        i = i + 1;
    }
    kept
}

/// The arguments for the program among those of the interpreter.
pub fn prepare_cli_args(argv: &Vec<String>) -> (r: Vec<String>)
    ensures
        exists|stems: Seq<Option<Seq<char>>>|
            stems.len() == argv.len() && r.deep_view() == filtered(
                argv.deep_view(),
                stems,
                argv.len() as int,
            ).arguments,
{
    let mut stems: Vec<Option<String>> = Vec::new();
    let mut i: usize = 0;
    while i < argv.len()
        invariant
            i <= argv.len(),
            stems.len() == i,
        decreases argv.len() - i,
    {
        stems.push(file_stem(argv[i].as_str()));
        i = i + 1;
    }
    let r = filter_cli_args(argv, &stems);
    assert(stems_view(stems@).len() == argv.len());
    r
}

} // verus!
