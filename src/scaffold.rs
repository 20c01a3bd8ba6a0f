//! Decisions taken when a program is added to an eBPF package: which crate
//! the program belongs to, whether its name is free, and where its source
//! goes. Reading and rewriting the package's manifest is the caller's.
use vstd::prelude::*;

verus! {

/// A command failed, with the message to show.
#[derive(Debug)]
pub struct CommandError(pub String);

/// Where a new program stands in its package.
#[derive(Debug)]
pub struct ProgramPlan {
    /// The crate that the program's shared types come from.
    pub crate_name: String,
    /// The path of the program's entry point.
    pub path: String,
}

pub open spec fn invalid_manifest_message() -> Seq<char> {
    "invalid manifest syntax"@
}

pub open spec fn duplicate_message(name: Seq<char>) -> Seq<char> {
    "a program named `"@ + name + "' already exists"@
}

pub open spec fn program_path(name: Seq<char>) -> Seq<char> {
    "src/"@ + name + "/main.rs"@
}

/// Some program target is named `name`.
pub open spec fn has_program(bins: Seq<Option<String>>, name: Seq<char>) -> bool {
    exists|i: int| 0 <= i < bins.len() && (#[trigger] bins[i] matches Some(s) && s@ == name)
}

/// The library's name where the manifest gives one, else the package's.
pub open spec fn chosen_crate_name(lib_name: Option<&str>, package_name: Option<&str>) -> Seq<char> {
    match lib_name {
        Some(l) => l@,
        None => match package_name {
            Some(p) => p@,
            None => Seq::empty(),
        },
    }
}

/// Whether two strings hold the same characters.
fn same_text(a: &str, b: &str) -> (r: bool)
    ensures
        r == (a@ == b@),
{
    let n = a.unicode_len();
    if n != b.unicode_len() {
        return false;
    }
    let mut i: usize = 0;
    while i < n
        invariant
            i <= n == a@.len() == b@.len(),
            forall|j: int| 0 <= j < i ==> a@[j] == b@[j],
        decreases n - i,
    {
        if a.get_char(i) != b.get_char(i) {
            return false;
        }
        i = i + 1;
    }
    assert(a@ =~= b@);
    true
}

/// Plans a new program `name` for a package whose manifest names its library
/// `lib_name` and its package `package_name` (where it does), and whose
/// program targets are named as `bins` lists them; `bins` is `None` where the
/// manifest's program entry is not a list of targets.
pub fn plan_program(
    lib_name: Option<&str>,
    package_name: Option<&str>,
    bins: Option<&Vec<Option<String>>>,
    name: &str,
) -> (r: Result<ProgramPlan, CommandError>)
    ensures
        lib_name is None && package_name is None ==> (r matches Err(e) && e.0@
            == invalid_manifest_message()),
        !(lib_name is None && package_name is None) && bins is None ==> (r matches Err(e) && e.0@
            == invalid_manifest_message()),
        !(lib_name is None && package_name is None) && bins is Some && has_program(
            bins->Some_0@,
            name@,
        ) ==> (r matches Err(e) && e.0@ == duplicate_message(name@)),
        !(lib_name is None && package_name is None) && bins is Some && !has_program(
            bins->Some_0@,
            name@,
        ) ==> (r matches Ok(p) && p.path@ == program_path(name@) && p.crate_name@
            == chosen_crate_name(lib_name, package_name)),
{
    let crate_name = match lib_name {
        Some(l) => l,
        None => match package_name {
            Some(p) => p,
            None => {
                return Err(CommandError(String::from_str("invalid manifest syntax")));
            },
        },
    };
    let targets = match bins {
        Some(b) => b,
        None => {
            return Err(CommandError(String::from_str("invalid manifest syntax")));
        },
    };
    let mut i: usize = 0;
    while i < targets.len()
        invariant
            i <= targets@.len(),
            !(lib_name is None && package_name is None),
            bins == Some(targets),
            !has_program(targets@.subrange(0, i as int), name@),
        decreases targets@.len() - i,
    {
        let taken = match &targets[i] {
            Some(s) => same_text(s.as_str(), name),
            None => false,
        };
        if taken {
            assert(targets@[i as int] matches Some(s) && s@ == name@);
            let msg = String::from_str("a program named `").concat(name).concat(
                "' already exists",
            );
            return Err(CommandError(msg));
        }
        proof {
            assert forall|j: int| 0 <= j < i + 1 implies !(#[trigger] targets@.subrange(
                0,
                i + 1,
            )[j] matches Some(s) && s@ == name@) by {
                if j < i {
                    assert(targets@.subrange(0, i + 1)[j] == targets@.subrange(0, i as int)[j]);
                }
            }
        }
        i = i + 1;
    }
    assert(targets@.subrange(0, targets@.len() as int) =~= targets@);
    let path = String::from_str("src/").concat(name).concat("/main.rs");
    Ok(ProgramPlan { crate_name: String::from_str(crate_name), path })
}

} // verus!
