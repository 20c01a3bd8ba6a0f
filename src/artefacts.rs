//! Names of the files that building a probe source produces.
use vstd::prelude::*;

verus! {

#[verifier::external_type_specification]
#[verifier::external_body]
pub struct ExIoError(std::io::Error);

/// Why building a probe failed.
#[derive(Debug)]
pub enum Error {
    OSUnsupported,
    KernelHeadersNotFound,
    InvalidOutput,
    Compile,
    Link,
    IO(std::io::Error),
}

impl From<std::io::Error> for Error {
    fn from(e: std::io::Error) -> (r: Error) {
        Error::IO(e)
    }
}

impl vstd::std_specs::convert::FromSpecImpl<std::io::Error> for Error {
    open spec fn obeys_from_spec() -> bool {
        true
    }

    open spec fn from_spec(e: std::io::Error) -> Error {
        Error::IO(e)
    }
}

/// The stem of the last component of a path (its name without the final
/// extension), where it has one.
pub uninterp spec fn file_stem_of(path: Seq<char>) -> Option<Seq<char>>;

/// The path `name` taken relative to `base`, with Unix separators: an
/// absolute `name` replaces `base`; otherwise `name` follows `base`, with a
/// `/` between them where `base` is not empty and does not end in one.
pub open spec fn joined_path(base: Seq<char>, name: Seq<char>) -> Seq<char> {
    if name.len() > 0 && name[0] == '/' {
        name
    } else if base.len() == 0 || base.last() == '/' {
        base + name
    } else {
        base + seq!['/'] + name
    }
}

/// Relies on `std::path::Path::file_stem`: the stem of the file name, or none
/// where the path has no file name. The input is UTF-8, so is the stem.
#[verifier::external_body]
fn file_stem(path: &str) -> (r: Option<String>)
    ensures
        r is None <==> file_stem_of(path@) is None,
        r matches Some(s) ==> file_stem_of(path@) == Some(s@),
{
    std::path::Path::new(path).file_stem().map(|s| s.to_string_lossy().into_owned())
}

/// Relies on `std::path::Path::join` (through `PathBuf::push`): `name`
/// appended to `base` as a further component, or replacing it where `name` is
/// absolute.
#[verifier::external_body]
fn join_path(base: &str, name: &str) -> (r: String)
    ensures
        r@ == joined_path(base@, name@),
{
    std::path::Path::new(base).join(name).to_string_lossy().into_owned()
}

/// The file `<stem><suffix>` in `out_dir`, where `source` has a stem.
fn target_in(out_dir: &str, source: &str, suffix: &str) -> (r: Option<String>)
    ensures
        file_stem_of(source@) is None ==> r is None,
        file_stem_of(source@) matches Some(stem) ==> (r matches Some(t) && t@ == joined_path(
            out_dir@,
            stem + suffix@,
        )),
{
    match file_stem(source) {
        Some(stem) => {
            let name = stem.concat(suffix);
            Some(join_path(out_dir, name.as_str()))
        },
        None => None,
    }
}

/// The object file that compiling `source` produces in `out_dir`.
pub fn compile_target(out_dir: &str, source: &str) -> (r: Option<String>)
    ensures
        file_stem_of(source@) is None ==> r is None,
        file_stem_of(source@) matches Some(stem) ==> (r matches Some(t) && t@ == joined_path(
            out_dir@,
            stem + seq!['.', 'o', 'b', 'j'],
        )),
{
    proof {
        reveal_strlit(".obj");
        assert(".obj"@ =~= seq!['.', 'o', 'b', 'j']);
    }
    target_in(out_dir, source, ".obj")
}

/// The ELF file that linking the object of `source` produces in `out_dir`.
pub fn link_target(out_dir: &str, source: &str) -> (r: Option<String>)
    ensures
        file_stem_of(source@) is None ==> r is None,
        file_stem_of(source@) matches Some(stem) ==> (r matches Some(t) && t@ == joined_path(
            out_dir@,
            stem + seq!['.', 'e', 'l', 'f'],
        )),
{
    proof {
        reveal_strlit(".elf");
        assert(".elf"@ =~= seq!['.', 'e', 'l', 'f']);
    }
    target_in(out_dir, source, ".elf")
}

} // verus!
