//! Selection of the C structures whose Rust bindings get a conversion from
//! raw bytes: those named `_data_...`.
use vstd::prelude::*;

verus! {

/// The types that the bindings are generated for.
pub const DATA_TYPE_PATTERN: &'static str = "_data_[^{}]*";

/// A C structure definition with a name of that shape; its first group is
/// the name.
pub const DATA_STRUCT_PATTERN: &'static str = "struct (_data_[^{}]*) \\{";

/// The first group of each successive non-overlapping match of `pattern` in
/// `text`, or `None` where `pattern` is not a valid regular expression.
pub uninterp spec fn first_groups_of(pattern: Seq<char>, text: Seq<char>) -> Option<
    Seq<Seq<char>>,
>;

/// Relies on `regex::Regex::new` and `regex::Regex::captures_iter`: the
/// first group of every match, in order, where the pattern compiles.
#[verifier::external_body]
fn first_groups(pattern: &str, text: &str) -> (r: Option<Vec<String>>)
    ensures
        r is None <==> first_groups_of(pattern@, text@) is None,
        r matches Some(v) ==> first_groups_of(pattern@, text@) == Some(
            v@.map_values(|s: String| s@),
        ),
{
    let re = regex::Regex::new(pattern).ok()?;
    Some(
        re.captures_iter(text).map(
            |c| c.get(1).map_or(String::new(), |m| m.as_str().to_string()),
        ).collect(),
    )
}

/// The names of the `_data_` structures that `code` defines, in order.
pub fn data_type_names(code: &str) -> (r: Vec<String>)
    ensures
        first_groups_of(DATA_STRUCT_PATTERN@, code@) matches Some(g) ==> r@.map_values(
            |s: String| s@,
        ) == g,
        first_groups_of(DATA_STRUCT_PATTERN@, code@) is None ==> r@.len() == 0,
{
    match first_groups(DATA_STRUCT_PATTERN, code) {
        Some(names) => names,
        None => Vec::new(),
    }
}

/// The pieces of the conversion from raw bytes given to a `_data_`
/// structure, around the three places that hold its name.
pub const IMPL_HEAD: &'static str = "\nimpl<'a> From<&'a [u8]> for ";

pub const IMPL_FN: &'static str = " {\n    fn from(x: &'a [u8]) -> ";

pub const IMPL_READ: &'static str = " {\n        unsafe { std::ptr::read(x.as_ptr() as *const ";

pub const IMPL_TAIL: &'static str = ") }\n    }\n}\n";

/// The conversion from raw bytes for the structure `name`: it reads the
/// structure out of the start of the bytes.
pub fn from_bytes_impl(name: &str) -> (r: String)
    ensures
        r@ == IMPL_HEAD@ + name@ + IMPL_FN@ + name@ + IMPL_READ@ + name@ + IMPL_TAIL@,
{
    String::from_str(IMPL_HEAD).concat(name).concat(IMPL_FN).concat(name).concat(IMPL_READ).concat(
        name,
    ).concat(IMPL_TAIL)
}

} // verus!
