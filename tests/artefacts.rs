use redbpf::artefacts::{compile_target, link_target};
use redbpf::bindings::data_type_names;

#[test]
fn targets_are_named_after_the_source_stem() {
    assert_eq!(compile_target("/out", "bpf/probe.c"), Some("/out/probe.obj".to_string()));
    assert_eq!(link_target("/out", "bpf/probe.c"), Some("/out/probe.elf".to_string()));
    assert_eq!(link_target("/out/", "probe"), Some("/out/probe.elf".to_string()));
    assert_eq!(compile_target("/out", "/"), None);
}

#[test]
fn data_structures_are_found_in_order() {
    let code = "struct _data_a {\n};\nstruct other {\n};\nstruct _data_event {\n};";
    assert_eq!(data_type_names(code), vec!["_data_a".to_string(), "_data_event".to_string()]);
    assert!(data_type_names("struct x {};").is_empty());
}

#[test]
fn targets_join_relative_and_absolute_directories() {
    assert_eq!(compile_target("out", "a.b.c"), Some("out/a.b.obj".to_string()));
    assert_eq!(compile_target("", "x.c"), Some("x.obj".to_string()));
}

#[test]
fn conversion_impl_names_the_structure() {
    let code = redbpf::bindings::from_bytes_impl("_data_ev");
    assert_eq!(
        code,
        "\nimpl<'a> From<&'a [u8]> for _data_ev {\n    fn from(x: &'a [u8]) -> _data_ev {\n        unsafe { std::ptr::read(x.as_ptr() as *const _data_ev) }\n    }\n}\n"
    );
}
